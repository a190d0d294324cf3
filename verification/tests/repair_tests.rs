use cyber_ytdl::guard::TaskGuard;
use cyber_ytdl::repair::{
    admit_repair, plan_repair, repair_final_sample, repair_outcome, ComponentSet, RepairError,
};

#[test]
fn complete_set_needs_no_steps() {
    let cs = ComponentSet { yt_dlp: true, ffmpeg: true, deno: true };
    assert!(cs.is_complete());
    let plan = plan_repair(&cs);
    assert!(plan.is_empty());
    assert_eq!(repair_outcome(&cs), Ok(()));
}

#[test]
fn missing_components_get_ordered_disjoint_ranges() {
    let cs = ComponentSet { yt_dlp: false, ffmpeg: false, deno: false };
    let plan = plan_repair(&cs);
    assert_eq!(plan.len(), 3);

    assert_eq!(plan[0].file_name, "yt-dlp.exe");
    assert!(plan[0].url.contains("yt-dlp/yt-dlp/releases"));
    assert_eq!((plan[0].base_pm, plan[0].max_pm), (0, 300));
    assert!(!plan[0].archive);

    assert_eq!(plan[1].file_name, "ffmpeg.zip");
    assert!(plan[1].url.contains("FFmpeg-Builds"));
    assert_eq!((plan[1].base_pm, plan[1].max_pm), (300, 800));
    assert!(plan[1].archive);

    assert_eq!(plan[2].file_name, "deno.zip");
    assert!(plan[2].url.contains("denoland/deno"));
    assert_eq!((plan[2].base_pm, plan[2].max_pm), (800, 950));
    assert!(plan[2].archive);
}

#[test]
fn only_the_missing_component_is_planned() {
    let cs = ComponentSet { yt_dlp: true, ffmpeg: false, deno: true };
    let plan = plan_repair(&cs);
    assert_eq!(plan.len(), 1);
    assert_eq!(plan[0].file_name, "ffmpeg.zip");
}

#[test]
fn missing_names_in_fixed_order() {
    let cs = ComponentSet { yt_dlp: false, ffmpeg: true, deno: false };
    let names = cs.missing_names();
    assert_eq!(names, vec!["yt-dlp.exe", "deno.exe"]);
}

#[test]
fn incomplete_result_is_a_partial_repair() {
    let cs = ComponentSet { yt_dlp: true, ffmpeg: true, deno: false };
    assert_eq!(repair_outcome(&cs), Err(RepairError::PartialRepair));
}

#[test]
fn final_progress_event_for_each_outcome() {
    let done = repair_final_sample(true);
    assert_eq!(done.permille, 1000);
    assert_eq!(done.speed, "Done");
    assert_eq!(done.eta, "00:00");

    let reset = repair_final_sample(false);
    assert_eq!(reset.permille, 0);
    assert_eq!(reset.speed, "");
    assert_eq!(reset.eta, "");
}

#[test]
fn repair_admission_fails_fast_while_held() {
    let mut g = TaskGuard::new();
    assert_eq!(admit_repair(&mut g), Ok(()));
    assert_eq!(admit_repair(&mut g), Err(RepairError::Busy));
    g.release();
    assert_eq!(admit_repair(&mut g), Ok(()));
}
