use cyber_ytdl::pathalloc::get_unique_path;

#[test]
fn first_candidate_when_directory_is_empty() {
    let existing: Vec<String> = Vec::new();
    let name = get_unique_path(&existing, "Title", "720p", "mp4");
    assert_eq!(name, "Title_720p.mp4");
}

#[test]
fn reserved_characters_are_replaced() {
    let existing: Vec<String> = Vec::new();
    let name = get_unique_path(&existing, "a/b:c*d?e\"f<g>h|i\\j", "best", "mp3");
    assert_eq!(name, "a_b_c_d_e_f_g_h_i_j_best.mp3");
}

#[test]
fn collision_appends_suffix_one() {
    let existing = vec!["Title_720p.mp4".to_string()];
    let name = get_unique_path(&existing, "Title", "720p", "mp4");
    assert_eq!(name, "Title_720p_1.mp4");
}

#[test]
fn repeated_allocation_is_incrementally_suffixed() {
    let mut existing: Vec<String> = Vec::new();
    let first = get_unique_path(&existing, "Clip", "best", "mp4");
    assert_eq!(first, "Clip_best.mp4");
    existing.push(first.clone());
    let second = get_unique_path(&existing, "Clip", "best", "mp4");
    assert_ne!(second, first);
    assert_eq!(second, "Clip_best_1.mp4");
    existing.push(second);
    let third = get_unique_path(&existing, "Clip", "best", "mp4");
    assert_eq!(third, "Clip_best_2.mp4");
}

#[test]
fn gap_in_suffixes_is_reused() {
    let existing = vec!["V_q.mp4".to_string(), "V_q_2.mp4".to_string()];
    let name = get_unique_path(&existing, "V", "q", "mp4");
    assert_eq!(name, "V_q_1.mp4");
}

#[test]
fn unrelated_names_do_not_collide() {
    let existing = vec!["Other_720p.mp4".to_string()];
    let name = get_unique_path(&existing, "Title", "720p", "mp4");
    assert_eq!(name, "Title_720p.mp4");
}
