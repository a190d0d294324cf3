//! Component integrity: which external binaries are present, and the
//! plan for repairing the missing ones.
//!
//! The embedding application probes the filesystem next to the running
//! executable, reports the three presence flags here, and executes the
//! returned plan step by step with the streaming fetcher; components
//! delivered as archives get an extraction step whose failure is not
//! fatal — readiness is judged purely by the final existence re-probe.

use crate::fetch::ProgressSample;
use crate::guard::TaskGuard;
use vstd::prelude::*;
use vstd::string::StringExecFns;

verus! {

/// Presence of the three required external binaries.
#[derive(Debug, Clone, Copy, PartialEq, Eq, Structural)]
pub struct ComponentSet {
    pub yt_dlp: bool,
    pub ffmpeg: bool,
    pub deno: bool,
}

/// Why a repair failed.
#[derive(Debug, Clone, Copy, PartialEq, Eq)]
pub enum RepairError {
    /// Another task holds the exclusivity slot.
    Busy,
    /// After all steps ran, not every component exists.
    PartialRepair,
}

/// One step of a repair: download `url` to `file_name` next to the
/// executable, reporting progress inside `[base_pm, max_pm]`; when
/// `archive` is set, the download is an archive to extract afterwards.
#[derive(Debug)]
pub struct RepairStep {
    pub file_name: String,
    pub url: String,
    pub base_pm: u64,
    pub max_pm: u64,
    pub archive: bool,
}

impl ComponentSet {
    pub open spec fn all_present(&self) -> bool {
        self.yt_dlp && self.ffmpeg && self.deno
    }

    /// Whether every component exists.
    pub fn is_complete(&self) -> (r: bool)
        ensures
            r == self.all_present(),
    {
        self.yt_dlp && self.ffmpeg && self.deno
    }

    /// The file names of the missing components, in the fixed order.
    pub fn missing_names(&self) -> (r: Vec<String>)
        ensures
            r@.map_values(|s: String| s@) == spec_missing_names(*self),
            self.all_present() <==> r@.len() == 0,
    {
        let mut v: Vec<String> = Vec::new();
        if !self.yt_dlp {
            v.push(("yt-dlp.exe").to_owned());
        }
        if !self.ffmpeg {
            v.push(("ffmpeg.exe").to_owned());
        }
        if !self.deno {
            v.push(("deno.exe").to_owned());
        }
        proof {
            assert(v@.map_values(|s: String| s@) =~= spec_missing_names(*self));
        }
        v
    }
}

/// The missing-component names, in the fixed repair order.
pub open spec fn spec_missing_names(cs: ComponentSet) -> Seq<Seq<char>> {
    (if !cs.yt_dlp {
        seq![("yt-dlp.exe")@]
    } else {
        Seq::<Seq<char>>::empty()
    }) + (if !cs.ffmpeg {
        seq![("ffmpeg.exe")@]
    } else {
        Seq::<Seq<char>>::empty()
    }) + (if !cs.deno {
        seq![("deno.exe")@]
    } else {
        Seq::<Seq<char>>::empty()
    })
}

/// The ghost shadow of a repair step: file name, URL, progress range,
/// archive flag.
pub type StepSpec = (Seq<char>, Seq<char>, u64, u64, bool);

/// The repair plan for a component set: one step per missing component,
/// in the fixed order, each with its fixed release URL and its disjoint
/// slice of the overall permille scale.
pub open spec fn spec_repair_plan(cs: ComponentSet) -> Seq<StepSpec> {
    (if !cs.yt_dlp {
        seq![
            (
                ("yt-dlp.exe")@,
                ("https://github.com/yt-dlp/yt-dlp/releases/latest/download/yt-dlp.exe")@,
                0u64,
                300u64,
                false,
            ),
        ]
    } else {
        Seq::<StepSpec>::empty()
    }) + (if !cs.ffmpeg {
        seq![
            (
                ("ffmpeg.zip")@,
                (
                "https://github.com/BtbN/FFmpeg-Builds/releases/download/latest/ffmpeg-master-latest-win64-gpl.zip")@,
                300u64,
                800u64,
                true,
            ),
        ]
    } else {
        Seq::<StepSpec>::empty()
    }) + (if !cs.deno {
        seq![
            (
                ("deno.zip")@,
                ("https://github.com/denoland/deno/releases/latest/download/deno-x86_64-pc-windows-msvc.zip")@,
                800u64,
                950u64,
                true,
            ),
        ]
    } else {
        Seq::<StepSpec>::empty()
    })
}

pub open spec fn step_view(s: RepairStep) -> StepSpec {
    (s.file_name@, s.url@, s.base_pm, s.max_pm, s.archive)
}

/// Builds the repair plan. A complete set yields the empty plan: the
/// repair performs no network call and succeeds immediately.
pub fn plan_repair(cs: &ComponentSet) -> (r: Vec<RepairStep>)
    ensures
        r@.map_values(|s: RepairStep| step_view(s)) == spec_repair_plan(*cs),
        cs.all_present() <==> r@.len() == 0,
        forall|i: int|
            0 <= i < r@.len() ==> r@[i].base_pm <= r@[i].max_pm && r@[i].max_pm <= 1000,
{
    let mut v: Vec<RepairStep> = Vec::new();
    if !cs.yt_dlp {
        v.push(
            RepairStep {
                file_name: ("yt-dlp.exe").to_owned(),
                url: ("https://github.com/yt-dlp/yt-dlp/releases/latest/download/yt-dlp.exe").to_owned(),
                base_pm: 0,
                max_pm: 300,
                archive: false,
            },
        );
    }
    if !cs.ffmpeg {
        v.push(
            RepairStep {
                file_name: ("ffmpeg.zip").to_owned(),
                url: (
                "https://github.com/BtbN/FFmpeg-Builds/releases/download/latest/ffmpeg-master-latest-win64-gpl.zip").to_owned(),
                base_pm: 300,
                max_pm: 800,
                archive: true,
            },
        );
    }
    if !cs.deno {
        v.push(
            RepairStep {
                file_name: ("deno.zip").to_owned(),
                url: ("https://github.com/denoland/deno/releases/latest/download/deno-x86_64-pc-windows-msvc.zip").to_owned(),
                base_pm: 800,
                max_pm: 950,
                archive: true,
            },
        );
    }
    proof {
        assert(v@.map_values(|s: RepairStep| step_view(s)) =~= spec_repair_plan(*cs));
    }
    v
}

/// Admission into a repair: acquire the exclusivity slot, failing fast
/// with `Busy` while another task holds it (which then keeps the slot).
pub fn admit_repair(guard: &mut TaskGuard) -> (r: Result<(), RepairError>)
    ensures
        final(guard).is_held(),
        (r is Ok) == !old(guard).is_held(),
        r matches Err(e) ==> e == RepairError::Busy,
{
    if guard.try_acquire() {
        Ok(())
    } else {
        Err(RepairError::Busy)
    }
}

/// The overall verdict after all steps ran and the filesystem was
/// re-probed: success exactly when every component now exists.
pub fn repair_outcome(after: &ComponentSet) -> (r: Result<(), RepairError>)
    ensures
        (r is Ok) == after.all_present(),
        r matches Err(e) ==> e == RepairError::PartialRepair,
{
    if after.is_complete() {
        Ok(())
    } else {
        Err(RepairError::PartialRepair)
    }
}

/// The progress-complete event published after a repair: the full scale
/// with a done marker on success, a reset to zero on failure.
pub fn repair_final_sample(success: bool) -> (p: ProgressSample)
    ensures
        success ==> p.permille == 1000 && p.speed@ == ("Done")@ && p.eta@ == ("00:00")@,
        !success ==> p.permille == 0 && p.speed@ == Seq::<char>::empty() && p.eta@
            == Seq::<char>::empty(),
{
    if success {
        ProgressSample { permille: 1000, speed: ("Done").to_owned(), eta: ("00:00").to_owned() }
    } else {
        let speed = String::new();
        let eta = String::new();
        proof {
            assert(speed@ =~= Seq::<char>::empty());
            assert(eta@ =~= Seq::<char>::empty());
        }
        ProgressSample { permille: 0, speed, eta }
    }
}

} // verus!
