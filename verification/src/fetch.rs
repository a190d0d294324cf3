//! The compute side of the streaming fetcher: byte accounting, throughput
//! and ETA estimation, progress mapping into a sub-range of the overall
//! permille scale, and the ≥500 ms throttle on progress samples.
//!
//! The embedding application drives the actual HTTP transfer and feeds
//! each received chunk (with a monotonic millisecond clock reading) into
//! `FetchState::on_chunk`; every returned sample is published as-is.

use crate::text::{dec_chars, pad2_chars, push_dec, push_pad2};
use vstd::prelude::*;
use vstd::string::StringExecFns;

verus! {

/// One progress event: position on the permille scale plus rendered
/// speed and ETA text.
pub struct ProgressSample {
    pub permille: u64,
    pub speed: String,
    pub eta: String,
}

/// A fetch-layer failure. Either aborts the transfer immediately,
/// leaving any partial file on disk to the caller.
#[derive(Debug)]
pub enum FetchError {
    /// The connection or the transfer itself failed.
    NetworkError(String),
    /// Writing the destination file failed.
    IoError(String),
}

impl FetchError {
    /// The underlying error text.
    pub fn detail(&self) -> (r: &str)
        ensures
            r@ == (match *self {
                FetchError::NetworkError(s) => s@,
                FetchError::IoError(s) => s@,
            }),
    {
        match self {
            FetchError::NetworkError(s) => s.as_str(),
            FetchError::IoError(s) => s.as_str(),
        }
    }
}

/// Instantaneous throughput in bytes per second.
pub open spec fn spec_speed_bps(downloaded: nat, elapsed_ms: nat) -> nat
    recommends
        elapsed_ms > 0,
{
    downloaded * 1000 / elapsed_ms
}

/// The throughput rendered with two decimals, in KB/s below the 1 MiB/s
/// threshold and in MB/s above it (rounded to the nearest hundredth).
pub open spec fn spec_speed_text(bps: nat) -> Seq<char> {
    if bps > 1048576 {
        let centi = (bps * 100 + 524288) / 1048576;
        dec_chars(centi / 100) + seq!['.'] + pad2_chars(centi % 100) + (" MB/s")@
    } else {
        let centi = (bps * 100 + 512) / 1024;
        dec_chars(centi / 100) + seq!['.'] + pad2_chars(centi % 100) + (" KB/s")@
    }
}

/// Whole seconds left at the current throughput.
pub open spec fn spec_eta_secs(total: nat, downloaded: nat, bps: nat) -> nat
    recommends
        bps > 0,
{
    if total > downloaded {
        (total - downloaded) as nat / bps
    } else {
        0
    }
}

/// `MM:SS` (each side zero-padded to at least two digits).
pub open spec fn spec_mmss(secs: nat) -> Seq<char> {
    pad2_chars(secs / 60) + seq![':'] + pad2_chars(secs % 60)
}

/// The rendered ETA: `MM:SS` when the content length is known and the
/// throughput is positive, the unknown sentinel otherwise.
pub open spec fn spec_eta_text(total: nat, downloaded: nat, bps: nat) -> Seq<char> {
    if total > 0 && bps > 0 {
        spec_mmss(spec_eta_secs(total, downloaded, bps))
    } else {
        ("--:--")@
    }
}

/// Progress mapped into `[base, max]` on the permille scale: held at
/// `base` while the content length is unknown, else advanced by the
/// downloaded fraction (clamped only at the type's limit).
pub open spec fn spec_mapped_permille(base: u64, max: u64, downloaded: nat, total: nat) -> nat
    recommends
        base <= max <= 1000,
{
    if total == 0 {
        base as nat
    } else {
        let v = base as nat + downloaded * ((max - base) as nat) / total;
        if v > u64::MAX as nat {
            u64::MAX as nat
        } else {
            v
        }
    }
}

/// Renders the throughput, two decimals plus unit.
pub fn speed_text(bps: u128) -> (r: String)
    requires
        bps as nat <= u64::MAX as nat * 1000,
    ensures
        r@ == spec_speed_text(bps as nat),
{
    let centi: u128 = if bps > 1048576 {
        (bps * 100 + 524288) / 1048576
    } else {
        (bps * 100 + 512) / 1024
    };
    let mut s = String::new();
    push_dec(&mut s, centi / 100);
    s.push('.');
    push_pad2(&mut s, centi % 100);
    if bps > 1048576 {
        s.append(" MB/s");
    } else {
        s.append(" KB/s");
    }
    proof {
        assert(s@ =~= spec_speed_text(bps as nat));
    }
    s
}

/// Renders the ETA for the given content length, byte count and speed.
pub fn eta_text(total: u64, downloaded: u64, bps: u128) -> (r: String)
    ensures
        r@ == spec_eta_text(total as nat, downloaded as nat, bps as nat),
{
    if total > 0 && bps > 0 {
        let remaining: u64 = if total > downloaded {
            total - downloaded
        } else {
            0
        };
        let secs: u128 = (remaining as u128) / bps;
        let mut s = String::new();
        push_pad2(&mut s, secs / 60);
        s.push(':');
        push_pad2(&mut s, secs % 60);
        proof {
            assert(s@ =~= spec_eta_text(total as nat, downloaded as nat, bps as nat));
        }
        s
    } else {
        let mut s = String::new();
        s.append("--:--");
        proof {
            assert(s@ =~= spec_eta_text(total as nat, downloaded as nat, bps as nat));
        }
        s
    }
}

/// Maps a byte count into the permille sub-range `[base, max]`.
pub fn mapped_permille(base: u64, max: u64, downloaded: u64, total: u64) -> (r: u64)
    requires
        base <= max <= 1000,
    ensures
        r as nat == spec_mapped_permille(base, max, downloaded as nat, total as nat),
{
    if total == 0 {
        base
    } else {
        proof {
            assert(downloaded as nat * ((max - base) as nat) <= u64::MAX as nat * 1000)
                by (nonlinear_arith)
                requires
                    downloaded as nat <= u64::MAX as nat,
                    (max - base) as nat <= 1000,
            ;
        }
        let q: u128 = (downloaded as u128) * ((max - base) as u128) / (total as u128);
        let sum: u128 = (base as u128) + q;
        if sum > u64::MAX as u128 {
            u64::MAX
        } else {
            sum as u64
        }
    }
}

/// Running state of one chunked transfer.
pub struct FetchState {
    pub downloaded: u64,
    /// Content length, `0` when the server did not report one.
    pub total: u64,
    pub base_pm: u64,
    pub max_pm: u64,
    pub start_ms: u64,
    pub last_sample_ms: u64,
}

impl FetchState {
    pub open spec fn wf(&self) -> bool {
        self.base_pm <= self.max_pm <= 1000 && self.start_ms <= self.last_sample_ms
    }

    /// Starts accounting for a transfer of `total` bytes (0 = unknown)
    /// whose progress is mapped into `[base_pm, max_pm]`.
    pub fn begin(total: u64, base_pm: u64, max_pm: u64, now_ms: u64) -> (s: FetchState)
        requires
            base_pm <= max_pm <= 1000,
        ensures
            s.wf(),
            s.downloaded == 0,
            s.total == total,
            s.base_pm == base_pm,
            s.max_pm == max_pm,
            s.start_ms == now_ms,
            s.last_sample_ms == now_ms,
    {
        FetchState { downloaded: 0, total, base_pm, max_pm, start_ms: now_ms, last_sample_ms: now_ms }
    }

    /// Accounts one received chunk. A progress sample is produced exactly
    /// when at least 500 ms have passed since the previous sample (or
    /// since the start), and then carries the mapped progress, rendered
    /// speed and rendered ETA for the bytes seen so far.
    pub fn on_chunk(&mut self, len: u64, now_ms: u64) -> (r: Option<ProgressSample>)
        requires
            old(self).wf(),
            old(self).downloaded + len <= u64::MAX,
            now_ms >= old(self).last_sample_ms,
        ensures
            final(self).wf(),
            final(self).downloaded == old(self).downloaded + len,
            final(self).total == old(self).total,
            final(self).base_pm == old(self).base_pm,
            final(self).max_pm == old(self).max_pm,
            final(self).start_ms == old(self).start_ms,
            (r is Some) == (now_ms - old(self).last_sample_ms >= 500),
            r is Some ==> final(self).last_sample_ms == now_ms,
            r is None ==> final(self).last_sample_ms == old(self).last_sample_ms,
            r matches Some(p) ==> ({
                let d = (old(self).downloaded + len) as nat;
                let bps = spec_speed_bps(d, (now_ms - old(self).start_ms) as nat);
                &&& p.permille as nat == spec_mapped_permille(
                    old(self).base_pm,
                    old(self).max_pm,
                    d,
                    old(self).total as nat,
                )
                &&& p.speed@ == spec_speed_text(bps)
                &&& p.eta@ == spec_eta_text(old(self).total as nat, d, bps)
            }),
    {
        self.downloaded = self.downloaded + len;
        if now_ms - self.last_sample_ms >= 500 {
            let elapsed: u64 = now_ms - self.start_ms;
            let bps: u128 = (self.downloaded as u128) * 1000 / (elapsed as u128);
            let pm = mapped_permille(self.base_pm, self.max_pm, self.downloaded, self.total);
            let speed = speed_text(bps);
            let eta = eta_text(self.total, self.downloaded, bps);
            self.last_sample_ms = now_ms;
            Some(ProgressSample { permille: pm, speed, eta })
        } else {
            None
        }
    }
}

} // verus!
