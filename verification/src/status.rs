//! The one-line rendering of a [`SyncStatus`] shown by the status view of
//! the terminal UI.

use vstd::prelude::*;
use crate::text::{dec_digits, u64_to_string};
use crate::types::SyncStatus;

verus! {

/// `a - b`, floored at zero.
pub open spec fn spec_sub_sat(a: int, b: int) -> int {
    if a > b {
        a - b
    } else {
        0
    }
}

/// The progress percentage `num * 100 / den`, with an empty denominator
/// giving zero and the result saturated at `u64::MAX`.
pub open spec fn spec_percent(num: int, den: int) -> int {
    if den == 0 {
        0
    } else if num * 100 / den > u64::MAX {
        u64::MAX as int
    } else {
        num * 100 / den
    }
}

/// `num * 100 / den` per [`spec_percent`]: zero when `den` is zero.
pub fn percent(num: u64, den: u64) -> (r: u64)
    ensures
        r as int == spec_percent(num as int, den as int),
{
    if den == 0 {
        0
    } else {
        let wide: u128 = (num as u128) * 100 / (den as u128);
        if wide > u64::MAX as u128 {
            u64::MAX
        } else {
            wide as u64
        }
    }
}

/// `a - b`, floored at zero.
pub fn sub_sat(a: u64, b: u64) -> (r: u64)
    ensures
        r as int == spec_sub_sat(a as int, b as int),
{
    if a > b {
        a - b
    } else {
        0
    }
}

/// The status line for one [`SyncStatus`] value.
pub open spec fn spec_status_line(s: SyncStatus) -> Seq<char> {
    match s {
        SyncStatus::Initial => "Initializing"@,
        SyncStatus::NoSync => "Running"@,
        SyncStatus::AwaitingPeers => "Waiting for peers"@,
        SyncStatus::HeaderHashSync { completed_blocks, total_blocks } => "Sync step 1/7: Downloading headers hashes - "@
            + dec_digits(completed_blocks as int) + "/"@ + dec_digits(total_blocks as int),
        SyncStatus::HeaderSync { current_height, archive_height } => "Sync step 1/7: Downloading headers: "@
            + dec_digits(spec_percent(current_height as int, archive_height as int)) + "%"@,
        SyncStatus::TxHashsetPibd { received_segments, total_segments } => {
            if received_segments == 0 && total_segments == 100 {
                "Sync step 2/7: Selecting peers, waiting for PIBD root hash"@
            } else {
                "Sync step 2/7: Downloading Tx state (PIBD) - "@ + dec_digits(
                    received_segments as int,
                ) + " / "@ + dec_digits(total_segments as int) + " segments - "@ + dec_digits(
                    spec_percent(received_segments as int, total_segments as int),
                ) + "%"@
            }
        },
        SyncStatus::ValidatingKernelsHistory => "Sync step 3/7: Validating kernels history"@,
        SyncStatus::TxHashsetHeadersValidation { headers, headers_total } => "Sync step 3/7: Validating headers - "@
            + dec_digits(headers as int) + " / "@ + dec_digits(headers_total as int)
            + " segments - "@ + dec_digits(spec_percent(headers as int, headers_total as int))
            + "%"@,
        SyncStatus::TxHashsetKernelsPosValidation { kernel_pos, kernel_pos_total } => "Sync step 4/7: Validation kernel position - "@
            + dec_digits(kernel_pos as int) + "/"@ + dec_digits(kernel_pos_total as int) + " - "@
            + dec_digits(spec_percent(kernel_pos as int, kernel_pos_total as int)) + "%"@,
        SyncStatus::TxHashsetRangeProofsValidation { rproofs, rproofs_total } => "Sync step 5/7: Validating chain state - range proofs: "@
            + dec_digits(spec_percent(rproofs as int, rproofs_total as int)) + "%"@,
        SyncStatus::TxHashsetKernelsValidation { kernels, kernels_total } => "Sync step 6/7: Validating chain state - kernels: "@
            + dec_digits(spec_percent(kernels as int, kernels_total as int)) + "%"@,
        SyncStatus::BodySync { archive_height, current_height, highest_height } => "Sync step 7/7: Downloading blocks: "@
            + dec_digits(
            spec_percent(
                spec_sub_sat(current_height as int, archive_height as int),
                spec_sub_sat(highest_height as int, archive_height as int),
            ),
        ) + "%"@,
        SyncStatus::Shutdown => "Shutting down, closing connections"@,
    }
}

/// The status view of the terminal UI. The view itself lives with the UI
/// toolkit; this type carries the rendering of the status text, which is
/// where the progress formulas live.
pub struct TUIStatusView;

impl TUIStatusView {
    /// The status line for the given sync status, exactly
    /// [`spec_status_line`]. The percentage shown for block download is
    /// `(current - archive) * 100 / (highest - archive)`, with both
    /// differences floored at zero and a zero denominator giving 0%.
    pub fn update_sync_status(sync_status: SyncStatus) -> (r: String)
        ensures
            r@ == spec_status_line(sync_status),
    {
        match sync_status {
            SyncStatus::Initial => String::from_str("Initializing"),
            SyncStatus::NoSync => String::from_str("Running"),
            SyncStatus::AwaitingPeers => String::from_str("Waiting for peers"),
            SyncStatus::HeaderHashSync { completed_blocks, total_blocks } => {
                let mut r = String::from_str("Sync step 1/7: Downloading headers hashes - ");
                let c = u64_to_string(completed_blocks);
                let t = u64_to_string(total_blocks);
                r.append(c.as_str());
                r.append("/");
                r.append(t.as_str());
                r
            },
            SyncStatus::HeaderSync { current_height, archive_height } => {
                let mut r = String::from_str("Sync step 1/7: Downloading headers: ");
                let p = u64_to_string(percent(current_height, archive_height));
                r.append(p.as_str());
                r.append("%");
                r
            },
            SyncStatus::TxHashsetPibd { received_segments, total_segments } => {
                if received_segments == 0 && total_segments == 100 {
                    String::from_str("Sync step 2/7: Selecting peers, waiting for PIBD root hash")
                } else {
                    let mut r = String::from_str("Sync step 2/7: Downloading Tx state (PIBD) - ");
                    let c = u64_to_string(received_segments);
                    let t = u64_to_string(total_segments);
                    let p = u64_to_string(percent(received_segments, total_segments));
                    r.append(c.as_str());
                    r.append(" / ");
                    r.append(t.as_str());
                    r.append(" segments - ");
                    r.append(p.as_str());
                    r.append("%");
                    r
                }
            },
            SyncStatus::ValidatingKernelsHistory => {
                String::from_str("Sync step 3/7: Validating kernels history")
            },
            SyncStatus::TxHashsetHeadersValidation { headers, headers_total } => {
                let mut r = String::from_str("Sync step 3/7: Validating headers - ");
                let c = u64_to_string(headers);
                let t = u64_to_string(headers_total);
                let p = u64_to_string(percent(headers, headers_total));
                r.append(c.as_str());
                r.append(" / ");
                r.append(t.as_str());
                r.append(" segments - ");
                r.append(p.as_str());
                r.append("%");
                r
            },
            SyncStatus::TxHashsetKernelsPosValidation { kernel_pos, kernel_pos_total } => {
                let mut r = String::from_str("Sync step 4/7: Validation kernel position - ");
                let c = u64_to_string(kernel_pos);
                let t = u64_to_string(kernel_pos_total);
                let p = u64_to_string(percent(kernel_pos, kernel_pos_total));
                r.append(c.as_str());
                r.append("/");
                r.append(t.as_str());
                r.append(" - ");
                r.append(p.as_str());
                r.append("%");
                r
            },
            SyncStatus::TxHashsetRangeProofsValidation { rproofs, rproofs_total } => {
                let mut r = String::from_str(
                    "Sync step 5/7: Validating chain state - range proofs: ",
                );
                let p = u64_to_string(percent(rproofs, rproofs_total));
                r.append(p.as_str());
                r.append("%");
                r
            },
            SyncStatus::TxHashsetKernelsValidation { kernels, kernels_total } => {
                let mut r = String::from_str("Sync step 6/7: Validating chain state - kernels: ");
                let p = u64_to_string(percent(kernels, kernels_total));
                r.append(p.as_str());
                r.append("%");
                r
            },
            SyncStatus::BodySync { archive_height, current_height, highest_height } => {
                let mut r = String::from_str("Sync step 7/7: Downloading blocks: ");
                let p = u64_to_string(
                    percent(
                        sub_sat(current_height, archive_height),
                        sub_sat(highest_height, archive_height),
                    ),
                );
                r.append(p.as_str());
                r.append("%");
                r
            },
            SyncStatus::Shutdown => String::from_str("Shutting down, closing connections"),
        }
    }
}

} // verus!
