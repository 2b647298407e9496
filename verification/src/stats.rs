//! The tally of a run: what was scheduled, what the wire reported, and what
//! landed.
use vstd::prelude::*;
use vstd::string::StringExecFns;

use crate::text::{contains_text, decimal, decimal_text, occurs};
use crate::types::{Pubkey, Signature, SocketAddr};

verus! {

/// The counters of a run. They wrap around when they are full.
#[derive(Debug, Clone, Copy, PartialEq, Eq, Structural)]
pub struct RunStats {
    /// Transactions that a send took.
    pub scheduled: u64,
    /// Transactions written to a validator.
    pub wire_sent: u64,
    /// Transactions that a validator's connection refused.
    pub wire_failed: u64,
    /// Those of them that were refused as disallowed.
    pub wire_disallowed: u64,
    /// Transactions dropped before they were written.
    pub wire_dropped: u64,
    /// Batches of signatures whose statuses were read.
    pub status_batches: u64,
    /// Signatures in those batches.
    pub status_checked: u64,
    /// Signatures that landed without an error.
    pub status_landed: u64,
    /// Signatures that landed with an error.
    pub status_landed_with_error: u64,
    /// Signatures that were seen but not confirmed.
    pub status_unconfirmed: u64,
    /// Signatures that were not seen.
    pub status_missing: u64,
    /// Batches whose statuses no RPC could tell.
    pub status_rpc_errors: u64,
}

/// What the TPU event loop reports of a transaction.
#[derive(Debug)]
pub enum TpuSenderResponse {
    /// It was written to a validator.
    TxSent { tx_sig: Signature, remote_peer_identity: Pubkey, remote_peer_addr: SocketAddr },
    /// It could not be written to a validator.
    TxFailed {
        tx_sig: Signature,
        remote_peer_identity: Pubkey,
        remote_peer_addr: SocketAddr,
        failure_reason: String,
    },
    /// Transactions were given up, each after some number of attempts.
    TxDrop {
        remote_peer_identity: Pubkey,
        drop_reason: String,
        dropped_tx_vec: Vec<(Signature, usize)>,
    },
}

/// How many signatures of a batch came to what end.
#[derive(Debug, Clone, Copy, PartialEq, Eq, Structural)]
pub struct BatchTally {
    pub landed: u64,
    pub landed_with_error: u64,
    pub unconfirmed: u64,
    pub missing: u64,
}

impl Default for RunStats {
    /// Counters that all stand at zero.
    fn default() -> (stats: Self)
        ensures
            stats == RunStats::zero(),
    {
        RunStats {
            scheduled: 0,
            wire_sent: 0,
            wire_failed: 0,
            wire_disallowed: 0,
            wire_dropped: 0,
            status_batches: 0,
            status_checked: 0,
            status_landed: 0,
            status_landed_with_error: 0,
            status_unconfirmed: 0,
            status_missing: 0,
            status_rpc_errors: 0,
        }
    }
}

impl RunStats {
    /// Counters that all stand at zero.
    pub open spec fn zero() -> RunStats {
        RunStats {
            scheduled: 0,
            wire_sent: 0,
            wire_failed: 0,
            wire_disallowed: 0,
            wire_dropped: 0,
            status_batches: 0,
            status_checked: 0,
            status_landed: 0,
            status_landed_with_error: 0,
            status_unconfirmed: 0,
            status_missing: 0,
            status_rpc_errors: 0,
        }
    }

    /// The counters after one more scheduled transaction.
    pub open spec fn with_scheduled(self) -> RunStats {
        RunStats { scheduled: self.scheduled.wrapping_add(1), ..self }
    }

    /// The counters after a report of the TPU event loop. A failure counts as
    /// disallowed when its reason says so.
    pub open spec fn with_response(self, response: TpuSenderResponse) -> RunStats {
        match response {
            TpuSenderResponse::TxSent { .. } => RunStats {
                wire_sent: self.wire_sent.wrapping_add(1),
                ..self
            },
            TpuSenderResponse::TxFailed { failure_reason, .. } => RunStats {
                wire_failed: self.wire_failed.wrapping_add(1),
                wire_disallowed: if occurs("disallowed"@, failure_reason@) {
                    self.wire_disallowed.wrapping_add(1)
                } else {
                    self.wire_disallowed
                },
                ..self
            },
            TpuSenderResponse::TxDrop { dropped_tx_vec, .. } => RunStats {
                wire_dropped: self.wire_dropped.wrapping_add(dropped_tx_vec@.len() as u64),
                ..self
            },
        }
    }

    /// The counters after the statuses of a batch of `checked` signatures came
    /// out as `tally`.
    pub open spec fn with_batch(self, checked: u64, tally: BatchTally) -> RunStats {
        RunStats {
            status_batches: self.status_batches.wrapping_add(1),
            status_checked: self.status_checked.wrapping_add(checked),
            status_landed: self.status_landed.wrapping_add(tally.landed),
            status_landed_with_error: self.status_landed_with_error.wrapping_add(
                tally.landed_with_error,
            ),
            status_unconfirmed: self.status_unconfirmed.wrapping_add(tally.unconfirmed),
            status_missing: self.status_missing.wrapping_add(tally.missing),
            ..self
        }
    }

    /// The counters after no RPC could tell the statuses of a batch.
    pub open spec fn with_rpc_error(self) -> RunStats {
        RunStats { status_rpc_errors: self.status_rpc_errors.wrapping_add(1), ..self }
    }

    /// Counts a scheduled transaction.
    pub fn record_scheduled(&mut self)
        ensures
            *final(self) == old(self).with_scheduled(),
    {
        self.scheduled = self.scheduled.wrapping_add(1);
    }

    /// Counts what the TPU event loop reports.
    pub fn record_response(&mut self, response: &TpuSenderResponse)
        ensures
            *final(self) == old(self).with_response(*response),
    {
        match response {
            TpuSenderResponse::TxSent { .. } => {
                self.wire_sent = self.wire_sent.wrapping_add(1);
            },
            TpuSenderResponse::TxFailed { failure_reason, .. } => {
                self.wire_failed = self.wire_failed.wrapping_add(1);
                if contains_text(failure_reason.as_str(), "disallowed") {
                    self.wire_disallowed = self.wire_disallowed.wrapping_add(1);
                }
            },
            TpuSenderResponse::TxDrop { dropped_tx_vec, .. } => {
                self.wire_dropped = self.wire_dropped.wrapping_add(dropped_tx_vec.len() as u64);
            },
        }
    }

    /// Counts the statuses of a batch of `checked` signatures.
    pub fn record_batch(&mut self, checked: u64, tally: BatchTally)
        ensures
            *final(self) == old(self).with_batch(checked, tally),
    {
        self.status_batches = self.status_batches.wrapping_add(1);
        self.status_checked = self.status_checked.wrapping_add(checked);
        self.status_landed = self.status_landed.wrapping_add(tally.landed);
        self.status_landed_with_error =
        self.status_landed_with_error.wrapping_add(tally.landed_with_error);
        self.status_unconfirmed = self.status_unconfirmed.wrapping_add(tally.unconfirmed);
        self.status_missing = self.status_missing.wrapping_add(tally.missing);
    }

    /// Counts a batch whose statuses no RPC could tell.
    pub fn record_rpc_error(&mut self)
        ensures
            *final(self) == old(self).with_rpc_error(),
    {
        self.status_rpc_errors = self.status_rpc_errors.wrapping_add(1);
    }

    /// How many of how many scheduled transactions have landed without an
    /// error.
    pub open spec fn landed_share(self) -> Option<(u64, u64)> {
        if self.scheduled == 0 {
            None
        } else {
            Some((self.status_landed, self.scheduled))
        }
    }

    /// How many of how many scheduled transactions have landed without an
    /// error; `None` when none was scheduled.
    pub fn landing_fraction(&self) -> (fraction: Option<(u64, u64)>)
        ensures
            fraction == if self.scheduled == 0 {
                None
            } else {
                Some((self.status_landed, self.scheduled))
            },
            fraction == self.landed_share(),
    {
        if self.scheduled == 0 {
            None
        } else {
            Some((self.status_landed, self.scheduled))
        }
    }
}

/// The line that sums up a run, in which `landing_pct` is the share of
/// scheduled transactions that landed.
pub open spec fn summary_line(stats: RunStats, landing_pct: Seq<char>) -> Seq<char> {
    "SUMMARY scheduled="@ + decimal(stats.scheduled as nat) + ", checked="@ + decimal(
        stats.status_checked as nat,
    ) + ", landed="@ + decimal(stats.status_landed as nat) + ", landed_with_error="@ + decimal(
        stats.status_landed_with_error as nat,
    ) + ", landing_pct="@ + landing_pct + ", missing="@ + decimal(stats.status_missing as nat)
        + ", unconfirmed="@ + decimal(stats.status_unconfirmed as nat) + ", status_batches="@
        + decimal(stats.status_batches as nat) + ", status_rpc_errors="@ + decimal(
        stats.status_rpc_errors as nat,
    ) + ", wire_sent="@ + decimal(stats.wire_sent as nat) + ", wire_failed="@ + decimal(
        stats.wire_failed as nat,
    ) + ", wire_disallowed="@ + decimal(stats.wire_disallowed as nat) + ", wire_dropped="@
        + decimal(stats.wire_dropped as nat)
}

/// The line that sums up a run.
pub fn log_summary(stats: &RunStats, landing_pct: &str) -> (line: String)
    ensures
        line@ == summary_line(*stats, landing_pct@),
{
    let mut line = String::from_str("SUMMARY scheduled=");
    line.append(decimal_text(stats.scheduled).as_str());
    line.append(", checked=");
    line.append(decimal_text(stats.status_checked).as_str());
    line.append(", landed=");
    line.append(decimal_text(stats.status_landed).as_str());
    line.append(", landed_with_error=");
    line.append(decimal_text(stats.status_landed_with_error).as_str());
    line.append(", landing_pct=");
    line.append(landing_pct);
    line.append(", missing=");
    line.append(decimal_text(stats.status_missing).as_str());
    line.append(", unconfirmed=");
    line.append(decimal_text(stats.status_unconfirmed).as_str());
    line.append(", status_batches=");
    line.append(decimal_text(stats.status_batches).as_str());
    line.append(", status_rpc_errors=");
    line.append(decimal_text(stats.status_rpc_errors).as_str());
    line.append(", wire_sent=");
    line.append(decimal_text(stats.wire_sent).as_str());
    line.append(", wire_failed=");
    line.append(decimal_text(stats.wire_failed).as_str());
    line.append(", wire_disallowed=");
    line.append(decimal_text(stats.wire_disallowed).as_str());
    line.append(", wire_dropped=");
    line.append(decimal_text(stats.wire_dropped).as_str());
    line
}

/// A report never makes more failures disallowed than there are, as long as
/// the counters have not wrapped around.
pub proof fn law_disallowed_are_failures(stats: RunStats, response: TpuSenderResponse)
    requires
        stats.wire_disallowed <= stats.wire_failed,
        stats.wire_failed < u64::MAX,
    ensures
        stats.with_response(response).wire_disallowed <= stats.with_response(response).wire_failed,
{
}

/// How a counter stands after `more` was added to it.
pub open spec fn counted(before: u64, more: int) -> u64 {
    (if before + more <= u64::MAX {
        before + more
    } else {
        before + more - 0x1_0000_0000_0000_0000
    }) as u64
}

/// A report counts in its own counters alone, and a scheduled transaction and an
/// RPC error in theirs: one for a transaction that was sent, or that failed, or
/// whose failure says that it is disallowed, and one for each that was dropped.
pub proof fn law_reports_are_counted(stats: RunStats, response: TpuSenderResponse)
    requires
        response is TxDrop ==> response->dropped_tx_vec@.len() <= u64::MAX,
    ensures
        stats.with_response(response) == (RunStats {
            wire_sent: counted(
                stats.wire_sent,
                if response is TxSent {
                    1
                } else {
                    0
                },
            ),
            wire_failed: counted(
                stats.wire_failed,
                if response is TxFailed {
                    1
                } else {
                    0
                },
            ),
            wire_disallowed: counted(
                stats.wire_disallowed,
                if response is TxFailed && occurs("disallowed"@, response->failure_reason@) {
                    1
                } else {
                    0
                },
            ),
            wire_dropped: counted(
                stats.wire_dropped,
                if response is TxDrop {
                    response->dropped_tx_vec@.len() as int
                } else {
                    0
                },
            ),
            ..stats
        }),
        stats.with_scheduled() == (RunStats { scheduled: counted(stats.scheduled, 1), ..stats }),
        stats.with_rpc_error() == (RunStats {
            status_rpc_errors: counted(stats.status_rpc_errors, 1),
            ..stats
        }),
{
}

/// A batch counts as one, with all of its signatures as checked, and each count
/// of its tally in the counter of the same name.
pub proof fn law_batches_are_counted(stats: RunStats, checked: u64, tally: BatchTally)
    ensures
        stats.with_batch(checked, tally) == (RunStats {
            status_batches: counted(stats.status_batches, 1),
            status_checked: counted(stats.status_checked, checked as int),
            status_landed: counted(stats.status_landed, tally.landed as int),
            status_landed_with_error: counted(
                stats.status_landed_with_error,
                tally.landed_with_error as int,
            ),
            status_unconfirmed: counted(stats.status_unconfirmed, tally.unconfirmed as int),
            status_missing: counted(stats.status_missing, tally.missing as int),
            ..stats
        }),
{
}

proof fn lemma_occurs_between(
    before: Seq<char>,
    name: Seq<char>,
    value: Seq<char>,
    after: Seq<char>,
)
    ensures
        occurs(name + value + after, before + name + value + after),
{
    let needle = name + value + after;
    let text = before + name + value + after;
    let at = before.len() as int;
    assert(text.subrange(at, at + needle.len()) =~= needle);
}

proof fn lemma_occurs_longer(text: Seq<char>, more: Seq<char>)
    ensures
        forall|needle: Seq<char>| occurs(needle, text) ==> #[trigger] occurs(needle, text + more),
{
    assert forall|needle: Seq<char>| occurs(needle, text) implies #[trigger] occurs(
        needle,
        text + more,
    ) by {
        let at = choose|at: int|
            0 <= at <= text.len() - needle.len() && #[trigger] text.subrange(at, at + needle.len())
                == needle;
        assert((text + more).subrange(at, at + needle.len()) =~= needle);
    }
}

/// The summary gives every counter in decimal right after its own name and right
/// before the next name, and ends with the last one.
pub proof fn law_summary_names_every_counter(stats: RunStats, landing_pct: Seq<char>)
    ensures
        ({
            let line = summary_line(stats, landing_pct);
            let end = ", wire_dropped="@ + decimal(stats.wire_dropped as nat);
            &&& occurs(
                "SUMMARY scheduled="@ + decimal(stats.scheduled as nat) + ", checked="@,
                line,
            )
            &&& occurs(", checked="@ + decimal(stats.status_checked as nat) + ", landed="@, line)
            &&& occurs(
                ", landed="@ + decimal(stats.status_landed as nat) + ", landed_with_error="@,
                line,
            )
            &&& occurs(
                ", landed_with_error="@ + decimal(stats.status_landed_with_error as nat) + ", landing_pct="@,
                line,
            )
            &&& occurs(", landing_pct="@ + landing_pct + ", missing="@, line)
            &&& occurs(
                ", missing="@ + decimal(stats.status_missing as nat) + ", unconfirmed="@,
                line,
            )
            &&& occurs(
                ", unconfirmed="@ + decimal(stats.status_unconfirmed as nat) + ", status_batches="@,
                line,
            )
            &&& occurs(
                ", status_batches="@ + decimal(stats.status_batches as nat) + ", status_rpc_errors="@,
                line,
            )
            &&& occurs(
                ", status_rpc_errors="@ + decimal(stats.status_rpc_errors as nat) + ", wire_sent="@,
                line,
            )
            &&& occurs(", wire_sent="@ + decimal(stats.wire_sent as nat) + ", wire_failed="@, line)
            &&& occurs(
                ", wire_failed="@ + decimal(stats.wire_failed as nat) + ", wire_disallowed="@,
                line,
            )
            &&& occurs(
                ", wire_disallowed="@ + decimal(stats.wire_disallowed as nat) + ", wire_dropped="@,
                line,
            )
            &&& line.len() >= end.len()
            &&& line.skip(line.len() - end.len()) == end
        }),
{
    let t0 = "SUMMARY scheduled="@ + decimal(stats.scheduled as nat);
    lemma_occurs_between(
        Seq::empty(),
        "SUMMARY scheduled="@,
        decimal(stats.scheduled as nat),
        ", checked="@,
    );
    assert(Seq::<char>::empty() + "SUMMARY scheduled="@ =~= "SUMMARY scheduled="@);
    let t1 = t0 + ", checked="@ + decimal(stats.status_checked as nat);
    lemma_occurs_longer(t0 + ", checked="@, decimal(stats.status_checked as nat));
    lemma_occurs_longer(t1, ", landed="@);
    lemma_occurs_between(t0, ", checked="@, decimal(stats.status_checked as nat), ", landed="@);
    let t2 = t1 + ", landed="@ + decimal(stats.status_landed as nat);
    lemma_occurs_longer(t1 + ", landed="@, decimal(stats.status_landed as nat));
    lemma_occurs_longer(t2, ", landed_with_error="@);
    lemma_occurs_between(
        t1,
        ", landed="@,
        decimal(stats.status_landed as nat),
        ", landed_with_error="@,
    );
    let t3 = t2 + ", landed_with_error="@ + decimal(stats.status_landed_with_error as nat);
    lemma_occurs_longer(
        t2 + ", landed_with_error="@,
        decimal(stats.status_landed_with_error as nat),
    );
    lemma_occurs_longer(t3, ", landing_pct="@);
    lemma_occurs_between(
        t2,
        ", landed_with_error="@,
        decimal(stats.status_landed_with_error as nat),
        ", landing_pct="@,
    );
    let t4 = t3 + ", landing_pct="@ + landing_pct;
    lemma_occurs_longer(t3 + ", landing_pct="@, landing_pct);
    lemma_occurs_longer(t4, ", missing="@);
    lemma_occurs_between(t3, ", landing_pct="@, landing_pct, ", missing="@);
    let t5 = t4 + ", missing="@ + decimal(stats.status_missing as nat);
    lemma_occurs_longer(t4 + ", missing="@, decimal(stats.status_missing as nat));
    lemma_occurs_longer(t5, ", unconfirmed="@);
    lemma_occurs_between(
        t4,
        ", missing="@,
        decimal(stats.status_missing as nat),
        ", unconfirmed="@,
    );
    let t6 = t5 + ", unconfirmed="@ + decimal(stats.status_unconfirmed as nat);
    lemma_occurs_longer(t5 + ", unconfirmed="@, decimal(stats.status_unconfirmed as nat));
    lemma_occurs_longer(t6, ", status_batches="@);
    lemma_occurs_between(
        t5,
        ", unconfirmed="@,
        decimal(stats.status_unconfirmed as nat),
        ", status_batches="@,
    );
    let t7 = t6 + ", status_batches="@ + decimal(stats.status_batches as nat);
    lemma_occurs_longer(t6 + ", status_batches="@, decimal(stats.status_batches as nat));
    lemma_occurs_longer(t7, ", status_rpc_errors="@);
    lemma_occurs_between(
        t6,
        ", status_batches="@,
        decimal(stats.status_batches as nat),
        ", status_rpc_errors="@,
    );
    let t8 = t7 + ", status_rpc_errors="@ + decimal(stats.status_rpc_errors as nat);
    lemma_occurs_longer(t7 + ", status_rpc_errors="@, decimal(stats.status_rpc_errors as nat));
    lemma_occurs_longer(t8, ", wire_sent="@);
    lemma_occurs_between(
        t7,
        ", status_rpc_errors="@,
        decimal(stats.status_rpc_errors as nat),
        ", wire_sent="@,
    );
    let t9 = t8 + ", wire_sent="@ + decimal(stats.wire_sent as nat);
    lemma_occurs_longer(t8 + ", wire_sent="@, decimal(stats.wire_sent as nat));
    lemma_occurs_longer(t9, ", wire_failed="@);
    lemma_occurs_between(t8, ", wire_sent="@, decimal(stats.wire_sent as nat), ", wire_failed="@);
    let t10 = t9 + ", wire_failed="@ + decimal(stats.wire_failed as nat);
    lemma_occurs_longer(t9 + ", wire_failed="@, decimal(stats.wire_failed as nat));
    lemma_occurs_longer(t10, ", wire_disallowed="@);
    lemma_occurs_between(
        t9,
        ", wire_failed="@,
        decimal(stats.wire_failed as nat),
        ", wire_disallowed="@,
    );
    let t11 = t10 + ", wire_disallowed="@ + decimal(stats.wire_disallowed as nat);
    lemma_occurs_longer(t10 + ", wire_disallowed="@, decimal(stats.wire_disallowed as nat));
    lemma_occurs_longer(t11, ", wire_dropped="@);
    lemma_occurs_between(
        t10,
        ", wire_disallowed="@,
        decimal(stats.wire_disallowed as nat),
        ", wire_dropped="@,
    );
    let t12 = t11 + ", wire_dropped="@ + decimal(stats.wire_dropped as nat);
    lemma_occurs_longer(t11 + ", wire_dropped="@, decimal(stats.wire_dropped as nat));
    let end = ", wire_dropped="@ + decimal(stats.wire_dropped as nat);
    assert(t12 == summary_line(stats, landing_pct));
    assert(t12.skip(t12.len() - end.len()) =~= end);
}

/// The share of what has landed is over what was scheduled, and there is none
/// before that. Of a batch only what landed without an error adds to it, and no
/// report of the event loop does.
pub proof fn law_share_counts_what_landed(
    stats: RunStats,
    checked: u64,
    tally: BatchTally,
    response: TpuSenderResponse,
)
    ensures
        stats.landed_share() is None <==> stats.scheduled == 0,
        stats.landed_share() matches Some((landed, scheduled)) ==> {
            &&& scheduled == stats.scheduled
            &&& landed == stats.status_landed
            &&& stats.with_batch(checked, tally).landed_share() == Some(
                (counted(landed, tally.landed as int), scheduled),
            )
            &&& stats.with_response(response).landed_share() == stats.landed_share()
            &&& stats.with_rpc_error().landed_share() == stats.landed_share()
            &&& scheduled < u64::MAX ==> stats.with_scheduled().landed_share() == Some(
                (landed, (scheduled + 1) as u64),
            )
        },
{
}

} // verus!
