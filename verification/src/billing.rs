//! Billing snapshot status.
use vstd::prelude::*;

verus! {

/// The version of the billing snapshot layout.  From 3.0 on, `cost_breakdown`
/// and `total_cost` already include the peak/off-peak multiplier.
pub const BILLING_SNAPSHOT_SCHEMA_VERSION: &'static str = "3.0";

/// How complete a billing snapshot is.
#[derive(Debug, Clone, Copy, PartialEq, Eq, Structural)]
pub enum BillingSnapshotStatus {
    Complete,
    Incomplete,
    NoRule,
    Legacy,
}

impl BillingSnapshotStatus {
    /// The snake-case name of the status.
    pub open spec fn name(self) -> Seq<char> {
        match self {
            BillingSnapshotStatus::Complete => "complete"@,
            BillingSnapshotStatus::Incomplete => "incomplete"@,
            BillingSnapshotStatus::NoRule => "no_rule"@,
            BillingSnapshotStatus::Legacy => "legacy"@,
        }
    }

    /// The snake-case name of the status.
    pub fn as_str(self) -> (r: &'static str)
        ensures
            r@ == self.name(),
    {
        match self {
            BillingSnapshotStatus::Complete => "complete",
            BillingSnapshotStatus::Incomplete => "incomplete",
            BillingSnapshotStatus::NoRule => "no_rule",
            BillingSnapshotStatus::Legacy => "legacy",
        }
    }
}

/// Distinct statuses have distinct names, so a name identifies its status.
pub proof fn lemma_status_names_distinct(a: BillingSnapshotStatus, b: BillingSnapshotStatus)
    ensures
        a.name() == b.name() ==> a == b,
{
    reveal_strlit("complete");
    reveal_strlit("incomplete");
    reveal_strlit("no_rule");
    reveal_strlit("legacy");
    if a != b {
        match (a, b) {
            (BillingSnapshotStatus::Complete, BillingSnapshotStatus::Incomplete) => {
                assert(a.name()[0] != b.name()[0]);
            },
            (BillingSnapshotStatus::Incomplete, BillingSnapshotStatus::Complete) => {
                assert(a.name()[0] != b.name()[0]);
            },
            _ => {
                assert(a.name().len() != b.name().len() || a.name()[0] != b.name()[0]);
            },
        }
    }
}

} // verus!
