//! The zone-transfer prober's bookkeeping: per-nameserver transfer outcomes
//! merge into one deduplicated finding set; a refusal or failure from one
//! nameserver contributes nothing and never disturbs the others.

use vstd::prelude::*;
use crate::requests::{merge_unseen_into, spec_merge_unseen};
use crate::text::{spec_strip_trailing_dots, strip_trailing_dots};

verus! {

/// What one nameserver's transfer attempt came back with.
pub enum TransferOutcome {
    /// The nameserver refused the transfer.
    Refused,
    /// The connection or the transfer failed.
    Failed,
    /// The owner names of every answer record across the transfer.
    Records(Vec<String>),
}

/// Mathematical value of a transfer outcome.
pub enum ZoneOutcomeV {
    Refused,
    Failed,
    Records(Seq<Seq<char>>),
}

impl DeepView for TransferOutcome {
    type V = ZoneOutcomeV;

    open spec fn deep_view(&self) -> ZoneOutcomeV {
        match self {
            TransferOutcome::Refused => ZoneOutcomeV::Refused,
            TransferOutcome::Failed => ZoneOutcomeV::Failed,
            TransferOutcome::Records(rs) => ZoneOutcomeV::Records(rs.deep_view()),
        }
    }
}

/// The record names of an outcome, each with trailing dots stripped; a
/// refusal or failure yields nothing.
pub open spec fn spec_normalized_records(o: ZoneOutcomeV) -> Seq<Seq<char>> {
    match o {
        ZoneOutcomeV::Records(rs) => Seq::new(rs.len(), |j: int| spec_strip_trailing_dots(rs[j])),
        _ => Seq::empty(),
    }
}

/// One nameserver's contribution to the finding set: its normalized record
/// names merged in without duplicates; nothing on refusal or failure.
pub open spec fn spec_zone_step(acc: Seq<Seq<char>>, o: ZoneOutcomeV) -> Seq<Seq<char>> {
    match o {
        ZoneOutcomeV::Records(_) => spec_merge_unseen(acc, spec_normalized_records(o)),
        _ => acc,
    }
}

/// The finding set after a sequence of nameserver outcomes.
pub open spec fn spec_zone_fold(acc: Seq<Seq<char>>, outs: Seq<ZoneOutcomeV>) -> Seq<Seq<char>>
    decreases outs.len(),
{
    if outs.len() == 0 {
        acc
    } else {
        spec_zone_fold(spec_zone_step(acc, outs[0]), outs.drop_first())
    }
}

/// One run of the zone-transfer prober: a fixed set of nameserver tasks and
/// the merged finding set.
pub struct ZoneTransferRun {
    nameservers: usize,
    completed: usize,
    findings: Vec<String>,
}

impl ZoneTransferRun {
    /// The number of nameserver tasks of this run.
    pub fn nameservers(&self) -> (n: usize)
        ensures
            n == self.spec_nameservers(),
    {
        self.nameservers
    }

    /// The number of completed nameserver tasks.
    pub fn completed(&self) -> (n: usize)
        ensures
            n == self.spec_completed(),
    {
        self.completed
    }

    /// The merged finding set so far, in first-seen order.
    pub fn findings(&self) -> (r: &Vec<String>)
        ensures
            r.deep_view() == self.spec_findings(),
    {
        &self.findings
    }

    /// The number of nameserver tasks of this run.
    pub closed spec fn spec_nameservers(&self) -> usize {
        self.nameservers
    }

    /// The number of completed nameserver tasks.
    pub closed spec fn spec_completed(&self) -> usize {
        self.completed
    }

    /// The merged finding set.
    pub closed spec fn spec_findings(&self) -> Seq<Seq<char>> {
        self.findings.deep_view()
    }

    /// A run over the resolved nameservers, none probed yet. Failing to
    /// resolve any nameserver gives a run over zero tasks, already done,
    /// with an empty finding set.
    pub fn start(nameservers: usize) -> (r: ZoneTransferRun)
        ensures
            r.spec_nameservers() == nameservers,
            r.spec_completed() == 0,
            r.spec_findings() =~= Seq::<Seq<char>>::empty(),
    {
        ZoneTransferRun { nameservers, completed: 0, findings: Vec::new() }
    }

    /// Merges one nameserver's outcome: records contribute their normalized
    /// owner names, deduplicated; a refusal or failure contributes nothing,
    /// and the findings of the other nameservers stay untouched.
    pub fn on_transfer_outcome(&mut self, outcome: &TransferOutcome)
        requires
            old(self).spec_completed() < old(self).spec_nameservers(),
        ensures
            final (self).spec_nameservers() == old(self).spec_nameservers(),
            final (self).spec_completed() == old(self).spec_completed() + 1,
            final (self).spec_findings() == spec_zone_step(
                old(self).spec_findings(),
                outcome.deep_view(),
            ),
            !(outcome is Records) ==> final (self).spec_findings() == old(self).spec_findings(),
    {
        match outcome {
            TransferOutcome::Records(rs) => {
                let ghost rs_v = rs.deep_view();
                let mut normalized: Vec<String> = Vec::new();
                let mut i: usize = 0;
                while i < rs.len()
                    invariant
                        i <= rs@.len(),
                        rs_v == rs.deep_view(),
                        rs_v.len() == rs@.len(),
                        normalized@.len() == i,
                        forall|j: int|
                            #![trigger normalized@[j]]
                            0 <= j < i ==> normalized@[j]@ == spec_strip_trailing_dots(rs_v[j]),
                    decreases rs@.len() - i,
                {
                    proof {
                        assert(rs_v[i as int] == rs@[i as int]@);
                    }
                    let n = strip_trailing_dots(rs[i].as_str());
                    normalized.push(n);
                    i += 1;
                }
                proof {
                    assert(normalized.deep_view() =~= spec_normalized_records(outcome.deep_view()));
                }
                merge_unseen_into(&mut self.findings, &normalized);
            },
            _ => {},
        }
        self.completed = self.completed + 1;
    }

    /// True when every nameserver task has completed.
    pub fn done(&self) -> (r: bool)
        ensures
            r == (self.spec_completed() == self.spec_nameservers()),
    {
        self.completed == self.nameservers
    }
}

/// A nameserver that refuses the transfer leaves the run's finding set
/// exactly as if that nameserver had not been probed at all: the other
/// nameservers' results are unaffected, wherever in the run the refusal
/// lands.
pub proof fn lemma_refusal_contributes_nothing(
    acc: Seq<Seq<char>>,
    outs: Seq<ZoneOutcomeV>,
    i: int,
)
    requires
        0 <= i <= outs.len(),
    ensures
        spec_zone_fold(acc, outs.insert(i, ZoneOutcomeV::Refused)) == spec_zone_fold(acc, outs),
    decreases i,
{
    let ins = outs.insert(i, ZoneOutcomeV::Refused);
    if i == 0 {
        assert(ins[0] == ZoneOutcomeV::Refused);
        assert(ins.drop_first() =~= outs);
    } else {
        assert(ins[0] == outs[0]);
        assert(ins.drop_first() =~= outs.drop_first().insert(i - 1, ZoneOutcomeV::Refused));
        lemma_refusal_contributes_nothing(spec_zone_step(acc, outs[0]), outs.drop_first(), i - 1);
    }
}

} // verus!
