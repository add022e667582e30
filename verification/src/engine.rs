//! The rename engine: applies pairs in order, fail-fast, and on a failure
//! undoes every already-applied pair in strict reverse order of application.
//!
//! The engine itself performs no filesystem call. It is a state machine: the
//! surrounding program asks `next_step` what rename to attempt, performs it,
//! and reports the result through `record`. The contracts here pin down which
//! renames are requested, in which order, and what the engine believes has
//! been applied at every point.

use vstd::prelude::*;
use crate::pair::RenamePair;
use crate::pair::SpecPair;
use crate::pair::pairs_view;

verus! {

/// The pairs of `ps` that the engine attempts, in order: every pair whose
/// two names differ. No-op pairs are dropped.
pub open spec fn nonnoop(ps: Seq<SpecPair>) -> Seq<SpecPair>
    decreases ps.len(),
{
    if ps.len() == 0 {
        Seq::empty()
    } else {
        nonnoop(ps.drop_last()) + (if ps.last().is_noop() {
            Seq::<SpecPair>::empty()
        } else {
            seq![ps.last()]
        })
    }
}

/// Extending a prefix by one pair extends its attempted pairs by that pair,
/// or by nothing when the pair is a no-op.
pub proof fn lemma_nonnoop_take_step(ps: Seq<SpecPair>, i: int)
    requires
        0 <= i < ps.len(),
    ensures
        ps[i].is_noop() ==> nonnoop(ps.take(i + 1)) == nonnoop(ps.take(i)),
        !ps[i].is_noop() ==> nonnoop(ps.take(i + 1)) == nonnoop(ps.take(i)).push(ps[i]),
{
    assert(ps.take(i + 1).drop_last() =~= ps.take(i));
    assert(ps.take(i + 1).last() == ps[i]);
    if ps[i].is_noop() {
        assert(nonnoop(ps.take(i)) + Seq::<SpecPair>::empty() =~= nonnoop(ps.take(i)));
    } else {
        assert(nonnoop(ps.take(i)) + seq![ps[i]] =~= nonnoop(ps.take(i)).push(ps[i]));
    }
}

/// When no pair is a no-op, the attempted pairs are the pair list itself,
/// in the same order.
pub proof fn lemma_nonnoop_identity(ps: Seq<SpecPair>)
    requires
        forall|i: int| 0 <= i < ps.len() ==> !(#[trigger] ps[i]).is_noop(),
    ensures
        nonnoop(ps) == ps,
    decreases ps.len(),
{
    if ps.len() > 0 {
        lemma_nonnoop_identity(ps.drop_last());
        assert(ps.drop_last() + seq![ps.last()] =~= ps);
    }
}

/// Every attempted pair has two distinct names: a no-op pair never reaches
/// the filesystem nor the applied list, wherever it stands in the input.
pub proof fn lemma_nonnoop_elements(ps: Seq<SpecPair>)
    ensures
        forall|i: int| 0 <= i < nonnoop(ps).len() ==> !(#[trigger] nonnoop(ps)[i]).is_noop(),
    decreases ps.len(),
{
    if ps.len() > 0 {
        lemma_nonnoop_elements(ps.drop_last());
        let pre = nonnoop(ps.drop_last());
        if ps.last().is_noop() {
            assert(pre + Seq::<SpecPair>::empty() =~= pre);
        } else {
            assert(forall|i: int|
                0 <= i < nonnoop(ps).len() ==> nonnoop(ps)[i] == (if i < pre.len() {
                    pre[i]
                } else {
                    ps.last()
                }));
        }
    }
}

/// A no-op pair is never contained in the attempted pairs of any list.
pub proof fn lemma_noop_never_applied(ps: Seq<SpecPair>, p: SpecPair)
    requires
        p.is_noop(),
    ensures
        !nonnoop(ps).contains(p),
{
    lemma_nonnoop_elements(ps);
}

/// A completed run over a list without no-op pairs has applied exactly the
/// pairs of the list, in input order; rollback was never entered, since
/// `record` keeps a succeeding run in the applying phase throughout.
pub proof fn lemma_completed_run_applied_all(e: &Engine)
    requires
        e.wf(),
        e.phase is Applying,
        e.idx == e.spairs().len(),
        forall|i: int| 0 <= i < e.spairs().len() ==> !(#[trigger] e.spairs()[i]).is_noop(),
    ensures
        e.sapplied() == e.spairs(),
{
    assert(e.spairs().take(e.idx as int) =~= e.spairs());
    lemma_nonnoop_identity(e.spairs());
}

/// How a run can end.
#[derive(Clone, Copy, Debug, PartialEq, Eq, Structural)]
pub enum Outcome {
    /// Every pair was applied; rollback was never entered.
    Completed,
    /// A forward rename failed and every applied pair was undone, last first.
    RolledBack,
    /// An undo rename failed: the directory is in a mixed state that cannot
    /// safely be worked on further. Unrecoverable.
    Aborted,
}

/// Where the engine stands.
pub enum Phase {
    /// Walking the pairs forward, applying each.
    Applying,
    /// A forward rename failed; undoing the applied pairs, last first.
    RollingBack,
    /// An undo rename failed.
    Aborted,
}

/// What the surrounding program must do next.
#[derive(Debug)]
pub enum EngineStep {
    /// Attempt the forward rename `from -> to`, then report through `record`.
    Apply { from: String, to: String },
    /// Attempt the undo rename `from -> to` (the reverse of an applied
    /// pair), then report through `record`.
    Undo { from: String, to: String },
    /// The run is over; no rename is pending.
    Finished { outcome: Outcome },
}

/// The engine's state over one run.
pub struct Engine {
    /// The pairs of this run, in input order.
    pub pairs: Vec<RenamePair>,
    /// In `Applying`: the next pair to attempt (no-ops already skipped).
    /// Afterwards: the pair whose forward rename failed.
    pub idx: usize,
    /// The successfully applied pairs, in order of application.
    pub applied: Vec<RenamePair>,
    /// In `RollingBack`: `applied[..undo]` still awaits undoing; the pairs
    /// after it have been undone already, in reverse order.
    pub undo: usize,
    pub phase: Phase,
}

impl Engine {
    /// The models of this run's pairs.
    pub open spec fn spairs(&self) -> Seq<SpecPair> {
        pairs_view(self.pairs@)
    }

    /// The models of the applied pairs, in order of application.
    pub open spec fn sapplied(&self) -> Seq<SpecPair> {
        pairs_view(self.applied@)
    }

    /// The engine's invariant. Central: the applied list is exactly the
    /// non-no-op prefix of the pairs walked so far, in input order.
    pub open spec fn wf(&self) -> bool {
        &&& self.idx <= self.spairs().len()
        &&& self.sapplied() == nonnoop(self.spairs().take(self.idx as int))
        &&& self.undo <= self.applied@.len()
        &&& match self.phase {
            Phase::Applying => {
                &&& self.undo == self.applied@.len()
                &&& (self.idx < self.spairs().len() ==> !self.spairs()[self.idx as int].is_noop())
            },
            Phase::RollingBack => {
                &&& self.idx < self.spairs().len()
                &&& !self.spairs()[self.idx as int].is_noop()
            },
            Phase::Aborted => true,
        }
    }
}

/// First index at or after `start` whose pair is not a no-op; skipping
/// no-ops never changes the attempted-pair prefix.
fn skip_noops(pairs: &Vec<RenamePair>, start: usize) -> (r: usize)
    requires
        start <= pairs@.len(),
    ensures
        start <= r <= pairs@.len(),
        nonnoop(pairs_view(pairs@).take(r as int)) == nonnoop(pairs_view(pairs@).take(start as int)),
        r < pairs@.len() ==> !pairs_view(pairs@)[r as int].is_noop(),
{
    let mut i: usize = start;
    while i < pairs.len() && pairs[i].is_noop()
        invariant
            start <= i <= pairs@.len(),
            nonnoop(pairs_view(pairs@).take(i as int)) == nonnoop(
                pairs_view(pairs@).take(start as int),
            ),
        decreases pairs@.len() - i,
    {
        proof {
            lemma_nonnoop_take_step(pairs_view(pairs@), i as int);
        }
        i = i + 1;
    }
    i
}

impl Engine {
    /// Starts a run over `pairs`. Nothing is applied yet; the engine stands
    /// at the first pair that actually renames.
    pub fn new(pairs: Vec<RenamePair>) -> (e: Engine)
        ensures
            e.wf(),
            e.spairs() == pairs_view(pairs@),
            e.phase is Applying,
            e.sapplied() == Seq::<SpecPair>::empty(),
    {
        let idx = skip_noops(&pairs, 0);
        let applied: Vec<RenamePair> = Vec::new();
        proof {
            assert(pairs_view(pairs@).take(0) =~= Seq::<SpecPair>::empty());
            assert(nonnoop(Seq::<SpecPair>::empty()) == Seq::<SpecPair>::empty());
            assert(pairs_view(applied@) =~= Seq::<SpecPair>::empty());
        }
        Engine { pairs, idx, applied, undo: 0, phase: Phase::Applying }
    }

    /// What to do next. Pure: asking does not advance the run.
    pub fn next_step(&self) -> (r: EngineStep)
        requires
            self.wf(),
        ensures
            self.phase is Applying && self.idx < self.spairs().len() ==> (r matches
                EngineStep::Apply { from, to } && from@ == self.spairs()[self.idx as int].from && to@
                == self.spairs()[self.idx as int].to && from@ != to@),
            self.phase is Applying && self.idx == self.spairs().len() ==> r == (EngineStep::Finished {
                outcome: Outcome::Completed,
            }) && self.sapplied() == nonnoop(self.spairs()),
            self.phase is RollingBack && self.undo > 0 ==> (r matches EngineStep::Undo { from, to }
                && from@ == self.sapplied()[self.undo - 1].to && to@ == self.sapplied()[self.undo
                - 1].from),
            self.phase is RollingBack && self.undo == 0 ==> r == (EngineStep::Finished {
                outcome: Outcome::RolledBack,
            }),
            self.phase is Aborted ==> r == (EngineStep::Finished { outcome: Outcome::Aborted }),
    {
        match self.phase {
            Phase::Applying => {
                if self.idx < self.pairs.len() {
                    let p = &self.pairs[self.idx];
                    EngineStep::Apply { from: p.from.clone(), to: p.to.clone() }
                } else {
                    proof {
                        assert(self.spairs().take(self.idx as int) =~= self.spairs());
                    }
                    EngineStep::Finished { outcome: Outcome::Completed }
                }
            },
            Phase::RollingBack => {
                if self.undo > 0 {
                    let p = &self.applied[self.undo - 1];
                    EngineStep::Undo { from: p.to.clone(), to: p.from.clone() }
                } else {
                    EngineStep::Finished { outcome: Outcome::RolledBack }
                }
            },
            Phase::Aborted => EngineStep::Finished { outcome: Outcome::Aborted },
        }
    }

    /// Reports the result of the rename that `next_step` asked for.
    ///
    /// A forward success appends the pair to the applied list and moves on;
    /// a forward failure freezes the applied list and starts rollback; an
    /// undo success retires exactly the most recently applied pending pair;
    /// an undo failure is unrecoverable.
    pub fn record(&mut self, ok: bool)
        requires
            old(self).wf(),
            (old(self).phase is Applying && old(self).idx < old(self).spairs().len()) || (old(self).phase is RollingBack
                && old(self).undo > 0),
        ensures
            final(self).wf(),
            final(self).spairs() == old(self).spairs(),
            old(self).phase is Applying && ok ==> final(self).phase is Applying
                && final(self).sapplied() == old(self).sapplied().push(
                old(self).spairs()[old(self).idx as int],
            ) && old(self).idx < final(self).idx,
            old(self).phase is Applying && !ok ==> final(self).phase is RollingBack
                && final(self).sapplied() == old(self).sapplied()
                && final(self).undo == old(self).applied@.len()
                && final(self).idx == old(self).idx,
            old(self).phase is RollingBack && ok ==> final(self).phase is RollingBack
                && final(self).sapplied() == old(self).sapplied()
                && final(self).undo == old(self).undo - 1
                && final(self).idx == old(self).idx,
            old(self).phase is RollingBack && !ok ==> final(self).phase is Aborted
                && final(self).sapplied() == old(self).sapplied()
                && final(self).undo == old(self).undo
                && final(self).idx == old(self).idx,
    {
        match self.phase {
            Phase::Applying => {
                if ok {
                    let n = self.pairs.len();
                    proof {
                        assert(self.idx < n);
                    }
                    let p = self.pairs[self.idx].clone();
                    self.applied.push(p);
                    proof {
                        lemma_nonnoop_take_step(self.spairs(), self.idx as int);
                        assert(pairs_view(self.applied@) =~= old(self).sapplied().push(
                            old(self).spairs()[old(self).idx as int],
                        ));
                    }
                    let next = skip_noops(&self.pairs, self.idx + 1);
                    self.idx = next;
                    self.undo = self.applied.len();
                } else {
                    self.phase = Phase::RollingBack;
                }
            },
            Phase::RollingBack => {
                if ok {
                    self.undo = self.undo - 1;
                } else {
                    self.phase = Phase::Aborted;
                }
            },
            Phase::Aborted => {},
        }
    }
}

} // verus!
