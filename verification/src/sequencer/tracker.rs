//! The sequencer service's bookkeeping: which duties were already
//! dispatched, the tip it last saw, and its status.

use vstd::prelude::*;

use crate::ids::Buf32;
use crate::sequencer::duty::{Duty, duty_id};

verus! {

/// Events that drive the sequencer service.
#[derive(Clone, Copy, Debug, PartialEq, Eq)]
pub enum SequencerEvent {
    /// Poll for duties and dispatch the new ones.
    Tick,
    /// Generate a block template for the current tip.
    GenerationTick,
}

/// Status of the sequencer service.
#[derive(Clone, Copy, Debug, PartialEq, Eq)]
pub struct SequencerServiceStatus {
    duties_dispatched: u64,
    active_duties: u32,
    failed_duty_count: u32,
}

impl SequencerServiceStatus {
    pub fn new(duties_dispatched: u64, active_duties: u32, failed_duty_count: u32) -> (r: SequencerServiceStatus)
        ensures
            r.spec_duties_dispatched() == duties_dispatched,
            r.spec_active_duties() == active_duties,
            r.spec_failed_duty_count() == failed_duty_count,
    {
        SequencerServiceStatus { duties_dispatched, active_duties, failed_duty_count }
    }

    pub closed spec fn spec_duties_dispatched(&self) -> u64 {
        self.duties_dispatched
    }

    pub closed spec fn spec_active_duties(&self) -> u32 {
        self.active_duties
    }

    pub closed spec fn spec_failed_duty_count(&self) -> u32 {
        self.failed_duty_count
    }

    /// Duties dispatched since the service started.
    pub fn duties_dispatched(&self) -> (r: u64)
        ensures
            r == self.spec_duties_dispatched(),
    {
        self.duties_dispatched
    }

    /// Duties being worked on.
    pub fn active_duties(&self) -> (r: u32)
        ensures
            r == self.spec_active_duties(),
    {
        self.active_duties
    }

    /// Duties that failed.
    pub fn failed_duty_count(&self) -> (r: u32)
        ensures
            r == self.spec_failed_duty_count(),
    {
        self.failed_duty_count
    }
}

/// The identifiers of the duties `ds`.
pub open spec fn ids_of(ds: Seq<Duty>) -> Set<Buf32> {
    Set::new(|x: Buf32| exists|i: int| 0 <= i < ds.len() && duty_id(#[trigger] ds[i]) == x)
}

/// The duties of `ds` that are dispatched when `seen` holds the identifiers
/// already dispatched: those whose identifier is neither in `seen` nor that of
/// an earlier duty of `ds`, in order.
pub open spec fn fresh_duties(seen: Set<Buf32>, ds: Seq<Duty>) -> Seq<Duty>
    decreases ds.len(),
{
    if ds.len() == 0 {
        Seq::empty()
    } else {
        let prev = fresh_duties(seen, ds.drop_last());
        if seen.union(ids_of(ds.drop_last())).contains(duty_id(ds.last())) {
            prev
        } else {
            prev.push(ds.last())
        }
    }
}

/// Which duties were dispatched, how many, and the tip last seen.
pub struct DutyTracker {
    seen_duties: Vec<Buf32>,
    duties_dispatched: u64,
    last_seen_tip: Option<Buf32>,
}

impl DutyTracker {
    /// The identifiers of the duties dispatched and not failed since.
    pub closed spec fn seen(&self) -> Set<Buf32> {
        Set::new(|x: Buf32| self.seen_duties@.contains(x))
    }

    pub closed spec fn dispatched(&self) -> u64 {
        self.duties_dispatched
    }

    pub closed spec fn tip(&self) -> Option<Buf32> {
        self.last_seen_tip
    }

    /// No identifier is recorded twice.
    pub closed spec fn wf(&self) -> bool {
        self.seen_duties@.no_duplicates()
    }

    /// A tracker that has dispatched nothing and seen no tip.
    pub fn new() -> (r: DutyTracker)
        ensures
            r.wf(),
            r.seen() == Set::<Buf32>::empty(),
            r.dispatched() == 0,
            r.tip() is None,
    {
        let r = DutyTracker { seen_duties: Vec::new(), duties_dispatched: 0, last_seen_tip: None };
        assert(r.seen() =~= Set::<Buf32>::empty());
        r
    }

    /// Whether a duty with identifier `id` was dispatched and has not failed.
    pub fn has_seen(&self, id: &Buf32) -> (r: bool)
        ensures
            r == self.seen().contains(*id),
    {
        let mut i: usize = 0;
        while i < self.seen_duties.len()
            invariant
                i <= self.seen_duties@.len(),
                forall|j: int| 0 <= j < i ==> self.seen_duties@[j] != *id,
            decreases self.seen_duties.len() - i,
        {
            if self.seen_duties[i].same(id) {
                assert(self.seen_duties@[i as int] == *id);
                return true;
            }
            i += 1;
        }
        false
    }

    /// Forgets the duties that failed, so that they are dispatched again
    /// when they come back.
    pub fn forget_failed(&mut self, failed: &[Buf32])
        requires
            old(self).wf(),
        ensures
            final(self).wf(),
            final(self).seen() == old(self).seen().difference(Set::new(|x: Buf32| failed@.contains(x))),
            final(self).dispatched() == old(self).dispatched(),
            final(self).tip() == old(self).tip(),
    {
        let ghost old_seen = self.seen_duties@;
        let ghost failed_set = Set::new(|x: Buf32| failed@.contains(x));
        let mut kept: Vec<Buf32> = Vec::new();
        let mut i: usize = 0;
        while i < self.seen_duties.len()
            invariant
                old_seen == self.seen_duties@,
                old_seen.no_duplicates(),
                i <= old_seen.len(),
                kept@.no_duplicates(),
                forall|x: Buf32| kept@.contains(x) <==> old_seen.take(i as int).contains(x) && !failed@.contains(x),
            decreases self.seen_duties.len() - i,
        {
            let id = self.seen_duties[i];
            let mut hit = false;
            let mut k: usize = 0;
            while k < failed.len()
                invariant
                    k <= failed@.len(),
                    hit <==> exists|j: int| 0 <= j < k && failed@[j] == id,
                decreases failed.len() - k,
            {
                if failed[k].same(&id) {
                    hit = true;
                }
                k += 1;
            }
            assert(hit == failed@.contains(id));
            let ghost before = kept@;
            proof {
                assert(old_seen.take(i + 1) =~= old_seen.take(i as int).push(id));
                lemma_push_contains(old_seen.take(i as int), id);
                lemma_no_dup_prefix(old_seen, i as int);
            }
            if !hit {
                kept.push(id);
                proof {
                    lemma_push_contains(before, id);
                }
            }
            i += 1;
        }
        assert(old_seen.take(old_seen.len() as int) =~= old_seen);
        self.seen_duties = kept;
        proof {
            assert(self.seen() =~= Set::new(|x: Buf32| old_seen.contains(x)).difference(failed_set));
        }
    }

    /// Dispatches the duties that are new: each whose identifier was neither
    /// dispatched before nor that of an earlier duty of `duties`. Returns them
    /// in order, records their identifiers and counts them.
    pub fn dispatch(&mut self, duties: Vec<Duty>) -> (r: Vec<Duty>)
        requires
            old(self).wf(),
            old(self).dispatched() + fresh_duties(old(self).seen(), duties@).len() <= u64::MAX,
        ensures
            final(self).wf(),
            r@ == fresh_duties(old(self).seen(), duties@),
            final(self).seen() == old(self).seen().union(ids_of(duties@)),
            final(self).dispatched() == old(self).dispatched() + r@.len(),
            final(self).tip() == old(self).tip(),
    {
        let ghost ds = duties@;
        let ghost seen0 = self.seen();
        let ghost count0 = self.duties_dispatched;
        let n = duties.len();
        let mut rest = duties;
        let mut out: Vec<Duty> = Vec::new();
        let mut i: usize = 0;
        while rest.len() > 0
            invariant
                self.wf(),
                rest@ == ds.skip(i as int),
                ds.len() == n,
                i <= ds.len(),
                out@ == fresh_duties(seen0, ds.take(i as int)),
                self.seen() == seen0.union(ids_of(ds.take(i as int))),
                self.duties_dispatched == count0 + out@.len(),
                count0 + fresh_duties(seen0, ds).len() <= u64::MAX,
                self.last_seen_tip == old(self).last_seen_tip,
            decreases rest.len(),
        {
            let ghost pre = ds.take(i as int);
            proof {
                assert(ds.take(i + 1).drop_last() =~= pre);
                assert(rest@[0] == ds[i as int]);
                lemma_fresh_prefix_len(seen0, ds, i + 1);
            }
            let d = rest.remove(0);
            let id = d.generate_id();
            if self.has_seen(&id) {
                proof {
                    assert(out@ == fresh_duties(seen0, ds.take(i + 1)));
                    lemma_ids_of_push(pre, d);
                    assert(ds.take(i + 1) =~= pre.push(d));
                    assert(self.seen() =~= seen0.union(ids_of(ds.take(i + 1))));
                }
            } else {
                let ghost before = self.seen_duties@;
                let ghost seen_before = self.seen();
                proof {
                    assert(!self.seen_duties@.contains(id));
                    lemma_push_contains(before, id);
                    assert(forall|x: Buf32| seen_before.contains(x) <==> before.contains(x));
                }
                self.seen_duties.push(id);
                self.duties_dispatched = self.duties_dispatched + 1;
                out.push(d);
                proof {
                    assert(forall|x: Buf32| self.seen().contains(x) <==> before.push(id).contains(x));
                    assert(self.seen() =~= seen_before.insert(id));
                    assert(ds.take(i + 1) =~= pre.push(d));
                    lemma_ids_of_push(pre, d);
                    assert(self.seen() =~= seen0.union(ids_of(ds.take(i + 1))));
                }
            }
            proof {
                assert(rest@ =~= ds.skip(i + 1));
            }
            i += 1;
        }
        proof {
            assert(ds.take(i as int) =~= ds);
        }
        out
    }

    /// A tick: forgets the failed duties, then dispatches the new ones among
    /// the polled `duties`.
    pub fn process_tick(&mut self, failed: &[Buf32], duties: Vec<Duty>) -> (r: Vec<Duty>)
        requires
            old(self).wf(),
            old(self).dispatched() + fresh_duties(
                old(self).seen().difference(Set::new(|x: Buf32| failed@.contains(x))),
                duties@,
            ).len() <= u64::MAX,
        ensures
            final(self).wf(),
            r@ == fresh_duties(old(self).seen().difference(Set::new(|x: Buf32| failed@.contains(x))), duties@),
            final(self).seen() == old(self).seen().difference(Set::new(|x: Buf32| failed@.contains(x))).union(
                ids_of(duties@),
            ),
            final(self).dispatched() == old(self).dispatched() + r@.len(),
    {
        self.forget_failed(failed);
        self.dispatch(duties)
    }

    /// Records the tip a generation tick produced; returns whether it
    /// differs from the tip seen before.
    pub fn on_generation_tick(&mut self, generated_tip: Option<Buf32>) -> (changed: bool)
        ensures
            final(self).tip() == generated_tip,
            changed == (old(self).tip() != generated_tip),
            final(self).seen() == old(self).seen(),
            final(self).dispatched() == old(self).dispatched(),
            final(self).wf() == old(self).wf(),
    {
        let changed = match (&self.last_seen_tip, &generated_tip) {
            (None, None) => false,
            (Some(a), Some(b)) => !a.same(b),
            _ => true,
        };
        self.last_seen_tip = generated_tip;
        changed
    }

    /// The service status, with the counts of active and failed duties kept
    /// by the duty workers.
    pub fn status(&self, active_duties: u32, failed_duty_count: u32) -> (r: SequencerServiceStatus)
        ensures
            r.spec_duties_dispatched() == self.dispatched(),
            r.spec_active_duties() == active_duties,
            r.spec_failed_duty_count() == failed_duty_count,
    {
        SequencerServiceStatus::new(self.duties_dispatched, active_duties, failed_duty_count)
    }
}

/// An item is in a sequence with `v` pushed when it is `v` or was there.
pub proof fn lemma_push_contains<A>(s: Seq<A>, v: A)
    ensures
        forall|x: A| #[trigger] s.push(v).contains(x) <==> s.contains(x) || x == v,
{
    assert forall|x: A| #[trigger] s.push(v).contains(x) <==> s.contains(x) || x == v by {
        if s.push(v).contains(x) {
            let i = choose|i: int| 0 <= i < s.push(v).len() && s.push(v)[i] == x;
            if i < s.len() {
                assert(s[i] == x);
            }
        }
        if s.contains(x) {
            let i = choose|i: int| 0 <= i < s.len() && s[i] == x;
            assert(s.push(v)[i] == x);
        }
        if x == v {
            assert(s.push(v)[s.len() as int] == x);
        }
    }
}

/// In a sequence without duplicates, an item is not among those before it,
/// and a prefix has no duplicates.
pub proof fn lemma_no_dup_prefix<A>(s: Seq<A>, i: int)
    requires
        s.no_duplicates(),
        0 <= i < s.len(),
    ensures
        !s.take(i).contains(s[i]),
        s.take(i + 1).no_duplicates(),
{
    if s.take(i).contains(s[i]) {
        let j = choose|j: int| 0 <= j < s.take(i).len() && s.take(i)[j] == s[i];
        assert(s[j] == s[i]);
    }
}

/// Adding a duty adds its identifier.
pub proof fn lemma_ids_of_push(ds: Seq<Duty>, d: Duty)
    ensures
        ids_of(ds.push(d)) == ids_of(ds).insert(duty_id(d)),
{
    let p = ds.push(d);
    assert forall|x: Buf32| ids_of(p).contains(x) <==> ids_of(ds).insert(duty_id(d)).contains(x) by {
        if ids_of(p).contains(x) {
            let i = choose|i: int| 0 <= i < p.len() && duty_id(#[trigger] p[i]) == x;
            if i < ds.len() {
                assert(ds[i] == p[i]);
            }
        }
        if ids_of(ds).contains(x) {
            let i = choose|i: int| 0 <= i < ds.len() && duty_id(#[trigger] ds[i]) == x;
            assert(p[i] == ds[i]);
        }
        if x == duty_id(d) {
            assert(p[ds.len() as int] == d);
        }
    }
    assert(ids_of(p) =~= ids_of(ds).insert(duty_id(d)));
}

/// The duties dispatched from a prefix are no more than those from the
/// whole.
pub proof fn lemma_fresh_prefix_len(seen: Set<Buf32>, ds: Seq<Duty>, n: int)
    requires
        0 <= n <= ds.len(),
    ensures
        fresh_duties(seen, ds.take(n)).len() <= fresh_duties(seen, ds).len(),
    decreases ds.len() - n,
{
    if n < ds.len() {
        lemma_fresh_prefix_len(seen, ds, n + 1);
        assert(ds.take(n + 1).drop_last() =~= ds.take(n));
    } else {
        assert(ds.take(n) =~= ds);
    }
}

/// Duties that were just dispatched are not dispatched again: polling the
/// same duties on the next tick dispatches nothing.
pub proof fn lemma_dispatch_once(seen: Set<Buf32>, ds: Seq<Duty>)
    ensures
        fresh_duties(seen.union(ids_of(ds)), ds) == Seq::<Duty>::empty(),
    decreases ds.len(),
{
    if ds.len() > 0 {
        let pre = ds.drop_last();
        let s = seen.union(ids_of(ds));
        lemma_dispatch_once(seen, pre);
        assert forall|x: Buf32| ids_of(pre).contains(x) implies ids_of(ds).contains(x) by {
            let i = choose|i: int| 0 <= i < pre.len() && duty_id(#[trigger] pre[i]) == x;
            assert(ds[i] == pre[i]);
        }
        lemma_fresh_mono(seen.union(ids_of(pre)), s, pre);
        assert(ds[ds.len() - 1] == ds.last());
        assert(ids_of(ds).contains(duty_id(ds.last())));
        assert(s.union(ids_of(pre)).contains(duty_id(ds.last())));
    }
}

/// With more identifiers already seen, no more duties are dispatched: if
/// none is dispatched with the smaller set, none is with the larger.
pub proof fn lemma_fresh_mono(small: Set<Buf32>, big: Set<Buf32>, ds: Seq<Duty>)
    requires
        small.subset_of(big),
        fresh_duties(small, ds) == Seq::<Duty>::empty(),
    ensures
        fresh_duties(big, ds) == Seq::<Duty>::empty(),
    decreases ds.len(),
{
    if ds.len() > 0 {
        let pre = ds.drop_last();
        let prev = fresh_duties(small, pre);
        if !small.union(ids_of(pre)).contains(duty_id(ds.last())) {
            assert(fresh_duties(small, ds) == prev.push(ds.last()));
            assert(fresh_duties(small, ds).len() > 0);
        }
        assert(prev == Seq::<Duty>::empty());
        lemma_fresh_mono(small, big, pre);
    }
}

/// A duty whose failure was reported is dispatched again when it is polled
/// again.
pub proof fn lemma_failed_duty_redispatched(seen: Set<Buf32>, d: Duty)
    ensures
        fresh_duties(seen.remove(duty_id(d)), seq![d]) == seq![d],
{
    let ds = seq![d];
    let s = seen.remove(duty_id(d));
    assert(ds.drop_last() =~= Seq::<Duty>::empty());
    assert(ids_of(Seq::<Duty>::empty()) =~= Set::<Buf32>::empty());
    assert(fresh_duties(s, Seq::<Duty>::empty()) == Seq::<Duty>::empty());
    assert(ds.last() == d);
    assert(!s.union(ids_of(ds.drop_last())).contains(duty_id(d)));
    assert(Seq::<Duty>::empty().push(d) =~= ds);
}

} // verus!
