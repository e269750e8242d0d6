//! Mempool transactions as the database keeps them, and the order in which
//! they are loaded back.

use vstd::prelude::*;

use crate::chain::txid::merkle_input_fits;
use crate::ids::TxId;

verus! {

/// A transaction as the mempool database stores it: its id, its encoding and
/// the time it was accepted.
#[derive(Clone, Debug)]
pub struct MempoolTxData {
    pub txid: TxId,
    pub tx_bytes: Vec<u8>,
    pub timestamp_micros: u64,
}

pub struct StoredView {
    pub txid: TxId,
    pub bytes: Seq<u8>,
    pub ts: u64,
}

impl View for MempoolTxData {
    type V = StoredView;

    open spec fn view(&self) -> StoredView {
        StoredView { txid: self.txid, bytes: self.tx_bytes@, ts: self.timestamp_micros }
    }
}

impl MempoolTxData {
    pub fn new(txid: TxId, tx_bytes: Vec<u8>, timestamp_micros: u64) -> (r: MempoolTxData)
        ensures
            r@ == (StoredView { txid, bytes: tx_bytes@, ts: timestamp_micros }),
    {
        MempoolTxData { txid, tx_bytes, timestamp_micros }
    }
}

/// The views of stored records.
pub open spec fn stored_views(s: Seq<MempoolTxData>) -> Seq<StoredView> {
    s.map_values(|d: MempoolTxData| d@)
}

/// Every record's encoding is short enough to identify (see
/// [`merkle_input_fits`]).
pub open spec fn records_fit(s: Seq<StoredView>) -> bool {
    forall|k: int| 0 <= k < s.len() ==> merkle_input_fits(#[trigger] s[k].bytes.len())
}

/// Sorting keeps every record, so it keeps [`records_fit`].
pub proof fn lemma_sort_keeps_fit(s: Seq<StoredView>)
    requires
        records_fit(s),
    ensures
        records_fit(sort_by_time(s)),
{
    broadcast use vstd::seq_lib::to_multiset_contains;

    let r = sort_by_time(s);
    lemma_sort_by_time_permutes(s);
    assert forall|k: int| 0 <= k < r.len() implies merkle_input_fits(#[trigger] r[k].bytes.len()) by {
        assert(r.contains(r[k]));
        assert(r.to_multiset().count(r[k]) > 0);
        assert(s.contains(r[k]));
    }
}

/// `i` is the first position of `s` with a timestamp later than `t`.
pub open spec fn first_later(s: Seq<StoredView>, t: u64, i: int) -> bool {
    &&& 0 <= i < s.len()
    &&& s[i].ts > t
    &&& forall|k: int| 0 <= k < i ==> (#[trigger] s[k]).ts <= t
}

/// Where a record with timestamp `t` goes among `s`: before the first later
/// one, or at the end.
pub open spec fn later_pos(s: Seq<StoredView>, t: u64) -> int {
    if exists|i: int| first_later(s, t, i) {
        choose|i: int| first_later(s, t, i)
    } else {
        s.len() as int
    }
}

/// The records ordered by timestamp, those with equal timestamps in the
/// order they are given in.
pub open spec fn sort_by_time(s: Seq<StoredView>) -> Seq<StoredView>
    decreases s.len(),
{
    if s.len() == 0 {
        s
    } else {
        let r = sort_by_time(s.drop_last());
        r.insert(later_pos(r, s.last().ts), s.last())
    }
}

/// Total length of the stored encodings.
pub open spec fn stored_bytes(s: Seq<StoredView>) -> nat
    decreases s.len(),
{
    if s.len() == 0 {
        0
    } else {
        stored_bytes(s.drop_last()) + s.last().bytes.len()
    }
}

/// `s` is in timestamp order.
pub open spec fn time_sorted(s: Seq<StoredView>) -> bool {
    forall|i: int, j: int| 0 <= i <= j < s.len() ==> s[i].ts <= s[j].ts
}

/// When some record is later than `t`, there is a first one.
proof fn lemma_first_later_exists(r: Seq<StoredView>, t: u64, j: int)
    requires
        0 <= j < r.len(),
        r[j].ts > t,
    ensures
        exists|i: int| first_later(r, t, i),
    decreases j,
{
    if forall|k: int| 0 <= k < j ==> (#[trigger] r[k]).ts <= t {
        assert(first_later(r, t, j));
    } else {
        let k = choose|k: int| 0 <= k < j && !((#[trigger] r[k]).ts <= t);
        lemma_first_later_exists(r, t, k);
    }
}

/// Inserting at `later_pos` keeps a sorted sequence sorted.
proof fn lemma_insert_sorted(r: Seq<StoredView>, x: StoredView)
    requires
        time_sorted(r),
    ensures
        time_sorted(r.insert(later_pos(r, x.ts), x)),
        0 <= later_pos(r, x.ts) <= r.len(),
{
    let p = later_pos(r, x.ts);
    if exists|i: int| first_later(r, x.ts, i) {
        let c = choose|i: int| first_later(r, x.ts, i);
        assert(first_later(r, x.ts, c));
    } else {
        assert forall|i: int| 0 <= i < r.len() implies r[i].ts <= x.ts by {
            if r[i].ts > x.ts {
                lemma_first_later_exists(r, x.ts, i);
            }
        }
    }
    let q = r.insert(p, x);
    assert forall|i: int, j: int| 0 <= i <= j < q.len() implies q[i].ts <= q[j].ts by {
        if i < p {
            assert(q[i] == r[i]);
            assert(r[i].ts <= x.ts);
            if j < p {
                assert(q[j] == r[j]);
            } else if j > p {
                assert(q[j] == r[j - 1]);
            }
        } else if i == p {
            if j > p {
                assert(q[j] == r[j - 1]);
                assert(r[p].ts > x.ts);
                assert(r[p].ts <= r[j - 1].ts);
            }
        } else {
            assert(q[i] == r[i - 1]);
            assert(q[j] == r[j - 1]);
        }
    }
}

/// Ordering by time gives a sequence in timestamp order.
pub proof fn lemma_sort_by_time_sorted(s: Seq<StoredView>)
    ensures
        time_sorted(sort_by_time(s)),
        sort_by_time(s).len() == s.len(),
    decreases s.len(),
{
    if s.len() > 0 {
        lemma_sort_by_time_sorted(s.drop_last());
        lemma_insert_sorted(sort_by_time(s.drop_last()), s.last());
    }
}

/// Ordering by time keeps the records: each record occurs as often before
/// as after.
pub proof fn lemma_sort_by_time_permutes(s: Seq<StoredView>)
    ensures
        sort_by_time(s).to_multiset() == s.to_multiset(),
    decreases s.len(),
{
    broadcast use vstd::seq_lib::group_to_multiset_ensures;

    if s.len() > 0 {
        let r = sort_by_time(s.drop_last());
        lemma_sort_by_time_permutes(s.drop_last());
        lemma_sort_by_time_sorted(s.drop_last());
        lemma_insert_sorted(r, s.last());
        let p = later_pos(r, s.last().ts);
        assert(r.insert(p, s.last()) =~= r.take(p) + seq![s.last()] + r.skip(p));
        assert(r =~= r.take(p) + r.skip(p));
        vstd::seq_lib::lemma_multiset_commutative(r.take(p), seq![s.last()]);
        vstd::seq_lib::lemma_multiset_commutative(r.take(p) + seq![s.last()], r.skip(p));
        vstd::seq_lib::lemma_multiset_commutative(r.take(p), r.skip(p));
        assert(s =~= s.drop_last().push(s.last()));
    }
}

/// Inserting a record adds its length to the total.
proof fn lemma_stored_bytes_insert(s: Seq<StoredView>, i: int, x: StoredView)
    requires
        0 <= i <= s.len(),
    ensures
        stored_bytes(s.insert(i, x)) == stored_bytes(s) + x.bytes.len(),
    decreases s.len(),
{
    if i == s.len() {
        assert(s.insert(i, x).drop_last() =~= s);
    } else {
        lemma_stored_bytes_insert(s.drop_last(), i, x);
        assert(s.insert(i, x).drop_last() =~= s.drop_last().insert(i, x));
    }
}

/// The records of a prefix are no longer in all than the whole.
pub proof fn lemma_stored_bytes_prefix(s: Seq<StoredView>, i: int)
    requires
        0 <= i <= s.len(),
    ensures
        stored_bytes(s.take(i)) <= stored_bytes(s),
    decreases s.len() - i,
{
    if i < s.len() {
        lemma_stored_bytes_prefix(s, i + 1);
        assert(s.take(i + 1).drop_last() =~= s.take(i));
    } else {
        assert(s.take(i) =~= s);
    }
}

/// Ordering by time keeps the total length.
pub proof fn lemma_sort_stored_bytes(s: Seq<StoredView>)
    ensures
        stored_bytes(sort_by_time(s)) == stored_bytes(s),
    decreases s.len(),
{
    if s.len() > 0 {
        lemma_sort_stored_bytes(s.drop_last());
        lemma_sort_by_time_sorted(s.drop_last());
        let r = sort_by_time(s.drop_last());
        lemma_insert_sorted(r, s.last());
        lemma_stored_bytes_insert(r, later_pos(r, s.last().ts), s.last());
    }
}

/// Where a record with timestamp `t` goes in `v`.
fn later_position(v: &Vec<MempoolTxData>, t: u64) -> (r: usize)
    ensures
        r == later_pos(stored_views(v@), t),
        r <= v@.len(),
{
    let ghost s = stored_views(v@);
    let mut i: usize = 0;
    while i < v.len()
        invariant
            s == stored_views(v@),
            i <= v@.len(),
            forall|k: int| 0 <= k < i ==> (#[trigger] s[k]).ts <= t,
        decreases v.len() - i,
    {
        if v[i].timestamp_micros > t {
            proof {
                assert(first_later(s, t, i as int));
                let c = choose|c: int| first_later(s, t, c);
                if c < i {
                    assert(s[c].ts <= t);
                } else if c > i {
                    assert(s[i as int].ts <= t);
                }
            }
            return i;
        }
        i += 1;
    }
    i
}

/// Orders stored records by timestamp, keeping the order of records with
/// equal timestamps.
pub fn sort_by_timestamp(records: Vec<MempoolTxData>) -> (r: Vec<MempoolTxData>)
    ensures
        stored_views(r@) == sort_by_time(stored_views(records@)),
{
    let ghost all = stored_views(records@);
    let mut rest = records;
    let mut out: Vec<MempoolTxData> = Vec::new();
    let mut i: usize = 0;
    let n = rest.len();
    while rest.len() > 0
        invariant
            n == all.len(),
            i <= n,
            stored_views(rest@) == all.skip(i as int),
            stored_views(out@) == sort_by_time(all.take(i as int)),
        decreases rest.len(),
    {
        proof {
            assert(stored_views(rest@).len() == rest@.len());
            assert(all.skip(i as int).len() == rest@.len());
            assert(i < n);
            assert(stored_views(rest@)[0] == all[i as int]);
            assert(all.take(i + 1).drop_last() =~= all.take(i as int));
            assert(all.take(i + 1).last() == all[i as int]);
        }
        let ghost rest_before = rest@;
        let d = rest.remove(0);
        proof {
            assert(rest@ =~= rest_before.subrange(1, rest_before.len() as int));
            assert(stored_views(rest@) =~= stored_views(rest_before).subrange(1, rest_before.len() as int));
            assert(all.skip(i as int).subrange(1, rest_before.len() as int) =~= all.skip(i + 1));
        }
        let pos = later_position(&out, d.timestamp_micros);
        let ghost before = stored_views(out@);
        out.insert(pos, d);
        proof {
            assert(stored_views(out@) =~= before.insert(pos as int, d@));
            assert(stored_views(rest@) =~= all.skip(i + 1));
        }
        i += 1;
    }
    proof {
        assert(all.take(i as int) =~= all);
    }
    out
}

} // verus!
