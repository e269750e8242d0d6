//! Reading transactions back from their canonical encoding.
//!
//! Each reader takes the bytes and a position. When it succeeds, the value it
//! returns is encoded at that position and the returned position follows the
//! encoding; and when any value is encoded at the position, the reader
//! succeeds with that value. Together: a reader recognises exactly the
//! encodings, and reads each back to the value it encodes.

use vstd::prelude::*;

use crate::chain::encoding::{
    lemma_le_bytes_len, concat_map, enc_account, enc_buf32, enc_bytes, enc_claim, enc_constraints, enc_effects, enc_list,
    enc_message_entry, enc_operation, enc_opt_bytes_list, enc_opt_claims, enc_opt_u64, enc_payload,
    enc_proof_state, enc_proofs, enc_sent, enc_tx, enc_tx_data, enc_u32, enc_u64, enc_update_data, le_bytes,
};
use crate::chain::transaction::{
    AccumulatorClaim, GamTxPayload, MessageEntry, MessageEntryView, OLTransaction, OLTransactionData,
    OLTransactionDataView, OLTransactionView, SauTxLedgerRefs, SauTxOperationData, SauTxOperationDataView,
    SauTxPayload, SauTxProofState, SauTxUpdateData, SauTxUpdateDataView, SentMessage, SentMessageView,
    TransactionPayload, TransactionPayloadView, TxConstraints, TxEffects, TxProofs, TxProofsView,
    bytes_list_view, messages_view, opt_bytes_list_view, opt_claims_view, sent_view,
};
use crate::ids::{AccountId, Buf32};

verus! {

broadcast use {vstd::array::group_array_axioms, lemma_le_bytes_len};

/// `e` occurs in `s` at `pos`.
pub open spec fn at(s: Seq<u8>, pos: int, e: Seq<u8>) -> bool {
    0 <= pos && pos + e.len() <= s.len() && s.subrange(pos, pos + e.len()) == e
}

/// Two pieces occur one after the other exactly when their concatenation does.
pub proof fn lemma_at_concat(s: Seq<u8>, pos: int, a: Seq<u8>, b: Seq<u8>)
    ensures
        at(s, pos, a + b) <==> at(s, pos, a) && at(s, pos + a.len(), b),
{
    if at(s, pos, a + b) {
        let w = s.subrange(pos, pos + a.len() + b.len());
        assert(w == a + b);
        assert(s.subrange(pos, pos + a.len()) =~= w.subrange(0, a.len() as int));
        assert(w.subrange(0, a.len() as int) =~= a);
        assert(s.subrange(pos + a.len(), pos + a.len() + b.len()) =~= w.subrange(
            a.len() as int,
            (a.len() + b.len()) as int,
        ));
        assert(w.subrange(a.len() as int, (a.len() + b.len()) as int) =~= b);
    }
    if at(s, pos, a) && at(s, pos + a.len(), b) {
        assert(s.subrange(pos, pos + (a + b).len()) =~= a + b);
    }
}

/// The value of little-endian bytes.
pub open spec fn le_value(s: Seq<u8>) -> nat
    decreases s.len(),
{
    if s.len() == 0 {
        0
    } else {
        s[0] as nat + 256 * le_value(s.skip(1))
    }
}

pub open spec fn pow256(n: nat) -> nat
    decreases n,
{
    if n == 0 {
        1
    } else {
        256 * pow256((n - 1) as nat)
    }
}

/// Bytes are the encoding of their own value.
pub proof fn lemma_le_bytes_of_value(s: Seq<u8>)
    ensures
        le_bytes(le_value(s), s.len()) == s,
        le_value(s) < pow256(s.len()),
    decreases s.len(),
{
    if s.len() > 0 {
        let w = le_value(s.skip(1));
        lemma_le_bytes_of_value(s.skip(1));
        let v = le_value(s);
        assert(v == s[0] as nat + 256 * w);
        vstd::arithmetic::div_mod::lemma_fundamental_div_mod_converse(v as int, 256, w as int, s[0] as int);
        assert(v % 256 == s[0]);
        assert(v / 256 == w);
        assert(le_bytes(v, s.len()) =~= seq![s[0]] + s.skip(1));
        assert(seq![s[0]] + s.skip(1) =~= s);
        assert(v < pow256(s.len())) by (nonlinear_arith)
            requires
                v == s[0] as nat + 256 * w,
                w < pow256((s.len() - 1) as nat),
                s[0] < 256,
                pow256(s.len()) == 256 * pow256((s.len() - 1) as nat),
        ;
    }
}

/// The value of the encoding of a small enough number is the number.
pub proof fn lemma_le_value_of_bytes(x: nat, n: nat)
    requires
        x < pow256(n),
    ensures
        le_value(le_bytes(x, n)) == x,
    decreases n,
{
    lemma_le_bytes_len(x, n);
    if n > 0 {
        let s = le_bytes(x, n);
        assert(x / 256 < pow256((n - 1) as nat)) by (nonlinear_arith)
            requires
                x < pow256(n),
                pow256(n) == 256 * pow256((n - 1) as nat),
        ;
        lemma_le_value_of_bytes(x / 256, (n - 1) as nat);
        assert(s.skip(1) =~= le_bytes(x / 256, (n - 1) as nat));
        assert(s[0] == (x % 256) as u8);
        assert(x == (x % 256) + 256 * (x / 256)) by (nonlinear_arith);
    } else {
        assert(x == 0);
    }
}

pub proof fn lemma_pow256_facts()
    ensures
        pow256(4) == 0x1_0000_0000,
        pow256(8) == 0x1_0000_0000_0000_0000,
{
    reveal_with_fuel(pow256, 9);
}

/// Reads the little-endian number of `n` bytes at `pos`.
fn read_le(b: &[u8], pos: usize, n: usize) -> (r: Option<u64>)
    requires
        n == 4 || n == 8,
    ensures
        r matches Some(v) ==> at(b@, pos as int, le_bytes(v as nat, n as nat)) && v < pow256(n as nat),
        forall|y: nat| y < pow256(n as nat) && #[trigger] at(b@, pos as int, le_bytes(y, n as nat)) ==> r == Some(
            y as u64,
        ),
{
    proof {
        lemma_pow256_facts();
        assert forall|y: nat| #[trigger] le_bytes(y, n as nat).len() == n by {
            lemma_le_bytes_len(y, n as nat);
        }
    }
    let blen = b.len();
    if pos > blen || n > blen - pos {
        return None;
    }
    let ghost s = b@.subrange(pos as int, pos + n);
    let mut v: u64 = 0;
    let mut i: usize = n;
    while i > 0
        invariant
            n == 4 || n == 8,
            pos + n <= b@.len(),
            b@.len() == blen,
            s == b@.subrange(pos as int, pos + n),
            i <= n,
            v as nat == le_value(s.skip(i as int)),
            v < pow256((n - i) as nat),
            pow256(8) == 0x1_0000_0000_0000_0000,
        decreases i,
    {
        let ghost t = s.skip(i - 1);
        proof {
            assert(t.skip(1) =~= s.skip(i as int));
            assert(t[0] == b@[pos + i - 1]);
            lemma_pow_mono((n - i) as nat, 7);
        }
        let byte = b[pos + i - 1];
        assert(v * 256 + byte < pow256((n - i + 1) as nat)) by (nonlinear_arith)
            requires
                v < pow256((n - i) as nat),
                byte < 256,
                pow256((n - i + 1) as nat) == 256 * pow256((n - i) as nat),
        ;
        assert(v * 256 + byte < 0x1_0000_0000_0000_0000) by {
            lemma_pow_mono((n - i + 1) as nat, 8);
        }
        v = v * 256 + byte as u64;
        i -= 1;
    }
    proof {
        assert(s.skip(0) =~= s);
        lemma_le_bytes_of_value(s);
        assert forall|y: nat| y < pow256(n as nat) && #[trigger] at(b@, pos as int, le_bytes(y, n as nat)) implies Some(
            v,
        ) == Some(y as u64) by {
            lemma_le_value_of_bytes(y, n as nat);
        }
    }
    Some(v)
}

/// `pow256` grows with its exponent.
pub proof fn lemma_pow_mono(a: nat, b: nat)
    requires
        a <= b,
    ensures
        pow256(a) <= pow256(b),
        pow256(a) > 0,
    decreases b,
{
    if a < b {
        lemma_pow_mono(a, (b - 1) as nat);
    } else if a > 0 {
        lemma_pow_mono((a - 1) as nat, (a - 1) as nat);
    }
}

/// Reads a `u64`.
pub fn parse_u64(b: &[u8], pos: usize) -> (r: Option<(u64, usize)>)
    ensures
        r matches Some((x, p)) ==> at(b@, pos as int, enc_u64(x)) && p == pos + 8,
        forall|y: u64| #[trigger] at(b@, pos as int, enc_u64(y)) ==> r == Some((y, (pos + 8) as usize)),
{
    proof {
        lemma_pow256_facts();
        lemma_le_bytes_len(0, 8);
    }
    let blen = b.len();
    match read_le(b, pos, 8) {
        Some(v) => {
            proof {
                lemma_le_bytes_len(v as nat, 8);
                assert(pos + 8 <= blen);
                assert forall|y: u64| #[trigger] at(b@, pos as int, enc_u64(y)) implies Some((v, (pos + 8) as usize))
                    == Some((y, (pos + 8) as usize)) by {
                    assert(at(b@, pos as int, le_bytes(y as nat, 8)));
                }
            }
            Some((v, pos + 8))
        },
        None => {
            proof {
                assert forall|y: u64| #[trigger] at(b@, pos as int, enc_u64(y)) implies false by {
                    assert(at(b@, pos as int, le_bytes(y as nat, 8)));
                }
            }
            None
        },
    }
}


/// Reads a `u32`.
pub fn parse_u32(b: &[u8], pos: usize) -> (r: Option<(u32, usize)>)
    ensures
        r matches Some((x, p)) ==> at(b@, pos as int, enc_u32(x)) && p == pos + 4,
        forall|y: u32| #[trigger] at(b@, pos as int, enc_u32(y)) ==> r == Some((y, (pos + 4) as usize)),
{
    proof {
        lemma_pow256_facts();
    }
    let blen = b.len();
    match read_le(b, pos, 4) {
        Some(v) => {
            proof {
                lemma_le_bytes_len(v as nat, 4);
                assert(pos + 4 <= blen);
                assert forall|y: u32| #[trigger] at(b@, pos as int, enc_u32(y)) implies Some(
                    (v as u32, (pos + 4) as usize),
                ) == Some((y, (pos + 4) as usize)) by {
                    assert(at(b@, pos as int, le_bytes(y as nat, 4)));
                }
            }
            Some((v as u32, pos + 4))
        },
        None => {
            proof {
                assert forall|y: u32| #[trigger] at(b@, pos as int, enc_u32(y)) implies false by {
                    assert(at(b@, pos as int, le_bytes(y as nat, 4)));
                }
            }
            None
        },
    }
}

/// Reads one byte.
pub fn parse_byte(b: &[u8], pos: usize) -> (r: Option<(u8, usize)>)
    ensures
        r matches Some((x, p)) ==> at(b@, pos as int, seq![x]) && p == pos + 1,
        forall|y: u8| #[trigger] at(b@, pos as int, seq![y]) ==> r == Some((y, (pos + 1) as usize)),
{
    if pos < b.len() {
        let x = b[pos];
        proof {
            assert(b@.subrange(pos as int, pos + 1) =~= seq![x]);
            assert forall|y: u8| #[trigger] at(b@, pos as int, seq![y]) implies x == y by {
                assert(b@.subrange(pos as int, pos + 1)[0] == y);
            }
        }
        Some((x, pos + 1))
    } else {
        None
    }
}

/// Reads 32 bytes.
pub fn parse_array32(b: &[u8], pos: usize) -> (r: Option<([u8; 32], usize)>)
    ensures
        r matches Some((x, p)) ==> at(b@, pos as int, x@) && p == pos + 32,
        forall|y: [u8; 32]| #[trigger] at(b@, pos as int, y@) ==> r == Some((y, (pos + 32) as usize)),
{
    let blen = b.len();
    if pos > blen || 32 > blen - pos {
        return None;
    }
    let mut a = [0u8; 32];
    let mut i: usize = 0;
    while i < 32
        invariant
            i <= 32,
            pos + 32 <= b@.len(),
            b@.len() == blen,
            forall|k: int| 0 <= k < i ==> a[k] == b@[pos + k],
        decreases 32 - i,
    {
        a[i] = b[pos + i];
        i += 1;
    }
    proof {
        assert(b@.subrange(pos as int, pos + 32) =~= a@);
        assert forall|y: [u8; 32]| #[trigger] at(b@, pos as int, y@) implies a == y by {
            assert forall|k: int| 0 <= k < 32 implies a[k] == y[k] by {
                assert(b@.subrange(pos as int, pos + 32)[k] == y@[k]);
            }
            assert(a =~= y);
        }
    }
    Some((a, pos + 32))
}

/// Reads a length-prefixed byte string.
pub fn parse_bytes(b: &[u8], pos: usize) -> (r: Option<(Vec<u8>, usize)>)
    ensures
        r matches Some((x, p)) ==> at(b@, pos as int, enc_bytes(x@)) && p == pos + enc_bytes(x@).len(),
        forall|y: Seq<u8>| #[trigger] at(b@, pos as int, enc_bytes(y)) ==> (r matches Some((x, p)) && x@ == y && p
            == pos + enc_bytes(y).len()),
{
    let blen = b.len();
    proof {
        lemma_pow256_facts();
        assert forall|y: Seq<u8>| #[trigger] at(b@, pos as int, enc_bytes(y)) implies at(
            b@,
            pos as int,
            le_bytes(y.len(), 8),
        ) && at(b@, pos + 8, y) && y.len() < pow256(8) by {
            lemma_le_bytes_len(y.len(), 8);
            lemma_at_concat(b@, pos as int, le_bytes(y.len(), 8), y);
        }
    }
    let n = match read_le(b, pos, 8) {
        Some(n) => n,
        None => {
            return None;
        },
    };
    proof {
        lemma_le_bytes_len(n as nat, 8);
    }
    let start = pos + 8;
    if n > (blen - start) as u64 {
        proof {
            assert forall|y: Seq<u8>| #[trigger] at(b@, pos as int, enc_bytes(y)) implies false by {
                assert(at(b@, pos as int, le_bytes(y.len(), 8)));
            }
        }
        return None;
    }
    let n = n as usize;
    let mut out: Vec<u8> = Vec::new();
    let mut i: usize = 0;
    while i < n
        invariant
            start + n <= b@.len(),
            b@.len() == blen,
            i <= n,
            out@ == b@.subrange(start as int, start + i),
        decreases n - i,
    {
        out.push(b[start + i]);
        proof {
            assert(b@.subrange(start as int, start + i + 1) =~= b@.subrange(start as int, start + i).push(
                b@[start + i],
            ));
        }
        i += 1;
    }
    proof {
        lemma_at_concat(b@, pos as int, le_bytes(n as nat, 8), out@);
        assert forall|y: Seq<u8>| #[trigger] at(b@, pos as int, enc_bytes(y)) implies out@ == y by {
            assert(at(b@, pos as int, le_bytes(y.len(), 8)));
        }
    }
    Some((out, start + n))
}

/// Reads an optional `u64`.
pub fn parse_opt_u64(b: &[u8], pos: usize) -> (r: Option<(Option<u64>, usize)>)
    ensures
        r matches Some((x, p)) ==> at(b@, pos as int, enc_opt_u64(x)) && p == pos + enc_opt_u64(x).len(),
        forall|y: Option<u64>| #[trigger] at(b@, pos as int, enc_opt_u64(y)) ==> r == Some(
            (y, (pos + enc_opt_u64(y).len()) as usize),
        ),
{
    proof {
        assert forall|y: Option<u64>| #[trigger] at(b@, pos as int, enc_opt_u64(y)) implies at(
            b@,
            pos as int,
            seq![if y is Some { 1u8 } else { 0u8 }],
        ) && (y matches Some(v) ==> at(b@, pos + 1, enc_u64(v))) by {
            match y {
                None => {},
                Some(v) => {
                    lemma_at_concat(b@, pos as int, seq![1u8], enc_u64(v));
                },
            }
        }
    }
    let (tag, p) = match parse_byte(b, pos) {
        Some(t) => t,
        None => {
            return None;
        },
    };
    if tag == 0 {
        proof {
            assert(seq![0u8] =~= enc_opt_u64(None));
        }
        Some((None, p))
    } else if tag == 1 {
        match parse_u64(b, p) {
            Some((v, p2)) => {
                proof {
                    lemma_at_concat(b@, pos as int, seq![1u8], enc_u64(v));
                    lemma_le_bytes_len(v as nat, 8);
                }
                Some((Some(v), p2))
            },
            None => None,
        }
    } else {
        None
    }
}


/// Four pieces occur one after the other exactly when their concatenation
/// does.
pub proof fn lemma_at_concat4(s: Seq<u8>, pos: int, a: Seq<u8>, b: Seq<u8>, c: Seq<u8>, d: Seq<u8>)
    ensures
        at(s, pos, a + b + c + d) <==> at(s, pos, a) && at(s, pos + a.len(), b) && at(
            s,
            pos + a.len() + b.len(),
            c,
        ) && at(s, pos + a.len() + b.len() + c.len(), d),
{
    lemma_at_concat(s, pos, a + b + c, d);
    lemma_at_concat(s, pos, a + b, c);
    lemma_at_concat(s, pos, a, b);
}

/// Three pieces occur one after the other exactly when their concatenation
/// does.
pub proof fn lemma_at_concat3(s: Seq<u8>, pos: int, a: Seq<u8>, b: Seq<u8>, c: Seq<u8>)
    ensures
        at(s, pos, a + b + c) <==> at(s, pos, a) && at(s, pos + a.len(), b) && at(s, pos + a.len() + b.len(), c),
{
    lemma_at_concat(s, pos, a + b, c);
    lemma_at_concat(s, pos, a, b);
}

/// One more item adds its encoding at the end.
pub proof fn lemma_concat_map_push<T>(s: Seq<T>, f: spec_fn(T) -> Seq<u8>, x: T)
    ensures
        concat_map(s.push(x), f) == concat_map(s, f) + f(x),
{
    assert(s.push(x).drop_last() =~= s);
    assert(s.push(x).last() == x);
}

/// The encoding of a concatenation is the concatenation of the encodings.
pub proof fn lemma_concat_map_append<T>(a: Seq<T>, c: Seq<T>, f: spec_fn(T) -> Seq<u8>)
    ensures
        concat_map(a + c, f) == concat_map(a, f) + concat_map(c, f),
    decreases c.len(),
{
    if c.len() == 0 {
        assert(a + c =~= a);
        assert(concat_map(a, f) + concat_map(c, f) =~= concat_map(a, f));
    } else {
        lemma_concat_map_append(a, c.drop_last(), f);
        assert((a + c).drop_last() =~= a + c.drop_last());
        assert((a + c).last() == c.last());
        assert(concat_map(a, f) + concat_map(c.drop_last(), f) + f(c.last()) =~= concat_map(a, f) + (concat_map(
            c.drop_last(),
            f,
        ) + f(c.last())));
    }
}

/// With every item's encoding nonempty, the encoding is at least as long as
/// the list.
pub proof fn lemma_concat_map_len<T>(s: Seq<T>, f: spec_fn(T) -> Seq<u8>)
    requires
        forall|x: T| (#[trigger] f(x)).len() >= 1,
    ensures
        concat_map(s, f).len() >= s.len(),
    decreases s.len(),
{
    if s.len() > 0 {
        lemma_concat_map_len(s.drop_last(), f);
        assert(f(s.last()).len() >= 1);
    }
}

/// Where the encoding of a list occurs and its first `i` items are known,
/// the next item's encoding follows theirs.
pub proof fn lemma_list_item_at<T>(b: Seq<u8>, q: int, y: Seq<T>, f: spec_fn(T) -> Seq<u8>, i: int)
    requires
        0 <= i < y.len(),
        at(b, q, concat_map(y, f)),
    ensures
        at(b, q + concat_map(y.take(i), f).len(), f(y[i])),
        at(b, q, concat_map(y.take(i), f)),
{
    lemma_concat_map_append(y.take(i + 1), y.skip(i + 1), f);
    assert(y.take(i + 1) + y.skip(i + 1) =~= y);
    assert(y.take(i + 1) =~= y.take(i).push(y[i]));
    lemma_concat_map_push(y.take(i), f, y[i]);
    lemma_at_concat3(b, q, concat_map(y.take(i), f), f(y[i]), concat_map(y.skip(i + 1), f));
}

/// The encoding of a list of messages.
pub open spec fn enc_messages(s: Seq<MessageEntryView>) -> Seq<u8> {
    enc_list(s, |m: MessageEntryView| enc_message_entry(m))
}

/// Reads a message entry.
pub fn parse_message_entry(b: &[u8], pos: usize) -> (r: Option<(MessageEntry, usize)>)
    ensures
        r matches Some((x, p)) ==> at(b@, pos as int, enc_message_entry(x@)) && p == pos + enc_message_entry(
            x@,
        ).len(),
        forall|y: MessageEntryView| #[trigger] at(b@, pos as int, enc_message_entry(y)) ==> (r matches Some((x, p))
            && x@ == y && p == pos + enc_message_entry(y).len()),
{
    proof {
        assert forall|y: MessageEntryView| #[trigger] at(b@, pos as int, enc_message_entry(y)) implies at(
            b@,
            pos as int,
            y.source.0@,
        ) && at(b@, pos + 32, enc_u32(y.incl_epoch)) && at(b@, pos + 36, enc_u64(y.value)) && at(
            b@,
            pos + 44,
            enc_bytes(y.data),
        ) by {
            lemma_at_concat4(
                b@,
                pos as int,
                y.source.0@,
                enc_u32(y.incl_epoch),
                enc_u64(y.value),
                enc_bytes(y.data),
            );
        }
    }
    let (source, p1) = match parse_array32(b, pos) {
        Some(x) => x,
        None => {
            return None;
        },
    };
    let (incl_epoch, p2) = match parse_u32(b, p1) {
        Some(x) => x,
        None => {
            return None;
        },
    };
    let (value, p3) = match parse_u64(b, p2) {
        Some(x) => x,
        None => {
            return None;
        },
    };
    let (data, p4) = match parse_bytes(b, p3) {
        Some(x) => x,
        None => {
            return None;
        },
    };
    let m = MessageEntry { source: AccountId(source), incl_epoch, value, data };
    proof {
        lemma_at_concat4(b@, pos as int, source@, enc_u32(incl_epoch), enc_u64(value), enc_bytes(m.data@));
        assert(enc_message_entry(m@) == source@ + enc_u32(incl_epoch) + enc_u64(value) + enc_bytes(m.data@));
    }
    Some((m, p4))
}

/// Reads a list of message entries.
pub fn parse_messages(b: &[u8], pos: usize) -> (r: Option<(Vec<MessageEntry>, usize)>)
    ensures
        r matches Some((x, p)) ==> at(b@, pos as int, enc_messages(messages_view(x@))) && p == pos + enc_messages(
            messages_view(x@),
        ).len(),
        forall|y: Seq<MessageEntryView>| #[trigger] at(b@, pos as int, enc_messages(y)) ==> (r matches Some((x, p))
            && messages_view(x@) == y && p == pos + enc_messages(y).len()),
{
    let ghost f = |m: MessageEntryView| enc_message_entry(m);
    let blen = b.len();
    proof {
        lemma_pow256_facts();
        assert forall|x: MessageEntryView| (#[trigger] f(x)).len() >= 1 by {}
        assert forall|y: Seq<MessageEntryView>| #[trigger] at(b@, pos as int, enc_messages(y)) implies at(
            b@,
            pos as int,
            le_bytes(y.len(), 8),
        ) && at(b@, pos + 8, concat_map(y, f)) && y.len() < pow256(8) by {
            lemma_at_concat(b@, pos as int, le_bytes(y.len(), 8), concat_map(y, f));
            lemma_concat_map_len(y, f);
        }
    }
    let n = match read_le(b, pos, 8) {
        Some(n) => n,
        None => {
            return None;
        },
    };
    let mut out: Vec<MessageEntry> = Vec::new();
    let mut p: usize = pos + 8;
    let mut i: u64 = 0;
    proof {
        assert(concat_map(messages_view(out@), f) =~= Seq::<u8>::empty());
        assert(b@.subrange(pos + 8, pos + 8) =~= Seq::<u8>::empty());
    }
    while i < n
        invariant
            f == (|m: MessageEntryView| enc_message_entry(m)),
            b@.len() == blen,
            pos + 8 <= blen,
            at(b@, pos as int, le_bytes(n as nat, 8)),
            i <= n,
            out@.len() == i,
            at(b@, pos + 8, concat_map(messages_view(out@), f)),
            p == pos + 8 + concat_map(messages_view(out@), f).len(),
            forall|y: Seq<MessageEntryView>| #[trigger]
                at(b@, pos as int, enc_messages(y)) ==> y.len() == n && at(b@, pos + 8, concat_map(y, f))
                    && y.take(i as int) == messages_view(out@),
        decreases n - i,
    {
        let ghost ov = messages_view(out@);
        match parse_message_entry(b, p) {
            None => {
                proof {
                    assert forall|y: Seq<MessageEntryView>| #[trigger] at(b@, pos as int, enc_messages(y)) implies false by {
                        lemma_list_item_at(b@, pos + 8, y, f, i as int);
                    }
                }
                return None;
            },
            Some((m, p2)) => {
                proof {
                    lemma_concat_map_push(ov, f, m@);
                    lemma_at_concat(b@, pos + 8, concat_map(ov, f), f(m@));
                }
                out.push(m);
                proof {
                    assert(messages_view(out@) =~= ov.push(m@));
                    assert forall|y: Seq<MessageEntryView>| #[trigger] at(b@, pos as int, enc_messages(y)) implies y.take(
                        i + 1,
                    ) == messages_view(out@) by {
                        lemma_list_item_at(b@, pos + 8, y, f, i as int);
                        assert(y.take(i + 1) =~= y.take(i as int).push(y[i as int]));
                    }
                }
                p = p2;
                i = i + 1;
            },
        }
    }
    proof {
        let ov = messages_view(out@);
        lemma_at_concat(b@, pos as int, le_bytes(n as nat, 8), concat_map(ov, f));
        assert(ov.len() == n);
        assert forall|y: Seq<MessageEntryView>| #[trigger] at(b@, pos as int, enc_messages(y)) implies y == ov by {
            assert(y.take(n as int) =~= y);
        }
    }
    Some((out, p))
}

/// The encoding of a list of accumulator claims.
pub open spec fn enc_claims(s: Seq<AccumulatorClaim>) -> Seq<u8> {
    enc_list(s, |x: AccumulatorClaim| enc_claim(x))
}

/// The encoding of a list of byte strings.
pub open spec fn enc_bytes_list(s: Seq<Seq<u8>>) -> Seq<u8> {
    enc_list(s, |b: Seq<u8>| enc_bytes(b))
}

/// Reads an accumulator claim.
pub fn parse_claim(b: &[u8], pos: usize) -> (r: Option<(AccumulatorClaim, usize)>)
    ensures
        r matches Some((x, p)) ==> at(b@, pos as int, enc_claim(x)) && p == pos + enc_claim(x).len(),
        forall|y: AccumulatorClaim| #[trigger] at(b@, pos as int, enc_claim(y)) ==> (r matches Some((x, p)) && x
            == y && p == pos + enc_claim(y).len()),
{
    proof {
        assert forall|y: AccumulatorClaim| #[trigger] at(b@, pos as int, enc_claim(y)) implies at(
            b@,
            pos as int,
            enc_u64(y.idx),
        ) && at(b@, pos + 8, y.entry_hash.0@) by {
            lemma_at_concat(b@, pos as int, enc_u64(y.idx), y.entry_hash.0@);
        }
    }
    let (idx, p1) = match parse_u64(b, pos) {
        Some(x) => x,
        None => {
            return None;
        },
    };
    let (h, p2) = match parse_array32(b, p1) {
        Some(x) => x,
        None => {
            return None;
        },
    };
    let c = AccumulatorClaim { idx, entry_hash: Buf32(h) };
    proof {
        lemma_at_concat(b@, pos as int, enc_u64(idx), h@);
    }
    Some((c, p2))
}

/// Reads a sent message.
pub fn parse_sent(b: &[u8], pos: usize) -> (r: Option<(SentMessage, usize)>)
    ensures
        r matches Some((x, p)) ==> at(b@, pos as int, enc_sent(x@)) && p == pos + enc_sent(x@).len(),
        forall|y: SentMessageView| #[trigger] at(b@, pos as int, enc_sent(y)) ==> (r matches Some((x, p)) && x@
            == y && p == pos + enc_sent(y).len()),
{
    proof {
        assert forall|y: SentMessageView| #[trigger] at(b@, pos as int, enc_sent(y)) implies at(
            b@,
            pos as int,
            y.dest.0@,
        ) && at(b@, pos + 32, enc_u64(y.value)) && at(b@, pos + 40, enc_bytes(y.data)) by {
            lemma_at_concat3(b@, pos as int, y.dest.0@, enc_u64(y.value), enc_bytes(y.data));
        }
    }
    let (dest, p1) = match parse_array32(b, pos) {
        Some(x) => x,
        None => {
            return None;
        },
    };
    let (value, p2) = match parse_u64(b, p1) {
        Some(x) => x,
        None => {
            return None;
        },
    };
    let (data, p3) = match parse_bytes(b, p2) {
        Some(x) => x,
        None => {
            return None;
        },
    };
    let m = SentMessage { dest: AccountId(dest), value, data };
    proof {
        lemma_at_concat3(b@, pos as int, dest@, enc_u64(value), enc_bytes(m.data@));
        assert(enc_sent(m@) == dest@ + enc_u64(value) + enc_bytes(m.data@));
    }
    Some((m, p3))
}

/// Reads a list of accumulator claims.
pub fn parse_claims(b: &[u8], pos: usize) -> (r: Option<(Vec<AccumulatorClaim>, usize)>)
    ensures
        r matches Some((x, p)) ==> at(b@, pos as int, enc_claims(x@)) && p == pos + enc_claims(
            x@,
        ).len(),
        forall|y: Seq<AccumulatorClaim>| #[trigger] at(b@, pos as int, enc_claims(y)) ==> (r matches Some((x, p))
            && x@ == y && p == pos + enc_claims(y).len()),
{
    let ghost f = |x: AccumulatorClaim| enc_claim(x);
    let blen = b.len();
    proof {
        lemma_pow256_facts();
        assert forall|x: AccumulatorClaim| (#[trigger] f(x)).len() >= 1 by {}
        assert forall|y: Seq<AccumulatorClaim>| #[trigger] at(b@, pos as int, enc_claims(y)) implies at(
            b@,
            pos as int,
            le_bytes(y.len(), 8),
        ) && at(b@, pos + 8, concat_map(y, f)) && y.len() < pow256(8) by {
            lemma_at_concat(b@, pos as int, le_bytes(y.len(), 8), concat_map(y, f));
            lemma_concat_map_len(y, f);
        }
    }
    let n = match read_le(b, pos, 8) {
        Some(n) => n,
        None => {
            return None;
        },
    };
    let mut out: Vec<AccumulatorClaim> = Vec::new();
    let mut p: usize = pos + 8;
    let mut i: u64 = 0;
    proof {
        assert(concat_map(out@, f) =~= Seq::<u8>::empty());
        assert(b@.subrange(pos + 8, pos + 8) =~= Seq::<u8>::empty());
    }
    while i < n
        invariant
            f == (|x: AccumulatorClaim| enc_claim(x)),
            b@.len() == blen,
            pos + 8 <= blen,
            at(b@, pos as int, le_bytes(n as nat, 8)),
            i <= n,
            out@.len() == i,
            at(b@, pos + 8, concat_map(out@, f)),
            p == pos + 8 + concat_map(out@, f).len(),
            forall|y: Seq<AccumulatorClaim>| #[trigger]
                at(b@, pos as int, enc_claims(y)) ==> y.len() == n && at(b@, pos + 8, concat_map(y, f))
                    && y.take(i as int) == out@,
        decreases n - i,
    {
        let ghost ov = out@;
        match parse_claim(b, p) {
            None => {
                proof {
                    assert forall|y: Seq<AccumulatorClaim>| #[trigger] at(b@, pos as int, enc_claims(y)) implies false by {
                        lemma_list_item_at(b@, pos + 8, y, f, i as int);
                    }
                }
                return None;
            },
            Some((m, p2)) => {
                proof {
                    lemma_concat_map_push(ov, f, m);
                    lemma_at_concat(b@, pos + 8, concat_map(ov, f), f(m));
                }
                out.push(m);
                proof {
                    assert(out@ =~= ov.push(m));
                    assert forall|y: Seq<AccumulatorClaim>| #[trigger] at(b@, pos as int, enc_claims(y)) implies y.take(
                        i + 1,
                    ) == out@ by {
                        lemma_list_item_at(b@, pos + 8, y, f, i as int);
                        assert(y.take(i + 1) =~= y.take(i as int).push(y[i as int]));
                    }
                }
                p = p2;
                i = i + 1;
            },
        }
    }
    proof {
        let ov = out@;
        lemma_at_concat(b@, pos as int, le_bytes(n as nat, 8), concat_map(ov, f));
        assert(ov.len() == n);
        assert forall|y: Seq<AccumulatorClaim>| #[trigger] at(b@, pos as int, enc_claims(y)) implies y == ov by {
            assert(y.take(n as int) =~= y);
        }
    }
    Some((out, p))
}

/// Reads a list of sent messages.
pub fn parse_sent_list(b: &[u8], pos: usize) -> (r: Option<(Vec<SentMessage>, usize)>)
    ensures
        r matches Some((x, p)) ==> at(b@, pos as int, enc_effects(sent_view(x@))) && p == pos + enc_effects(
            sent_view(x@),
        ).len(),
        forall|y: Seq<SentMessageView>| #[trigger] at(b@, pos as int, enc_effects(y)) ==> (r matches Some((x, p))
            && sent_view(x@) == y && p == pos + enc_effects(y).len()),
{
    let ghost f = |m: SentMessageView| enc_sent(m);
    let blen = b.len();
    proof {
        lemma_pow256_facts();
        assert forall|x: SentMessageView| (#[trigger] f(x)).len() >= 1 by {}
        assert forall|y: Seq<SentMessageView>| #[trigger] at(b@, pos as int, enc_effects(y)) implies at(
            b@,
            pos as int,
            le_bytes(y.len(), 8),
        ) && at(b@, pos + 8, concat_map(y, f)) && y.len() < pow256(8) by {
            lemma_at_concat(b@, pos as int, le_bytes(y.len(), 8), concat_map(y, f));
            lemma_concat_map_len(y, f);
        }
    }
    let n = match read_le(b, pos, 8) {
        Some(n) => n,
        None => {
            return None;
        },
    };
    let mut out: Vec<SentMessage> = Vec::new();
    let mut p: usize = pos + 8;
    let mut i: u64 = 0;
    proof {
        assert(concat_map(sent_view(out@), f) =~= Seq::<u8>::empty());
        assert(b@.subrange(pos + 8, pos + 8) =~= Seq::<u8>::empty());
    }
    while i < n
        invariant
            f == (|m: SentMessageView| enc_sent(m)),
            b@.len() == blen,
            pos + 8 <= blen,
            at(b@, pos as int, le_bytes(n as nat, 8)),
            i <= n,
            out@.len() == i,
            at(b@, pos + 8, concat_map(sent_view(out@), f)),
            p == pos + 8 + concat_map(sent_view(out@), f).len(),
            forall|y: Seq<SentMessageView>| #[trigger]
                at(b@, pos as int, enc_effects(y)) ==> y.len() == n && at(b@, pos + 8, concat_map(y, f))
                    && y.take(i as int) == sent_view(out@),
        decreases n - i,
    {
        let ghost ov = sent_view(out@);
        match parse_sent(b, p) {
            None => {
                proof {
                    assert forall|y: Seq<SentMessageView>| #[trigger] at(b@, pos as int, enc_effects(y)) implies false by {
                        lemma_list_item_at(b@, pos + 8, y, f, i as int);
                    }
                }
                return None;
            },
            Some((m, p2)) => {
                proof {
                    lemma_concat_map_push(ov, f, m@);
                    lemma_at_concat(b@, pos + 8, concat_map(ov, f), f(m@));
                }
                out.push(m);
                proof {
                    assert(sent_view(out@) =~= ov.push(m@));
                    assert forall|y: Seq<SentMessageView>| #[trigger] at(b@, pos as int, enc_effects(y)) implies y.take(
                        i + 1,
                    ) == sent_view(out@) by {
                        lemma_list_item_at(b@, pos + 8, y, f, i as int);
                        assert(y.take(i + 1) =~= y.take(i as int).push(y[i as int]));
                    }
                }
                p = p2;
                i = i + 1;
            },
        }
    }
    proof {
        let ov = sent_view(out@);
        lemma_at_concat(b@, pos as int, le_bytes(n as nat, 8), concat_map(ov, f));
        assert(ov.len() == n);
        assert forall|y: Seq<SentMessageView>| #[trigger] at(b@, pos as int, enc_effects(y)) implies y == ov by {
            assert(y.take(n as int) =~= y);
        }
    }
    Some((out, p))
}

/// Reads a list of byte strings.
pub fn parse_bytes_list(b: &[u8], pos: usize) -> (r: Option<(Vec<Vec<u8>>, usize)>)
    ensures
        r matches Some((x, p)) ==> at(b@, pos as int, enc_bytes_list(bytes_list_view(x@))) && p == pos + enc_bytes_list(
            bytes_list_view(x@),
        ).len(),
        forall|y: Seq<Seq<u8>>| #[trigger] at(b@, pos as int, enc_bytes_list(y)) ==> (r matches Some((x, p))
            && bytes_list_view(x@) == y && p == pos + enc_bytes_list(y).len()),
{
    let ghost f = |b: Seq<u8>| enc_bytes(b);
    let blen = b.len();
    proof {
        lemma_pow256_facts();
        assert forall|x: Seq<u8>| (#[trigger] f(x)).len() >= 1 by {}
        assert forall|y: Seq<Seq<u8>>| #[trigger] at(b@, pos as int, enc_bytes_list(y)) implies at(
            b@,
            pos as int,
            le_bytes(y.len(), 8),
        ) && at(b@, pos + 8, concat_map(y, f)) && y.len() < pow256(8) by {
            lemma_at_concat(b@, pos as int, le_bytes(y.len(), 8), concat_map(y, f));
            lemma_concat_map_len(y, f);
        }
    }
    let n = match read_le(b, pos, 8) {
        Some(n) => n,
        None => {
            return None;
        },
    };
    let mut out: Vec<Vec<u8>> = Vec::new();
    let mut p: usize = pos + 8;
    let mut i: u64 = 0;
    proof {
        assert(concat_map(bytes_list_view(out@), f) =~= Seq::<u8>::empty());
        assert(b@.subrange(pos + 8, pos + 8) =~= Seq::<u8>::empty());
    }
    while i < n
        invariant
            f == (|b: Seq<u8>| enc_bytes(b)),
            b@.len() == blen,
            pos + 8 <= blen,
            at(b@, pos as int, le_bytes(n as nat, 8)),
            i <= n,
            out@.len() == i,
            at(b@, pos + 8, concat_map(bytes_list_view(out@), f)),
            p == pos + 8 + concat_map(bytes_list_view(out@), f).len(),
            forall|y: Seq<Seq<u8>>| #[trigger]
                at(b@, pos as int, enc_bytes_list(y)) ==> y.len() == n && at(b@, pos + 8, concat_map(y, f))
                    && y.take(i as int) == bytes_list_view(out@),
        decreases n - i,
    {
        let ghost ov = bytes_list_view(out@);
        match parse_bytes(b, p) {
            None => {
                proof {
                    assert forall|y: Seq<Seq<u8>>| #[trigger] at(b@, pos as int, enc_bytes_list(y)) implies false by {
                        lemma_list_item_at(b@, pos + 8, y, f, i as int);
                    }
                }
                return None;
            },
            Some((m, p2)) => {
                proof {
                    lemma_concat_map_push(ov, f, m@);
                    lemma_at_concat(b@, pos + 8, concat_map(ov, f), f(m@));
                }
                out.push(m);
                proof {
                    assert(bytes_list_view(out@) =~= ov.push(m@));
                    assert forall|y: Seq<Seq<u8>>| #[trigger] at(b@, pos as int, enc_bytes_list(y)) implies y.take(
                        i + 1,
                    ) == bytes_list_view(out@) by {
                        lemma_list_item_at(b@, pos + 8, y, f, i as int);
                        assert(y.take(i + 1) =~= y.take(i as int).push(y[i as int]));
                    }
                }
                p = p2;
                i = i + 1;
            },
        }
    }
    proof {
        let ov = bytes_list_view(out@);
        lemma_at_concat(b@, pos as int, le_bytes(n as nat, 8), concat_map(ov, f));
        assert(ov.len() == n);
        assert forall|y: Seq<Seq<u8>>| #[trigger] at(b@, pos as int, enc_bytes_list(y)) implies y == ov by {
            assert(y.take(n as int) =~= y);
        }
    }
    Some((out, p))
}

/// Reads an optional list of accumulator claims.
pub fn parse_opt_claims(b: &[u8], pos: usize) -> (r: Option<(Option<Vec<AccumulatorClaim>>, usize)>)
    ensures
        r matches Some((x, p)) ==> at(b@, pos as int, enc_opt_claims(opt_claims_view(x))) && p == pos
            + enc_opt_claims(opt_claims_view(x)).len(),
        forall|y: Option<Seq<AccumulatorClaim>>| #[trigger] at(b@, pos as int, enc_opt_claims(y)) ==> (r matches Some(
            (x, p),
        ) && opt_claims_view(x) == y && p == pos + enc_opt_claims(y).len()),
{
    proof {
        assert forall|y: Option<Seq<AccumulatorClaim>>| #[trigger] at(b@, pos as int, enc_opt_claims(y)) implies at(
            b@,
            pos as int,
            seq![if y is Some { 1u8 } else { 0u8 }],
        ) && (y matches Some(c) ==> at(b@, pos + 1, enc_claims(c))) by {
            match y {
                None => {},
                Some(c) => {
                    lemma_at_concat(b@, pos as int, seq![1u8], enc_claims(c));
                },
            }
        }
    }
    let (tag, p) = match parse_byte(b, pos) {
        Some(t) => t,
        None => {
            return None;
        },
    };
    if tag == 0 {
        Some((None, p))
    } else if tag == 1 {
        match parse_claims(b, p) {
            Some((c, p2)) => {
                proof {
                    lemma_at_concat(b@, pos as int, seq![1u8], enc_claims(c@));
                }
                Some((Some(c), p2))
            },
            None => None,
        }
    } else {
        None
    }
}

/// Reads an optional list of byte strings.
pub fn parse_opt_bytes_list(b: &[u8], pos: usize) -> (r: Option<(Option<Vec<Vec<u8>>>, usize)>)
    ensures
        r matches Some((x, p)) ==> at(b@, pos as int, enc_opt_bytes_list(opt_bytes_list_view(x))) && p == pos
            + enc_opt_bytes_list(opt_bytes_list_view(x)).len(),
        forall|y: Option<Seq<Seq<u8>>>| #[trigger] at(b@, pos as int, enc_opt_bytes_list(y)) ==> (r matches Some(
            (x, p),
        ) && opt_bytes_list_view(x) == y && p == pos + enc_opt_bytes_list(y).len()),
{
    proof {
        assert forall|y: Option<Seq<Seq<u8>>>| #[trigger] at(b@, pos as int, enc_opt_bytes_list(y)) implies at(
            b@,
            pos as int,
            seq![if y is Some { 1u8 } else { 0u8 }],
        ) && (y matches Some(l) ==> at(b@, pos + 1, enc_bytes_list(l))) by {
            match y {
                None => {},
                Some(l) => {
                    lemma_at_concat(b@, pos as int, seq![1u8], enc_bytes_list(l));
                },
            }
        }
    }
    let (tag, p) = match parse_byte(b, pos) {
        Some(t) => t,
        None => {
            return None;
        },
    };
    if tag == 0 {
        Some((None, p))
    } else if tag == 1 {
        match parse_bytes_list(b, p) {
            Some((l, p2)) => {
                proof {
                    lemma_at_concat(b@, pos as int, seq![1u8], enc_bytes_list(bytes_list_view(l@)));
                }
                Some((Some(l), p2))
            },
            None => None,
        }
    } else {
        None
    }
}

/// Reads the proof state of an update.
pub fn parse_proof_state(b: &[u8], pos: usize) -> (r: Option<(SauTxProofState, usize)>)
    ensures
        r matches Some((x, p)) ==> at(b@, pos as int, enc_proof_state(x)) && p == pos + enc_proof_state(x).len(),
        forall|y: SauTxProofState| #[trigger] at(b@, pos as int, enc_proof_state(y)) ==> (r matches Some((x, p))
            && x == y && p == pos + enc_proof_state(y).len()),
{
    proof {
        assert forall|y: SauTxProofState| #[trigger] at(b@, pos as int, enc_proof_state(y)) implies at(
            b@,
            pos as int,
            enc_u64(y.new_next_msg_idx),
        ) && at(b@, pos + 8, y.inner_state_root.0@) by {
            lemma_at_concat(b@, pos as int, enc_u64(y.new_next_msg_idx), y.inner_state_root.0@);
        }
    }
    let (idx, p1) = match parse_u64(b, pos) {
        Some(x) => x,
        None => {
            return None;
        },
    };
    let (root, p2) = match parse_array32(b, p1) {
        Some(x) => x,
        None => {
            return None;
        },
    };
    proof {
        lemma_at_concat(b@, pos as int, enc_u64(idx), root@);
    }
    Some((SauTxProofState { new_next_msg_idx: idx, inner_state_root: Buf32(root) }, p2))
}

/// Reads the update data of a snark account update.
pub fn parse_update_data(b: &[u8], pos: usize) -> (r: Option<(SauTxUpdateData, usize)>)
    ensures
        r matches Some((x, p)) ==> at(b@, pos as int, enc_update_data(x@)) && p == pos + enc_update_data(x@).len(),
        forall|y: SauTxUpdateDataView| #[trigger] at(b@, pos as int, enc_update_data(y)) ==> (r matches Some((x, p))
            && x@ == y && p == pos + enc_update_data(y).len()),
{
    proof {
        assert forall|y: SauTxUpdateDataView| #[trigger] at(b@, pos as int, enc_update_data(y)) implies at(
            b@,
            pos as int,
            enc_u64(y.seq_no),
        ) && at(b@, pos + 8, enc_proof_state(y.proof_state)) && at(
            b@,
            pos + 8 + enc_proof_state(y.proof_state).len(),
            enc_bytes(y.extra_data),
        ) by {
            lemma_at_concat3(
                b@,
                pos as int,
                enc_u64(y.seq_no),
                enc_proof_state(y.proof_state),
                enc_bytes(y.extra_data),
            );
        }
    }
    let (seq_no, p1) = match parse_u64(b, pos) {
        Some(x) => x,
        None => {
            return None;
        },
    };
    let (proof_state, p2) = match parse_proof_state(b, p1) {
        Some(x) => x,
        None => {
            return None;
        },
    };
    let (extra_data, p3) = match parse_bytes(b, p2) {
        Some(x) => x,
        None => {
            return None;
        },
    };
    let u = SauTxUpdateData { seq_no, proof_state, extra_data };
    proof {
        lemma_at_concat3(b@, pos as int, enc_u64(seq_no), enc_proof_state(proof_state), enc_bytes(u.extra_data@));
    }
    Some((u, p3))
}

/// Reads the operation data of a snark account update.
pub fn parse_operation(b: &[u8], pos: usize) -> (r: Option<(SauTxOperationData, usize)>)
    ensures
        r matches Some((x, p)) ==> at(b@, pos as int, enc_operation(x@)) && p == pos + enc_operation(x@).len(),
        forall|y: SauTxOperationDataView| #[trigger] at(b@, pos as int, enc_operation(y)) ==> (r matches Some(
            (x, p),
        ) && x@ == y && p == pos + enc_operation(y).len()),
{
    proof {
        assert forall|y: SauTxOperationDataView| #[trigger] at(b@, pos as int, enc_operation(y)) implies at(
            b@,
            pos as int,
            enc_update_data(y.update_data),
        ) && at(b@, pos + enc_update_data(y.update_data).len(), enc_messages(y.messages)) && at(
            b@,
            pos + enc_update_data(y.update_data).len() + enc_messages(y.messages).len(),
            enc_opt_claims(y.ledger_refs),
        ) by {
            lemma_at_concat3(
                b@,
                pos as int,
                enc_update_data(y.update_data),
                enc_messages(y.messages),
                enc_opt_claims(y.ledger_refs),
            );
        }
    }
    let (update_data, p1) = match parse_update_data(b, pos) {
        Some(x) => x,
        None => {
            return None;
        },
    };
    let (messages, p2) = match parse_messages(b, p1) {
        Some(x) => x,
        None => {
            return None;
        },
    };
    let (claims, p3) = match parse_opt_claims(b, p2) {
        Some(x) => x,
        None => {
            return None;
        },
    };
    let o = SauTxOperationData { update_data, messages, ledger_refs: SauTxLedgerRefs { asm_history_proofs: claims } };
    proof {
        lemma_at_concat3(
            b@,
            pos as int,
            enc_update_data(o.update_data@),
            enc_messages(messages_view(o.messages@)),
            enc_opt_claims(o.ledger_refs@),
        );
    }
    Some((o, p3))
}

/// Reads a transaction payload.
pub fn parse_payload(b: &[u8], pos: usize) -> (r: Option<(TransactionPayload, usize)>)
    ensures
        r matches Some((x, p)) ==> at(b@, pos as int, enc_payload(x@)) && p == pos + enc_payload(x@).len(),
        forall|y: TransactionPayloadView| #[trigger] at(b@, pos as int, enc_payload(y)) ==> (r matches Some((x, p))
            && x@ == y && p == pos + enc_payload(y).len()),
{
    proof {
        assert forall|y: TransactionPayloadView| #[trigger] at(b@, pos as int, enc_payload(y)) implies match y {
            TransactionPayloadView::GenericAccountMessage(g) => at(b@, pos as int, seq![0u8]) && at(
                b@,
                pos + 1,
                g.target.0@,
            ),
            TransactionPayloadView::SnarkAccountUpdate(u) => at(b@, pos as int, seq![1u8]) && at(
                b@,
                pos + 1,
                u.target.0@,
            ) && at(b@, pos + 33, enc_operation(u.operation_data)),
        } by {
            match y {
                TransactionPayloadView::GenericAccountMessage(g) => {
                    lemma_at_concat(b@, pos as int, seq![0u8], g.target.0@);
                },
                TransactionPayloadView::SnarkAccountUpdate(u) => {
                    lemma_at_concat3(b@, pos as int, seq![1u8], u.target.0@, enc_operation(u.operation_data));
                },
            }
        }
    }
    let (tag, p1) = match parse_byte(b, pos) {
        Some(t) => t,
        None => {
            return None;
        },
    };
    let (target, p2) = match parse_array32(b, p1) {
        Some(x) => x,
        None => {
            return None;
        },
    };
    if tag == 0 {
        let g = TransactionPayload::GenericAccountMessage(GamTxPayload { target: AccountId(target) });
        proof {
            lemma_at_concat(b@, pos as int, seq![0u8], target@);
        }
        Some((g, p2))
    } else if tag == 1 {
        let (op, p3) = match parse_operation(b, p2) {
            Some(x) => x,
            None => {
                return None;
            },
        };
        let u = TransactionPayload::SnarkAccountUpdate(SauTxPayload { target: AccountId(target), operation_data: op });
        proof {
            lemma_at_concat3(b@, pos as int, seq![1u8], target@, enc_operation(op@));
        }
        Some((u, p3))
    } else {
        None
    }
}

/// Reads transaction data.
pub fn parse_tx_data(b: &[u8], pos: usize) -> (r: Option<(OLTransactionData, usize)>)
    ensures
        r matches Some((x, p)) ==> at(b@, pos as int, enc_tx_data(x@)) && p == pos + enc_tx_data(x@).len(),
        forall|y: OLTransactionDataView| #[trigger] at(b@, pos as int, enc_tx_data(y)) ==> (r matches Some((x, p))
            && x@ == y && p == pos + enc_tx_data(y).len()),
{
    proof {
        assert forall|y: OLTransactionDataView| #[trigger] at(b@, pos as int, enc_tx_data(y)) implies at(
            b@,
            pos as int,
            enc_payload(y.payload),
        ) && at(b@, pos + enc_payload(y.payload).len(), enc_opt_u64(y.constraints.min_slot)) && at(
            b@,
            pos + enc_payload(y.payload).len() + enc_opt_u64(y.constraints.min_slot).len(),
            enc_opt_u64(y.constraints.max_slot),
        ) && at(
            b@,
            pos + enc_payload(y.payload).len() + enc_opt_u64(y.constraints.min_slot).len() + enc_opt_u64(
                y.constraints.max_slot,
            ).len(),
            enc_effects(y.effects),
        ) by {
            assert(enc_tx_data(y) == enc_payload(y.payload) + enc_opt_u64(y.constraints.min_slot) + enc_opt_u64(
                y.constraints.max_slot,
            ) + enc_effects(y.effects));
            lemma_at_concat4(
                b@,
                pos as int,
                enc_payload(y.payload),
                enc_opt_u64(y.constraints.min_slot),
                enc_opt_u64(y.constraints.max_slot),
                enc_effects(y.effects),
            );
        }
    }
    let (payload, p1) = match parse_payload(b, pos) {
        Some(x) => x,
        None => {
            return None;
        },
    };
    let (min_slot, p2) = match parse_opt_u64(b, p1) {
        Some(x) => x,
        None => {
            return None;
        },
    };
    let (max_slot, p3) = match parse_opt_u64(b, p2) {
        Some(x) => x,
        None => {
            return None;
        },
    };
    let (msgs, p4) = match parse_sent_list(b, p3) {
        Some(x) => x,
        None => {
            return None;
        },
    };
    let d = OLTransactionData {
        payload,
        constraints: TxConstraints { min_slot, max_slot },
        effects: TxEffects { messages: msgs },
    };
    proof {
        assert(enc_tx_data(d@) == enc_payload(d.payload@) + enc_opt_u64(min_slot) + enc_opt_u64(max_slot)
            + enc_effects(d.effects@));
        lemma_at_concat4(
            b@,
            pos as int,
            enc_payload(d.payload@),
            enc_opt_u64(min_slot),
            enc_opt_u64(max_slot),
            enc_effects(d.effects@),
        );
    }
    Some((d, p4))
}

/// Reads a transaction's proofs.
pub fn parse_proofs(b: &[u8], pos: usize) -> (r: Option<(TxProofs, usize)>)
    ensures
        r matches Some((x, p)) ==> at(b@, pos as int, enc_proofs(x@)) && p == pos + enc_proofs(x@).len(),
        forall|y: TxProofsView| #[trigger] at(b@, pos as int, enc_proofs(y)) ==> (r matches Some((x, p)) && x@ == y
            && p == pos + enc_proofs(y).len()),
{
    proof {
        assert forall|y: TxProofsView| #[trigger] at(b@, pos as int, enc_proofs(y)) implies at(
            b@,
            pos as int,
            enc_opt_bytes_list(y.predicate_satisfiers),
        ) && at(
            b@,
            pos + enc_opt_bytes_list(y.predicate_satisfiers).len(),
            enc_opt_bytes_list(y.accumulator_proofs),
        ) by {
            lemma_at_concat(
                b@,
                pos as int,
                enc_opt_bytes_list(y.predicate_satisfiers),
                enc_opt_bytes_list(y.accumulator_proofs),
            );
        }
    }
    let (ps, p1) = match parse_opt_bytes_list(b, pos) {
        Some(x) => x,
        None => {
            return None;
        },
    };
    let (acc, p2) = match parse_opt_bytes_list(b, p1) {
        Some(x) => x,
        None => {
            return None;
        },
    };
    let t = TxProofs { predicate_satisfiers: ps, accumulator_proofs: acc };
    proof {
        lemma_at_concat(
            b@,
            pos as int,
            enc_opt_bytes_list(opt_bytes_list_view(t.predicate_satisfiers)),
            enc_opt_bytes_list(opt_bytes_list_view(t.accumulator_proofs)),
        );
    }
    Some((t, p2))
}

/// Reads a transaction from its canonical encoding, which must take all of
/// `b`: `None` when `b` is the encoding of no transaction.
pub fn decode_tx(b: &[u8]) -> (r: Option<OLTransaction>)
    ensures
        r matches Some(t) ==> enc_tx(t@) == b@ && decoded_tx(b@) == Some(t@),
        r is None ==> decoded_tx(b@) is None,
        forall|y: OLTransactionView| #[trigger] enc_tx(y) == b@ ==> (r matches Some(t) && t@ == y),
{
    proof {
        assert forall|y: OLTransactionView| #[trigger] enc_tx(y) == b@ implies at(b@, 0, enc_tx_data(y.data))
            && at(b@, enc_tx_data(y.data).len() as int, enc_proofs(y.proofs)) && enc_tx_data(y.data).len() + enc_proofs(
            y.proofs,
        ).len() == b@.len() by {
            assert(b@.subrange(0, b@.len() as int) =~= b@);
            lemma_at_concat(b@, 0, enc_tx_data(y.data), enc_proofs(y.proofs));
        }
    }
    let (data, p1) = match parse_tx_data(b, 0) {
        Some(x) => x,
        None => {
            return None;
        },
    };
    let (proofs, p2) = match parse_proofs(b, p1) {
        Some(x) => x,
        None => {
            return None;
        },
    };
    if p2 != b.len() {
        return None;
    }
    let t = OLTransaction { data, proofs };
    proof {
        lemma_at_concat(b@, 0, enc_tx_data(t.data@), enc_proofs(t.proofs@));
        assert(b@.subrange(0, b@.len() as int) =~= b@);
        lemma_decode_encode(t@);
    }
    Some(t)
}

/// Two encodings of `u64`s at one place are of the same number.
pub proof fn lemma_unique_u64(s: Seq<u8>, pos: int, y1: u64, y2: u64)
    requires
        at(s, pos, enc_u64(y1)),
        at(s, pos, enc_u64(y2)),
    ensures
        y1 == y2,
{
    lemma_pow256_facts();
    lemma_le_value_of_bytes(y1 as nat, 8);
    lemma_le_value_of_bytes(y2 as nat, 8);
}

pub proof fn lemma_unique_u32(s: Seq<u8>, pos: int, y1: u32, y2: u32)
    requires
        at(s, pos, enc_u32(y1)),
        at(s, pos, enc_u32(y2)),
    ensures
        y1 == y2,
{
    lemma_pow256_facts();
    lemma_le_value_of_bytes(y1 as nat, 4);
    lemma_le_value_of_bytes(y2 as nat, 4);
}

pub proof fn lemma_unique_array32(s: Seq<u8>, pos: int, y1: [u8; 32], y2: [u8; 32])
    requires
        at(s, pos, y1@),
        at(s, pos, y2@),
    ensures
        y1 == y2,
{
    assert forall|k: int| 0 <= k < 32 implies y1[k] == y2[k] by {
        assert(y1@[k] == y2@[k]);
    }
    assert(y1 =~= y2);
}

pub proof fn lemma_unique_bytes(s: Seq<u8>, pos: int, y1: Seq<u8>, y2: Seq<u8>)
    requires
        s.len() < pow256(8),
        at(s, pos, enc_bytes(y1)),
        at(s, pos, enc_bytes(y2)),
    ensures
        y1 == y2,
{
    lemma_pow256_facts();
    lemma_at_concat(s, pos, le_bytes(y1.len(), 8), y1);
    lemma_at_concat(s, pos, le_bytes(y2.len(), 8), y2);
    lemma_le_value_of_bytes(y1.len(), 8);
    lemma_le_value_of_bytes(y2.len(), 8);
}

pub proof fn lemma_unique_opt_u64(s: Seq<u8>, pos: int, y1: Option<u64>, y2: Option<u64>)
    requires
        at(s, pos, enc_opt_u64(y1)),
        at(s, pos, enc_opt_u64(y2)),
    ensures
        y1 == y2,
{
    if let Some(v1) = y1 {
        lemma_at_concat(s, pos, seq![1u8], enc_u64(v1));
    }
    if let Some(v2) = y2 {
        lemma_at_concat(s, pos, seq![1u8], enc_u64(v2));
    }
    assert(s.subrange(pos, pos + 1)[0] == s[pos]);
    if y1 is Some && y2 is Some {
        lemma_unique_u64(s, pos + 1, y1->0, y2->0);
    }
}

/// Two encodings of lists at one place are of the same list, when the
/// items' encodings are unique at every place.
pub proof fn lemma_unique_list<T>(s: Seq<u8>, pos: int, y1: Seq<T>, y2: Seq<T>, f: spec_fn(T) -> Seq<u8>)
    requires
        s.len() < pow256(8),
        at(s, pos, enc_list(y1, f)),
        at(s, pos, enc_list(y2, f)),
        forall|q: int, a: T, c: T| #[trigger] at(s, q, f(a)) && #[trigger] at(s, q, f(c)) ==> a == c,
        forall|x: T| (#[trigger] f(x)).len() >= 1,
    ensures
        y1 == y2,
{
    lemma_pow256_facts();
    lemma_at_concat(s, pos, le_bytes(y1.len(), 8), concat_map(y1, f));
    lemma_at_concat(s, pos, le_bytes(y2.len(), 8), concat_map(y2, f));
    lemma_concat_map_len(y1, f);
    lemma_concat_map_len(y2, f);
    lemma_le_value_of_bytes(y1.len(), 8);
    lemma_le_value_of_bytes(y2.len(), 8);
    assert(y1.len() == y2.len());
    assert(y1.take(0) =~= y2.take(0));
    lemma_unique_items(s, pos + 8, y1, y2, f, 0);
}

/// Lists of the same length encoded at one place agree from item `i` on
/// when they agree before it.
proof fn lemma_unique_items<T>(s: Seq<u8>, q: int, y1: Seq<T>, y2: Seq<T>, f: spec_fn(T) -> Seq<u8>, i: int)
    requires
        0 <= i <= y1.len(),
        y1.len() == y2.len(),
        at(s, q, concat_map(y1, f)),
        at(s, q, concat_map(y2, f)),
        y1.take(i) == y2.take(i),
        forall|p: int, a: T, c: T| #[trigger] at(s, p, f(a)) && #[trigger] at(s, p, f(c)) ==> a == c,
    ensures
        y1 == y2,
    decreases y1.len() - i,
{
    if i < y1.len() {
        lemma_list_item_at(s, q, y1, f, i);
        lemma_list_item_at(s, q, y2, f, i);
        assert(y1[i] == y2[i]);
        assert(y1.take(i + 1) =~= y1.take(i).push(y1[i]));
        assert(y2.take(i + 1) =~= y2.take(i).push(y2[i]));
        lemma_unique_items(s, q, y1, y2, f, i + 1);
    } else {
        assert(y1.take(i) =~= y1);
        assert(y2.take(i) =~= y2);
    }
}

pub proof fn lemma_unique_message(s: Seq<u8>, pos: int, y1: MessageEntryView, y2: MessageEntryView)
    requires
        s.len() < pow256(8),
        at(s, pos, enc_message_entry(y1)),
        at(s, pos, enc_message_entry(y2)),
    ensures
        y1 == y2,
{
    lemma_at_concat4(s, pos, y1.source.0@, enc_u32(y1.incl_epoch), enc_u64(y1.value), enc_bytes(y1.data));
    lemma_at_concat4(s, pos, y2.source.0@, enc_u32(y2.incl_epoch), enc_u64(y2.value), enc_bytes(y2.data));
    lemma_unique_array32(s, pos, y1.source.0, y2.source.0);
    lemma_unique_u32(s, pos + 32, y1.incl_epoch, y2.incl_epoch);
    lemma_unique_u64(s, pos + 36, y1.value, y2.value);
    lemma_unique_bytes(s, pos + 44, y1.data, y2.data);
}

pub proof fn lemma_unique_sent(s: Seq<u8>, pos: int, y1: SentMessageView, y2: SentMessageView)
    requires
        s.len() < pow256(8),
        at(s, pos, enc_sent(y1)),
        at(s, pos, enc_sent(y2)),
    ensures
        y1 == y2,
{
    lemma_at_concat3(s, pos, y1.dest.0@, enc_u64(y1.value), enc_bytes(y1.data));
    lemma_at_concat3(s, pos, y2.dest.0@, enc_u64(y2.value), enc_bytes(y2.data));
    lemma_unique_array32(s, pos, y1.dest.0, y2.dest.0);
    lemma_unique_u64(s, pos + 32, y1.value, y2.value);
    lemma_unique_bytes(s, pos + 40, y1.data, y2.data);
}

pub proof fn lemma_unique_claim(s: Seq<u8>, pos: int, y1: AccumulatorClaim, y2: AccumulatorClaim)
    requires
        at(s, pos, enc_claim(y1)),
        at(s, pos, enc_claim(y2)),
    ensures
        y1 == y2,
{
    lemma_at_concat(s, pos, enc_u64(y1.idx), y1.entry_hash.0@);
    lemma_at_concat(s, pos, enc_u64(y2.idx), y2.entry_hash.0@);
    lemma_unique_u64(s, pos, y1.idx, y2.idx);
    lemma_unique_array32(s, pos + 8, y1.entry_hash.0, y2.entry_hash.0);
}

pub proof fn lemma_unique_messages(s: Seq<u8>, pos: int, y1: Seq<MessageEntryView>, y2: Seq<MessageEntryView>)
    requires
        s.len() < pow256(8),
        at(s, pos, enc_messages(y1)),
        at(s, pos, enc_messages(y2)),
    ensures
        y1 == y2,
{
    let f = |m: MessageEntryView| enc_message_entry(m);
    assert forall|q: int, a: MessageEntryView, c: MessageEntryView| #[trigger] at(s, q, f(a)) && #[trigger] at(
        s,
        q,
        f(c),
    ) implies a == c by {
        lemma_unique_message(s, q, a, c);
    }
    lemma_unique_list(s, pos, y1, y2, f);
}

pub proof fn lemma_unique_sent_list(s: Seq<u8>, pos: int, y1: Seq<SentMessageView>, y2: Seq<SentMessageView>)
    requires
        s.len() < pow256(8),
        at(s, pos, enc_effects(y1)),
        at(s, pos, enc_effects(y2)),
    ensures
        y1 == y2,
{
    let f = |m: SentMessageView| enc_sent(m);
    assert forall|q: int, a: SentMessageView, c: SentMessageView| #[trigger] at(s, q, f(a)) && #[trigger] at(
        s,
        q,
        f(c),
    ) implies a == c by {
        lemma_unique_sent(s, q, a, c);
    }
    lemma_unique_list(s, pos, y1, y2, f);
}

pub proof fn lemma_unique_opt_claims(
    s: Seq<u8>,
    pos: int,
    y1: Option<Seq<AccumulatorClaim>>,
    y2: Option<Seq<AccumulatorClaim>>,
)
    requires
        s.len() < pow256(8),
        at(s, pos, enc_opt_claims(y1)),
        at(s, pos, enc_opt_claims(y2)),
    ensures
        y1 == y2,
{
    let f = |x: AccumulatorClaim| enc_claim(x);
    if let Some(c1) = y1 {
        lemma_at_concat(s, pos, seq![1u8], enc_claims(c1));
    }
    if let Some(c2) = y2 {
        lemma_at_concat(s, pos, seq![1u8], enc_claims(c2));
    }
    assert(s.subrange(pos, pos + 1)[0] == s[pos]);
    if y1 is Some && y2 is Some {
        assert forall|q: int, a: AccumulatorClaim, c: AccumulatorClaim| #[trigger] at(s, q, f(a)) && #[trigger] at(
            s,
            q,
            f(c),
        ) implies a == c by {
            lemma_unique_claim(s, q, a, c);
        }
        lemma_unique_list(s, pos + 1, y1->0, y2->0, f);
    }
}

pub proof fn lemma_unique_opt_bytes_list(s: Seq<u8>, pos: int, y1: Option<Seq<Seq<u8>>>, y2: Option<Seq<Seq<u8>>>)
    requires
        s.len() < pow256(8),
        at(s, pos, enc_opt_bytes_list(y1)),
        at(s, pos, enc_opt_bytes_list(y2)),
    ensures
        y1 == y2,
{
    let f = |b: Seq<u8>| enc_bytes(b);
    if let Some(l1) = y1 {
        lemma_at_concat(s, pos, seq![1u8], enc_bytes_list(l1));
    }
    if let Some(l2) = y2 {
        lemma_at_concat(s, pos, seq![1u8], enc_bytes_list(l2));
    }
    assert(s.subrange(pos, pos + 1)[0] == s[pos]);
    if y1 is Some && y2 is Some {
        assert forall|q: int, a: Seq<u8>, c: Seq<u8>| #[trigger] at(s, q, f(a)) && #[trigger] at(s, q, f(c)) implies a
            == c by {
            lemma_unique_bytes(s, q, a, c);
        }
        lemma_unique_list(s, pos + 1, y1->0, y2->0, f);
    }
}

pub proof fn lemma_unique_operation(s: Seq<u8>, pos: int, y1: SauTxOperationDataView, y2: SauTxOperationDataView)
    requires
        s.len() < pow256(8),
        at(s, pos, enc_operation(y1)),
        at(s, pos, enc_operation(y2)),
    ensures
        y1 == y2,
{
    let u1 = y1.update_data;
    let u2 = y2.update_data;
    lemma_at_concat3(s, pos, enc_update_data(u1), enc_messages(y1.messages), enc_opt_claims(y1.ledger_refs));
    lemma_at_concat3(s, pos, enc_update_data(u2), enc_messages(y2.messages), enc_opt_claims(y2.ledger_refs));
    lemma_at_concat3(s, pos, enc_u64(u1.seq_no), enc_proof_state(u1.proof_state), enc_bytes(u1.extra_data));
    lemma_at_concat3(s, pos, enc_u64(u2.seq_no), enc_proof_state(u2.proof_state), enc_bytes(u2.extra_data));
    lemma_unique_u64(s, pos, u1.seq_no, u2.seq_no);
    let ps1 = u1.proof_state;
    let ps2 = u2.proof_state;
    lemma_at_concat(s, pos + 8, enc_u64(ps1.new_next_msg_idx), ps1.inner_state_root.0@);
    lemma_at_concat(s, pos + 8, enc_u64(ps2.new_next_msg_idx), ps2.inner_state_root.0@);
    lemma_unique_u64(s, pos + 8, ps1.new_next_msg_idx, ps2.new_next_msg_idx);
    lemma_unique_array32(s, pos + 16, ps1.inner_state_root.0, ps2.inner_state_root.0);
    lemma_unique_bytes(s, pos + 48, u1.extra_data, u2.extra_data);
    assert(u1 == u2);
    lemma_unique_messages(s, pos + enc_update_data(u1).len(), y1.messages, y2.messages);
    lemma_unique_opt_claims(
        s,
        pos + enc_update_data(u1).len() + enc_messages(y1.messages).len(),
        y1.ledger_refs,
        y2.ledger_refs,
    );
}

pub proof fn lemma_unique_payload(s: Seq<u8>, pos: int, y1: TransactionPayloadView, y2: TransactionPayloadView)
    requires
        s.len() < pow256(8),
        at(s, pos, enc_payload(y1)),
        at(s, pos, enc_payload(y2)),
    ensures
        y1 == y2,
{
    match y1 {
        TransactionPayloadView::GenericAccountMessage(g) => {
            lemma_at_concat(s, pos, seq![0u8], g.target.0@);
        },
        TransactionPayloadView::SnarkAccountUpdate(u) => {
            lemma_at_concat3(s, pos, seq![1u8], u.target.0@, enc_operation(u.operation_data));
        },
    }
    match y2 {
        TransactionPayloadView::GenericAccountMessage(g) => {
            lemma_at_concat(s, pos, seq![0u8], g.target.0@);
        },
        TransactionPayloadView::SnarkAccountUpdate(u) => {
            lemma_at_concat3(s, pos, seq![1u8], u.target.0@, enc_operation(u.operation_data));
        },
    }
    assert(s.subrange(pos, pos + 1)[0] == s[pos]);
    match (y1, y2) {
        (TransactionPayloadView::GenericAccountMessage(g1), TransactionPayloadView::GenericAccountMessage(g2)) => {
            lemma_unique_array32(s, pos + 1, g1.target.0, g2.target.0);
        },
        (TransactionPayloadView::SnarkAccountUpdate(u1), TransactionPayloadView::SnarkAccountUpdate(u2)) => {
            lemma_unique_array32(s, pos + 1, u1.target.0, u2.target.0);
            lemma_unique_operation(s, pos + 33, u1.operation_data, u2.operation_data);
        },
        _ => {},
    }
}

/// The encoding of transactions is injective: two transactions with the
/// same encoding are the same.
pub proof fn lemma_enc_tx_injective(t1: OLTransactionView, t2: OLTransactionView)
    requires
        enc_tx(t1) == enc_tx(t2),
        enc_tx(t1).len() < pow256(8),
    ensures
        t1 == t2,
{
    let s = enc_tx(t1);
    assert(s.subrange(0, s.len() as int) =~= s);
    let d1 = t1.data;
    let d2 = t2.data;
    lemma_at_concat(s, 0, enc_tx_data(d1), enc_proofs(t1.proofs));
    lemma_at_concat(s, 0, enc_tx_data(d2), enc_proofs(t2.proofs));
    assert(enc_tx_data(d1) == enc_payload(d1.payload) + enc_opt_u64(d1.constraints.min_slot) + enc_opt_u64(
        d1.constraints.max_slot,
    ) + enc_effects(d1.effects));
    assert(enc_tx_data(d2) == enc_payload(d2.payload) + enc_opt_u64(d2.constraints.min_slot) + enc_opt_u64(
        d2.constraints.max_slot,
    ) + enc_effects(d2.effects));
    assert(enc_proofs(t1.proofs) == enc_opt_bytes_list(t1.proofs.predicate_satisfiers) + enc_opt_bytes_list(
        t1.proofs.accumulator_proofs,
    ));
    assert(enc_proofs(t2.proofs) == enc_opt_bytes_list(t2.proofs.predicate_satisfiers) + enc_opt_bytes_list(
        t2.proofs.accumulator_proofs,
    ));
    lemma_at_concat4(
        s,
        0,
        enc_payload(d1.payload),
        enc_opt_u64(d1.constraints.min_slot),
        enc_opt_u64(d1.constraints.max_slot),
        enc_effects(d1.effects),
    );
    lemma_at_concat4(
        s,
        0,
        enc_payload(d2.payload),
        enc_opt_u64(d2.constraints.min_slot),
        enc_opt_u64(d2.constraints.max_slot),
        enc_effects(d2.effects),
    );
    lemma_unique_payload(s, 0, d1.payload, d2.payload);
    let q1 = enc_payload(d1.payload).len() as int;
    lemma_unique_opt_u64(s, q1, d1.constraints.min_slot, d2.constraints.min_slot);
    let q2 = q1 + enc_opt_u64(d1.constraints.min_slot).len();
    lemma_unique_opt_u64(s, q2, d1.constraints.max_slot, d2.constraints.max_slot);
    let q3 = q2 + enc_opt_u64(d1.constraints.max_slot).len();
    lemma_unique_sent_list(s, q3, d1.effects, d2.effects);
    assert(d1 == d2);
    let q4 = enc_tx_data(d1).len() as int;
    let p1 = t1.proofs;
    let p2 = t2.proofs;
    lemma_at_concat(s, q4, enc_opt_bytes_list(p1.predicate_satisfiers), enc_opt_bytes_list(p1.accumulator_proofs));
    lemma_at_concat(s, q4, enc_opt_bytes_list(p2.predicate_satisfiers), enc_opt_bytes_list(p2.accumulator_proofs));
    lemma_unique_opt_bytes_list(s, q4, p1.predicate_satisfiers, p2.predicate_satisfiers);
    lemma_unique_opt_bytes_list(
        s,
        q4 + enc_opt_bytes_list(p1.predicate_satisfiers).len(),
        p1.accumulator_proofs,
        p2.accumulator_proofs,
    );
}

/// The transaction that bytes encode, if any.
pub open spec fn decoded_tx(b: Seq<u8>) -> Option<OLTransactionView> {
    if exists|t: OLTransactionView| enc_tx(t) == b {
        Some(choose|t: OLTransactionView| enc_tx(t) == b)
    } else {
        None
    }
}

/// Reading back the encoding of a transaction gives the transaction (for
/// any encoding short enough to be held in memory).
pub proof fn lemma_decode_encode(t: OLTransactionView)
    requires
        enc_tx(t).len() <= usize::MAX,
    ensures
        decoded_tx(enc_tx(t)) == Some(t),
{
    lemma_pow256_facts();
    let c = choose|c: OLTransactionView| enc_tx(c) == enc_tx(t);
    lemma_enc_tx_injective(c, t);
}

/// Bytes that read back as a transaction are that transaction's encoding.
pub proof fn lemma_encode_decode(b: Seq<u8>)
    ensures
        decoded_tx(b) matches Some(t) ==> enc_tx(t) == b,
{
}

} // verus!
