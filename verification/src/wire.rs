//! The canonical wire codec: every message encodes to a tagged binary form,
//! and decoding is proved to invert encoding.

use vstd::prelude::*;
use crate::codec::{
    enc_bytes, enc_u128, enc_u64, enc_u8, get_bytes, get_hash, get_u128, get_u64, get_u8,
    le_u64_at, lemma_u128_halves, lemma_u64_round_trip, put_bytes, put_hash, put_u128, put_u64,
    put_u8,
};
use crate::transaction::{
    enc_clock_entries, enc_hvc, status_tag, type_tag, Transaction, TransactionStatus,
    TransactionType,
};

verus! {

/// Everything a transaction puts on the wire: its id, the restricted
/// fields, the signature entries, the aggregate and the children.
pub type TxModel = (
    Option<Seq<u8>>,
    (
        Seq<u8>,
        Seq<u8>,
        Seq<u8>,
        u128,
        TransactionStatus,
        TransactionType,
        Seq<u8>,
        Seq<(Seq<u8>, u64)>,
        u64,
        u64,
    ),
    Seq<(Seq<u8>, Seq<u8>)>,
    Option<Seq<u8>>,
    Seq<Seq<u8>>,
);

/// The wire model of a transaction.
pub open spec fn tx_model(t: Transaction) -> TxModel {
    (t.spec_id(), t.restricted_model(), t.sig_pairs(), t.spec_agg(), t.spec_children())
}

/// An optional digest: a presence byte, then the 32 raw bytes if present.
pub open spec fn enc_opt_hash(o: Option<Seq<u8>>) -> Seq<u8> {
    match o {
        Option::None => enc_u8(0),
        Option::Some(h) => enc_u8(1) + h,
    }
}

/// An optional byte string: a presence byte, then the length-prefixed
/// bytes if present.
pub open spec fn enc_opt_bytes(o: Option<Seq<u8>>) -> Seq<u8> {
    match o {
        Option::None => enc_u8(0),
        Option::Some(b) => enc_u8(1) + enc_bytes(b),
    }
}

/// Digests back to back, 32 raw bytes each.
pub open spec fn enc_hashes(hs: Seq<Seq<u8>>) -> Seq<u8>
    decreases hs.len(),
{
    if hs.len() == 0 {
        Seq::empty()
    } else {
        enc_hashes(hs.drop_last()) + hs.last()
    }
}

/// Signature entries back to back: the signer-key digest, then the
/// length-prefixed signature bytes.
pub open spec fn enc_sig_entries(sigs: Seq<(Seq<u8>, Seq<u8>)>) -> Seq<u8>
    decreases sigs.len(),
{
    if sigs.len() == 0 {
        Seq::empty()
    } else {
        enc_sig_entries(sigs.drop_last()) + sigs.last().0 + enc_bytes(sigs.last().1)
    }
}

/// The canonical bytes of a transaction model.
pub open spec fn enc_tx_model(m: TxModel) -> Seq<u8> {
    enc_opt_hash(m.0) + m.1.0 + m.1.1 + m.1.2 + enc_u128(m.1.3) + enc_u8(status_tag(m.1.4))
        + enc_u8(type_tag(m.1.5)) + enc_bytes(m.1.6) + enc_hvc(m.1.7, m.1.8) + enc_u64(m.1.9)
        + enc_u64(m.2.len() as u64) + enc_sig_entries(m.2) + enc_opt_bytes(m.3) + enc_u64(
        m.4.len() as u64,
    ) + enc_hashes(m.4)
}

/// A transaction model the wire can carry faithfully: every digest is 32
/// bytes and every count fits its prefix.
pub open spec fn tx_model_wf(m: TxModel) -> bool {
    &&& (m.0 matches Some(h) ==> h.len() == 32)
    &&& m.1.0.len() == 32
    &&& m.1.1.len() == 32
    &&& m.1.2.len() == 32
    &&& m.1.6.len() <= u64::MAX
    &&& m.1.7.len() <= u64::MAX
    &&& (forall|i: int| 0 <= i < m.1.7.len() ==> (#[trigger] m.1.7[i]).0.len() == 32)
    &&& (forall|i: int, j: int| 0 <= i < j < m.1.7.len() ==> m.1.7[i].0 != m.1.7[j].0)
    &&& m.2.len() <= u64::MAX
    &&& (forall|i: int|
        0 <= i < m.2.len() ==> (#[trigger] m.2[i]).0.len() == 32 && m.2[i].1.len() <= u64::MAX)
    &&& (forall|i: int, j: int| 0 <= i < j < m.2.len() ==> m.2[i].0 != m.2[j].0)
    &&& (m.3 matches Some(b) ==> b.len() <= u64::MAX)
    &&& m.4.len() <= u64::MAX
    &&& (forall|i: int| 0 <= i < m.4.len() ==> (#[trigger] m.4[i]).len() == 32)
}

/// Appends the canonical bytes of the transaction.
#[verifier::rlimit(100)]
#[verifier::spinoff_prover]
pub fn put_tx(out: &mut Vec<u8>, t: &Transaction)
    ensures
        final(out)@ == old(out)@ + enc_tx_model(tx_model(*t)),
{
    match &t.id {
        Some(h) => {
            put_u8(out, 1);
            put_hash(out, h);
        },
        None => {
            put_u8(out, 0);
        },
    }
    put_hash(out, &t.parent);
    put_hash(out, &t.origin);
    put_hash(out, &t.destination);
    put_u128(out, t.amount);
    put_u8(out, crate::transaction::status_tag_of(t.status));
    put_u8(out, crate::transaction::type_tag_of(t.tx_type));
    put_bytes(out, &t.payload);
    crate::transaction::put_hvc(out, &t.hvc);
    put_u64(out, t.timestamp);
    t.signatures.key_seq_facts();
    let n = t.signatures.len();
    put_u64(out, n as u64);
    let ghost sigs = t.sig_pairs();
    let ghost mid = out@;
    let mut i: usize = 0;
    while i < n
        invariant
            0 <= i <= n,
            n == t.signatures@.dom().len(),
            n == t.signatures.entry_pairs().len(),
            sigs == t.sig_pairs(),
            sigs.len() == n,
            forall|j: int|
                0 <= j < n ==> #[trigger] sigs[j] == (
                    t.signatures.entry_pairs()[j].0,
                    t.signatures.entry_pairs()[j].1@,
                ),
            out@ == mid + enc_sig_entries(sigs.take(i as int)),
        decreases n - i,
    {
        let pair = t.signatures.pair_at(i);
        put_hash(out, &pair.0);
        let sig_bytes = pair.1.as_bytes();
        put_bytes(out, sig_bytes);
        proof {
            assert(sigs.take(i + 1).drop_last() =~= sigs.take(i as int));
            assert(sigs.take(i + 1).last() == sigs[i as int]);
            assert(out@ =~= mid + enc_sig_entries(sigs.take(i + 1)));
        }
        i += 1;
    }
    proof {
        assert(sigs.take(sigs.len() as int) =~= sigs);
    }
    match &t.agg_signature {
        Some(s) => {
            put_u8(out, 1);
            let bytes = s.as_bytes();
            put_bytes(out, bytes);
        },
        None => {
            put_u8(out, 0);
        },
    }
    let c = t.children.len();
    put_u64(out, c as u64);
    let ghost kids = t.spec_children();
    let ghost mid2 = out@;
    let mut j: usize = 0;
    while j < c
        invariant
            0 <= j <= c,
            c == t.children@.len(),
            kids == t.spec_children(),
            kids.len() == c,
            out@ == mid2 + enc_hashes(kids.take(j as int)),
        decreases c - j,
    {
        put_hash(out, &t.children[j]);
        proof {
            assert(kids.take(j + 1).drop_last() =~= kids.take(j as int));
            assert(kids.take(j + 1).last() == kids[j as int]);
            assert(out@ =~= mid2 + enc_hashes(kids.take(j + 1)));
        }
        j += 1;
    }
    proof {
        assert(kids.take(kids.len() as int) =~= kids);
        assert(final(out)@ =~= old(out)@ + enc_tx_model(tx_model(*t)));
    }
}

/// Every model a real transaction yields is carryable.
pub fn tx_model_wf_holds(t: &Transaction)
    ensures
        tx_model_wf(tx_model(*t)),
{
    t.signatures.key_seq_facts();
    proof {
        vstd::std_specs::vec::axiom_spec_len(&t.payload);
        vstd::std_specs::vec::axiom_spec_len(&t.children);
        t.signatures.lemma_entry_count_bound();
        crate::clock::lemma_hvc_entry_count(t.hvc);
        if t.agg_signature is Some {
            crate::signature::lemma_sig_len_bound(t.agg_signature->0);
        }
        assert forall|i: int|
            0 <= i < tx_model(*t).2.len() implies (#[trigger] tx_model(*t).2[i]).0.len() == 32
            && tx_model(*t).2[i].1.len() <= u64::MAX by {
            assert(t.sig_pairs()[i] == (
                t.signatures.entry_pairs()[i].0,
                t.signatures.entry_pairs()[i].1@,
            ));
            t.signatures.lemma_entry_key_len(i);
            crate::signature::lemma_sig_len_bound(t.signatures.entry_pairs()[i].1);
        }
        assert forall|i: int, j: int|
            0 <= i < j < tx_model(*t).2.len() implies tx_model(*t).2[i].0 != tx_model(
            *t,
        ).2[j].0 by {
            assert(t.sig_pairs()[i].0 == t.signatures.entry_pairs()[i].0);
            assert(t.sig_pairs()[j].0 == t.signatures.entry_pairs()[j].0);
            assert(t.signatures.entry_pairs()[i].0 == t.signatures.key_seq()[i]);
            assert(t.signatures.entry_pairs()[j].0 == t.signatures.key_seq()[j]);
        }
        assert forall|i: int|
            0 <= i < tx_model(*t).1.7.len() implies (#[trigger] tx_model(*t).1.7[i]).0.len()
            == 32 by {
            assert(t.hvc.entry_pairs()[i].0.len() == 32) by {
                crate::clock::lemma_hvc_entry_keys(t.hvc, i);
            }
        }
    }
    t.hvc.entry_facts();
    proof {
        assert(forall|i: int, j: int|
            0 <= i < j < tx_model(*t).1.7.len() ==> tx_model(*t).1.7[i].0 != tx_model(
                *t,
            ).1.7[j].0);
        assert forall|i: int|
            0 <= i < tx_model(*t).4.len() implies (#[trigger] tx_model(*t).4[i]).len() == 32 by {
            assert(t.spec_children()[i] == t.children@[i]@);
        }
    }
}

/// The parse of an optional digest.
pub open spec fn sdec_opt_hash(s: Seq<u8>, pos: int) -> Option<(Option<Seq<u8>>, int)> {
    if 0 <= pos < s.len() {
        if s[pos] == 0 {
            Some((Option::None, pos + 1))
        } else if s[pos] == 1 && pos + 33 <= s.len() {
            Some((Some(s.subrange(pos + 1, pos + 33)), pos + 33))
        } else {
            None
        }
    } else {
        None
    }
}

/// The parse of a length-prefixed byte string.
pub open spec fn sdec_bytes(s: Seq<u8>, pos: int) -> Option<(Seq<u8>, int)> {
    if 0 <= pos && pos + 8 <= s.len() && pos + 8 + le_u64_at(s, pos) <= s.len() {
        Some(
            (
                s.subrange(pos + 8, pos + 8 + le_u64_at(s, pos)),
                pos + 8 + le_u64_at(s, pos),
            ),
        )
    } else {
        None
    }
}

/// The parse of an optional length-prefixed byte string.
pub open spec fn sdec_opt_bytes(s: Seq<u8>, pos: int) -> Option<(Option<Seq<u8>>, int)> {
    if 0 <= pos < s.len() {
        if s[pos] == 0 {
            Some((Option::None, pos + 1))
        } else if s[pos] == 1 {
            match sdec_bytes(s, pos + 1) {
                Some((b, p)) => Some((Some(b), p)),
                None => None,
            }
        } else {
            None
        }
    } else {
        None
    }
}

/// The parse of `count` digests back to back.
pub open spec fn sdec_hashes(s: Seq<u8>, pos: int, count: int) -> Option<(Seq<Seq<u8>>, int)>
    decreases count,
{
    if count <= 0 {
        if 0 <= pos <= s.len() {
            Some((Seq::empty(), pos))
        } else {
            None
        }
    } else if 0 <= pos && pos + 32 <= s.len() {
        match sdec_hashes(s, pos + 32, count - 1) {
            Some((hs, p)) => Some((seq![s.subrange(pos, pos + 32)] + hs, p)),
            None => None,
        }
    } else {
        None
    }
}

/// The parse of `count` clock entries back to back, refusing a repeated
/// node id.
pub open spec fn sdec_clock_entries(s: Seq<u8>, pos: int, count: int, seen: Set<Seq<u8>>) -> Option<
    (Seq<(Seq<u8>, u64)>, int),
>
    decreases count,
{
    if count <= 0 {
        if 0 <= pos <= s.len() {
            Some((Seq::empty(), pos))
        } else {
            None
        }
    } else if 0 <= pos && pos + 40 <= s.len() && !seen.contains(s.subrange(pos, pos + 32)) {
        match sdec_clock_entries(s, pos + 40, count - 1, seen.insert(s.subrange(pos, pos + 32))) {
            Some((es, p)) => Some(
                (seq![(s.subrange(pos, pos + 32), le_u64_at(s, pos + 32))] + es, p),
            ),
            None => None,
        }
    } else {
        None
    }
}

/// The parse of `count` signature entries, refusing a repeated signer key.
pub open spec fn sdec_sig_entries(s: Seq<u8>, pos: int, count: int, seen: Set<Seq<u8>>) -> Option<
    (Seq<(Seq<u8>, Seq<u8>)>, int),
>
    decreases count,
{
    if count <= 0 {
        if 0 <= pos <= s.len() {
            Some((Seq::empty(), pos))
        } else {
            None
        }
    } else if 0 <= pos && pos + 32 <= s.len() && !seen.contains(s.subrange(pos, pos + 32)) {
        match sdec_bytes(s, pos + 32) {
            Some((sig, p)) => match sdec_sig_entries(
                s,
                p,
                count - 1,
                seen.insert(s.subrange(pos, pos + 32)),
            ) {
                Some((es, p2)) => Some((seq![(s.subrange(pos, pos + 32), sig)] + es, p2)),
                None => None,
            },
            None => None,
        }
    } else {
        None
    }
}

/// The parse of a whole transaction model.
pub open spec fn sdec_tx(s: Seq<u8>, pos: int) -> Option<(TxModel, int)> {
    match sdec_opt_hash(s, pos) {
        None => None,
        Some((id, p1)) => {
            if p1 + 96 <= s.len() {
                let parent = s.subrange(p1, p1 + 32);
                let origin = s.subrange(p1 + 32, p1 + 64);
                let destination = s.subrange(p1 + 64, p1 + 96);
                let p2 = p1 + 96;
                if p2 + 16 + 2 <= s.len() {
                    let amount = (le_u64_at(s, p2) as u128) | ((le_u64_at(s, p2 + 8) as u128)
                        << 64);
                    let status = s[p2 + 16];
                    let tx_type = s[p2 + 17];
                    let p3 = p2 + 18;
                    if status <= 3 && tx_type <= 1 {
                        match sdec_bytes(s, p3) {
                            None => None,
                            Some((payload, p4)) => {
                                if p4 + 8 <= s.len() {
                                    match sdec_clock_entries(
                                        s,
                                        p4 + 8,
                                        le_u64_at(s, p4) as int,
                                        Set::empty(),
                                    ) {
                                        None => None,
                                        Some((clock_pairs, p5)) => {
                                            if p5 + 16 + 8 <= s.len() {
                                                let order = le_u64_at(s, p5);
                                                let timestamp = le_u64_at(s, p5 + 8);
                                                let sig_count = le_u64_at(s, p5 + 16);
                                                match sdec_sig_entries(
                                                    s,
                                                    p5 + 24,
                                                    sig_count as int,
                                                    Set::empty(),
                                                ) {
                                                    None => None,
                                                    Some((sigs, p6)) => match sdec_opt_bytes(
                                                        s,
                                                        p6,
                                                    ) {
                                                        None => None,
                                                        Some((agg, p7)) => {
                                                            if p7 + 8 <= s.len() {
                                                                match sdec_hashes(
                                                                    s,
                                                                    p7 + 8,
                                                                    le_u64_at(s, p7) as int,
                                                                ) {
                                                                    None => None,
                                                                    Some((kids, p8)) => Some(
                                                                        (
                                                                            (
                                                                                id,
                                                                                (
                                                                                    parent,
                                                                                    origin,
                                                                                    destination,
                                                                                    amount,
                                                                                    status_of_tag(
                                                                                        status,
                                                                                    ),
                                                                                    type_of_tag(
                                                                                        tx_type,
                                                                                    ),
                                                                                    payload,
                                                                                    clock_pairs,
                                                                                    order,
                                                                                    timestamp,
                                                                                ),
                                                                                sigs,
                                                                                agg,
                                                                                kids,
                                                                            ),
                                                                            p8,
                                                                        ),
                                                                    ),
                                                                }
                                                            } else {
                                                                None
                                                            }
                                                        },
                                                    },
                                                }
                                            } else {
                                                None
                                            }
                                        },
                                    }
                                } else {
                                    None
                                }
                            },
                        }
                    } else {
                        None
                    }
                } else {
                    None
                }
            } else {
                None
            }
        },
    }
}

/// The status a tag byte names.
pub open spec fn status_of_tag(t: u8) -> TransactionStatus {
    if t == 0 {
        TransactionStatus::Unset
    } else if t == 1 {
        TransactionStatus::Pending
    } else if t == 2 {
        TransactionStatus::Accepted
    } else {
        TransactionStatus::Rejected
    }
}

/// The type a tag byte names.
pub open spec fn type_of_tag(t: u8) -> TransactionType {
    if t == 0 {
        TransactionType::CreateAccount
    } else {
        TransactionType::Transfer
    }
}

/// Reading back an encoded optional digest yields it.
pub proof fn lemma_opt_hash_rt(s: Seq<u8>, pos: int, o: Option<Seq<u8>>)
    requires
        0 <= pos,
        (o matches Some(h) ==> h.len() == 32),
        pos + enc_opt_hash(o).len() <= s.len(),
        s.subrange(pos, pos + enc_opt_hash(o).len()) == enc_opt_hash(o),
    ensures
        sdec_opt_hash(s, pos) == Some((o, pos + enc_opt_hash(o).len())),
{
    match o {
        Option::None => {
            assert(s.subrange(pos, pos + 1)[0] == s[pos]);
            assert(enc_opt_hash(o)[0] == 0);
            assert(s[pos] == 0);
        },
        Option::Some(h) => {
            assert(s.subrange(pos, pos + 33)[0] == s[pos]);
            assert(enc_opt_hash(o)[0] == 1);
            assert(s[pos] == 1);
            assert forall|i: int| 0 <= i < 32 implies s.subrange(pos + 1, pos + 33)[i]
                == h[i] by {
                assert(s.subrange(pos, pos + 33)[1 + i] == s[pos + 1 + i]);
                assert(enc_opt_hash(o)[1 + i] == h[i]);
            }
            assert(s.subrange(pos + 1, pos + 33) =~= h);
        },
    }
}

/// Reading back an encoded byte string yields it.
pub proof fn lemma_bytes_rt(s: Seq<u8>, pos: int, b: Seq<u8>)
    requires
        0 <= pos,
        b.len() <= u64::MAX,
        pos + enc_bytes(b).len() <= s.len(),
        s.subrange(pos, pos + enc_bytes(b).len()) == enc_bytes(b),
    ensures
        sdec_bytes(s, pos) == Some((b, pos + 8 + b.len())),
{
    let e = enc_bytes(b);
    crate::codec::lemma_subrange_of_eq(s, pos, e, 0, 8);
    assert(e.subrange(0, 8) =~= crate::codec::enc_u64(b.len() as u64));
    lemma_u64_round_trip(s, pos, b.len() as u64);
    crate::codec::lemma_subrange_of_eq(s, pos, e, 8, e.len() as int);
    assert(e.subrange(8, e.len() as int) =~= b);
}

/// Reading back an encoded optional byte string yields it.
pub proof fn lemma_opt_bytes_rt(s: Seq<u8>, pos: int, o: Option<Seq<u8>>)
    requires
        0 <= pos,
        (o matches Some(b) ==> b.len() <= u64::MAX),
        pos + enc_opt_bytes(o).len() <= s.len(),
        s.subrange(pos, pos + enc_opt_bytes(o).len()) == enc_opt_bytes(o),
    ensures
        sdec_opt_bytes(s, pos) == Some((o, pos + enc_opt_bytes(o).len())),
{
    match o {
        Option::None => {
            assert(s.subrange(pos, pos + 1)[0] == s[pos]);
            assert(enc_opt_bytes(o)[0] == 0);
            assert(s[pos] == 0);
        },
        Option::Some(b) => {
            let l = enc_bytes(b).len() as int;
            assert(s.subrange(pos, pos + 1 + l)[0] == s[pos]);
            assert(enc_opt_bytes(o)[0] == 1);
            assert(s[pos] == 1);
            assert forall|i: int| 0 <= i < l implies s.subrange(pos + 1, pos + 1 + l)[i]
                == enc_bytes(b)[i] by {
                assert(s.subrange(pos, pos + 1 + l)[1 + i] == s[pos + 1 + i]);
                assert(enc_opt_bytes(o)[1 + i] == enc_bytes(b)[i]);
            }
            assert(s.subrange(pos + 1, pos + 1 + enc_bytes(b).len() as int) =~= enc_bytes(b));
            lemma_bytes_rt(s, pos + 1, b);
        },
    }
}

/// An encoded digest list has 32 bytes per digest.
pub proof fn lemma_enc_hashes_len(hs: Seq<Seq<u8>>)
    requires
        forall|i: int| 0 <= i < hs.len() ==> (#[trigger] hs[i]).len() == 32,
    ensures
        enc_hashes(hs).len() == 32 * hs.len(),
    decreases hs.len(),
{
    if hs.len() > 0 {
        assert(forall|i: int|
            0 <= i < hs.drop_last().len() ==> (#[trigger] hs.drop_last()[i]).len() == 32);
        lemma_enc_hashes_len(hs.drop_last());
    }
}

/// Reading back an encoded digest list yields it.
pub proof fn lemma_hashes_rt(s: Seq<u8>, pos: int, hs: Seq<Seq<u8>>)
    requires
        0 <= pos,
        forall|i: int| 0 <= i < hs.len() ==> (#[trigger] hs[i]).len() == 32,
        pos + enc_hashes(hs).len() <= s.len(),
        s.subrange(pos, pos + enc_hashes(hs).len()) == enc_hashes(hs),
    ensures
        sdec_hashes(s, pos, hs.len() as int) == Some((hs, pos + enc_hashes(hs).len())),
    decreases hs.len(),
{
    lemma_enc_hashes_len(hs);
    if hs.len() == 0 {
        assert(sdec_hashes(s, pos, 0) == Some((Seq::<Seq<u8>>::empty(), pos)));
        assert(hs =~= Seq::<Seq<u8>>::empty());
    } else {
        let head = hs.first();
        let tail = hs.drop_first();
        assert(hs =~= seq![head] + tail);
        lemma_enc_hashes_cons(head, tail);
        let e = enc_hashes(hs);
        assert(e == head + enc_hashes(tail));
        crate::codec::lemma_subrange_of_eq(s, pos, e, 0, 32);
        assert(e.subrange(0, 32) =~= head);
        assert(s.subrange(pos, pos + 32) == head);
        assert(forall|i: int| 0 <= i < tail.len() ==> (#[trigger] tail[i]).len() == 32) by {
            assert(forall|i: int| 0 <= i < tail.len() ==> tail[i] == hs[i + 1]);
        }
        lemma_enc_hashes_len(tail);
        crate::codec::lemma_subrange_of_eq(s, pos, e, 32, e.len() as int);
        assert(e.subrange(32, e.len() as int) =~= enc_hashes(tail));
        lemma_hashes_rt(s, pos + 32, tail);
        assert(seq![s.subrange(pos, pos + 32)] + tail =~= hs);
    }
}

/// Encoding a digest list starting with `head` starts with `head`.
pub proof fn lemma_enc_hashes_cons(head: Seq<u8>, tail: Seq<Seq<u8>>)
    ensures
        enc_hashes(seq![head] + tail) == head + enc_hashes(tail),
    decreases tail.len(),
{
    if tail.len() == 0 {
        assert(tail =~= Seq::<Seq<u8>>::empty());
        assert((seq![head] + tail).drop_last() =~= tail);
        assert((seq![head] + tail).last() == head);
        assert(enc_hashes(tail) == Seq::<u8>::empty());
        assert(enc_hashes(seq![head] + tail) == enc_hashes(tail) + head);
        assert(enc_hashes(tail) + head =~= head + enc_hashes(tail));
    } else {
        assert((seq![head] + tail).drop_last() =~= seq![head] + tail.drop_last());
        assert((seq![head] + tail).last() == tail.last());
        lemma_enc_hashes_cons(head, tail.drop_last());
        assert(enc_hashes(seq![head] + tail) == enc_hashes(seq![head] + tail.drop_last())
            + tail.last());
        assert(enc_hashes(tail) == enc_hashes(tail.drop_last()) + tail.last());
        assert((head + enc_hashes(tail.drop_last())) + tail.last() =~= head + (enc_hashes(
            tail.drop_last(),
        ) + tail.last()));
    }
}

/// Encoding clock entries starting with `head` starts with `head`'s bytes.
pub proof fn lemma_enc_clock_cons(head: (Seq<u8>, u64), tail: Seq<(Seq<u8>, u64)>)
    ensures
        enc_clock_entries(seq![head] + tail) == head.0 + crate::codec::enc_u64(head.1)
            + enc_clock_entries(tail),
    decreases tail.len(),
{
    if tail.len() == 0 {
        assert(tail =~= Seq::<(Seq<u8>, u64)>::empty());
        assert((seq![head] + tail).drop_last() =~= tail);
        assert((seq![head] + tail).last() == head);
        assert(enc_clock_entries(tail) == Seq::<u8>::empty());
        assert(enc_clock_entries(seq![head] + tail) == enc_clock_entries(tail) + head.0
            + crate::codec::enc_u64(head.1));
        assert(enc_clock_entries(tail) + head.0 + crate::codec::enc_u64(head.1) =~= head.0
            + crate::codec::enc_u64(head.1) + enc_clock_entries(tail));
    } else {
        assert((seq![head] + tail).drop_last() =~= seq![head] + tail.drop_last());
        assert((seq![head] + tail).last() == tail.last());
        lemma_enc_clock_cons(head, tail.drop_last());
        assert(enc_clock_entries(seq![head] + tail) == enc_clock_entries(
            seq![head] + tail.drop_last(),
        ) + tail.last().0 + crate::codec::enc_u64(tail.last().1));
        assert(enc_clock_entries(tail) == enc_clock_entries(tail.drop_last()) + tail.last().0
            + crate::codec::enc_u64(tail.last().1));
        assert(head.0 + crate::codec::enc_u64(head.1) + enc_clock_entries(tail.drop_last())
            + tail.last().0 + crate::codec::enc_u64(tail.last().1) =~= head.0
            + crate::codec::enc_u64(head.1) + enc_clock_entries(tail));
    }
}

/// An encoded clock entry list has forty bytes per entry.
pub proof fn lemma_enc_clock_len(pairs: Seq<(Seq<u8>, u64)>)
    requires
        forall|i: int| 0 <= i < pairs.len() ==> (#[trigger] pairs[i]).0.len() == 32,
    ensures
        enc_clock_entries(pairs).len() == 40 * pairs.len(),
    decreases pairs.len(),
{
    if pairs.len() > 0 {
        assert(forall|i: int|
            0 <= i < pairs.drop_last().len() ==> (#[trigger] pairs.drop_last()[i]).0.len() == 32);
        lemma_enc_clock_len(pairs.drop_last());
    }
}

/// Reading back encoded clock entries with fresh node ids yields them.
pub proof fn lemma_clock_entries_rt(s: Seq<u8>, pos: int, pairs: Seq<(Seq<u8>, u64)>, seen: Set<
    Seq<u8>,
>)
    requires
        0 <= pos,
        forall|i: int| 0 <= i < pairs.len() ==> (#[trigger] pairs[i]).0.len() == 32,
        forall|i: int, j: int| 0 <= i < j < pairs.len() ==> pairs[i].0 != pairs[j].0,
        forall|i: int| 0 <= i < pairs.len() ==> !seen.contains((#[trigger] pairs[i]).0),
        pos + enc_clock_entries(pairs).len() <= s.len(),
        s.subrange(pos, pos + enc_clock_entries(pairs).len()) == enc_clock_entries(pairs),
    ensures
        sdec_clock_entries(s, pos, pairs.len() as int, seen) == Some(
            (pairs, pos + enc_clock_entries(pairs).len()),
        ),
    decreases pairs.len(),
{
    lemma_enc_clock_len(pairs);
    if pairs.len() == 0 {
        assert(pairs =~= Seq::<(Seq<u8>, u64)>::empty());
    } else {
        let head = pairs.first();
        let tail = pairs.drop_first();
        assert(pairs =~= seq![head] + tail);
        lemma_enc_clock_cons(head, tail);
        let e = enc_clock_entries(pairs);
        assert(e == head.0 + crate::codec::enc_u64(head.1) + enc_clock_entries(tail));
        crate::codec::lemma_subrange_of_eq(s, pos, e, 0, 32);
        assert(e.subrange(0, 32) =~= head.0);
        assert(s.subrange(pos, pos + 32) == head.0);
        crate::codec::lemma_subrange_of_eq(s, pos, e, 32, 40);
        assert(e.subrange(32, 40) =~= crate::codec::enc_u64(head.1));
        lemma_u64_round_trip(s, pos + 32, head.1);
        assert(forall|i: int| 0 <= i < tail.len() ==> (#[trigger] tail[i]).0.len() == 32) by {
            assert(forall|i: int| 0 <= i < tail.len() ==> tail[i] == pairs[i + 1]);
        }
        assert(forall|i: int, j: int| 0 <= i < j < tail.len() ==> tail[i].0 != tail[j].0) by {
            assert(forall|i: int| 0 <= i < tail.len() ==> tail[i] == pairs[i + 1]);
        }
        assert(!seen.contains(s.subrange(pos, pos + 32)));
        let seen2 = seen.insert(s.subrange(pos, pos + 32));
        assert(forall|i: int| 0 <= i < tail.len() ==> !seen2.contains((#[trigger] tail[i]).0)) by {
            assert(forall|i: int| 0 <= i < tail.len() ==> tail[i] == pairs[i + 1]);
            assert(forall|i: int| 0 <= i < tail.len() ==> (#[trigger] tail[i]).0 != head.0);
        }
        lemma_enc_clock_len(tail);
        crate::codec::lemma_subrange_of_eq(s, pos, e, 40, e.len() as int);
        assert(e.subrange(40, e.len() as int) =~= enc_clock_entries(tail));
        lemma_clock_entries_rt(s, pos + 40, tail, seen2);
        assert(seq![(s.subrange(pos, pos + 32), le_u64_at(s, pos + 32))] + tail =~= pairs);
    }
}

/// Encoding signature entries starting with `head` starts with its bytes.
pub proof fn lemma_enc_sig_cons(head: (Seq<u8>, Seq<u8>), tail: Seq<(Seq<u8>, Seq<u8>)>)
    ensures
        enc_sig_entries(seq![head] + tail) == head.0 + enc_bytes(head.1) + enc_sig_entries(tail),
    decreases tail.len(),
{
    if tail.len() == 0 {
        assert(tail =~= Seq::<(Seq<u8>, Seq<u8>)>::empty());
        assert((seq![head] + tail).drop_last() =~= tail);
        assert((seq![head] + tail).last() == head);
        assert(enc_sig_entries(tail) == Seq::<u8>::empty());
        assert(enc_sig_entries(seq![head] + tail) == enc_sig_entries(tail) + head.0 + enc_bytes(
            head.1,
        ));
        assert(enc_sig_entries(tail) + head.0 + enc_bytes(head.1) =~= head.0 + enc_bytes(head.1)
            + enc_sig_entries(tail));
    } else {
        assert((seq![head] + tail).drop_last() =~= seq![head] + tail.drop_last());
        assert((seq![head] + tail).last() == tail.last());
        lemma_enc_sig_cons(head, tail.drop_last());
        assert(enc_sig_entries(seq![head] + tail) == enc_sig_entries(seq![head] + tail.drop_last())
            + tail.last().0 + enc_bytes(tail.last().1));
        assert(enc_sig_entries(tail) == enc_sig_entries(tail.drop_last()) + tail.last().0
            + enc_bytes(tail.last().1));
        assert(head.0 + enc_bytes(head.1) + enc_sig_entries(tail.drop_last()) + tail.last().0
            + enc_bytes(tail.last().1) =~= head.0 + enc_bytes(head.1) + enc_sig_entries(tail));
    }
}

/// Reading back encoded signature entries with fresh keys yields them.
pub proof fn lemma_sig_entries_rt(
    s: Seq<u8>,
    pos: int,
    sigs: Seq<(Seq<u8>, Seq<u8>)>,
    seen: Set<Seq<u8>>,
)
    requires
        0 <= pos,
        forall|i: int|
            0 <= i < sigs.len() ==> (#[trigger] sigs[i]).0.len() == 32 && sigs[i].1.len()
                <= u64::MAX,
        forall|i: int, j: int| 0 <= i < j < sigs.len() ==> sigs[i].0 != sigs[j].0,
        forall|i: int| 0 <= i < sigs.len() ==> !seen.contains((#[trigger] sigs[i]).0),
        pos + enc_sig_entries(sigs).len() <= s.len(),
        s.subrange(pos, pos + enc_sig_entries(sigs).len()) == enc_sig_entries(sigs),
    ensures
        sdec_sig_entries(s, pos, sigs.len() as int, seen) == Some(
            (sigs, pos + enc_sig_entries(sigs).len()),
        ),
    decreases sigs.len(),
{
    if sigs.len() == 0 {
        assert(sigs =~= Seq::<(Seq<u8>, Seq<u8>)>::empty());
    } else {
        let head = sigs.first();
        let tail = sigs.drop_first();
        assert(sigs =~= seq![head] + tail);
        lemma_enc_sig_cons(head, tail);
        let e = enc_sig_entries(sigs);
        assert(e == head.0 + enc_bytes(head.1) + enc_sig_entries(tail));
        crate::codec::lemma_subrange_of_eq(s, pos, e, 0, 32);
        assert(e.subrange(0, 32) =~= head.0);
        assert(s.subrange(pos, pos + 32) == head.0);
        assert(!seen.contains(s.subrange(pos, pos + 32)));
        let p_sig = pos + 32;
        crate::codec::lemma_subrange_of_eq(s, pos, e, 32, 32 + enc_bytes(head.1).len() as int);
        assert(e.subrange(32, 32 + enc_bytes(head.1).len() as int) =~= enc_bytes(head.1));
        lemma_bytes_rt(s, p_sig, head.1);
        let p_tail = p_sig + 8 + head.1.len() as int;
        assert(forall|i: int|
            0 <= i < tail.len() ==> (#[trigger] tail[i]).0.len() == 32 && tail[i].1.len()
                <= u64::MAX) by {
            assert(forall|i: int| 0 <= i < tail.len() ==> tail[i] == sigs[i + 1]);
        }
        assert(forall|i: int, j: int| 0 <= i < j < tail.len() ==> tail[i].0 != tail[j].0) by {
            assert(forall|i: int| 0 <= i < tail.len() ==> tail[i] == sigs[i + 1]);
        }
        let seen2 = seen.insert(s.subrange(pos, pos + 32));
        assert(forall|i: int| 0 <= i < tail.len() ==> !seen2.contains((#[trigger] tail[i]).0)) by {
            assert(forall|i: int| 0 <= i < tail.len() ==> tail[i] == sigs[i + 1]);
            assert(forall|i: int| 0 <= i < tail.len() ==> (#[trigger] tail[i]).0 != head.0);
        }
        crate::codec::lemma_subrange_of_eq(
            s,
            pos,
            e,
            32 + enc_bytes(head.1).len() as int,
            e.len() as int,
        );
        assert(e.subrange(32 + enc_bytes(head.1).len() as int, e.len() as int)
            =~= enc_sig_entries(tail));
        lemma_sig_entries_rt(s, p_tail, tail, seen2);
        assert(seq![(s.subrange(pos, pos + 32), head.1)] + tail =~= sigs);
    }
}

/// Reading back an encoded transaction yields its model: the transaction
/// codec round-trips.
/// Offsets of the fields inside an encoded transaction.
pub open spec fn tx_off_payload(m: TxModel) -> int {
    enc_opt_hash(m.0).len() as int + 114
}

pub open spec fn tx_off_clock(m: TxModel) -> int {
    tx_off_payload(m) + enc_bytes(m.1.6).len() as int
}

pub open spec fn tx_off_order(m: TxModel) -> int {
    tx_off_clock(m) + 8 + enc_clock_entries(m.1.7).len() as int
}

pub open spec fn tx_off_sigs(m: TxModel) -> int {
    tx_off_order(m) + 24
}

pub open spec fn tx_off_agg(m: TxModel) -> int {
    tx_off_sigs(m) + enc_sig_entries(m.2).len() as int
}

pub open spec fn tx_off_kids(m: TxModel) -> int {
    tx_off_agg(m) + enc_opt_bytes(m.3).len() as int
}

/// The head fields of an encoded transaction parse back to the model's.
#[verifier::rlimit(100)]
#[verifier::spinoff_prover]
pub proof fn lemma_tx_extract_a(s: Seq<u8>, pos: int, m: TxModel)
    requires
        0 <= pos,
        tx_model_wf(m),
        pos + enc_tx_model(m).len() <= s.len(),
        s.subrange(pos, pos + enc_tx_model(m).len()) == enc_tx_model(m),
    ensures
        sdec_opt_hash(s, pos) == Some((m.0, pos + enc_opt_hash(m.0).len() as int)),
        s.subrange(pos + enc_opt_hash(m.0).len(), pos + enc_opt_hash(m.0).len() + 32) == m.1.0,
        s.subrange(pos + enc_opt_hash(m.0).len() + 32, pos + enc_opt_hash(m.0).len() + 64)
            == m.1.1,
        s.subrange(pos + enc_opt_hash(m.0).len() + 64, pos + enc_opt_hash(m.0).len() + 96)
            == m.1.2,
        (le_u64_at(s, pos + enc_opt_hash(m.0).len() + 96) as u128) | ((le_u64_at(
            s,
            pos + enc_opt_hash(m.0).len() + 104,
        ) as u128) << 64) == m.1.3,
        s[pos + enc_opt_hash(m.0).len() + 112] == status_tag(m.1.4),
        s[pos + enc_opt_hash(m.0).len() + 113] == type_tag(m.1.5),
        sdec_bytes(s, pos + enc_opt_hash(m.0).len() + 114) == Some(
            (m.1.6, pos + tx_off_clock(m)),
        ),
{
    let e = enc_tx_model(m);
    lemma_enc_clock_len(m.1.7);
    lemma_enc_hashes_len(m.4);
    let o1 = enc_opt_hash(m.0).len() as int;
    let o2 = o1 + 96;
    let o3 = o2 + 18;
    let o4 = o3 + enc_bytes(m.1.6).len() as int;
    crate::codec::lemma_subrange_of_eq(s, pos, e, 0, o1);
    assert(e.subrange(0, o1) =~= enc_opt_hash(m.0));
    lemma_opt_hash_rt(s, pos, m.0);
    crate::codec::lemma_subrange_of_eq(s, pos, e, o1, o1 + 32);
    assert(e.subrange(o1, o1 + 32) =~= m.1.0);
    crate::codec::lemma_subrange_of_eq(s, pos, e, o1 + 32, o1 + 64);
    assert(e.subrange(o1 + 32, o1 + 64) =~= m.1.1);
    crate::codec::lemma_subrange_of_eq(s, pos, e, o1 + 64, o1 + 96);
    assert(e.subrange(o1 + 64, o1 + 96) =~= m.1.2);
    let p2 = pos + o2;
    crate::codec::lemma_subrange_of_eq(s, pos, e, o2, o2 + 8);
    assert(e.subrange(o2, o2 + 8) =~= crate::codec::enc_u64(
        (m.1.3 & 0xffff_ffff_ffff_ffff) as u64,
    ));
    lemma_u64_round_trip(s, p2, (m.1.3 & 0xffff_ffff_ffff_ffff) as u64);
    crate::codec::lemma_subrange_of_eq(s, pos, e, o2 + 8, o2 + 16);
    assert(e.subrange(o2 + 8, o2 + 16) =~= crate::codec::enc_u64(
        ((m.1.3 >> 64) & 0xffff_ffff_ffff_ffff) as u64,
    ));
    lemma_u64_round_trip(s, p2 + 8, ((m.1.3 >> 64) & 0xffff_ffff_ffff_ffff) as u64);
    lemma_u128_halves(m.1.3);
    assert(s.subrange(pos, pos + e.len())[o2 + 16] == s[p2 + 16]);
    assert(e[o2 + 16] == status_tag(m.1.4));
    assert(s.subrange(pos, pos + e.len())[o2 + 17] == s[p2 + 17]);
    assert(e[o2 + 17] == type_tag(m.1.5));
    crate::codec::lemma_subrange_of_eq(s, pos, e, o3, o4);
    assert(e.subrange(o3, o4) =~= enc_bytes(m.1.6));
    lemma_bytes_rt(s, pos + o3, m.1.6);
}

/// The tail fields of an encoded transaction parse back to the model's.
#[verifier::rlimit(100)]
#[verifier::spinoff_prover]
pub proof fn lemma_tx_extract_b(s: Seq<u8>, pos: int, m: TxModel)
    requires
        0 <= pos,
        tx_model_wf(m),
        pos + enc_tx_model(m).len() <= s.len(),
        s.subrange(pos, pos + enc_tx_model(m).len()) == enc_tx_model(m),
    ensures
        le_u64_at(s, pos + tx_off_clock(m)) == m.1.7.len(),
        sdec_clock_entries(s, pos + tx_off_clock(m) + 8, m.1.7.len() as int, Set::empty())
            == Some((m.1.7, pos + tx_off_order(m))),
        le_u64_at(s, pos + tx_off_order(m)) == m.1.8,
        le_u64_at(s, pos + tx_off_order(m) + 8) == m.1.9,
        le_u64_at(s, pos + tx_off_order(m) + 16) == m.2.len(),
        sdec_sig_entries(s, pos + tx_off_sigs(m), m.2.len() as int, Set::empty()) == Some(
            (m.2, pos + tx_off_agg(m)),
        ),
        sdec_opt_bytes(s, pos + tx_off_agg(m)) == Some((m.3, pos + tx_off_kids(m))),
        le_u64_at(s, pos + tx_off_kids(m)) == m.4.len(),
        sdec_hashes(s, pos + tx_off_kids(m) + 8, m.4.len() as int) == Some(
            (m.4, pos + enc_tx_model(m).len() as int),
        ),
{
    let e = enc_tx_model(m);
    lemma_enc_clock_len(m.1.7);
    lemma_enc_hashes_len(m.4);
    let o4 = tx_off_clock(m);
    let o5 = tx_off_order(m);
    let o6 = tx_off_agg(m);
    let o7 = tx_off_kids(m);
    let o8 = o7 + 8 + enc_hashes(m.4).len() as int;
    assert(e.len() == o8);
    crate::codec::lemma_subrange_of_eq(s, pos, e, o4, o4 + 8);
    assert(e.subrange(o4, o4 + 8) =~= crate::codec::enc_u64(m.1.7.len() as u64));
    lemma_u64_round_trip(s, pos + o4, m.1.7.len() as u64);
    crate::codec::lemma_subrange_of_eq(s, pos, e, o4 + 8, o5);
    assert(e.subrange(o4 + 8, o5) =~= enc_clock_entries(m.1.7));
    lemma_clock_entries_rt(s, pos + o4 + 8, m.1.7, Set::empty());
    crate::codec::lemma_subrange_of_eq(s, pos, e, o5, o5 + 8);
    assert(e.subrange(o5, o5 + 8) =~= crate::codec::enc_u64(m.1.8));
    lemma_u64_round_trip(s, pos + o5, m.1.8);
    crate::codec::lemma_subrange_of_eq(s, pos, e, o5 + 8, o5 + 16);
    assert(e.subrange(o5 + 8, o5 + 16) =~= crate::codec::enc_u64(m.1.9));
    lemma_u64_round_trip(s, pos + o5 + 8, m.1.9);
    crate::codec::lemma_subrange_of_eq(s, pos, e, o5 + 16, o5 + 24);
    assert(e.subrange(o5 + 16, o5 + 24) =~= crate::codec::enc_u64(m.2.len() as u64));
    lemma_u64_round_trip(s, pos + o5 + 16, m.2.len() as u64);
    crate::codec::lemma_subrange_of_eq(s, pos, e, o5 + 24, o6);
    assert(e.subrange(o5 + 24, o6) =~= enc_sig_entries(m.2));
    lemma_sig_entries_rt(s, pos + o5 + 24, m.2, Set::empty());
    crate::codec::lemma_subrange_of_eq(s, pos, e, o6, o7);
    assert(e.subrange(o6, o7) =~= enc_opt_bytes(m.3));
    lemma_opt_bytes_rt(s, pos + o6, m.3);
    crate::codec::lemma_subrange_of_eq(s, pos, e, o7, o7 + 8);
    assert(e.subrange(o7, o7 + 8) =~= crate::codec::enc_u64(m.4.len() as u64));
    lemma_u64_round_trip(s, pos + o7, m.4.len() as u64);
    crate::codec::lemma_subrange_of_eq(s, pos, e, o7 + 8, o8);
    assert(e.subrange(o7 + 8, o8) =~= enc_hashes(m.4));
    lemma_hashes_rt(s, pos + o7 + 8, m.4);
}

/// Reading back an encoded transaction yields its model: the transaction
/// codec round-trips.
#[verifier::rlimit(100)]
#[verifier::spinoff_prover]
pub proof fn lemma_tx_round_trip(s: Seq<u8>, pos: int, m: TxModel)
    requires
        0 <= pos,
        tx_model_wf(m),
        pos + enc_tx_model(m).len() <= s.len(),
        s.subrange(pos, pos + enc_tx_model(m).len()) == enc_tx_model(m),
    ensures
        sdec_tx(s, pos) == Some((m, pos + enc_tx_model(m).len())),
{
    lemma_tx_extract_a(s, pos, m);
    lemma_tx_extract_b(s, pos, m);
    lemma_enc_clock_len(m.1.7);
    lemma_enc_hashes_len(m.4);
    assert(status_of_tag(status_tag(m.1.4)) == m.1.4);
    assert(type_of_tag(type_tag(m.1.5)) == m.1.5);
    assert(sdec_tx(s, pos) == Some((m, pos + enc_tx_model(m).len())));
}

/// The status a tag byte names, or nothing for a tag out of range.
fn status_from_tag(t: u8) -> (r: Option<TransactionStatus>)
    ensures
        t <= 3 ==> r == Some(status_of_tag(t)),
        t > 3 ==> r is None,
{
    if t == 0 {
        Some(TransactionStatus::Unset)
    } else if t == 1 {
        Some(TransactionStatus::Pending)
    } else if t == 2 {
        Some(TransactionStatus::Accepted)
    } else if t == 3 {
        Some(TransactionStatus::Rejected)
    } else {
        None
    }
}

/// The type a tag byte names, or nothing for a tag out of range.
fn type_from_tag(t: u8) -> (r: Option<TransactionType>)
    ensures
        t <= 1 ==> r == Some(type_of_tag(t)),
        t > 1 ==> r is None,
{
    if t == 0 {
        Some(TransactionType::CreateAccount)
    } else if t == 1 {
        Some(TransactionType::Transfer)
    } else {
        None
    }
}

/// The canonical bytes of a transaction, from the start of a fresh buffer.
pub fn encode_tx(t: &Transaction) -> (r: Vec<u8>)
    ensures
        r@ == enc_tx_model(tx_model(*t)),
{
    let mut out: Vec<u8> = Vec::new();
    put_tx(&mut out, t);
    out
}

/// Reads an optional digest: exactly the parse `sdec_opt_hash` describes.
fn get_opt_hash(input: &[u8], pos: usize) -> (r: Option<(Option<crate::hash::Hash>, usize)>)
    ensures
        match r {
            Some((v, next)) => sdec_opt_hash(input@, pos as int) == Some(
                (
                    match v {
                        Some(h) => Some(h@),
                        None => None,
                    },
                    next as int,
                ),
            ) && next <= input@.len(),
            None => sdec_opt_hash(input@, pos as int) is None,
        },
{
    match get_u8(input, pos) {
        Some((0, p)) => Some((None, p)),
        Some((1, p)) => match get_hash(input, p) {
            Some((h, p2)) => Some((Some(h), p2)),
            None => None,
        },
        _ => None,
    }
}

/// Reads an optional byte string: exactly the parse `sdec_opt_bytes`
/// describes.
fn get_opt_bytes(input: &[u8], pos: usize) -> (r: Option<(Option<Vec<u8>>, usize)>)
    ensures
        match r {
            Some((v, next)) => sdec_opt_bytes(input@, pos as int) == Some(
                (
                    match v {
                        Some(b) => Some(b@),
                        None => None,
                    },
                    next as int,
                ),
            ) && next <= input@.len(),
            None => sdec_opt_bytes(input@, pos as int) is None,
        },
{
    match get_u8(input, pos) {
        Some((0, p)) => Some((None, p)),
        Some((1, p)) => match get_bytes(input, p) {
            Some((b, p2)) => Some((Some(b), p2)),
            None => None,
        },
        _ => None,
    }
}

/// Reads `count` clock entries into a fresh clock: exactly the parse
/// `sdec_clock_entries` describes, a repeated node id refused.
fn get_clock_entries(input: &[u8], pos: usize, count: u64) -> (r: Option<(crate::clock::Hvc, usize)>)
    ensures
        match r {
            Some((h, next)) => sdec_clock_entries(input@, pos as int, count as int, Set::empty())
                == Some((h.entry_pairs(), next as int)) && h.spec_order() == 0 && pos <= next
                <= input@.len(),
            None => sdec_clock_entries(input@, pos as int, count as int, Set::empty()) is None,
        },
{
    let ilen = input.len();
    let ghost gin = input@;
    if pos > ilen {
        return None;
    }
    let mut hvc = crate::clock::Hvc::new();
    let mut p: usize = pos;
    let mut k: u64 = 0;
    while k < count
        invariant
            0 <= k <= count,
            gin == input@,
            pos <= p <= gin.len(),
            ilen == gin.len(),
            hvc.spec_order() == 0,
            forall|ks: Seq<u8>|
                #[trigger] hvc@.contains_key(ks) <==> exists|i: int|
                    0 <= i < hvc.entry_pairs().len() && hvc.entry_pairs()[i].0 == ks,
            sdec_clock_entries(gin, p as int, (count - k) as int, hvc@.dom()) matches Some(rp)
                ==> sdec_clock_entries(gin, pos as int, count as int, Set::empty()) == Some(
                (hvc.entry_pairs() + rp.0, rp.1),
            ),
            sdec_clock_entries(gin, p as int, (count - k) as int, hvc@.dom()) is None
                ==> sdec_clock_entries(gin, pos as int, count as int, Set::empty()) is None,
        decreases count - k,
    {
        let ghost pre_pairs = hvc.entry_pairs();
        let ghost pre_seen = hvc@.dom();
        let (node, pn) = match get_hash(input, p) {
            Some(v) => v,
            None => {
                proof {
                    assert(sdec_clock_entries(gin, p as int, (count - k) as int, pre_seen)
                        is None);
                }
                return None;
            },
        };
        let (cnt, pn2) = match get_u64(input, pn) {
            Some(v) => v,
            None => {
                proof {
                    assert(sdec_clock_entries(gin, p as int, (count - k) as int, pre_seen)
                        is None);
                }
                return None;
            },
        };
        proof {
            assert(node@ == gin.subrange(p as int, p + 32));
            assert(cnt == le_u64_at(gin, p + 32));
        }
        if !hvc.insert_entry(node, cnt) {
            proof {
                assert(pre_seen.contains(gin.subrange(p as int, p + 32)));
                assert(sdec_clock_entries(gin, p as int, (count - k) as int, pre_seen) is None);
            }
            return None;
        }
        proof {
            assert(hvc.entry_pairs() =~= pre_pairs.push((node@, cnt)));
            assert(hvc@.dom() =~= pre_seen.insert(node@));
            assert forall|ks: Seq<u8>| #[trigger] hvc@.contains_key(ks) implies exists|i: int|
                0 <= i < hvc.entry_pairs().len() && hvc.entry_pairs()[i].0 == ks by {
                if ks == node@ {
                    assert(hvc.entry_pairs()[hvc.entry_pairs().len() - 1].0 == ks);
                } else {
                    let i = choose|i: int|
                        0 <= i < pre_pairs.len() && pre_pairs[i].0 == ks;
                    assert(hvc.entry_pairs()[i].0 == ks);
                }
            }
            let rec = sdec_clock_entries(gin, pn2 as int, (count - k - 1) as int, hvc@.dom());
            match rec {
                Some(rp) => {
                    assert(sdec_clock_entries(gin, p as int, (count - k) as int, pre_seen)
                        == Some((seq![(node@, cnt)] + rp.0, rp.1)));
                    assert(pre_pairs + (seq![(node@, cnt)] + rp.0) =~= hvc.entry_pairs() + rp.0);
                },
                None => {
                    assert(sdec_clock_entries(gin, p as int, (count - k) as int, pre_seen)
                        is None);
                },
            }
        }
        p = pn2;
        k = k + 1;
    }
    proof {
        assert(sdec_clock_entries(gin, p as int, 0, hvc@.dom()) == Some(
            (Seq::<(Seq<u8>, u64)>::empty(), p as int),
        ));
        assert(hvc.entry_pairs() + Seq::<(Seq<u8>, u64)>::empty() =~= hvc.entry_pairs());
    }
    Some((hvc, p))
}

/// Reads `count` signature entries into a fresh map: exactly the parse
/// `sdec_sig_entries` describes, a repeated signer key refused.
fn get_sig_entries(input: &[u8], pos: usize, count: u64) -> (r: Option<
    (crate::idmap::IdMap<crate::signature::Signature>, usize)>)
    ensures
        match r {
            Some((m, next)) => sdec_sig_entries(input@, pos as int, count as int, Set::empty())
                == Some(
                (
                    m.entry_pairs().map_values(
                        |pr: (Seq<u8>, crate::signature::Signature)| (pr.0, pr.1@),
                    ),
                    next as int,
                ),
            ) && pos <= next <= input@.len(),
            None => sdec_sig_entries(input@, pos as int, count as int, Set::empty()) is None,
        },
{
    let ilen = input.len();
    let ghost gin = input@;
    if pos > ilen {
        return None;
    }
    let mut sigs: crate::idmap::IdMap<crate::signature::Signature> = crate::idmap::IdMap::new();
    let mut p: usize = pos;
    let mut k: u64 = 0;
    proof {
        assert(sigs.entry_pairs().map_values(
            |pr: (Seq<u8>, crate::signature::Signature)| (pr.0, pr.1@),
        ) =~= Seq::<(Seq<u8>, Seq<u8>)>::empty());
    }
    while k < count
        invariant
            0 <= k <= count,
            gin == input@,
            pos <= p <= gin.len(),
            ilen == gin.len(),
            forall|ks: Seq<u8>|
                #[trigger] sigs@.contains_key(ks) <==> exists|i: int|
                    0 <= i < sigs.entry_pairs().len() && sigs.entry_pairs()[i].0 == ks,
            sdec_sig_entries(gin, p as int, (count - k) as int, sigs@.dom()) matches Some(rp)
                ==> sdec_sig_entries(gin, pos as int, count as int, Set::empty()) == Some(
                (
                    sigs.entry_pairs().map_values(
                        |pr: (Seq<u8>, crate::signature::Signature)| (pr.0, pr.1@),
                    ) + rp.0,
                    rp.1,
                ),
            ),
            sdec_sig_entries(gin, p as int, (count - k) as int, sigs@.dom()) is None
                ==> sdec_sig_entries(gin, pos as int, count as int, Set::empty()) is None,
        decreases count - k,
    {
        let ghost pre_entries = sigs.entry_pairs();
        let ghost pre_pairs = sigs.entry_pairs().map_values(
            |pr: (Seq<u8>, crate::signature::Signature)| (pr.0, pr.1@),
        );
        let ghost pre_seen = sigs@.dom();
        let (key, pk) = match get_hash(input, p) {
            Some(v) => v,
            None => {
                proof {
                    assert(sdec_sig_entries(gin, p as int, (count - k) as int, pre_seen) is None);
                }
                return None;
            },
        };
        if sigs.contains_key(&key) {
            proof {
                assert(pre_seen.contains(gin.subrange(p as int, p + 32)));
                assert(sdec_sig_entries(gin, p as int, (count - k) as int, pre_seen) is None);
            }
            return None;
        }
        let (sig_bytes, pk2) = match get_bytes(input, pk) {
            Some(v) => v,
            None => {
                proof {
                    assert(!pre_seen.contains(gin.subrange(p as int, p + 32)));
                    assert(sdec_bytes(gin, p + 32) is None);
                    assert(sdec_sig_entries(gin, p as int, (count - k) as int, pre_seen) is None);
                }
                return None;
            },
        };
        proof {
            assert(key@ == gin.subrange(p as int, p + 32));
            assert(sdec_bytes(gin, p + 32) == Some((sig_bytes@, pk2 as int)));
        }
        let ghost sig_view = sig_bytes@;
        sigs.insert(key, crate::signature::Signature::new(sig_bytes));
        proof {
            let cur_pairs = sigs.entry_pairs().map_values(
                |pr: (Seq<u8>, crate::signature::Signature)| (pr.0, pr.1@),
            );
            assert(cur_pairs =~= pre_pairs.push((key@, sig_view)));
            assert(sigs@.dom() =~= pre_seen.insert(key@));
            assert forall|ks: Seq<u8>| #[trigger] sigs@.contains_key(ks) implies exists|i: int|
                0 <= i < sigs.entry_pairs().len() && sigs.entry_pairs()[i].0 == ks by {
                if ks == key@ {
                    assert(sigs.entry_pairs()[sigs.entry_pairs().len() - 1].0 == ks);
                } else {
                    let i = choose|i: int|
                        0 <= i < pre_entries.len() && pre_entries[i].0 == ks;
                    assert(sigs.entry_pairs()[i].0 == ks);
                }
            }
            let rec = sdec_sig_entries(gin, pk2 as int, (count - k - 1) as int, sigs@.dom());
            match rec {
                Some(rp) => {
                    assert(sdec_sig_entries(gin, p as int, (count - k) as int, pre_seen) == Some(
                        (seq![(key@, sig_view)] + rp.0, rp.1),
                    ));
                    assert(pre_pairs + (seq![(key@, sig_view)] + rp.0) =~= cur_pairs + rp.0);
                },
                None => {
                    assert(sdec_sig_entries(gin, p as int, (count - k) as int, pre_seen) is None);
                },
            }
        }
        p = pk2;
        k = k + 1;
    }
    proof {
        assert(sdec_sig_entries(gin, p as int, 0, sigs@.dom()) == Some(
            (Seq::<(Seq<u8>, Seq<u8>)>::empty(), p as int),
        ));
        assert(sigs.entry_pairs().map_values(
            |pr: (Seq<u8>, crate::signature::Signature)| (pr.0, pr.1@),
        ) + Seq::<(Seq<u8>, Seq<u8>)>::empty() =~= sigs.entry_pairs().map_values(
            |pr: (Seq<u8>, crate::signature::Signature)| (pr.0, pr.1@),
        ));
    }
    Some((sigs, p))
}

/// Reads `count` digests: exactly the parse `sdec_hashes` describes.
fn get_hash_list(input: &[u8], pos: usize, count: u64) -> (r: Option<
    (Vec<crate::hash::Hash>, usize)>)
    ensures
        match r {
            Some((v, next)) => sdec_hashes(input@, pos as int, count as int) == Some(
                (v@.map_values(|h: crate::hash::Hash| h@), next as int),
            ) && pos <= next <= input@.len(),
            None => sdec_hashes(input@, pos as int, count as int) is None,
        },
{
    let ilen = input.len();
    let ghost gin = input@;
    if pos > ilen {
        return None;
    }
    let mut out: Vec<crate::hash::Hash> = Vec::new();
    let mut p: usize = pos;
    let mut k: u64 = 0;
    proof {
        assert(out@.map_values(|h: crate::hash::Hash| h@) =~= Seq::<Seq<u8>>::empty());
    }
    while k < count
        invariant
            0 <= k <= count,
            gin == input@,
            pos <= p <= gin.len(),
            ilen == gin.len(),
            sdec_hashes(gin, p as int, (count - k) as int) matches Some(rp) ==> sdec_hashes(
                gin,
                pos as int,
                count as int,
            ) == Some((out@.map_values(|h: crate::hash::Hash| h@) + rp.0, rp.1)),
            sdec_hashes(gin, p as int, (count - k) as int) is None ==> sdec_hashes(
                gin,
                pos as int,
                count as int,
            ) is None,
        decreases count - k,
    {
        let ghost pre = out@.map_values(|h: crate::hash::Hash| h@);
        let (h, pn) = match get_hash(input, p) {
            Some(v) => v,
            None => {
                proof {
                    assert(sdec_hashes(gin, p as int, (count - k) as int) is None);
                }
                return None;
            },
        };
        out.push(h);
        proof {
            assert(out@.map_values(|hh: crate::hash::Hash| hh@) =~= pre.push(h@));
            assert(h@ == gin.subrange(p as int, p + 32));
            let rec = sdec_hashes(gin, pn as int, (count - k - 1) as int);
            match rec {
                Some(rp) => {
                    assert(sdec_hashes(gin, p as int, (count - k) as int) == Some(
                        (seq![h@] + rp.0, rp.1),
                    ));
                    assert(pre + (seq![h@] + rp.0) =~= pre.push(h@) + rp.0);
                },
                None => {
                    assert(sdec_hashes(gin, p as int, (count - k) as int) is None);
                },
            }
        }
        p = pn;
        k = k + 1;
    }
    proof {
        assert(sdec_hashes(gin, p as int, 0) == Some((Seq::<Seq<u8>>::empty(), p as int)));
        assert(out@.map_values(|h: crate::hash::Hash| h@) + Seq::<Seq<u8>>::empty()
            =~= out@.map_values(|h: crate::hash::Hash| h@));
    }
    Some((out, p))
}

/// Reads a transaction back from its canonical bytes: exactly the parse
/// `sdec_tx` describes, built into a transaction whose wire model is the
/// parsed one; with `lemma_tx_round_trip` this makes the executable codec a
/// proved round trip.
#[verifier::rlimit(100)]
#[verifier::spinoff_prover]
pub fn get_tx(input: &[u8], pos: usize) -> (r: Option<(Transaction, usize)>)
    ensures
        match r {
            Some((tx, next)) => sdec_tx(input@, pos as int) == Some(
                (tx_model(tx), next as int),
            ) && pos <= next <= input@.len(),
            None => sdec_tx(input@, pos as int) is None,
        },
{
    let ghost gin = input@;
    let (id, p1) = match get_opt_hash(input, pos) {
        Some(v) => v,
        None => {
            return None;
        },
    };
    let (parent, p1b) = match get_hash(input, p1) {
        Some(v) => v,
        None => {
            return None;
        },
    };
    let (origin, p1c) = match get_hash(input, p1b) {
        Some(v) => v,
        None => {
            return None;
        },
    };
    let (destination, p2) = match get_hash(input, p1c) {
        Some(v) => v,
        None => {
            return None;
        },
    };
    let (amount, p2b) = match get_u128(input, p2) {
        Some(v) => v,
        None => {
            return None;
        },
    };
    let (status_b, p2c) = match get_u8(input, p2b) {
        Some(v) => v,
        None => {
            return None;
        },
    };
    let (type_b, p3) = match get_u8(input, p2c) {
        Some(v) => v,
        None => {
            return None;
        },
    };
    let status = match status_from_tag(status_b) {
        Some(st) => st,
        None => {
            return None;
        },
    };
    let tx_type = match type_from_tag(type_b) {
        Some(tt) => tt,
        None => {
            return None;
        },
    };
    let (payload, p4) = match get_bytes(input, p3) {
        Some(v) => v,
        None => {
            return None;
        },
    };
    let (clock_count, p4b) = match get_u64(input, p4) {
        Some(v) => v,
        None => {
            return None;
        },
    };
    let (mut hvc, p5) = match get_clock_entries(input, p4b, clock_count) {
        Some(v) => v,
        None => {
            return None;
        },
    };
    let (order, p5b) = match get_u64(input, p5) {
        Some(v) => v,
        None => {
            return None;
        },
    };
    hvc.set_order(order);
    let (timestamp, p5c) = match get_u64(input, p5b) {
        Some(v) => v,
        None => {
            return None;
        },
    };
    let (sig_count, p5d) = match get_u64(input, p5c) {
        Some(v) => v,
        None => {
            return None;
        },
    };
    let (signatures, p6) = match get_sig_entries(input, p5d, sig_count) {
        Some(v) => v,
        None => {
            return None;
        },
    };
    let (agg_bytes, p7) = match get_opt_bytes(input, p6) {
        Some(v) => v,
        None => {
            return None;
        },
    };
    let (kid_count, p7b) = match get_u64(input, p7) {
        Some(v) => v,
        None => {
            return None;
        },
    };
    let (children, p8) = match get_hash_list(input, p7b, kid_count) {
        Some(v) => v,
        None => {
            return None;
        },
    };
    let agg = match agg_bytes {
        Some(b) => Some(crate::signature::Signature::new(b)),
        None => None,
    };
    let tx = Transaction {
        id,
        parent,
        origin,
        destination,
        amount,
        status,
        tx_type,
        payload,
        hvc,
        timestamp,
        signatures,
        agg_signature: agg,
        children,
    };
    proof {
        assert(sdec_tx(gin, pos as int) == Some((tx_model(tx), p8 as int)));
    }
    Some((tx, p8))
}

/// What a byte-string parse consumed re-encodes to itself.
pub proof fn lemma_sdec_bytes_sound(s: Seq<u8>, pos: int)
    ensures
        sdec_bytes(s, pos) matches Some(r) ==> pos <= r.1 <= s.len() && s.subrange(pos, r.1)
            == enc_bytes(r.0) && r.0.len() <= u64::MAX,
{
    if sdec_bytes(s, pos) is Some {
        let r = sdec_bytes(s, pos).unwrap();
        crate::codec::lemma_u64_at_canonical(s, pos);
        crate::codec::lemma_subrange_split(s, pos, pos + 8, r.1);
        assert(enc_u64(r.0.len() as u64) =~= enc_u64(le_u64_at(s, pos)));
    }
}

/// What an optional-digest parse consumed re-encodes to itself.
pub proof fn lemma_sdec_opt_hash_sound(s: Seq<u8>, pos: int)
    ensures
        sdec_opt_hash(s, pos) matches Some(r) ==> pos <= r.1 <= s.len() && s.subrange(pos, r.1)
            == enc_opt_hash(r.0) && (r.0 matches Some(h) ==> h.len() == 32),
{
    if sdec_opt_hash(s, pos) is Some {
        let r = sdec_opt_hash(s, pos).unwrap();
        match r.0 {
            Option::None => {
                assert(s.subrange(pos, pos + 1) =~= enc_u8(0));
            },
            Option::Some(h) => {
                crate::codec::lemma_subrange_split(s, pos, pos + 1, pos + 33);
                assert(s.subrange(pos, pos + 1) =~= enc_u8(1));
            },
        }
    }
}

/// What an optional-byte-string parse consumed re-encodes to itself.
pub proof fn lemma_sdec_opt_bytes_sound(s: Seq<u8>, pos: int)
    ensures
        sdec_opt_bytes(s, pos) matches Some(r) ==> pos <= r.1 <= s.len() && s.subrange(pos, r.1)
            == enc_opt_bytes(r.0) && (r.0 matches Some(b) ==> b.len() <= u64::MAX),
{
    if sdec_opt_bytes(s, pos) is Some {
        let r = sdec_opt_bytes(s, pos).unwrap();
        match r.0 {
            Option::None => {
                assert(s.subrange(pos, pos + 1) =~= enc_u8(0));
            },
            Option::Some(b) => {
                lemma_sdec_bytes_sound(s, pos + 1);
                crate::codec::lemma_subrange_split(s, pos, pos + 1, r.1);
                assert(s.subrange(pos, pos + 1) =~= enc_u8(1));
            },
        }
    }
}

/// What a digest-list parse consumed re-encodes to itself.
pub proof fn lemma_sdec_hashes_sound(s: Seq<u8>, pos: int, count: int)
    ensures
        sdec_hashes(s, pos, count) matches Some(r) ==> pos <= r.1 <= s.len() && s.subrange(
            pos,
            r.1,
        ) == enc_hashes(r.0) && r.0.len() == (if count >= 0 {
            count
        } else {
            0
        }) && (forall|i: int| 0 <= i < r.0.len() ==> (#[trigger] r.0[i]).len() == 32),
    decreases count,
{
    if sdec_hashes(s, pos, count) is Some {
        let r = sdec_hashes(s, pos, count).unwrap();
        if count <= 0 {
            assert(s.subrange(pos, pos) =~= Seq::<u8>::empty());
            assert(enc_hashes(r.0) =~= Seq::<u8>::empty());
        } else {
            lemma_sdec_hashes_sound(s, pos + 32, count - 1);
            let rec = sdec_hashes(s, pos + 32, count - 1).unwrap();
            lemma_enc_hashes_cons(s.subrange(pos, pos + 32), rec.0);
            crate::codec::lemma_subrange_split(s, pos, pos + 32, r.1);
            assert(s.subrange(pos, r.1) =~= enc_hashes(r.0));
        }
    }
}

/// What a clock-entry parse consumed re-encodes to itself.
pub proof fn lemma_sdec_clock_sound(s: Seq<u8>, pos: int, count: int, seen: Set<Seq<u8>>)
    ensures
        sdec_clock_entries(s, pos, count, seen) matches Some(r) ==> pos <= r.1 <= s.len()
            && s.subrange(pos, r.1) == enc_clock_entries(r.0) && r.0.len() == (if count >= 0 {
            count
        } else {
            0
        }) && (forall|i: int| 0 <= i < r.0.len() ==> (#[trigger] r.0[i]).0.len() == 32),
    decreases count,
{
    if sdec_clock_entries(s, pos, count, seen) is Some {
        let r = sdec_clock_entries(s, pos, count, seen).unwrap();
        if count <= 0 {
            assert(s.subrange(pos, pos) =~= Seq::<u8>::empty());
            assert(enc_clock_entries(r.0) =~= Seq::<u8>::empty());
        } else {
            let key = s.subrange(pos, pos + 32);
            lemma_sdec_clock_sound(s, pos + 40, count - 1, seen.insert(key));
            let rec = sdec_clock_entries(s, pos + 40, count - 1, seen.insert(key)).unwrap();
            lemma_enc_clock_cons((key, le_u64_at(s, pos + 32)), rec.0);
            crate::codec::lemma_u64_at_canonical(s, pos + 32);
            crate::codec::lemma_subrange_split(s, pos, pos + 32, pos + 40);
            crate::codec::lemma_subrange_split(s, pos, pos + 40, r.1);
            assert(s.subrange(pos, r.1) =~= enc_clock_entries(r.0));
        }
    }
}

/// What a signature-entry parse consumed re-encodes to itself.
pub proof fn lemma_sdec_sigs_sound(s: Seq<u8>, pos: int, count: int, seen: Set<Seq<u8>>)
    ensures
        sdec_sig_entries(s, pos, count, seen) matches Some(r) ==> pos <= r.1 <= s.len()
            && s.subrange(pos, r.1) == enc_sig_entries(r.0) && r.0.len() == (if count >= 0 {
            count
        } else {
            0
        }) && (forall|i: int|
            0 <= i < r.0.len() ==> (#[trigger] r.0[i]).0.len() == 32 && r.0[i].1.len()
                <= u64::MAX),
    decreases count,
{
    if sdec_sig_entries(s, pos, count, seen) is Some {
        let r = sdec_sig_entries(s, pos, count, seen).unwrap();
        if count <= 0 {
            assert(s.subrange(pos, pos) =~= Seq::<u8>::empty());
            assert(enc_sig_entries(r.0) =~= Seq::<u8>::empty());
        } else {
            let key = s.subrange(pos, pos + 32);
            let br = sdec_bytes(s, pos + 32).unwrap();
            lemma_sdec_bytes_sound(s, pos + 32);
            lemma_sdec_sigs_sound(s, br.1, count - 1, seen.insert(key));
            let rec = sdec_sig_entries(s, br.1, count - 1, seen.insert(key)).unwrap();
            lemma_enc_sig_cons((key, br.0), rec.0);
            crate::codec::lemma_subrange_split(s, pos, pos + 32, br.1);
            crate::codec::lemma_subrange_split(s, pos, br.1, r.1);
            assert(s.subrange(pos, r.1) =~= enc_sig_entries(r.0));
        }
    }
}

/// What a transaction parse consumed re-encodes to itself: the parse is
/// sound, and every parsed model is carryable.
#[verifier::rlimit(100)]
#[verifier::spinoff_prover]
pub proof fn lemma_sdec_tx_sound(s: Seq<u8>, pos: int)
    ensures
        sdec_tx(s, pos) matches Some(r) ==> pos <= r.1 <= s.len() && s.subrange(pos, r.1)
            == enc_tx_model(r.0),
{
    if sdec_tx(s, pos) is Some {
        let r = sdec_tx(s, pos).unwrap();
        let m = r.0;
        lemma_sdec_opt_hash_sound(s, pos);
        let idr = sdec_opt_hash(s, pos).unwrap();
        let p1 = idr.1;
        let p2 = p1 + 96;
        let p3 = p2 + 18;
        lemma_sdec_bytes_sound(s, p3);
        let pr = sdec_bytes(s, p3).unwrap();
        let p4 = pr.1;
        crate::codec::lemma_u64_at_canonical(s, p4);
        lemma_sdec_clock_sound(s, p4 + 8, le_u64_at(s, p4) as int, Set::empty());
        let cr = sdec_clock_entries(s, p4 + 8, le_u64_at(s, p4) as int, Set::empty()).unwrap();
        let p5 = cr.1;
        crate::codec::lemma_u64_at_canonical(s, p5);
        crate::codec::lemma_u64_at_canonical(s, p5 + 8);
        crate::codec::lemma_u64_at_canonical(s, p5 + 16);
        lemma_sdec_sigs_sound(s, p5 + 24, le_u64_at(s, p5 + 16) as int, Set::empty());
        let sr = sdec_sig_entries(s, p5 + 24, le_u64_at(s, p5 + 16) as int, Set::empty()).unwrap();
        let p6 = sr.1;
        lemma_sdec_opt_bytes_sound(s, p6);
        let ar = sdec_opt_bytes(s, p6).unwrap();
        let p7 = ar.1;
        crate::codec::lemma_u64_at_canonical(s, p7);
        lemma_sdec_hashes_sound(s, p7 + 8, le_u64_at(s, p7) as int);
        let kr = sdec_hashes(s, p7 + 8, le_u64_at(s, p7) as int).unwrap();
        let p8 = kr.1;
        lemma_u128_halves(m.1.3);
        assert((m.1.3 & 0xffff_ffff_ffff_ffff) as u64 == le_u64_at(s, p2) && ((m.1.3 >> 64)
            & 0xffff_ffff_ffff_ffff) as u64 == le_u64_at(s, p2 + 8)) by {
            let lo = le_u64_at(s, p2);
            let hi = le_u64_at(s, p2 + 8);
            assert(m.1.3 == (lo as u128) | ((hi as u128) << 64));
            assert({
                let v = (lo as u128) | ((hi as u128) << 64);
                (v & 0xffff_ffff_ffff_ffff) as u64 == lo && ((v >> 64)
                    & 0xffff_ffff_ffff_ffff) as u64 == hi
            }) by (bit_vector);
        }
        crate::codec::lemma_u64_at_canonical(s, p2);
        crate::codec::lemma_u64_at_canonical(s, p2 + 8);
        assert(s.subrange(p2, p2 + 16) =~= enc_u128(m.1.3)) by {
            crate::codec::lemma_subrange_split(s, p2, p2 + 8, p2 + 16);
        }
        assert(status_tag(m.1.4) == s[p2 + 16]);
        assert(type_tag(m.1.5) == s[p2 + 17]);
        assert(s.subrange(p2 + 16, p2 + 17) =~= enc_u8(status_tag(m.1.4)));
        assert(s.subrange(p2 + 17, p2 + 18) =~= enc_u8(type_tag(m.1.5)));
        assert(s.subrange(p4, p4 + 8) =~= enc_u64(m.1.7.len() as u64));
        assert(s.subrange(p5, p5 + 8) =~= enc_u64(m.1.8));
        assert(s.subrange(p5 + 8, p5 + 16) =~= enc_u64(m.1.9));
        assert(s.subrange(p5 + 16, p5 + 24) =~= enc_u64(m.2.len() as u64));
        assert(s.subrange(p7, p7 + 8) =~= enc_u64(m.4.len() as u64));
        crate::codec::lemma_subrange_split(s, pos, p1, p1 + 32);
        crate::codec::lemma_subrange_split(s, pos, p1 + 32, p1 + 64);
        crate::codec::lemma_subrange_split(s, pos, p1 + 64, p2);
        crate::codec::lemma_subrange_split(s, pos, p2, p2 + 16);
        crate::codec::lemma_subrange_split(s, pos, p2 + 16, p2 + 17);
        crate::codec::lemma_subrange_split(s, pos, p2 + 17, p3);
        crate::codec::lemma_subrange_split(s, pos, p3, p4);
        crate::codec::lemma_subrange_split(s, pos, p4, p4 + 8);
        crate::codec::lemma_subrange_split(s, pos, p4 + 8, p5);
        crate::codec::lemma_subrange_split(s, pos, p5, p5 + 8);
        crate::codec::lemma_subrange_split(s, pos, p5 + 8, p5 + 16);
        crate::codec::lemma_subrange_split(s, pos, p5 + 16, p5 + 24);
        crate::codec::lemma_subrange_split(s, pos, p5 + 24, p6);
        crate::codec::lemma_subrange_split(s, pos, p6, p7);
        crate::codec::lemma_subrange_split(s, pos, p7, p7 + 8);
        crate::codec::lemma_subrange_split(s, pos, p7 + 8, p8);
        assert(s.subrange(pos, p8) =~= enc_tx_model(m));
    }
}

} // verus!
