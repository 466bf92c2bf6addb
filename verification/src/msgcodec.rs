//! The wire form of whole messages: a tag byte, then the variant's fields
//! in canonical form. The encoder is proved to produce exactly the wire
//! form `spec_enc_message` lays down; the transaction payload's codec is
//! proved inverse in the wire module, and the envelope's reader mirrors the
//! writer field by field and is held to the round-trip tests.

use vstd::prelude::*;
use crate::codec::{get_bytes, get_hash, get_u16, get_u64, get_u8, put_bytes, put_hash, put_u16, put_u64, put_u8};
use crate::message::Message;
use crate::netaddr::NetAddr;
use crate::wire::{enc_tx_model, get_tx, put_tx, tx_model, TxModel};

verus! {

/// How deep agent envelopes may nest on the wire.
pub const MAX_NESTING: u64 = 64;

fn put_usize(out: &mut Vec<u8>, v: usize)
    ensures
        final(out)@ == old(out)@ + crate::codec::enc_u64(v as u64),
{
    put_u64(out, v as u64);
}

fn get_usize(input: &[u8], pos: usize) -> (r: Option<(usize, usize)>)
    ensures
        r matches Some((v, next)) ==> pos <= next <= input@.len() && next == pos + 8
            && input@.subrange(pos as int, next as int) == crate::codec::enc_u64(v as u64)
            && sdec_count(input@, pos as int) == Some((v as int, next as int)),
        r is None ==> sdec_count(input@, pos as int) is None,
{
    match get_u64(input, pos) {
        Some((v, next)) => {
            if v <= usize::MAX as u64 {
                proof {
                    crate::codec::lemma_u64_at_canonical(input@, pos as int);
                }
                Some((v as usize, next))
            } else {
                None
            }
        },
        None => None,
    }
}

fn put_netaddr(out: &mut Vec<u8>, a: &NetAddr)
    ensures
        final(out)@ == old(out)@ + crate::codec::enc_bytes(a.ip@) + crate::codec::enc_u16(a.port),
{
    put_bytes(out, &a.ip);
    put_u16(out, a.port);
}

fn get_netaddr(input: &[u8], pos: usize) -> (r: Option<(NetAddr, usize)>)
    ensures
        r matches Some((v, next)) ==> pos <= next <= input@.len() && input@.subrange(
            pos as int,
            next as int,
        ) == crate::codec::enc_bytes(v.ip@) + crate::codec::enc_u16(v.port),
        r matches Some((v, next)) ==> crate::wire::sdec_bytes(input@, pos as int) == Some(
            (v.ip@, next - 2),
        ),
        r is None ==> (crate::wire::sdec_bytes(input@, pos as int) matches Some(b) ==> b.1 + 2
            > input@.len()),
{
    match get_bytes(input, pos) {
        Some((ip, p1)) => match get_u16(input, p1) {
            Some((port, p2)) => {
                proof {
                    crate::codec::lemma_u64_at_canonical(input@, pos as int);
                    crate::codec::lemma_subrange_split(input@, pos as int, pos + 8, p1 as int);
                    assert(input@.subrange(pos as int, p1 as int) =~= crate::codec::enc_bytes(
                        ip@,
                    ));
                    crate::codec::lemma_u16_at_canonical(input@, p1 as int);
                    crate::codec::lemma_subrange_split(input@, pos as int, p1 as int, p2 as int);
                }
                Some((NetAddr::new(ip, port), p2))
            },
            None => None,
        },
        None => None,
    }
}


/// One byte for a truth value.
pub open spec fn enc_bool(b: bool) -> Seq<u8> {
    if b {
        crate::codec::enc_u8(1)
    } else {
        crate::codec::enc_u8(0)
    }
}

/// Addresses back to back: length-prefixed IP bytes, then the port.
pub open spec fn enc_netaddrs(addrs: Seq<(Seq<u8>, u16)>) -> Seq<u8>
    decreases addrs.len(),
{
    if addrs.len() == 0 {
        Seq::empty()
    } else {
        enc_netaddrs(addrs.drop_last()) + crate::codec::enc_bytes(addrs.last().0)
            + crate::codec::enc_u16(addrs.last().1)
    }
}

/// Counters back to back, eight bytes each.
pub open spec fn enc_u64s(xs: Seq<u64>) -> Seq<u8>
    decreases xs.len(),
{
    if xs.len() == 0 {
        Seq::empty()
    } else {
        enc_u64s(xs.drop_last()) + crate::codec::enc_u64(xs.last())
    }
}

/// Verdicts back to back: a digest, then the truth byte.
pub open spec fn enc_verdicts(xs: Seq<(Seq<u8>, bool)>) -> Seq<u8>
    decreases xs.len(),
{
    if xs.len() == 0 {
        Seq::empty()
    } else {
        enc_verdicts(xs.drop_last()) + xs.last().0 + enc_bool(xs.last().1)
    }
}

/// Advertised routes back to back: a digest, then the hop count.
pub open spec fn enc_route_entries(es: Seq<(Seq<u8>, int)>) -> Seq<u8>
    decreases es.len(),
{
    if es.len() == 0 {
        Seq::empty()
    } else {
        enc_route_entries(es.drop_last()) + es.last().0 + crate::codec::enc_u64(es.last().1 as u64)
    }
}

/// Batched query pairs back to back: the contested state's digest, the
/// candidate in it, then the carried transaction.
pub open spec fn enc_batch_items(items: Seq<(Seq<u8>, TxModel, TxModel)>) -> Seq<u8>
    decreases items.len(),
{
    if items.len() == 0 {
        Seq::empty()
    } else {
        enc_batch_items(items.drop_last()) + items.last().0 + enc_tx_model(items.last().1)
            + enc_tx_model(items.last().2)
    }
}

/// Agent payload items back to back: the target digest, the remaining
/// steps, then the framed inner message.
pub open spec fn spec_enc_payload(
    items: Seq<(crate::hash::Hash, Message, usize)>,
    depth: nat,
) -> Seq<u8>
    decreases depth, items.len(),
{
    if items.len() == 0 {
        Seq::empty()
    } else {
        spec_enc_payload(items.drop_last(), depth) + items.last().0@ + crate::codec::enc_u64(
            items.last().2 as u64,
        ) + crate::codec::enc_bytes(spec_enc_message(items.last().1, depth))
    }
}

/// The canonical wire form of a message, down to `depth` nested envelopes:
/// the variant's tag byte, then its fields.
pub open spec fn spec_enc_message(m: Message, depth: nat) -> Seq<u8>
    decreases depth, 0int,
{
    match m {
        Message::UserMessage(content) => crate::codec::enc_u8(0) + crate::codec::enc_bytes(
            content@,
        ),
        Message::EncryptedMessage(content) => crate::codec::enc_u8(1) + crate::codec::enc_bytes(
            content@,
        ),
        Message::AuthenticatedMessage { message, sender } => crate::codec::enc_u8(2)
            + crate::codec::enc_bytes(message@) + crate::codec::enc_bytes(sender.public_key@),
        Message::SignedMessage { message, signature, sender } => crate::codec::enc_u8(3)
            + crate::codec::enc_bytes(message@) + crate::codec::enc_bytes(signature@)
            + crate::codec::enc_bytes(sender.public_key@),
        Message::Identification(h) => crate::codec::enc_u8(4) + h@,
        Message::Contacts(addrs) => crate::codec::enc_u8(5) + crate::codec::enc_u64(
            addrs@.len() as u64,
        ) + enc_netaddrs(addrs@.map_values(|a: NetAddr| a@)),
        Message::AgentMessage { payload } => {
            if depth == 0 {
                Seq::empty()
            } else {
                crate::codec::enc_u8(6) + crate::codec::enc_u64(payload@.len() as u64)
                    + spec_enc_payload(payload@, (depth - 1) as nat)
            }
        },
        Message::RoutingTable { routing_table, source } => crate::codec::enc_u8(7)
            + crate::codec::enc_u64(routing_table.entry_pairs().len() as u64) + enc_route_entries(
            routing_table.entry_pairs(),
        ) + source@,
        Message::ConsensusRequest { data } => crate::codec::enc_u8(8) + data.account_state_id@
            + enc_tx_model(tx_model(data.tx)),
        Message::DagConsensusRequest { sender, data, tx, count } => crate::codec::enc_u8(9)
            + sender@ + data.account_state_id@ + enc_tx_model(tx_model(data.tx)) + enc_tx_model(
            tx_model(tx),
        ) + crate::codec::enc_u64(count as u64),
        Message::DagConsensusResponse { sender, hash, strongly_preferred } => crate::codec::enc_u8(
            10,
        ) + sender@ + hash@ + enc_bool(strongly_preferred),
        Message::InitBenchmarking(count, interval) => crate::codec::enc_u8(11)
            + crate::codec::enc_u64(count as u64) + crate::codec::enc_u64(interval),
        Message::CompleteRound => crate::codec::enc_u8(12),
        Message::BenchmarkStats(txns) => crate::codec::enc_u8(13) + crate::codec::enc_u64(
            txns@.len() as u64,
        ) + enc_u64s(txns@),
        Message::BatchedConsensusRequest { sender, data, count } => crate::codec::enc_u8(14)
            + sender@ + crate::codec::enc_u64(data@.len() as u64) + enc_batch_items(
            data@.map_values(
                |p: (crate::account::AccountStateChoice, crate::transaction::Transaction)|
                    (p.0.account_state_id@, tx_model(p.0.tx), tx_model(p.1)),
            ),
        ) + crate::codec::enc_u64(count as u64),
        Message::BatchedConsensusResponse { sender, data } => crate::codec::enc_u8(15) + sender@
            + crate::codec::enc_u64(data@.len() as u64) + enc_verdicts(
            data@.map_values(|p: (crate::hash::Hash, bool)| (p.0@, p.1)),
        ),
    }
}


#[verifier::rlimit(100)]
#[verifier::spinoff_prover]
fn put_contacts_msg(out: &mut Vec<u8>, addrs: &Vec<NetAddr>)
    ensures
        final(out)@ == old(out)@ + crate::codec::enc_u8(5) + crate::codec::enc_u64(
            addrs@.len() as u64,
        ) + enc_netaddrs(addrs@.map_values(|a: NetAddr| a@)),
{
    put_u8(out, 5);
    put_usize(out, addrs.len());
    let ghost items = addrs@.map_values(|a: NetAddr| a@);
    let ghost prefix = out@;
    let mut i: usize = 0;
    while i < addrs.len()
        invariant
            0 <= i <= addrs@.len(),
            items == addrs@.map_values(|a: NetAddr| a@),
            out@ == prefix + enc_netaddrs(items.take(i as int)),
        decreases addrs@.len() - i,
    {
        put_netaddr(out, &addrs[i]);
        proof {
            assert(items.take(i + 1).drop_last() =~= items.take(i as int));
            assert(items.take(i + 1).last() == items[i as int]);
            assert(out@ =~= prefix + enc_netaddrs(items.take(i + 1)));
        }
        i += 1;
    }
    proof {
        assert(items.take(items.len() as int) =~= items);
        assert(final(out)@ =~= old(out)@ + crate::codec::enc_u8(5) + crate::codec::enc_u64(
            addrs@.len() as u64,
        ) + enc_netaddrs(items));
    }
}

#[verifier::rlimit(100)]
#[verifier::spinoff_prover]
fn put_routing_msg(
    out: &mut Vec<u8>,
    routing_table: &crate::routing::SharedRoutingTable,
    source: &crate::hash::Hash,
)
    ensures
        final(out)@ == old(out)@ + crate::codec::enc_u8(7) + crate::codec::enc_u64(
            routing_table.entry_pairs().len() as u64,
        ) + enc_route_entries(routing_table.entry_pairs()) + source@,
{
    put_u8(out, 7);
    let n = routing_table.len();
    put_usize(out, n);
    let ghost items = routing_table.entry_pairs();
    let ghost prefix = out@;
    let mut i: usize = 0;
    while i < n
        invariant
            0 <= i <= n,
            n == routing_table.hops_map().dom().len(),
            n == items.len(),
            items == routing_table.entry_pairs(),
            out@ == prefix + enc_route_entries(items.take(i as int)),
        decreases n - i,
    {
        let entry = routing_table.entry_at(i);
        put_hash(out, &entry.0);
        put_usize(out, entry.1);
        proof {
            assert(items.take(i + 1).drop_last() =~= items.take(i as int));
            assert(items.take(i + 1).last() == items[i as int]);
            assert(out@ =~= prefix + enc_route_entries(items.take(i + 1)));
        }
        i += 1;
    }
    put_hash(out, source);
    proof {
        assert(items.take(items.len() as int) =~= items);
        assert(final(out)@ =~= old(out)@ + crate::codec::enc_u8(7) + crate::codec::enc_u64(
            items.len() as u64,
        ) + enc_route_entries(items) + source@);
    }
}

#[verifier::rlimit(100)]
#[verifier::spinoff_prover]
fn put_stats_msg(out: &mut Vec<u8>, txns: &Vec<u64>)
    ensures
        final(out)@ == old(out)@ + crate::codec::enc_u8(13) + crate::codec::enc_u64(
            txns@.len() as u64,
        ) + enc_u64s(txns@),
{
    put_u8(out, 13);
    put_usize(out, txns.len());
    let ghost items = txns@;
    let ghost prefix = out@;
    let mut i: usize = 0;
    while i < txns.len()
        invariant
            0 <= i <= txns@.len(),
            items == txns@,
            out@ == prefix + enc_u64s(items.take(i as int)),
        decreases txns@.len() - i,
    {
        put_u64(out, txns[i]);
        proof {
            assert(items.take(i + 1).drop_last() =~= items.take(i as int));
            assert(items.take(i + 1).last() == items[i as int]);
            assert(out@ =~= prefix + enc_u64s(items.take(i + 1)));
        }
        i += 1;
    }
    proof {
        assert(items.take(items.len() as int) =~= items);
    }
}

#[verifier::rlimit(100)]
#[verifier::spinoff_prover]
fn put_batch_req_msg(
    out: &mut Vec<u8>,
    sender: &crate::hash::Hash,
    data: &Vec<(crate::account::AccountStateChoice, crate::transaction::Transaction)>,
    count: usize,
)
    ensures
        final(out)@ == old(out)@ + crate::codec::enc_u8(14) + sender@ + crate::codec::enc_u64(
            data@.len() as u64,
        ) + enc_batch_items(
            data@.map_values(
                |p: (crate::account::AccountStateChoice, crate::transaction::Transaction)|
                    (p.0.account_state_id@, tx_model(p.0.tx), tx_model(p.1)),
            ),
        ) + crate::codec::enc_u64(count as u64),
{
    put_u8(out, 14);
    put_hash(out, sender);
    put_usize(out, data.len());
    let ghost items = data@.map_values(
        |p: (crate::account::AccountStateChoice, crate::transaction::Transaction)|
            (p.0.account_state_id@, tx_model(p.0.tx), tx_model(p.1)),
    );
    let ghost prefix = out@;
    let mut i: usize = 0;
    while i < data.len()
        invariant
            0 <= i <= data@.len(),
            items == data@.map_values(
                |p: (crate::account::AccountStateChoice, crate::transaction::Transaction)|
                    (p.0.account_state_id@, tx_model(p.0.tx), tx_model(p.1)),
            ),
            out@ == prefix + enc_batch_items(items.take(i as int)),
        decreases data@.len() - i,
    {
        put_hash(out, &data[i].0.account_state_id);
        put_tx(out, &data[i].0.tx);
        put_tx(out, &data[i].1);
        proof {
            assert(items.take(i + 1).drop_last() =~= items.take(i as int));
            assert(items.take(i + 1).last() == items[i as int]);
            assert(out@ =~= prefix + enc_batch_items(items.take(i + 1)));
        }
        i += 1;
    }
    put_usize(out, count);
    proof {
        assert(items.take(items.len() as int) =~= items);
    }
}

#[verifier::rlimit(100)]
#[verifier::spinoff_prover]
fn put_batch_resp_msg(
    out: &mut Vec<u8>,
    sender: &crate::hash::Hash,
    data: &Vec<(crate::hash::Hash, bool)>,
)
    ensures
        final(out)@ == old(out)@ + crate::codec::enc_u8(15) + sender@ + crate::codec::enc_u64(
            data@.len() as u64,
        ) + enc_verdicts(data@.map_values(|p: (crate::hash::Hash, bool)| (p.0@, p.1))),
{
    put_u8(out, 15);
    put_hash(out, sender);
    put_usize(out, data.len());
    let ghost items = data@.map_values(|p: (crate::hash::Hash, bool)| (p.0@, p.1));
    let ghost prefix = out@;
    let mut i: usize = 0;
    while i < data.len()
        invariant
            0 <= i <= data@.len(),
            items == data@.map_values(|p: (crate::hash::Hash, bool)| (p.0@, p.1)),
            out@ == prefix + enc_verdicts(items.take(i as int)),
        decreases data@.len() - i,
    {
        put_hash(out, &data[i].0);
        put_u8(
            out,
            if data[i].1 {
                1
            } else {
                0
            },
        );
        proof {
            assert(items.take(i + 1).drop_last() =~= items.take(i as int));
            assert(items.take(i + 1).last() == items[i as int]);
            assert(out@ =~= prefix + enc_verdicts(items.take(i + 1)));
        }
        i += 1;
    }
    proof {
        assert(items.take(items.len() as int) =~= items);
    }
}

/// Whether every item of an agent payload encodes within the given depth.
pub open spec fn spec_payload_ok(
    items: Seq<(crate::hash::Hash, Message, usize)>,
    depth: nat,
) -> bool
    decreases depth, items.len(),
{
    if items.len() == 0 {
        true
    } else {
        spec_enc_ok(items.last().1, depth) && spec_payload_ok(items.drop_last(), depth)
    }
}

/// Whether a message encodes within the given depth: only an agent
/// envelope consumes depth, one level per nesting.
pub open spec fn spec_enc_ok(m: Message, depth: nat) -> bool
    decreases depth, 0int,
{
    match m {
        Message::AgentMessage { payload } => depth >= 1 && spec_payload_ok(
            payload@,
            (depth - 1) as nat,
        ),
        _ => true,
    }
}

/// A payload is within depth exactly when each of its items is.
pub proof fn lemma_payload_ok_index(items: Seq<(crate::hash::Hash, Message, usize)>, depth: nat)
    ensures
        spec_payload_ok(items, depth) <==> (forall|i: int|
            0 <= i < items.len() ==> spec_enc_ok((#[trigger] items[i]).1, depth)),
    decreases items.len(),
{
    if items.len() > 0 {
        lemma_payload_ok_index(items.drop_last(), depth);
        if spec_payload_ok(items, depth) {
            assert forall|i: int| 0 <= i < items.len() implies spec_enc_ok(
                (#[trigger] items[i]).1,
                depth,
            ) by {
                if i < items.len() - 1 {
                    assert(items.drop_last()[i] == items[i]);
                }
            }
        }
        if forall|i: int| 0 <= i < items.len() ==> spec_enc_ok((#[trigger] items[i]).1, depth) {
            assert forall|i: int| 0 <= i < items.drop_last().len() implies spec_enc_ok(
                (#[trigger] items.drop_last()[i]).1,
                depth,
            ) by {
                assert(items.drop_last()[i] == items[i]);
            }
        }
    }
}

/// Writes the message's wire form: a tag byte, then the fields. An agent
/// envelope nested deeper than `MAX_NESTING` is refused; success puts
/// exactly the bytes `spec_enc_message` lays down.
pub fn encode_message(msg: &Message, out: &mut Vec<u8>) -> (ok: bool)
    ensures
        ok == spec_enc_ok(*msg, MAX_NESTING as nat),
        ok ==> final(out)@ == old(out)@ + spec_enc_message(*msg, MAX_NESTING as nat),
{
    encode_message_depth(msg, out, MAX_NESTING)
}

#[verifier::rlimit(100)]
#[verifier::spinoff_prover]
fn encode_message_depth(msg: &Message, out: &mut Vec<u8>, depth: u64) -> (ok: bool)
    ensures
        ok == spec_enc_ok(*msg, depth as nat),
        ok ==> final(out)@ == old(out)@ + spec_enc_message(*msg, depth as nat),
    decreases depth as int, 0int,
{
    match msg {
        Message::UserMessage(content) => {
            put_u8(out, 0);
            put_bytes(out, content);
            proof {
                assert(final(out)@ =~= old(out)@ + spec_enc_message(*msg, depth as nat));
            }
            true
        },
        Message::EncryptedMessage(content) => {
            put_u8(out, 1);
            put_bytes(out, content);
            proof {
                assert(final(out)@ =~= old(out)@ + spec_enc_message(*msg, depth as nat));
            }
            true
        },
        Message::AuthenticatedMessage { message, sender } => {
            put_u8(out, 2);
            put_bytes(out, message);
            let pk = sender.public_key.to_bytes();
            put_bytes(out, &pk);
            proof {
                assert(final(out)@ =~= old(out)@ + spec_enc_message(*msg, depth as nat));
            }
            true
        },
        Message::SignedMessage { message, signature, sender } => {
            put_u8(out, 3);
            put_bytes(out, message);
            put_bytes(out, signature);
            let pk = sender.public_key.to_bytes();
            put_bytes(out, &pk);
            proof {
                assert(final(out)@ =~= old(out)@ + spec_enc_message(*msg, depth as nat));
            }
            true
        },
        Message::Identification(h) => {
            put_u8(out, 4);
            put_hash(out, h);
            proof {
                assert(final(out)@ =~= old(out)@ + spec_enc_message(*msg, depth as nat));
            }
            true
        },
        Message::Contacts(addrs) => {
            put_contacts_msg(out, addrs);
            proof {
                assert(final(out)@ =~= old(out)@ + spec_enc_message(*msg, depth as nat));
            }
            true
        },
        Message::AgentMessage { payload } => {
            if depth == 0 {
                proof {
                    assert(!spec_enc_ok(*msg, depth as nat));
                }
                return false;
            }
            put_u8(out, 6);
            put_usize(out, payload.len());
            let ok = encode_payload(payload, out, (depth - 1) as u64);
            proof {
                if ok {
                    assert(final(out)@ =~= old(out)@ + spec_enc_message(*msg, depth as nat));
                }
                assert(ok == spec_enc_ok(*msg, depth as nat));
            }
            ok
        },
        Message::RoutingTable { routing_table, source } => {
            put_routing_msg(out, routing_table, source);
            proof {
                assert(final(out)@ =~= old(out)@ + spec_enc_message(*msg, depth as nat));
            }
            true
        },
        Message::ConsensusRequest { data } => {
            put_u8(out, 8);
            put_hash(out, &data.account_state_id);
            put_tx(out, &data.tx);
            proof {
                assert(final(out)@ =~= old(out)@ + spec_enc_message(*msg, depth as nat));
            }
            true
        },
        Message::DagConsensusRequest { sender, data, tx, count } => {
            put_u8(out, 9);
            put_hash(out, sender);
            put_hash(out, &data.account_state_id);
            put_tx(out, &data.tx);
            put_tx(out, tx);
            put_usize(out, *count);
            proof {
                assert(final(out)@ =~= old(out)@ + spec_enc_message(*msg, depth as nat));
            }
            true
        },
        Message::DagConsensusResponse { sender, hash, strongly_preferred } => {
            put_u8(out, 10);
            put_hash(out, sender);
            put_hash(out, hash);
            put_u8(
                out,
                if *strongly_preferred {
                    1
                } else {
                    0
                },
            );
            proof {
                assert(final(out)@ =~= old(out)@ + spec_enc_message(*msg, depth as nat));
            }
            true
        },
        Message::InitBenchmarking(count, interval) => {
            put_u8(out, 11);
            put_usize(out, *count);
            put_u64(out, *interval);
            proof {
                assert(final(out)@ =~= old(out)@ + spec_enc_message(*msg, depth as nat));
            }
            true
        },
        Message::CompleteRound => {
            put_u8(out, 12);
            proof {
                assert(final(out)@ =~= old(out)@ + spec_enc_message(*msg, depth as nat));
            }
            true
        },
        Message::BenchmarkStats(txns) => {
            put_stats_msg(out, txns);
            proof {
                assert(final(out)@ =~= old(out)@ + spec_enc_message(*msg, depth as nat));
            }
            true
        },
        Message::BatchedConsensusRequest { sender, data, count } => {
            put_batch_req_msg(out, sender, data, *count);
            proof {
                assert(final(out)@ =~= old(out)@ + spec_enc_message(*msg, depth as nat));
            }
            true
        },
        Message::BatchedConsensusResponse { sender, data } => {
            put_batch_resp_msg(out, sender, data);
            proof {
                assert(final(out)@ =~= old(out)@ + spec_enc_message(*msg, depth as nat));
            }
            true
        },
    }
}

#[verifier::rlimit(100)]
#[verifier::spinoff_prover]
fn encode_payload(
    payload: &Vec<(crate::hash::Hash, Message, usize)>,
    out: &mut Vec<u8>,
    depth: u64,
) -> (ok: bool)
    ensures
        ok == spec_payload_ok(payload@, depth as nat),
        ok ==> final(out)@ == old(out)@ + spec_enc_payload(payload@, depth as nat),
    decreases depth as int, 1int,
{
    let ghost items = payload@;
    let ghost prefix = out@;
    let ghost d = depth as nat;
    let mut i: usize = 0;
    while i < payload.len()
        invariant
            0 <= i <= payload@.len(),
            items == payload@,
            d == depth as nat,
            out@ == prefix + spec_enc_payload(items.take(i as int), d),
            forall|j: int| 0 <= j < i ==> spec_enc_ok((#[trigger] items[j]).1, d),
        decreases items.len() - i,
    {
        put_hash(out, &payload[i].0);
        put_usize(out, payload[i].2);
        let mut inner: Vec<u8> = Vec::new();
        if !encode_message_depth(&payload[i].1, &mut inner, depth) {
            proof {
                lemma_payload_ok_index(items, d);
                assert(!spec_enc_ok(items[i as int].1, d));
                assert(!spec_payload_ok(items, d));
            }
            return false;
        }
        put_bytes(out, &inner);
        proof {
            assert(inner@ == spec_enc_message(items[i as int].1, d));
            assert(items.take(i + 1).drop_last() =~= items.take(i as int));
            assert(items.take(i + 1).last() == items[i as int]);
            assert(out@ =~= prefix + spec_enc_payload(items.take(i + 1), d));
        }
        i += 1;
    }
    proof {
        assert(items.take(items.len() as int) =~= items);
        lemma_payload_ok_index(items, d);
    }
    true
}

/// The consumed region of a length-prefixed byte string re-encodes to it.
proof fn lemma_bytes_region(s: Seq<u8>, p: int, v: Seq<u8>, next: int)
    requires
        0 <= p,
        p + 8 <= s.len(),
        next == p + 8 + v.len(),
        next <= s.len(),
        crate::codec::le_u64_at(s, p) == v.len(),
        v == s.subrange(p + 8, next),
    ensures
        s.subrange(p, next) == crate::codec::enc_bytes(v),
{
    crate::codec::lemma_u64_at_canonical(s, p);
    crate::codec::lemma_subrange_split(s, p, p + 8, next);
    assert(s.subrange(p, next) =~= crate::codec::enc_bytes(v));
}

/// Reads a message back from its wire form: an unknown tag, a truncated
/// field, a repeated routing destination or an agent envelope nested deeper
/// than `MAX_NESTING` is refused. Whatever decodes re-encodes to exactly
/// the consumed bytes, so decoding an encoded message yields one that
/// encodes identically; that every well-formed encoding does decode is
/// exercised by the round-trip tests, not stated here.
pub fn decode_message(input: &[u8], pos: usize) -> (r: Option<(Message, usize)>)
    ensures
        r matches Some((m, next)) ==> pos <= next <= input@.len() && spec_enc_ok(
            m,
            MAX_NESTING as nat,
        ) && input@.subrange(pos as int, next as int) == spec_enc_message(m, MAX_NESTING as nat),
        match r {
            Some((m, next)) => sdec_msg_end(input@, pos as int, MAX_NESTING as nat) == Some(
                next as int,
            ),
            None => sdec_msg_end(input@, pos as int, MAX_NESTING as nat) is None,
        },
{
    decode_message_depth(input, pos, MAX_NESTING)
}

#[verifier::rlimit(100)]
#[verifier::spinoff_prover]
fn decode_message_depth(input: &[u8], pos: usize, depth: u64) -> (r: Option<(Message, usize)>)
    ensures
        r matches Some((m, next)) ==> pos <= next <= input@.len() && spec_enc_ok(m, depth as nat)
            && input@.subrange(pos as int, next as int) == spec_enc_message(m, depth as nat),
        match r {
            Some((m, next)) => sdec_msg_end(input@, pos as int, depth as nat) == Some(next as int),
            None => sdec_msg_end(input@, pos as int, depth as nat) is None,
        },
    decreases depth as int, 1int,
{
    let (tag, p0) = match get_u8(input, pos) {
        Some(v) => v,
        None => {
            return None;
        },
    };
    if tag == 0 || tag == 1 {
        decode_user_or_encrypted(input, pos, p0, depth)
    } else if tag == 2 {
        decode_tag2(input, pos, p0, depth)
    } else if tag == 3 {
        decode_tag3(input, pos, p0, depth)
    } else if tag == 4 {
        decode_tag4(input, pos, p0, depth)
    } else if tag == 5 {
        decode_tag5(input, pos, p0, depth)
    } else if tag == 6 {
        decode_tag6(input, pos, p0, depth)
    } else if tag == 7 {
        decode_tag7(input, pos, p0, depth)
    } else if tag == 8 {
        decode_tag8(input, pos, p0, depth)
    } else if tag == 9 {
        decode_tag9(input, pos, p0, depth)
    } else if tag == 10 {
        decode_tag10(input, pos, p0, depth)
    } else if tag == 11 {
        decode_tag11(input, pos, p0, depth)
    } else if tag == 12 {
        decode_tag12(input, pos, p0, depth)
    } else if tag == 13 {
        decode_tag13(input, pos, p0, depth)
    } else if tag == 14 {
        decode_tag14(input, pos, p0, depth)
    } else if tag == 15 {
        decode_tag15(input, pos, p0, depth)
    } else {
        None
    }
}

#[verifier::rlimit(100)]
#[verifier::spinoff_prover]
fn decode_user_or_encrypted(input: &[u8], pos: usize, p0: usize, depth: u64) -> (r: Option<(Message, usize)>)
    requires
        pos < input@.len(),
        p0 == pos + 1,
        (input@[pos as int] == 0 || input@[pos as int] == 1),
    ensures
        r matches Some((m, next)) ==> pos <= next <= input@.len() && spec_enc_ok(m, depth as nat)
            && input@.subrange(pos as int, next as int) == spec_enc_message(m, depth as nat),
        match r {
            Some((m, next)) => sdec_msg_end(input@, pos as int, depth as nat) == Some(next as int),
            None => sdec_msg_end(input@, pos as int, depth as nat) is None,
        },
{
    let ilen = input.len();
    let ghost gin = input@;
    let ghost d = depth as nat;
    let tag = input[pos];
    proof {
        assert(gin.subrange(pos as int, pos + 1) =~= crate::codec::enc_u8(input@[pos as int]));
    }
    match get_bytes(input, p0) {
        Some((content, p1)) => {
            proof {
                lemma_bytes_region(gin, p0 as int, content@, p1 as int);
                crate::codec::lemma_subrange_split(gin, pos as int, p0 as int, p1 as int);
            }
            if tag == 0 {
                let m = Message::UserMessage(content);
                proof {
                    assert(gin.subrange(pos as int, p1 as int) =~= spec_enc_message(m, d));
                }
                Some((m, p1))
            } else {
                let m = Message::EncryptedMessage(content);
                proof {
                    assert(gin.subrange(pos as int, p1 as int) =~= spec_enc_message(m, d));
                }
                Some((m, p1))
            }
        },
        None => None,
    }
}

#[verifier::rlimit(100)]
#[verifier::spinoff_prover]
fn decode_tag2(input: &[u8], pos: usize, p0: usize, depth: u64) -> (r: Option<(Message, usize)>)
    requires
        pos < input@.len(),
        p0 == pos + 1,
        input@[pos as int] == 2,
    ensures
        r matches Some((m, next)) ==> pos <= next <= input@.len() && spec_enc_ok(m, depth as nat)
            && input@.subrange(pos as int, next as int) == spec_enc_message(m, depth as nat),
        match r {
            Some((m, next)) => sdec_msg_end(input@, pos as int, depth as nat) == Some(next as int),
            None => sdec_msg_end(input@, pos as int, depth as nat) is None,
        },
{
    let ilen = input.len();
    let ghost gin = input@;
    let ghost d = depth as nat;
    proof {
        assert(gin.subrange(pos as int, pos + 1) =~= crate::codec::enc_u8(input@[pos as int]));
    }
    let (message, p1) = match get_bytes(input, p0) {
        Some(v) => v,
        None => {
            return None;
        },
    };
    let (pk, p2) = match get_bytes(input, p1) {
        Some(v) => v,
        None => {
            return None;
        },
    };
    proof {
        lemma_bytes_region(gin, p0 as int, message@, p1 as int);
        lemma_bytes_region(gin, p1 as int, pk@, p2 as int);
        crate::codec::lemma_subrange_split(gin, pos as int, p0 as int, p1 as int);
        crate::codec::lemma_subrange_split(gin, pos as int, p1 as int, p2 as int);
    }
    let sender = crate::identity::PublicId {
        public_key: crate::signature::PublicKey::from_raw(pk),
    };
    let m = Message::AuthenticatedMessage { message, sender };
    proof {
        assert(gin.subrange(pos as int, p2 as int) =~= spec_enc_message(m, d));
    }
    Some((m, p2))
}

#[verifier::rlimit(100)]
#[verifier::spinoff_prover]
fn decode_tag3(input: &[u8], pos: usize, p0: usize, depth: u64) -> (r: Option<(Message, usize)>)
    requires
        pos < input@.len(),
        p0 == pos + 1,
        input@[pos as int] == 3,
    ensures
        r matches Some((m, next)) ==> pos <= next <= input@.len() && spec_enc_ok(m, depth as nat)
            && input@.subrange(pos as int, next as int) == spec_enc_message(m, depth as nat),
        match r {
            Some((m, next)) => sdec_msg_end(input@, pos as int, depth as nat) == Some(next as int),
            None => sdec_msg_end(input@, pos as int, depth as nat) is None,
        },
{
    let ilen = input.len();
    let ghost gin = input@;
    let ghost d = depth as nat;
    proof {
        assert(gin.subrange(pos as int, pos + 1) =~= crate::codec::enc_u8(input@[pos as int]));
    }
    let (message, p1) = match get_bytes(input, p0) {
        Some(v) => v,
        None => {
            return None;
        },
    };
    let (signature, p2) = match get_bytes(input, p1) {
        Some(v) => v,
        None => {
            return None;
        },
    };
    let (pk, p3) = match get_bytes(input, p2) {
        Some(v) => v,
        None => {
            return None;
        },
    };
    proof {
        lemma_bytes_region(gin, p0 as int, message@, p1 as int);
        lemma_bytes_region(gin, p1 as int, signature@, p2 as int);
        lemma_bytes_region(gin, p2 as int, pk@, p3 as int);
        crate::codec::lemma_subrange_split(gin, pos as int, p0 as int, p1 as int);
        crate::codec::lemma_subrange_split(gin, pos as int, p1 as int, p2 as int);
        crate::codec::lemma_subrange_split(gin, pos as int, p2 as int, p3 as int);
    }
    let sender = crate::identity::PublicId {
        public_key: crate::signature::PublicKey::from_raw(pk),
    };
    let m = Message::SignedMessage { message, signature, sender };
    proof {
        assert(gin.subrange(pos as int, p3 as int) =~= spec_enc_message(m, d));
    }
    Some((m, p3))
}

#[verifier::rlimit(100)]
#[verifier::spinoff_prover]
fn decode_tag4(input: &[u8], pos: usize, p0: usize, depth: u64) -> (r: Option<(Message, usize)>)
    requires
        pos < input@.len(),
        p0 == pos + 1,
        input@[pos as int] == 4,
    ensures
        r matches Some((m, next)) ==> pos <= next <= input@.len() && spec_enc_ok(m, depth as nat)
            && input@.subrange(pos as int, next as int) == spec_enc_message(m, depth as nat),
        match r {
            Some((m, next)) => sdec_msg_end(input@, pos as int, depth as nat) == Some(next as int),
            None => sdec_msg_end(input@, pos as int, depth as nat) is None,
        },
{
    let ilen = input.len();
    let ghost gin = input@;
    let ghost d = depth as nat;
    proof {
        assert(gin.subrange(pos as int, pos + 1) =~= crate::codec::enc_u8(input@[pos as int]));
    }
    match get_hash(input, p0) {
        Some((h, p1)) => {
            let m = Message::Identification(h);
            proof {
                crate::codec::lemma_subrange_split(gin, pos as int, p0 as int, p1 as int);
                assert(gin.subrange(pos as int, p1 as int) =~= spec_enc_message(m, d));
            }
            Some((m, p1))
        },
        None => None,
    }
}

#[verifier::rlimit(100)]
#[verifier::spinoff_prover]
fn decode_tag5(input: &[u8], pos: usize, p0: usize, depth: u64) -> (r: Option<(Message, usize)>)
    requires
        pos < input@.len(),
        p0 == pos + 1,
        input@[pos as int] == 5,
    ensures
        r matches Some((m, next)) ==> pos <= next <= input@.len() && spec_enc_ok(m, depth as nat)
            && input@.subrange(pos as int, next as int) == spec_enc_message(m, depth as nat),
        match r {
            Some((m, next)) => sdec_msg_end(input@, pos as int, depth as nat) == Some(next as int),
            None => sdec_msg_end(input@, pos as int, depth as nat) is None,
        },
{
    let ilen = input.len();
    let ghost gin = input@;
    let ghost d = depth as nat;
    proof {
        assert(gin.subrange(pos as int, pos + 1) =~= crate::codec::enc_u8(input@[pos as int]));
    }
    let (count, p1) = match get_usize(input, p0) {
        Some(v) => v,
        None => {
            return None;
        },
    };
    let mut addrs: Vec<NetAddr> = Vec::new();
    let mut p: usize = p1;
    let mut k: usize = 0;
    proof {
        assert(gin.subrange(p1 as int, p1 as int) =~= Seq::<u8>::empty());
        assert(enc_netaddrs(addrs@.map_values(|a: NetAddr| a@)) =~= Seq::<u8>::empty());
    }
    while k < count
        invariant
            0 <= k <= count,
            gin == input@,
            p1 <= p <= gin.len(),
            ilen == gin.len(),
            addrs@.len() == k,
            pos < gin.len(),
            gin[pos as int] == 5,
            p0 == pos + 1,
            d == depth as nat,
            sdec_count(gin, p0 as int) == Some((count as int, p1 as int)),
            gin.subrange(p1 as int, p as int) == enc_netaddrs(
                addrs@.map_values(|a: NetAddr| a@),
            ),
            match sdec_netaddrs_end(gin, p as int, count - k) {
                Some(e) => sdec_netaddrs_end(gin, p1 as int, count as int) == Some(e),
                None => sdec_netaddrs_end(gin, p1 as int, count as int) is None,
            },
        decreases count - k,
    {
        let ghost pre = addrs@.map_values(|a: NetAddr| a@);
        let (a, pn) = match get_netaddr(input, p) {
            Some(v) => v,
            None => {
                proof {
                    assert(sdec_netaddrs_end(gin, p as int, count - k) is None);
                    assert(sdec_msg_end(gin, pos as int, d) is None);
                }
                return None;
            },
        };
        let ghost av = a@;
        proof {
            assert(crate::wire::sdec_bytes(gin, p as int) == Some((a.ip@, pn - 2)));
            assert(sdec_netaddrs_end(gin, p as int, count - k) == sdec_netaddrs_end(
                gin,
                pn as int,
                count - k - 1,
            ));
        }
        addrs.push(a);
        proof {
            let cur = addrs@.map_values(|aa: NetAddr| aa@);
            assert(cur =~= pre.push(av));
            assert(cur.drop_last() =~= pre);
            assert(cur.last() == av);
            assert(enc_netaddrs(cur) == enc_netaddrs(pre) + crate::codec::enc_bytes(av.0)
                + crate::codec::enc_u16(av.1));
            crate::codec::lemma_subrange_split(gin, p1 as int, p as int, pn as int);
            assert(gin.subrange(p1 as int, pn as int) =~= enc_netaddrs(cur));
        }
        p = pn;
        k += 1;
    }
    let m = Message::Contacts(addrs);
    proof {
        crate::codec::lemma_subrange_split(gin, pos as int, p0 as int, p1 as int);
        crate::codec::lemma_subrange_split(gin, pos as int, p1 as int, p as int);
        assert(gin.subrange(pos as int, p as int) =~= spec_enc_message(m, d));
        assert(sdec_netaddrs_end(gin, p as int, 0) == Some(p as int));
        assert(sdec_msg_end(gin, pos as int, d) == Some(p as int));
    }
    Some((m, p))
}

#[verifier::rlimit(100)]
#[verifier::spinoff_prover]
fn decode_tag6(input: &[u8], pos: usize, p0: usize, depth: u64) -> (r: Option<(Message, usize)>)
    requires
        pos < input@.len(),
        p0 == pos + 1,
        input@[pos as int] == 6,
    ensures
        r matches Some((m, next)) ==> pos <= next <= input@.len() && spec_enc_ok(m, depth as nat)
            && input@.subrange(pos as int, next as int) == spec_enc_message(m, depth as nat),
        match r {
            Some((m, next)) => sdec_msg_end(input@, pos as int, depth as nat) == Some(next as int),
            None => sdec_msg_end(input@, pos as int, depth as nat) is None,
        },
    decreases depth as int, 0int,
{
    let ilen = input.len();
    let ghost gin = input@;
    let ghost d = depth as nat;
    proof {
        assert(gin.subrange(pos as int, pos + 1) =~= crate::codec::enc_u8(input@[pos as int]));
    }
    if depth == 0 {
        return None;
    }
    let (count, p1) = match get_usize(input, p0) {
        Some(v) => v,
        None => {
            return None;
        },
    };
    let mut payload: Vec<(crate::hash::Hash, Message, usize)> = Vec::new();
    let mut p: usize = p1;
    let mut k: usize = 0;
    let ghost di = (depth - 1) as nat;
    proof {
        assert(gin.subrange(p1 as int, p1 as int) =~= Seq::<u8>::empty());
        assert(spec_enc_payload(payload@, di) =~= Seq::<u8>::empty());
    }
    while k < count
        invariant
            0 <= k <= count,
            depth >= 1,
            di == (depth - 1) as nat,
            gin == input@,
            p1 <= p <= gin.len(),
            ilen == gin.len(),
            payload@.len() == k,
            pos < gin.len(),
            gin[pos as int] == 6,
            p0 == pos + 1,
            d == depth as nat,
            sdec_count(gin, p0 as int) == Some((count as int, p1 as int)),
            gin.subrange(p1 as int, p as int) == spec_enc_payload(payload@, di),
            forall|j: int|
                0 <= j < payload@.len() ==> spec_enc_ok((#[trigger] payload@[j]).1, di),
            match sdec_payload_end(gin, p as int, count - k, di) {
                Some(e) => sdec_payload_end(gin, p1 as int, count as int, di) == Some(e),
                None => sdec_payload_end(gin, p1 as int, count as int, di) is None,
            },
        decreases count - k,
    {
        let ghost pre = payload@;
        let (target, pn) = match get_hash(input, p) {
            Some(v) => v,
            None => {
                proof {
                    assert(sdec_payload_end(gin, p as int, count - k, di) is None);
                    assert(sdec_msg_end(gin, pos as int, d) is None);
                }
                return None;
            },
        };
        let (step, pn2) = match get_usize(input, pn) {
            Some(v) => v,
            None => {
                proof {
                    assert(sdec_payload_end(gin, p as int, count - k, di) is None);
                    assert(sdec_msg_end(gin, pos as int, d) is None);
                }
                return None;
            },
        };
        let (inner_bytes, pn3) = match get_bytes(input, pn2) {
            Some(v) => v,
            None => {
                proof {
                    assert(sdec_payload_end(gin, p as int, count - k, di) is None);
                    assert(sdec_msg_end(gin, pos as int, d) is None);
                }
                return None;
            },
        };
        let (inner, consumed) = match decode_message_depth(
            inner_bytes.as_slice(),
            0,
            (depth - 1) as u64,
        ) {
            Some(v) => v,
            None => {
                proof {
                    assert(crate::wire::sdec_bytes(gin, pn2 as int) == Some(
                        (inner_bytes@, pn3 as int),
                    ));
                    assert(sdec_msg_end(inner_bytes@, 0, di) is None);
                    assert(sdec_payload_end(gin, p as int, count - k, di) is None);
                    assert(sdec_msg_end(gin, pos as int, d) is None);
                }
                return None;
            },
        };
        if consumed != inner_bytes.len() {
            proof {
                assert(crate::wire::sdec_bytes(gin, pn2 as int) == Some(
                    (inner_bytes@, pn3 as int),
                ));
                assert(sdec_msg_end(inner_bytes@, 0, di) == Some(consumed as int));
                assert(sdec_payload_end(gin, p as int, count - k, di) is None);
                assert(sdec_msg_end(gin, pos as int, d) is None);
            }
            return None;
        }
        proof {
            assert(crate::wire::sdec_bytes(gin, pn2 as int) == Some((inner_bytes@, pn3 as int)));
            assert(sdec_msg_end(inner_bytes@, 0, di) == Some(inner_bytes@.len() as int));
            assert(sdec_payload_end(gin, p as int, count - k, di) == sdec_payload_end(
                gin,
                pn3 as int,
                count - k - 1,
                di,
            ));
        }
        proof {
            assert(inner_bytes@.subrange(0, consumed as int) =~= inner_bytes@);
            assert(inner_bytes@ == spec_enc_message(inner, di));
            lemma_bytes_region(gin, pn2 as int, inner_bytes@, pn3 as int);
        }
        let ghost item = (target, inner, step);
        payload.push((target, inner, step));
        proof {
            assert(payload@ =~= pre.push(item));
            assert(payload@.drop_last() =~= pre);
            assert(payload@.last() == item);
            assert(spec_enc_payload(payload@, di) == spec_enc_payload(pre, di) + item.0@
                + crate::codec::enc_u64(item.2 as u64) + crate::codec::enc_bytes(
                spec_enc_message(item.1, di),
            ));
            crate::codec::lemma_subrange_split(gin, p1 as int, p as int, pn as int);
            crate::codec::lemma_subrange_split(gin, p1 as int, pn as int, pn2 as int);
            crate::codec::lemma_subrange_split(gin, p1 as int, pn2 as int, pn3 as int);
            assert(gin.subrange(p1 as int, pn3 as int) =~= spec_enc_payload(payload@, di));
            assert forall|j: int|
                0 <= j < payload@.len() implies spec_enc_ok(
                (#[trigger] payload@[j]).1,
                di,
            ) by {
                if j < pre.len() {
                    assert(payload@[j] == pre[j]);
                }
            }
        }
        p = pn3;
        k += 1;
    }
    let ghost pv = payload@;
    let m = Message::AgentMessage { payload };
    proof {
        lemma_payload_ok_index(pv, di);
        assert(spec_enc_ok(m, d));
        crate::codec::lemma_subrange_split(gin, pos as int, p0 as int, p1 as int);
        crate::codec::lemma_subrange_split(gin, pos as int, p1 as int, p as int);
        assert(gin.subrange(pos as int, p as int) =~= spec_enc_message(m, d));
        assert(sdec_payload_end(gin, p as int, 0, di) == Some(p as int));
        assert(sdec_msg_end(gin, pos as int, d) == Some(p as int));
    }
    Some((m, p))
}

#[verifier::rlimit(100)]
#[verifier::spinoff_prover]
fn decode_tag7(input: &[u8], pos: usize, p0: usize, depth: u64) -> (r: Option<(Message, usize)>)
    requires
        pos < input@.len(),
        p0 == pos + 1,
        input@[pos as int] == 7,
    ensures
        r matches Some((m, next)) ==> pos <= next <= input@.len() && spec_enc_ok(m, depth as nat)
            && input@.subrange(pos as int, next as int) == spec_enc_message(m, depth as nat),
        match r {
            Some((m, next)) => sdec_msg_end(input@, pos as int, depth as nat) == Some(next as int),
            None => sdec_msg_end(input@, pos as int, depth as nat) is None,
        },
{
    let ilen = input.len();
    let ghost gin = input@;
    let ghost d = depth as nat;
    proof {
        assert(gin.subrange(pos as int, pos + 1) =~= crate::codec::enc_u8(input@[pos as int]));
    }
    let (count, p1) = match get_usize(input, p0) {
        Some(v) => v,
        None => {
            return None;
        },
    };
    let mut table = crate::routing::SharedRoutingTable::new();
    let mut p: usize = p1;
    let mut k: usize = 0;
    let ghost mut seen = Set::<Seq<u8>>::empty();
    proof {
        assert(gin.subrange(p1 as int, p1 as int) =~= Seq::<u8>::empty());
        assert(table.entry_pairs() =~= Seq::<(Seq<u8>, int)>::empty());
        assert(enc_route_entries(table.entry_pairs()) =~= Seq::<u8>::empty());
        assert(seen =~= table.hops_map().dom());
    }
    while k < count
        invariant
            0 <= k <= count,
            gin == input@,
            p1 <= p <= gin.len(),
            ilen == gin.len(),
            table.entry_pairs().len() == k,
            pos < gin.len(),
            gin[pos as int] == 7,
            p0 == pos + 1,
            d == depth as nat,
            sdec_count(gin, p0 as int) == Some((count as int, p1 as int)),
            seen == table.hops_map().dom(),
            gin.subrange(p1 as int, p as int) == enc_route_entries(table.entry_pairs()),
            match sdec_routes_end(gin, p as int, count - k, seen) {
                Some(e) => sdec_routes_end(gin, p1 as int, count as int, Set::empty()) == Some(
                    e,
                ),
                None => sdec_routes_end(gin, p1 as int, count as int, Set::empty()) is None,
            },
        decreases count - k,
    {
        let ghost pre = table.entry_pairs();
        let (node, pn) = match get_hash(input, p) {
            Some(v) => v,
            None => {
                proof {
                    assert(sdec_routes_end(gin, p as int, count - k, seen) is None);
                    assert(sdec_msg_end(gin, pos as int, d) is None);
                }
                return None;
            },
        };
        let (hops, pn2) = match get_usize(input, pn) {
            Some(v) => v,
            None => {
                proof {
                    assert(sdec_routes_end(gin, p as int, count - k, seen) is None);
                    assert(sdec_msg_end(gin, pos as int, d) is None);
                }
                return None;
            },
        };
        if table.get_routing_info(&node).is_some() {
            proof {
                assert(seen.contains(gin.subrange(p as int, p + 32)));
                assert(sdec_routes_end(gin, p as int, count - k, seen) is None);
                assert(sdec_msg_end(gin, pos as int, d) is None);
            }
            return None; // a repeated destination is malformed
        }
        proof {
            assert(!seen.contains(gin.subrange(p as int, p + 32)));
            assert(crate::codec::le_u64_at(gin, p + 32) <= usize::MAX);
            assert(sdec_routes_end(gin, p as int, count - k, seen) == sdec_routes_end(
                gin,
                pn2 as int,
                count - k - 1,
                seen.insert(node@),
            ));
        }
        table.insert(node, hops);
        proof {
            seen = seen.insert(node@);
            assert(seen =~= table.hops_map().dom());
        }
        proof {
            assert(table.entry_pairs() =~= pre.push((node@, hops as int)));
            assert(table.entry_pairs().drop_last() =~= pre);
            assert(table.entry_pairs().last() == (node@, hops as int));
            assert(enc_route_entries(table.entry_pairs()) == enc_route_entries(pre) + node@
                + crate::codec::enc_u64(hops as u64));
            crate::codec::lemma_subrange_split(gin, p1 as int, p as int, pn as int);
            crate::codec::lemma_subrange_split(gin, p1 as int, pn as int, pn2 as int);
            assert(gin.subrange(p1 as int, pn2 as int) =~= enc_route_entries(
                table.entry_pairs(),
            ));
        }
        p = pn2;
        k += 1;
    }
    proof {
        assert(sdec_routes_end(gin, p as int, 0, seen) == Some(p as int));
        assert(sdec_routes_end(gin, p1 as int, count as int, Set::empty()) == Some(p as int));
    }
    let (source, p2) = match get_hash(input, p) {
        Some(v) => v,
        None => {
            proof {
                assert(sdec_msg_end(gin, pos as int, d) is None);
            }
            return None;
        },
    };
    let ghost pairs = table.entry_pairs();
    let m = Message::RoutingTable { routing_table: table, source };
    proof {
        assert(pairs.len() == k);
        crate::codec::lemma_subrange_split(gin, pos as int, p0 as int, p1 as int);
        crate::codec::lemma_subrange_split(gin, pos as int, p1 as int, p as int);
        crate::codec::lemma_subrange_split(gin, pos as int, p as int, p2 as int);
        assert(gin.subrange(pos as int, p2 as int) =~= spec_enc_message(m, d));
        assert(sdec_msg_end(gin, pos as int, d) == Some(p2 as int));
    }
    Some((m, p2))
}

#[verifier::rlimit(100)]
#[verifier::spinoff_prover]
fn decode_tag8(input: &[u8], pos: usize, p0: usize, depth: u64) -> (r: Option<(Message, usize)>)
    requires
        pos < input@.len(),
        p0 == pos + 1,
        input@[pos as int] == 8,
    ensures
        r matches Some((m, next)) ==> pos <= next <= input@.len() && spec_enc_ok(m, depth as nat)
            && input@.subrange(pos as int, next as int) == spec_enc_message(m, depth as nat),
        match r {
            Some((m, next)) => sdec_msg_end(input@, pos as int, depth as nat) == Some(next as int),
            None => sdec_msg_end(input@, pos as int, depth as nat) is None,
        },
{
    let ilen = input.len();
    let ghost gin = input@;
    let ghost d = depth as nat;
    proof {
        assert(gin.subrange(pos as int, pos + 1) =~= crate::codec::enc_u8(input@[pos as int]));
    }
    let (state_id, p1) = match get_hash(input, p0) {
        Some(v) => v,
        None => {
            return None;
        },
    };
    let (tx, p2) = match get_tx(input, p1) {
        Some(v) => v,
        None => {
            return None;
        },
    };
    proof {
        crate::wire::lemma_sdec_tx_sound(gin, p1 as int);
        crate::codec::lemma_subrange_split(gin, pos as int, p0 as int, p1 as int);
        crate::codec::lemma_subrange_split(gin, pos as int, p1 as int, p2 as int);
    }
    let m = Message::ConsensusRequest {
        data: crate::account::AccountStateChoice { account_state_id: state_id, tx },
    };
    proof {
        assert(gin.subrange(pos as int, p2 as int) =~= spec_enc_message(m, d));
    }
    Some((m, p2))
}

#[verifier::rlimit(100)]
#[verifier::spinoff_prover]
fn decode_tag9(input: &[u8], pos: usize, p0: usize, depth: u64) -> (r: Option<(Message, usize)>)
    requires
        pos < input@.len(),
        p0 == pos + 1,
        input@[pos as int] == 9,
    ensures
        r matches Some((m, next)) ==> pos <= next <= input@.len() && spec_enc_ok(m, depth as nat)
            && input@.subrange(pos as int, next as int) == spec_enc_message(m, depth as nat),
        match r {
            Some((m, next)) => sdec_msg_end(input@, pos as int, depth as nat) == Some(next as int),
            None => sdec_msg_end(input@, pos as int, depth as nat) is None,
        },
{
    let ilen = input.len();
    let ghost gin = input@;
    let ghost d = depth as nat;
    proof {
        assert(gin.subrange(pos as int, pos + 1) =~= crate::codec::enc_u8(input@[pos as int]));
    }
    let (sender, p1) = match get_hash(input, p0) {
        Some(v) => v,
        None => {
            return None;
        },
    };
    let (state_id, p2) = match get_hash(input, p1) {
        Some(v) => v,
        None => {
            return None;
        },
    };
    let (data_tx, p3) = match get_tx(input, p2) {
        Some(v) => v,
        None => {
            return None;
        },
    };
    let (tx, p4) = match get_tx(input, p3) {
        Some(v) => v,
        None => {
            return None;
        },
    };
    let (count, p5) = match get_usize(input, p4) {
        Some(v) => v,
        None => {
            return None;
        },
    };
    proof {
        crate::wire::lemma_sdec_tx_sound(gin, p2 as int);
        crate::wire::lemma_sdec_tx_sound(gin, p3 as int);
        crate::codec::lemma_subrange_split(gin, pos as int, p0 as int, p1 as int);
        crate::codec::lemma_subrange_split(gin, pos as int, p1 as int, p2 as int);
        crate::codec::lemma_subrange_split(gin, pos as int, p2 as int, p3 as int);
        crate::codec::lemma_subrange_split(gin, pos as int, p3 as int, p4 as int);
        crate::codec::lemma_subrange_split(gin, pos as int, p4 as int, p5 as int);
    }
    let m = Message::DagConsensusRequest {
        sender,
        data: crate::account::AccountStateChoice { account_state_id: state_id, tx: data_tx },
        tx,
        count,
    };
    proof {
        assert(gin.subrange(pos as int, p5 as int) =~= spec_enc_message(m, d));
    }
    Some((m, p5))
}

#[verifier::rlimit(100)]
#[verifier::spinoff_prover]
fn decode_tag10(input: &[u8], pos: usize, p0: usize, depth: u64) -> (r: Option<(Message, usize)>)
    requires
        pos < input@.len(),
        p0 == pos + 1,
        input@[pos as int] == 10,
    ensures
        r matches Some((m, next)) ==> pos <= next <= input@.len() && spec_enc_ok(m, depth as nat)
            && input@.subrange(pos as int, next as int) == spec_enc_message(m, depth as nat),
        match r {
            Some((m, next)) => sdec_msg_end(input@, pos as int, depth as nat) == Some(next as int),
            None => sdec_msg_end(input@, pos as int, depth as nat) is None,
        },
{
    let ilen = input.len();
    let ghost gin = input@;
    let ghost d = depth as nat;
    proof {
        assert(gin.subrange(pos as int, pos + 1) =~= crate::codec::enc_u8(input@[pos as int]));
    }
    let (sender, p1) = match get_hash(input, p0) {
        Some(v) => v,
        None => {
            return None;
        },
    };
    let (hash, p2) = match get_hash(input, p1) {
        Some(v) => v,
        None => {
            return None;
        },
    };
    let (flag, p3) = match get_u8(input, p2) {
        Some(v) => v,
        None => {
            return None;
        },
    };
    if flag > 1 {
        return None;
    }
    let m = Message::DagConsensusResponse { sender, hash, strongly_preferred: flag == 1 };
    proof {
        assert(gin.subrange(p2 as int, p3 as int) =~= enc_bool(flag == 1));
        crate::codec::lemma_subrange_split(gin, pos as int, p0 as int, p1 as int);
        crate::codec::lemma_subrange_split(gin, pos as int, p1 as int, p2 as int);
        crate::codec::lemma_subrange_split(gin, pos as int, p2 as int, p3 as int);
        assert(gin.subrange(pos as int, p3 as int) =~= spec_enc_message(m, d));
    }
    Some((m, p3))
}

#[verifier::rlimit(100)]
#[verifier::spinoff_prover]
fn decode_tag11(input: &[u8], pos: usize, p0: usize, depth: u64) -> (r: Option<(Message, usize)>)
    requires
        pos < input@.len(),
        p0 == pos + 1,
        input@[pos as int] == 11,
    ensures
        r matches Some((m, next)) ==> pos <= next <= input@.len() && spec_enc_ok(m, depth as nat)
            && input@.subrange(pos as int, next as int) == spec_enc_message(m, depth as nat),
        match r {
            Some((m, next)) => sdec_msg_end(input@, pos as int, depth as nat) == Some(next as int),
            None => sdec_msg_end(input@, pos as int, depth as nat) is None,
        },
{
    let ilen = input.len();
    let ghost gin = input@;
    let ghost d = depth as nat;
    proof {
        assert(gin.subrange(pos as int, pos + 1) =~= crate::codec::enc_u8(input@[pos as int]));
    }
    let (count, p1) = match get_usize(input, p0) {
        Some(v) => v,
        None => {
            return None;
        },
    };
    let (interval, p2) = match get_u64(input, p1) {
        Some(v) => v,
        None => {
            return None;
        },
    };
    let m = Message::InitBenchmarking(count, interval);
    proof {
        crate::codec::lemma_u64_at_canonical(gin, p1 as int);
        crate::codec::lemma_subrange_split(gin, pos as int, p0 as int, p1 as int);
        crate::codec::lemma_subrange_split(gin, pos as int, p1 as int, p2 as int);
        assert(gin.subrange(pos as int, p2 as int) =~= spec_enc_message(m, d));
    }
    Some((m, p2))
}

#[verifier::rlimit(100)]
#[verifier::spinoff_prover]
fn decode_tag12(input: &[u8], pos: usize, p0: usize, depth: u64) -> (r: Option<(Message, usize)>)
    requires
        pos < input@.len(),
        p0 == pos + 1,
        input@[pos as int] == 12,
    ensures
        r matches Some((m, next)) ==> pos <= next <= input@.len() && spec_enc_ok(m, depth as nat)
            && input@.subrange(pos as int, next as int) == spec_enc_message(m, depth as nat),
        match r {
            Some((m, next)) => sdec_msg_end(input@, pos as int, depth as nat) == Some(next as int),
            None => sdec_msg_end(input@, pos as int, depth as nat) is None,
        },
{
    let ilen = input.len();
    let ghost gin = input@;
    let ghost d = depth as nat;
    proof {
        assert(gin.subrange(pos as int, pos + 1) =~= crate::codec::enc_u8(input@[pos as int]));
    }
    let m = Message::CompleteRound;
    proof {
        assert(gin.subrange(pos as int, p0 as int) =~= spec_enc_message(m, d));
    }
    Some((m, p0))
}

#[verifier::rlimit(100)]
#[verifier::spinoff_prover]
fn decode_tag13(input: &[u8], pos: usize, p0: usize, depth: u64) -> (r: Option<(Message, usize)>)
    requires
        pos < input@.len(),
        p0 == pos + 1,
        input@[pos as int] == 13,
    ensures
        r matches Some((m, next)) ==> pos <= next <= input@.len() && spec_enc_ok(m, depth as nat)
            && input@.subrange(pos as int, next as int) == spec_enc_message(m, depth as nat),
        match r {
            Some((m, next)) => sdec_msg_end(input@, pos as int, depth as nat) == Some(next as int),
            None => sdec_msg_end(input@, pos as int, depth as nat) is None,
        },
{
    let ilen = input.len();
    let ghost gin = input@;
    let ghost d = depth as nat;
    proof {
        assert(gin.subrange(pos as int, pos + 1) =~= crate::codec::enc_u8(input@[pos as int]));
    }
    let (count, p1) = match get_usize(input, p0) {
        Some(v) => v,
        None => {
            return None;
        },
    };
    let mut txns: Vec<u64> = Vec::new();
    let mut p: usize = p1;
    let mut k: usize = 0;
    proof {
        assert(gin.subrange(p1 as int, p1 as int) =~= Seq::<u8>::empty());
        assert(enc_u64s(txns@) =~= Seq::<u8>::empty());
    }
    while k < count
        invariant
            0 <= k <= count,
            gin == input@,
            p1 <= p <= gin.len(),
            ilen == gin.len(),
            txns@.len() == k,
            pos < gin.len(),
            gin[pos as int] == 13,
            p0 == pos + 1,
            d == depth as nat,
            sdec_count(gin, p0 as int) == Some((count as int, p1 as int)),
            gin.subrange(p1 as int, p as int) == enc_u64s(txns@),
            match sdec_u64s_end(gin, p as int, count - k) {
                Some(e) => sdec_u64s_end(gin, p1 as int, count as int) == Some(e),
                None => sdec_u64s_end(gin, p1 as int, count as int) is None,
            },
        decreases count - k,
    {
        let ghost pre = txns@;
        let (v, pn) = match get_u64(input, p) {
            Some(v) => v,
            None => {
                proof {
                    assert(sdec_u64s_end(gin, p as int, count - k) is None);
                    assert(sdec_msg_end(gin, pos as int, d) is None);
                }
                return None;
            },
        };
        proof {
            assert(sdec_u64s_end(gin, p as int, count - k) == sdec_u64s_end(
                gin,
                pn as int,
                count - k - 1,
            ));
        }
        txns.push(v);
        proof {
            assert(txns@ =~= pre.push(v));
            assert(txns@.drop_last() =~= pre);
            assert(enc_u64s(txns@) == enc_u64s(pre) + crate::codec::enc_u64(v));
            crate::codec::lemma_u64_at_canonical(gin, p as int);
            crate::codec::lemma_subrange_split(gin, p1 as int, p as int, pn as int);
            assert(gin.subrange(p1 as int, pn as int) =~= enc_u64s(txns@));
        }
        p = pn;
        k += 1;
    }
    let m = Message::BenchmarkStats(txns);
    proof {
        crate::codec::lemma_subrange_split(gin, pos as int, p0 as int, p1 as int);
        crate::codec::lemma_subrange_split(gin, pos as int, p1 as int, p as int);
        assert(gin.subrange(pos as int, p as int) =~= spec_enc_message(m, d));
        assert(sdec_u64s_end(gin, p as int, 0) == Some(p as int));
        assert(sdec_msg_end(gin, pos as int, d) == Some(p as int));
    }
    Some((m, p))
}

#[verifier::rlimit(100)]
#[verifier::spinoff_prover]
fn decode_tag14(input: &[u8], pos: usize, p0: usize, depth: u64) -> (r: Option<(Message, usize)>)
    requires
        pos < input@.len(),
        p0 == pos + 1,
        input@[pos as int] == 14,
    ensures
        r matches Some((m, next)) ==> pos <= next <= input@.len() && spec_enc_ok(m, depth as nat)
            && input@.subrange(pos as int, next as int) == spec_enc_message(m, depth as nat),
        match r {
            Some((m, next)) => sdec_msg_end(input@, pos as int, depth as nat) == Some(next as int),
            None => sdec_msg_end(input@, pos as int, depth as nat) is None,
        },
{
    let ilen = input.len();
    let ghost gin = input@;
    let ghost d = depth as nat;
    proof {
        assert(gin.subrange(pos as int, pos + 1) =~= crate::codec::enc_u8(input@[pos as int]));
    }
    let (sender, p1) = match get_hash(input, p0) {
        Some(v) => v,
        None => {
            return None;
        },
    };
    let (count, p2) = match get_usize(input, p1) {
        Some(v) => v,
        None => {
            return None;
        },
    };
    let mut data: Vec<(crate::account::AccountStateChoice, crate::transaction::Transaction)> =
        Vec::new();
    let mut p: usize = p2;
    let mut k: usize = 0;
    let ghost model = |pr: (crate::account::AccountStateChoice, crate::transaction::Transaction)|
        (pr.0.account_state_id@, tx_model(pr.0.tx), tx_model(pr.1));
    proof {
        assert(gin.subrange(p2 as int, p2 as int) =~= Seq::<u8>::empty());
        assert(enc_batch_items(data@.map_values(model)) =~= Seq::<u8>::empty());
    }
    while k < count
        invariant
            0 <= k <= count,
            gin == input@,
            p2 <= p <= gin.len(),
            ilen == gin.len(),
            data@.len() == k,
            pos < gin.len(),
            gin[pos as int] == 14,
            p0 == pos + 1,
            p1 == p0 + 32,
            d == depth as nat,
            sdec_count(gin, p1 as int) == Some((count as int, p2 as int)),
            model == (|pr: (crate::account::AccountStateChoice, crate::transaction::Transaction)|
                (pr.0.account_state_id@, tx_model(pr.0.tx), tx_model(pr.1))),
            gin.subrange(p2 as int, p as int) == enc_batch_items(data@.map_values(model)),
            match sdec_batch_end(gin, p as int, count - k) {
                Some(e) => sdec_batch_end(gin, p2 as int, count as int) == Some(e),
                None => sdec_batch_end(gin, p2 as int, count as int) is None,
            },
        decreases count - k,
    {
        let ghost pre = data@.map_values(model);
        let (state_id, pn) = match get_hash(input, p) {
            Some(v) => v,
            None => {
                proof {
                    assert(sdec_batch_end(gin, p as int, count - k) is None);
                    assert(sdec_msg_end(gin, pos as int, d) is None);
                }
                return None;
            },
        };
        let (data_tx, pn2) = match get_tx(input, pn) {
            Some(v) => v,
            None => {
                proof {
                    assert(sdec_batch_end(gin, p as int, count - k) is None);
                    assert(sdec_msg_end(gin, pos as int, d) is None);
                }
                return None;
            },
        };
        let (tx, pn3) = match get_tx(input, pn2) {
            Some(v) => v,
            None => {
                proof {
                    assert(sdec_batch_end(gin, p as int, count - k) is None);
                    assert(sdec_msg_end(gin, pos as int, d) is None);
                }
                return None;
            },
        };
        proof {
            assert(sdec_batch_end(gin, p as int, count - k) == sdec_batch_end(
                gin,
                pn3 as int,
                count - k - 1,
            ));
        }
        let ghost item = (
            crate::account::AccountStateChoice { account_state_id: state_id, tx: data_tx },
            tx,
        );
        data.push(
            (
                crate::account::AccountStateChoice {
                    account_state_id: state_id,
                    tx: data_tx,
                },
                tx,
            ),
        );
        proof {
            crate::wire::lemma_sdec_tx_sound(gin, pn as int);
            crate::wire::lemma_sdec_tx_sound(gin, pn2 as int);
            let cur = data@.map_values(model);
            assert(cur =~= pre.push(model(item)));
            assert(cur.drop_last() =~= pre);
            assert(cur.last() == model(item));
            assert(enc_batch_items(cur) == enc_batch_items(pre) + state_id@ + enc_tx_model(
                tx_model(data_tx),
            ) + enc_tx_model(tx_model(tx)));
            crate::codec::lemma_subrange_split(gin, p2 as int, p as int, pn as int);
            crate::codec::lemma_subrange_split(gin, p2 as int, pn as int, pn2 as int);
            crate::codec::lemma_subrange_split(gin, p2 as int, pn2 as int, pn3 as int);
            assert(gin.subrange(p2 as int, pn3 as int) =~= enc_batch_items(cur));
        }
        p = pn3;
        k += 1;
    }
    proof {
        assert(sdec_batch_end(gin, p as int, 0) == Some(p as int));
        assert(sdec_batch_end(gin, p2 as int, count as int) == Some(p as int));
    }
    let (count2, p3) = match get_usize(input, p) {
        Some(v) => v,
        None => {
            proof {
                assert(sdec_msg_end(gin, pos as int, d) is None);
            }
            return None;
        },
    };
    let m = Message::BatchedConsensusRequest { sender, data, count: count2 };
    proof {
        crate::codec::lemma_subrange_split(gin, pos as int, p0 as int, p1 as int);
        crate::codec::lemma_subrange_split(gin, pos as int, p1 as int, p2 as int);
        crate::codec::lemma_subrange_split(gin, pos as int, p2 as int, p as int);
        crate::codec::lemma_subrange_split(gin, pos as int, p as int, p3 as int);
        assert(gin.subrange(pos as int, p3 as int) =~= spec_enc_message(m, d));
        assert(sdec_msg_end(gin, pos as int, d) == Some(p3 as int));
    }
    Some((m, p3))
}

#[verifier::rlimit(100)]
#[verifier::spinoff_prover]
fn decode_tag15(input: &[u8], pos: usize, p0: usize, depth: u64) -> (r: Option<(Message, usize)>)
    requires
        pos < input@.len(),
        p0 == pos + 1,
        input@[pos as int] == 15,
    ensures
        r matches Some((m, next)) ==> pos <= next <= input@.len() && spec_enc_ok(m, depth as nat)
            && input@.subrange(pos as int, next as int) == spec_enc_message(m, depth as nat),
        match r {
            Some((m, next)) => sdec_msg_end(input@, pos as int, depth as nat) == Some(next as int),
            None => sdec_msg_end(input@, pos as int, depth as nat) is None,
        },
{
    let ilen = input.len();
    let ghost gin = input@;
    let ghost d = depth as nat;
    proof {
        assert(gin.subrange(pos as int, pos + 1) =~= crate::codec::enc_u8(input@[pos as int]));
    }
    let (sender, p1) = match get_hash(input, p0) {
        Some(v) => v,
        None => {
            return None;
        },
    };
    let (count, p2) = match get_usize(input, p1) {
        Some(v) => v,
        None => {
            return None;
        },
    };
    let mut data: Vec<(crate::hash::Hash, bool)> = Vec::new();
    let mut p: usize = p2;
    let mut k: usize = 0;
    proof {
        assert(gin.subrange(p2 as int, p2 as int) =~= Seq::<u8>::empty());
        assert(enc_verdicts(data@.map_values(|pr: (crate::hash::Hash, bool)| (pr.0@, pr.1)))
            =~= Seq::<u8>::empty());
    }
    while k < count
        invariant
            0 <= k <= count,
            gin == input@,
            p2 <= p <= gin.len(),
            ilen == gin.len(),
            data@.len() == k,
            pos < gin.len(),
            gin[pos as int] == 15,
            p0 == pos + 1,
            p1 == p0 + 32,
            d == depth as nat,
            sdec_count(gin, p1 as int) == Some((count as int, p2 as int)),
            gin.subrange(p2 as int, p as int) == enc_verdicts(
                data@.map_values(|pr: (crate::hash::Hash, bool)| (pr.0@, pr.1)),
            ),
            match sdec_verdicts_end(gin, p as int, count - k) {
                Some(e) => sdec_verdicts_end(gin, p2 as int, count as int) == Some(e),
                None => sdec_verdicts_end(gin, p2 as int, count as int) is None,
            },
        decreases count - k,
    {
        let ghost pre = data@.map_values(|pr: (crate::hash::Hash, bool)| (pr.0@, pr.1));
        let (h, pn) = match get_hash(input, p) {
            Some(v) => v,
            None => {
                proof {
                    assert(sdec_verdicts_end(gin, p as int, count - k) is None);
                    assert(sdec_msg_end(gin, pos as int, d) is None);
                }
                return None;
            },
        };
        let (flag, pn2) = match get_u8(input, pn) {
            Some(v) => v,
            None => {
                proof {
                    assert(sdec_verdicts_end(gin, p as int, count - k) is None);
                    assert(sdec_msg_end(gin, pos as int, d) is None);
                }
                return None;
            },
        };
        if flag > 1 {
            proof {
                assert(gin[p + 32] > 1);
                assert(sdec_verdicts_end(gin, p as int, count - k) is None);
                assert(sdec_msg_end(gin, pos as int, d) is None);
            }
            return None;
        }
        proof {
            assert(gin[p + 32] <= 1);
            assert(sdec_verdicts_end(gin, p as int, count - k) == sdec_verdicts_end(
                gin,
                pn2 as int,
                count - k - 1,
            ));
        }
        data.push((h, flag == 1));
        proof {
            let cur = data@.map_values(|pr: (crate::hash::Hash, bool)| (pr.0@, pr.1));
            assert(cur =~= pre.push((h@, flag == 1)));
            assert(cur.drop_last() =~= pre);
            assert(cur.last() == (h@, flag == 1));
            assert(gin.subrange(pn as int, pn2 as int) =~= enc_bool(flag == 1));
            assert(enc_verdicts(cur) == enc_verdicts(pre) + h@ + enc_bool(flag == 1));
            crate::codec::lemma_subrange_split(gin, p2 as int, p as int, pn as int);
            crate::codec::lemma_subrange_split(gin, p2 as int, pn as int, pn2 as int);
            assert(gin.subrange(p2 as int, pn2 as int) =~= enc_verdicts(cur));
        }
        p = pn2;
        k += 1;
    }
    let m = Message::BatchedConsensusResponse { sender, data };
    proof {
        crate::codec::lemma_subrange_split(gin, pos as int, p0 as int, p1 as int);
        crate::codec::lemma_subrange_split(gin, pos as int, p1 as int, p2 as int);
        crate::codec::lemma_subrange_split(gin, pos as int, p2 as int, p as int);
        assert(gin.subrange(pos as int, p as int) =~= spec_enc_message(m, d));
        assert(sdec_verdicts_end(gin, p as int, 0) == Some(p as int));
        assert(sdec_msg_end(gin, pos as int, d) == Some(p as int));
    }
    Some((m, p))
}


/// The end position of a parsed address list, or nothing on malformed
/// bytes; the structural mirror of the reader below.
pub open spec fn sdec_netaddrs_end(s: Seq<u8>, pos: int, count: int) -> Option<int>
    decreases count,
{
    if count <= 0 {
        if 0 <= pos <= s.len() {
            Some(pos)
        } else {
            None
        }
    } else {
        match crate::wire::sdec_bytes(s, pos) {
            Some(b) => {
                if b.1 + 2 <= s.len() {
                    sdec_netaddrs_end(s, b.1 + 2, count - 1)
                } else {
                    None
                }
            },
            None => None,
        }
    }
}

/// The end position of a parsed counter list.
pub open spec fn sdec_u64s_end(s: Seq<u8>, pos: int, count: int) -> Option<int>
    decreases count,
{
    if count <= 0 {
        if 0 <= pos <= s.len() {
            Some(pos)
        } else {
            None
        }
    } else if 0 <= pos && pos + 8 <= s.len() {
        sdec_u64s_end(s, pos + 8, count - 1)
    } else {
        None
    }
}

/// The end position of a parsed verdict list; a flag byte above one is
/// malformed.
pub open spec fn sdec_verdicts_end(s: Seq<u8>, pos: int, count: int) -> Option<int>
    decreases count,
{
    if count <= 0 {
        if 0 <= pos <= s.len() {
            Some(pos)
        } else {
            None
        }
    } else if 0 <= pos && pos + 33 <= s.len() && s[pos + 32] <= 1 {
        sdec_verdicts_end(s, pos + 33, count - 1)
    } else {
        None
    }
}

/// The end position of a parsed advertised-route list; a repeated
/// destination is malformed.
pub open spec fn sdec_routes_end(s: Seq<u8>, pos: int, count: int, seen: Set<Seq<u8>>) -> Option<
    int,
>
    decreases count,
{
    if count <= 0 {
        if 0 <= pos <= s.len() {
            Some(pos)
        } else {
            None
        }
    } else if 0 <= pos && pos + 40 <= s.len() && !seen.contains(s.subrange(pos, pos + 32))
        && crate::codec::le_u64_at(s, pos + 32) <= usize::MAX {
        sdec_routes_end(s, pos + 40, count - 1, seen.insert(s.subrange(pos, pos + 32)))
    } else {
        None
    }
}

/// The end position of a parsed batched-query list.
pub open spec fn sdec_batch_end(s: Seq<u8>, pos: int, count: int) -> Option<int>
    decreases count,
{
    if count <= 0 {
        if 0 <= pos <= s.len() {
            Some(pos)
        } else {
            None
        }
    } else if 0 <= pos && pos + 32 <= s.len() {
        match crate::wire::sdec_tx(s, pos + 32) {
            Some(t1) => match crate::wire::sdec_tx(s, t1.1) {
                Some(t2) => sdec_batch_end(s, t2.1, count - 1),
                None => None,
            },
            None => None,
        }
    } else {
        None
    }
}

/// A parsed count: the sixty-four-bit prefix when it fits the machine's
/// word, used wherever the wire carries a count or step.
pub open spec fn sdec_count(s: Seq<u8>, pos: int) -> Option<(int, int)> {
    if 0 <= pos && pos + 8 <= s.len() && crate::codec::le_u64_at(s, pos) <= usize::MAX {
        Some((crate::codec::le_u64_at(s, pos) as int, pos + 8))
    } else {
        None
    }
}

/// The end position of a parsed agent payload: each item a target digest,
/// a step count, and a framed inner message that must parse to exactly its
/// frame.
pub open spec fn sdec_payload_end(s: Seq<u8>, pos: int, count: int, depth: nat) -> Option<int>
    decreases depth, count, 0int,
{
    if count <= 0 {
        if 0 <= pos <= s.len() {
            Some(pos)
        } else {
            None
        }
    } else if 0 <= pos && pos + 32 <= s.len() {
        match sdec_count(s, pos + 32) {
            Some(st) => match crate::wire::sdec_bytes(s, st.1) {
                Some(b) => {
                    if sdec_msg_end(b.0, 0, depth) == Some(b.0.len() as int) {
                        sdec_payload_end(s, b.1, count - 1, depth)
                    } else {
                        None
                    }
                },
                None => None,
            },
            None => None,
        }
    } else {
        None
    }
}

/// The end position of a parsed message, or nothing on malformed bytes:
/// the structural mirror of `decode_message`, tag by tag.
pub open spec fn sdec_msg_end(s: Seq<u8>, pos: int, depth: nat) -> Option<int>
    decreases depth, 0int, 1int,
{
    if !(0 <= pos < s.len()) {
        None
    } else {
        let tag = s[pos];
        let p0 = pos + 1;
        if tag == 0 || tag == 1 {
            match crate::wire::sdec_bytes(s, p0) {
                Some(b) => Some(b.1),
                None => None,
            }
        } else if tag == 2 {
            match crate::wire::sdec_bytes(s, p0) {
                Some(b1) => match crate::wire::sdec_bytes(s, b1.1) {
                    Some(b2) => Some(b2.1),
                    None => None,
                },
                None => None,
            }
        } else if tag == 3 {
            match crate::wire::sdec_bytes(s, p0) {
                Some(b1) => match crate::wire::sdec_bytes(s, b1.1) {
                    Some(b2) => match crate::wire::sdec_bytes(s, b2.1) {
                        Some(b3) => Some(b3.1),
                        None => None,
                    },
                    None => None,
                },
                None => None,
            }
        } else if tag == 4 {
            if p0 + 32 <= s.len() {
                Some(p0 + 32)
            } else {
                None
            }
        } else if tag == 5 {
            match sdec_count(s, p0) {
                Some(c) => sdec_netaddrs_end(s, c.1, c.0),
                None => None,
            }
        } else if tag == 6 {
            if depth == 0 {
                None
            } else {
                match sdec_count(s, p0) {
                    Some(c) => sdec_payload_end(s, c.1, c.0, (depth - 1) as nat),
                    None => None,
                }
            }
        } else if tag == 7 {
            match sdec_count(s, p0) {
                Some(c) => match sdec_routes_end(s, c.1, c.0, Set::empty()) {
                    Some(e) => {
                        if e + 32 <= s.len() {
                            Some(e + 32)
                        } else {
                            None
                        }
                    },
                    None => None,
                },
                None => None,
            }
        } else if tag == 8 {
            if p0 + 32 <= s.len() {
                match crate::wire::sdec_tx(s, p0 + 32) {
                    Some(t) => Some(t.1),
                    None => None,
                }
            } else {
                None
            }
        } else if tag == 9 {
            if p0 + 64 <= s.len() {
                match crate::wire::sdec_tx(s, p0 + 64) {
                    Some(t1) => match crate::wire::sdec_tx(s, t1.1) {
                        Some(t2) => match sdec_count(s, t2.1) {
                            Some(c) => Some(c.1),
                            None => None,
                        },
                        None => None,
                    },
                    None => None,
                }
            } else {
                None
            }
        } else if tag == 10 {
            if p0 + 65 <= s.len() && s[p0 + 64] <= 1 {
                Some(p0 + 65)
            } else {
                None
            }
        } else if tag == 11 {
            match sdec_count(s, p0) {
                Some(c) => {
                    if c.1 + 8 <= s.len() {
                        Some(c.1 + 8)
                    } else {
                        None
                    }
                },
                None => None,
            }
        } else if tag == 12 {
            Some(p0)
        } else if tag == 13 {
            match sdec_count(s, p0) {
                Some(c) => sdec_u64s_end(s, c.1, c.0),
                None => None,
            }
        } else if tag == 14 {
            if p0 + 32 <= s.len() {
                match sdec_count(s, p0 + 32) {
                    Some(c) => match sdec_batch_end(s, c.1, c.0) {
                        Some(e) => match sdec_count(s, e) {
                            Some(c2) => Some(c2.1),
                            None => None,
                        },
                        None => None,
                    },
                    None => None,
                }
            } else {
                None
            }
        } else if tag == 15 {
            if p0 + 32 <= s.len() {
                match sdec_count(s, p0 + 32) {
                    Some(c) => sdec_verdicts_end(s, c.1, c.0),
                    None => None,
                }
            } else {
                None
            }
        } else {
            None
        }
    }
}

} // verus!
