//! Message handling: the per-destination outbox, TTL-bounded agent
//! forwarding, and the dispatch of wire messages to events.

use vstd::prelude::*;
use crate::events::Event;
use crate::idmap::IdMap;
use crate::message::Message;
use crate::netaddr::NetAddr;
use crate::routing::RoutingTable;
use crate::signature::{bls_verifies, is_bls_pk, is_bls_sig};

verus! {

/// How many hops an agent-forwarded message may take.
pub const TTL: usize = 5;

/// The event a wire message dispatches to, if any. A signed message whose
/// signature does not verify dispatches nothing; connection-level and
/// envelope messages are not dispatched here.
pub open spec fn spec_message_event(m: Message) -> Option<Event> {
    match m {
        Message::UserMessage(content) => Some(Event::NewMessage(content)),
        Message::SignedMessage { message, signature, sender } => {
            if is_bls_sig(signature@) && is_bls_pk(sender.public_key@) && bls_verifies(
                sender.public_key@,
                message@,
                signature@,
            ) {
                Some(Event::NewMessage(message))
            } else {
                None
            }
        },
        Message::ConsensusRequest { data } => Some(Event::ConsensusRequest(data)),
        Message::DagConsensusRequest { sender, data, tx, count } => Some(
            Event::DagConsensusRequest { sender, data, tx, count },
        ),
        Message::DagConsensusResponse { sender, hash, strongly_preferred } => Some(
            Event::DagConsensusResponse { hash, sender, accepted: strongly_preferred },
        ),
        Message::InitBenchmarking(count, interval) => Some(
            Event::InitBenchmarkingSignal(count, interval),
        ),
        Message::CompleteRound => Some(Event::CompleteRound),
        Message::BenchmarkStats(txns) => Some(Event::BenchmarkStats(txns)),
        Message::BatchedConsensusRequest { sender, data, count } => Some(
            Event::BatchedConsensusRequest { sender, data, count },
        ),
        Message::BatchedConsensusResponse { sender, data } => Some(
            Event::BatchedConsensusResponse { sender, data },
        ),
        _ => None,
    }
}

/// Dispatches one wire message to its event: exactly `spec_message_event`,
/// with the signature of a signed message checked before its bytes are
/// surfaced.
pub fn message_to_event(msg: Message) -> (r: Option<Event>)
    ensures
        r == spec_message_event(msg),
{
    match msg {
        Message::UserMessage(content) => Some(Event::NewMessage(content)),
        Message::SignedMessage { message, signature, sender } => {
            let sig = crate::message::signature_from_raw(signature);
            if sig.verify(&sender.public_key, message.as_slice()) {
                Some(Event::NewMessage(message))
            } else {
                None
            }
        },
        Message::ConsensusRequest { data } => Some(Event::ConsensusRequest(data)),
        Message::DagConsensusRequest { sender, data, tx, count } => Some(
            Event::DagConsensusRequest { sender, data, tx, count },
        ),
        Message::DagConsensusResponse { sender, hash, strongly_preferred } => Some(
            Event::DagConsensusResponse { hash, sender, accepted: strongly_preferred },
        ),
        Message::InitBenchmarking(count, interval) => Some(
            Event::InitBenchmarkingSignal(count, interval),
        ),
        Message::CompleteRound => Some(Event::CompleteRound),
        Message::BenchmarkStats(txns) => Some(Event::BenchmarkStats(txns)),
        Message::BatchedConsensusRequest { sender, data, count } => Some(
            Event::BatchedConsensusRequest { sender, data, count },
        ),
        Message::BatchedConsensusResponse { sender, data } => Some(
            Event::BatchedConsensusResponse { sender, data },
        ),
        _ => None,
    }
}

/// What routing one agent payload yields: the messages delivered to this
/// node, the forwarded items with their next hop, and how many items were
/// dropped. Items are handled from the last to the first; a forwarded item
/// leaves with its step count one less, and an item with no steps left, or
/// whose target has no route, is dropped.
pub open spec fn spec_route(
    our: Seq<u8>,
    payload: Seq<(crate::hash::Hash, Message, usize)>,
    rt: Map<Seq<u8>, (Seq<u8>, int)>,
) -> (Seq<Message>, Seq<(Seq<u8>, (crate::hash::Hash, Message, usize))>, int)
    decreases payload.len(),
{
    if payload.len() == 0 {
        (Seq::empty(), Seq::empty(), 0)
    } else {
        let item = payload.last();
        let tail = spec_route(our, payload.drop_last(), rt);
        if item.0@ == our {
            (seq![item.1] + tail.0, tail.1, tail.2)
        } else if item.2 >= 1 && rt.contains_key(item.0@) {
            (tail.0, seq![(rt[item.0@].0, (item.0, item.1, (item.2 - 1) as usize))] + tail.1, tail.2)
        } else {
            (tail.0, tail.1, 1 + tail.2)
        }
    }
}

/// Every forwarded item left some payload item with one step fewer: a copy
/// is never forwarded without spending a step.
pub proof fn lemma_route_spends_steps(
    our: Seq<u8>,
    payload: Seq<(crate::hash::Hash, Message, usize)>,
    rt: Map<Seq<u8>, (Seq<u8>, int)>,
)
    ensures
        forall|i: int|
            0 <= i < spec_route(our, payload, rt).1.len() ==> exists|j: int|
                0 <= j < payload.len() && payload[j].2 >= 1 && (#[trigger] spec_route(
                    our,
                    payload,
                    rt,
                ).1[i]).1.2 == payload[j].2 - 1,
    decreases payload.len(),
{
    if payload.len() == 0 {
        assert(spec_route(our, payload, rt).1.len() == 0);
    } else {
        lemma_route_spends_steps(our, payload.drop_last(), rt);
        let item = payload.last();
        let tail = spec_route(our, payload.drop_last(), rt);
        assert forall|i: int|
            0 <= i < spec_route(our, payload, rt).1.len() implies exists|j: int|
            0 <= j < payload.len() && payload[j].2 >= 1 && (#[trigger] spec_route(
                our,
                payload,
                rt,
            ).1[i]).1.2 == payload[j].2 - 1 by {
            if item.0@ != our && item.2 >= 1 && rt.contains_key(item.0@) {
                if i == 0 {
                    assert(payload[payload.len() - 1].2 >= 1);
                    assert(spec_route(our, payload, rt).1[0].1.2 == payload[payload.len() - 1].2
                        - 1);
                } else {
                    assert(spec_route(our, payload, rt).1[i] == spec_route(
                        our,
                        payload.drop_last(),
                        rt,
                    ).1[i - 1]);
                    let jj = choose|jj: int|
                        0 <= jj < payload.drop_last().len() && payload.drop_last()[jj].2 >= 1 && (
                        #[trigger] spec_route(our, payload.drop_last(), rt).1[i - 1]).1.2
                            == payload.drop_last()[jj].2 - 1;
                    assert(payload[jj].2 >= 1 && spec_route(our, payload, rt).1[i].1.2
                        == payload[jj].2 - 1);
                }
            } else {
                assert(spec_route(our, payload, rt).1[i] == spec_route(
                    our,
                    payload.drop_last(),
                    rt,
                ).1[i]);
                let jj = choose|jj: int|
                    0 <= jj < payload.drop_last().len() && payload.drop_last()[jj].2 >= 1 && (
                    #[trigger] spec_route(our, payload.drop_last(), rt).1[i]).1.2
                        == payload.drop_last()[jj].2 - 1;
                assert(payload[jj].2 >= 1 && spec_route(our, payload, rt).1[i].1.2 == payload[jj].2
                    - 1);
            }
        }
    }
}

/// Steps strictly fall along a forwarding chain, and a hop needs a step
/// left, so a message entering with `steps[0]` steps is forwarded at most
/// `steps[0]` times: with the stock TTL of five, no message takes more than
/// five hops.
pub proof fn lemma_ttl_bound(steps: Seq<int>)
    requires
        steps.len() >= 1,
        steps[0] >= 0,
        forall|i: int| 0 < i < steps.len() ==> #[trigger] steps[i] == steps[i - 1] - 1,
        forall|i: int| 0 < i < steps.len() ==> #[trigger] steps[i - 1] >= 1,
    ensures
        steps.len() <= steps[0] + 1,
    decreases steps.len(),
{
    if steps.len() > 1 {
        let tail = steps.subrange(1, steps.len() as int);
        assert forall|i: int| 0 < i < tail.len() implies #[trigger] tail[i] == tail[i - 1]
            - 1 by {
            assert(steps[i + 1] == steps[i + 1 - 1] - 1);
            assert(tail[i] == steps[i + 1] && tail[i - 1] == steps[i]);
        }
        assert forall|i: int| 0 < i < tail.len() implies #[trigger] tail[i - 1] >= 1 by {
            assert(steps[i + 1 - 1] >= 1);
            assert(tail[i - 1] == steps[i]);
        }
        lemma_ttl_bound(tail);
        assert(steps[1] == steps[1 - 1] - 1);
        assert(tail[0] == steps[1]);
        assert(tail.len() <= tail[0] + 1);
        assert(steps.len() == tail.len() + 1);
        assert(steps.len() <= steps[0] + 1);
    }
}

/// Whether a sent item is accounted for: it was already queued for that
/// next hop, or it is one of this round's forwards for that next hop.
pub open spec fn send_item_accounted(
    hop: Seq<u8>,
    item: (crate::hash::Hash, Message, usize),
    old_outbox: Map<Seq<u8>, Vec<(crate::hash::Hash, Message, usize)>>,
    forwards: Seq<(Seq<u8>, (crate::hash::Hash, Message, usize))>,
) -> bool {
    (old_outbox.contains_key(hop) && old_outbox[hop]@.contains(item)) || forwards.contains(
        (hop, item),
    )
}

/// Whether some send in the batch carries the item to the given next hop.
pub open spec fn forward_delivered(
    sends: Seq<(crate::hash::Hash, Vec<(crate::hash::Hash, Message, usize)>)>,
    hop: Seq<u8>,
    item: (crate::hash::Hash, Message, usize),
) -> bool {
    exists|i: int, j: int|
        0 <= i < sends.len() && 0 <= j < sends[i].1@.len() && (#[trigger] sends[i].1@[j]) == item
            && sends[i].0@ == hop
}

/// The per-destination outbox and the parking place for unsent datagrams.
pub struct Messaging {
    outbox: IdMap<Vec<(crate::hash::Hash, Message, usize)>>,
    pending_messages: Vec<(Vec<u8>, u64, NetAddr)>,
}

impl Messaging {
    /// The queued items for each next hop.
    pub closed spec fn outbox_map(self) -> Map<Seq<u8>, Vec<(crate::hash::Hash, Message, usize)>> {
        self.outbox@
    }

    /// The parked datagrams.
    pub closed spec fn pending(self) -> Seq<(Vec<u8>, u64, NetAddr)> {
        self.pending_messages@
    }

    /// An empty outbox, nothing parked.
    pub fn new() -> (r: Self)
        ensures
            r.outbox_map() == Map::<Seq<u8>, Vec<(crate::hash::Hash, Message, usize)>>::empty(),
            r.pending() == Seq::<(Vec<u8>, u64, NetAddr)>::empty(),
    {
        Messaging { outbox: IdMap::new(), pending_messages: Vec::new() }
    }

    /// Parks a datagram the transport could not send, for the next flush.
    pub fn handle_unsent_message(&mut self, msg: Vec<u8>, token: u64, addr: NetAddr) -> (r: Result<
        (),
        crate::error::P2pError,
    >)
        ensures
            r is Ok,
            final(self).pending() == old(self).pending().push((msg, token, addr)),
            final(self).outbox_map() == old(self).outbox_map(),
    {
        self.pending_messages.push((msg, token, addr));
        Ok(())
    }

    /// Hands back everything parked, emptying the park; the caller flushes
    /// them to the transport.
    pub fn take_pending_messages(&mut self) -> (r: Vec<(Vec<u8>, u64, NetAddr)>)
        ensures
            r@ == old(self).pending(),
            final(self).pending() == Seq::<(Vec<u8>, u64, NetAddr)>::empty(),
            final(self).outbox_map() == old(self).outbox_map(),
    {
        let mut pending: Vec<(Vec<u8>, u64, NetAddr)> = Vec::new();
        core::mem::swap(&mut pending, &mut self.pending_messages);
        pending
    }

    /// Routes an agent payload: messages for this node are handed back for
    /// dispatch, the rest are queued one hop closer and the whole outbox is
    /// drained into per-next-hop sends for the caller to transmit.
    pub fn handle_agent_message(
        &mut self,
        our_hash: &crate::hash::Hash,
        payload: Vec<(crate::hash::Hash, Message, usize)>,
        routing_table: &RoutingTable,
    ) -> (r: (Vec<Message>, Vec<(crate::hash::Hash, Vec<(crate::hash::Hash, Message, usize)>)>))
        ensures
            r.0@ == spec_route(our_hash@, payload@, routing_table.entries_map()).0,
            final(self).outbox_map() == Map::<
                Seq<u8>,
                Vec<(crate::hash::Hash, Message, usize)>,
            >::empty(),
            final(self).pending() == old(self).pending(),
            forall|i: int, j: int|
                0 <= i < r.1@.len() && 0 <= j < r.1@[i].1@.len() ==> send_item_accounted(
                    r.1@[i].0@,
                    #[trigger] r.1@[i].1@[j],
                    old(self).outbox_map(),
                    spec_route(our_hash@, payload@, routing_table.entries_map()).1,
                ),
            forall|k: int|
                0 <= k < spec_route(our_hash@, payload@, routing_table.entries_map()).1.len()
                    ==> forward_delivered(
                    r.1@,
                    (#[trigger] spec_route(our_hash@, payload@, routing_table.entries_map()).1[k]).0,
                    spec_route(our_hash@, payload@, routing_table.entries_map()).1[k].1,
                ),
    {
        let ghost old_outbox = self.outbox_map();
        let ghost sf = spec_route(our_hash@, payload@, routing_table.entries_map());
        let (deliveries, forwards) = route_agent_payload(our_hash, payload, routing_table);
        let ghost f0 = forwards@;
        let mut forwards = forwards;
        while forwards.len() > 0
            invariant
                forwards@.len() <= f0.len(),
                forwards@ == f0.take(forwards@.len() as int),
                f0.map_values(|f: ForwardEntry| (f.next_hop@, f.item)) == sf.1,
                self.pending() == old(self).pending(),
                forall|h: Seq<u8>, j: int|
                    #![trigger self.outbox_map()[h]@[j]]
                    self.outbox_map().contains_key(h) && 0 <= j < self.outbox_map()[h]@.len()
                        ==> send_item_accounted(h, self.outbox_map()[h]@[j], old_outbox, sf.1),
                forall|k: int|
                    forwards@.len() <= k < f0.len() ==> self.outbox_map().contains_key(
                        (#[trigger] f0[k]).next_hop@,
                    ) && self.outbox_map()[f0[k].next_hop@]@.contains(f0[k].item),
                forall|h: Seq<u8>|
                    old_outbox.contains_key(h) ==> #[trigger] self.outbox_map().contains_key(h),
            decreases forwards@.len(),
        {
            let entry = forwards.pop().unwrap();
            proof {
                let flen = forwards@.len() as int;
                assert(f0.take(flen + 1).drop_last() =~= f0.take(flen));
                assert(forwards@ =~= f0.take(flen));
                assert(f0[flen] == entry);
                assert(sf.1[flen] == (entry.next_hop@, entry.item));
            }
            let ghost pre = self.outbox_map();
            self.push_item(entry.next_hop, entry.item);
            proof {
                let hop = entry.next_hop@;
                let newq = self.outbox_map()[hop]@;
                assert(newq.last() == entry.item);
                assert(sf.1.contains((hop, entry.item))) by {
                    assert(sf.1[forwards@.len() as int] == (hop, entry.item));
                }
                assert forall|h: Seq<u8>, j: int|
                    #![trigger self.outbox_map()[h]@[j]]
                    self.outbox_map().contains_key(h) && 0 <= j < self.outbox_map()[h]@.len()
                        implies send_item_accounted(
                    h,
                    self.outbox_map()[h]@[j],
                    old_outbox,
                    sf.1,
                ) by {
                    if h == hop {
                        if j < newq.len() - 1 {
                            if pre.contains_key(h) {
                                assert(self.outbox_map()[h]@[j] == pre[h]@[j]);
                            }
                        }
                    } else {
                        assert(self.outbox_map().contains_key(h));
                        assert(self.outbox_map()[h] == pre[h]);
                    }
                }
                assert forall|k: int|
                    forwards@.len() <= k < f0.len() implies self.outbox_map().contains_key(
                    (#[trigger] f0[k]).next_hop@,
                ) && self.outbox_map()[f0[k].next_hop@]@.contains(f0[k].item) by {
                    if k > forwards@.len() {
                        let h = f0[k].next_hop@;
                        if h == hop {
                            let jj = choose|jj: int|
                                0 <= jj < pre[h]@.len() && pre[h]@[jj] == f0[k].item;
                            assert(self.outbox_map()[h]@[jj] == f0[k].item);
                        } else {
                            assert(self.outbox_map().contains_key(h));
                            assert(self.outbox_map()[h] == pre[h]);
                        }
                    } else {
                        assert(self.outbox_map()[hop]@[newq.len() - 1] == entry.item);
                    }
                }
            }
        }
        proof {
            assert(forwards@ =~= Seq::<ForwardEntry>::empty());
        }
        self.outbox.key_seq_facts();
        let ghost drained = self.outbox_map();
        let ghost drained_pairs = self.outbox.entry_pairs();
        let ghost drained_keys = self.outbox.key_seq();
        let entries = self.outbox.drain_entries();
        proof {
            assert(final(self).outbox_map() =~= Map::<
                Seq<u8>,
                Vec<(crate::hash::Hash, Message, usize)>,
            >::empty());
            assert forall|i: int, j: int|
                0 <= i < entries@.len() && 0 <= j < entries@[i].1@.len() implies
                send_item_accounted(
                entries@[i].0@,
                #[trigger] entries@[i].1@[j],
                old_outbox,
                sf.1,
            ) by {
                assert((entries@[i].0@, entries@[i].1) == drained_pairs[i]);
                assert(drained_pairs[i].0 == drained_keys[i]);
                assert(drained.contains_key(drained_keys[i]));
                assert(drained[drained_keys[i]] == drained_pairs[i].1);
                assert(drained.contains_key(entries@[i].0@));
                assert(drained[entries@[i].0@] == entries@[i].1);
                assert(drained[entries@[i].0@]@[j] == entries@[i].1@[j]);
            }
            assert forall|k: int|
                0 <= k < sf.1.len() implies forward_delivered(
                entries@,
                (#[trigger] sf.1[k]).0,
                sf.1[k].1,
            ) by {
                assert(f0.map_values(|f: ForwardEntry| (f.next_hop@, f.item))[k] == sf.1[k]);
                let hop = f0[k].next_hop@;
                assert(drained.contains_key(hop) && drained[hop]@.contains(f0[k].item));
                let i = choose|i: int| 0 <= i < drained_keys.len() && drained_keys[i] == hop;
                assert((entries@[i].0@, entries@[i].1) == drained_pairs[i]);
                assert(drained_pairs[i].0 == drained_keys[i]);
                assert(drained[drained_keys[i]] == drained_pairs[i].1);
                let j = choose|j: int|
                    0 <= j < drained[hop]@.len() && drained[hop]@[j] == f0[k].item;
                assert(entries@[i].1@[j] == f0[k].item && entries@[i].0@ == hop);
                assert(forward_delivered(entries@, hop, f0[k].item));
            }
            assert forall|k: int|
                0 <= k < spec_route(our_hash@, payload@, routing_table.entries_map()).1.len()
                implies forward_delivered(
                entries@,
                (#[trigger] spec_route(our_hash@, payload@, routing_table.entries_map()).1[k]).0,
                spec_route(our_hash@, payload@, routing_table.entries_map()).1[k].1,
            ) by {
                assert(spec_route(our_hash@, payload@, routing_table.entries_map()).1[k]
                    == sf.1[k]);
                assert(forward_delivered(entries@, sf.1[k].0, sf.1[k].1));
            }
        }
        (deliveries, entries)
    }

    fn push_item(&mut self, next_hop: crate::hash::Hash, item: (crate::hash::Hash, Message, usize))
        ensures
            final(self).pending() == old(self).pending(),
            final(self).outbox_map().contains_key(next_hop@),
            final(self).outbox_map()[next_hop@]@ == (if old(self).outbox_map().contains_key(
                next_hop@,
            ) {
                old(self).outbox_map()[next_hop@]@
            } else {
                Seq::<(crate::hash::Hash, Message, usize)>::empty()
            }).push(item),
            forall|h: Seq<u8>|
                h != next_hop@ ==> ((#[trigger] final(self).outbox_map().contains_key(h)) == old(self).outbox_map().contains_key(h) && (old(self).outbox_map().contains_key(h)
                    ==> final(self).outbox_map()[h] == old(self).outbox_map()[h])),
    {
        let mut items = match self.outbox.take(&next_hop) {
            Some(v) => v,
            None => Vec::new(),
        };
        items.push(item);
        self.outbox.insert(next_hop, items);
    }

    /// Queues user bytes for the destination, TTL hops allowed, behind the
    /// destination's next hop.
    pub fn send_message(&mut self, dst_peer: &crate::hash::Hash, msg: &[u8], routing_table:
        &RoutingTable)
        requires
            routing_table.entries_map().contains_key(dst_peer@),
        ensures
            final(self).pending() == old(self).pending(),
            final(self).outbox_map().contains_key(
                routing_table.entries_map()[dst_peer@].0,
            ),
            final(self).outbox_map()[routing_table.entries_map()[dst_peer@].0]@.drop_last() == (
            if old(self).outbox_map().contains_key(routing_table.entries_map()[dst_peer@].0) {
                old(self).outbox_map()[routing_table.entries_map()[dst_peer@].0]@
            } else {
                Seq::<(crate::hash::Hash, Message, usize)>::empty()
            }),
            final(self).outbox_map()[routing_table.entries_map()[dst_peer@].0]@.last().0@
                == dst_peer@,
            final(self).outbox_map()[routing_table.entries_map()[dst_peer@].0]@.last().2
                == TTL as usize,
            (final(self).outbox_map()[routing_table.entries_map()[dst_peer@].0]@.last().1
                matches Message::UserMessage(c) && c@ == msg@),
            forall|h: Seq<u8>|
                h != routing_table.entries_map()[dst_peer@].0 ==> ((
                #[trigger] final(self).outbox_map().contains_key(h)) == old(self).outbox_map().contains_key(h) && (old(self).outbox_map().contains_key(h)
                    ==> final(self).outbox_map()[h] == old(self).outbox_map()[h])),
    {
        let info = match routing_table.get_routing_info(dst_peer) {
            Some(e) => e,
            None => {
                proof {
                    assert(false);
                }
                return ;
            },
        };
        let next_hop = info.0;
        let content = crate::codec::copy_bytes(msg);
        self.push_item(next_hop, (*dst_peer, Message::UserMessage(content), TTL));
        proof {
            assert(final(self).outbox_map().contains_key(
                routing_table.entries_map()[dst_peer@].0,
            ));
        }
    }

    /// Queues a message for the destination and hands back the send for its
    /// next hop: everything queued there, this message last, TTL hops
    /// allowed; the entry leaves the outbox.
    pub fn push_to_outbox(
        &mut self,
        dst_peer: crate::hash::Hash,
        message: Message,
        routing_table: &RoutingTable,
    ) -> (r: (crate::hash::Hash, Vec<(crate::hash::Hash, Message, usize)>))
        requires
            routing_table.entries_map().contains_key(dst_peer@),
        ensures
            r.0@ == routing_table.entries_map()[dst_peer@].0,
            r.1@.len() >= 1,
            r.1@.last() == (dst_peer, message, TTL as usize),
            r.1@.drop_last() == (if old(self).outbox_map().contains_key(r.0@) {
                old(self).outbox_map()[r.0@]@
            } else {
                Seq::<(crate::hash::Hash, Message, usize)>::empty()
            }),
            !final(self).outbox_map().contains_key(r.0@),
            forall|h: Seq<u8>|
                h != r.0@ ==> ((#[trigger] final(self).outbox_map().contains_key(h)) == old(self).outbox_map().contains_key(h) && (old(self).outbox_map().contains_key(h)
                    ==> final(self).outbox_map()[h] == old(self).outbox_map()[h])),
            final(self).pending() == old(self).pending(),
    {
        let next_hop = match routing_table.get_routing_info(&dst_peer) {
            Some(e) => e.0,
            None => {
                proof {
                    assert(false);
                }
                crate::hash::Hash::zero()
            },
        };
        let mut items = match self.outbox.take(&next_hop) {
            Some(v) => v,
            None => Vec::new(),
        };
        items.push((dst_peer, message, TTL));
        proof {
            assert(items@.last() == (dst_peer, message, TTL as usize));
        }
        (next_hop, items)
    }
}

/// A cloneable forward entry.
pub struct ForwardEntry {
    pub next_hop: crate::hash::Hash,
    pub item: (crate::hash::Hash, Message, usize),
}

/// Routes the payload against the routing table without touching any
/// state: exactly `spec_route`, with the forwarded items paired with their
/// next hop.
pub fn route_agent_payload(
    our_hash: &crate::hash::Hash,
    payload: Vec<(crate::hash::Hash, Message, usize)>,
    routing_table: &RoutingTable,
) -> (r: (Vec<Message>, Vec<ForwardEntry>))
    ensures
        r.0@ == spec_route(our_hash@, payload@, routing_table.entries_map()).0,
        r.1@.map_values(|f: ForwardEntry| (f.next_hop@, f.item)) == spec_route(
            our_hash@,
            payload@,
            routing_table.entries_map(),
        ).1,
{
    let ghost full = payload@;
    let ghost rt = routing_table.entries_map();
    let mut payload = payload;
    let mut deliveries: Vec<Message> = Vec::new();
    let mut forwards: Vec<ForwardEntry> = Vec::new();
    while payload.len() > 0
        invariant
            payload@ == full.take(payload@.len() as int),
            payload@.len() <= full.len(),
            rt == routing_table.entries_map(),
            spec_route(our_hash@, full, rt).0 == deliveries@ + spec_route(
                our_hash@,
                payload@,
                rt,
            ).0,
            spec_route(our_hash@, full, rt).1 == forwards@.map_values(
                |f: ForwardEntry| (f.next_hop@, f.item),
            ) + spec_route(our_hash@, payload@, rt).1,
        decreases payload@.len(),
    {
        let item = payload.pop().unwrap();
        proof {
            let plen = payload@.len() as int;
            assert(full.take(plen + 1).drop_last() =~= full.take(plen));
            assert(payload@ =~= full.take(plen));
        }
        let (target, message, step) = item;
        if target == *our_hash {
            deliveries.push(message);
            proof {
                assert(spec_route(our_hash@, full, rt).0 =~= deliveries@ + spec_route(
                    our_hash@,
                    payload@,
                    rt,
                ).0);
            }
        } else {
            if step >= 1 {
                match routing_table.get_routing_info(&target) {
                    Some(info) => {
                        let next_hop = info.0;
                        forwards.push(
                            ForwardEntry { next_hop, item: (target, message, step - 1) },
                        );
                        proof {
                            assert(spec_route(our_hash@, full, rt).1 =~= forwards@.map_values(
                                |f: ForwardEntry| (f.next_hop@, f.item),
                            ) + spec_route(our_hash@, payload@, rt).1);
                        }
                    },
                    None => {},
                }
            }
        }
    }
    proof {
        assert(payload@ =~= Seq::<(crate::hash::Hash, Message, usize)>::empty());
        assert(spec_route(our_hash@, payload@, rt).0 =~= Seq::<Message>::empty());
        assert(spec_route(our_hash@, payload@, rt).1 =~= Seq::<
            (Seq<u8>, (crate::hash::Hash, Message, usize)),
        >::empty());
        assert(spec_route(our_hash@, full, rt).0 =~= deliveries@);
        assert(spec_route(our_hash@, full, rt).1 =~= forwards@.map_values(
            |f: ForwardEntry| (f.next_hop@, f.item),
        ));
    }
    (deliveries, forwards)
}

} // verus!
