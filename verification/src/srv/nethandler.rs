//! The clients that the server knows, and what arrives from them.
use vstd::prelude::*;
use vstd::std_specs::hash::spec_hash_map_iter;
use vstd::std_specs::iter::IteratorSpec;
use std::collections::HashMap;
use crate::packethandler::PacketHandler;
use crate::packets::{ClientId, ClientIdMAX, Packet, PacketWrite};
use crate::srv::netclient::NetClient;

verus! {

broadcast use vstd::std_specs::hash::group_hash_axioms;

#[verifier::external_type_specification]
#[verifier::external_body]
pub struct ExIoError(std::io::Error);

/// Why the server could not start listening.
#[derive(Debug)]
pub enum Error {
    AlreadyListening,
    SockErr(std::io::Error),
}

/// `id` is the first identifier at or above `start` and below `ClientIdMAX`
/// that `taken` lacks, or, when all of those are taken, the first below
/// `start` that it lacks.
pub open spec fn first_free_id(taken: Set<ClientId>, start: ClientId, id: ClientId) -> bool {
    &&& id < ClientIdMAX
    &&& !taken.contains(id)
    &&& if id >= start {
        forall|k: ClientId| start <= k < id ==> taken.contains(k)
    } else {
        &&& forall|k: ClientId| start <= k < ClientIdMAX ==> taken.contains(k)
        &&& forall|k: ClientId| k < id ==> taken.contains(k)
    }
}

/// Every identifier below `ClientIdMAX` is taken.
pub open spec fn all_ids_taken(taken: Set<ClientId>) -> bool {
    forall|k: ClientId| k < ClientIdMAX ==> taken.contains(k)
}

/// Look for any id that has not been given to a client. Optionally, a starting
/// id can be provided, where the caller expects room to be after.
/// Starts at 0 otherwise.
///
/// The search runs upwards from `start` to just below `ClientIdMAX`, then
/// from 0 up to `start`.
pub fn search_free_id<T>(map: &HashMap<ClientId, T>, start: ClientId) -> (r: Option<ClientId>)
    ensures
        match r {
            Some(id) => first_free_id(map@.dom(), start, id),
            None => all_ids_taken(map@.dom()),
        },
{
    // Search upwards, which is more probable to have room.
    let mut key: ClientId = start;
    while key < ClientIdMAX
        invariant
            start <= key <= ClientIdMAX,
            forall|k: ClientId| start <= k < key ==> map@.dom().contains(k),
        decreases ClientIdMAX - key,
    {
        if !map.contains_key(&key) {
            return Some(key);
        }
        key = key + 1;
    }
    // Search low, since some old keys might be free again.
    let mut key: ClientId = 0;
    while key < start
        invariant
            key <= start,
            forall|k: ClientId| start <= k < ClientIdMAX ==> map@.dom().contains(k),
            forall|k: ClientId| k < key ==> map@.dom().contains(k),
        decreases start - key,
    {
        if !map.contains_key(&key) {
            return Some(key);
        }
        key = key + 1;
    }
    // No free key could be found.
    None
}

/// The clients that sent a `Disconnect` packet among `packets`.
pub open spec fn disconnected_clients(packets: Seq<(ClientId, Packet)>) -> Set<ClientId> {
    Set::new(|c: ClientId| exists|i: int| 0 <= i < packets.len() && #[trigger] packets[i].0 == c
        && packets[i].1 is Disconnect)
}

/// The clients of the server, by identifier.
pub struct NetHandler<R> {
    clients: HashMap<ClientId, NetClient<R>>,
}

impl<R> View for NetHandler<R> {
    type V = Map<ClientId, NetClient<R>>;

    closed spec fn view(&self) -> Map<ClientId, NetClient<R>> {
        self.clients@
    }
}

impl<R> NetHandler<R> {
    /// A server that knows no client yet.
    pub fn new() -> (h: NetHandler<R>)
        ensures
            h@ == Map::<ClientId, NetClient<R>>::empty(),
    {
        NetHandler { clients: HashMap::new() }
    }

    /// The identifier for the next client to connect, after `last_id` was
    /// given out last: the first free one above it, or else the first free
    /// one below it; `None` when every identifier is taken.
    pub fn next_client_id(&self, last_id: ClientId) -> (r: Option<ClientId>)
        requires
            last_id < ClientIdMAX,
        ensures
            match r {
                Some(id) => first_free_id(self@.dom(), (last_id + 1) as ClientId, id),
                None => all_ids_taken(self@.dom()),
            },
    {
        search_free_id(&self.clients, last_id + 1)
    }

    /// Registers a client under its identifier, in place of any client
    /// known under it before.
    pub fn add_client(&mut self, client: NetClient<R>)
        ensures
            final(self)@ == old(self)@.insert(client.spec_id(), client),
    {
        let id = client.id();
        self.clients.insert(id, client);
    }

    /// Hands the packets that arrived to `handler`, then forgets the
    /// clients that sent a `Disconnect` packet among them.
    pub fn handle_packets<H: PacketHandler>(&mut self, handler: &mut H, packets: Vec<(ClientId, Packet)>)
        ensures
            *final(handler) == old(handler).spec_after(packets@),
            final(self)@ == old(self)@.remove_keys(disconnected_clients(packets@)),
    {
        handler.handle(&packets);
        // Remove clients where the other end has hung up.
        let mut n: usize = 0;
        while n < packets.len()
            invariant
                n <= packets@.len(),
                self@ == old(self)@.remove_keys(disconnected_clients(packets@.take(n as int))),
            decreases packets@.len() - n,
        {
            let ghost before = self@;
            let c = packets[n].0;
            if let Packet::Disconnect = packets[n].1 {
                self.clients.remove(&c);
            }
            proof {
                let d_old = disconnected_clients(packets@.take(n as int));
                let d_new = disconnected_clients(packets@.take(n + 1));
                assert(packets@.take(n + 1)[n as int] == packets@[n as int]);
                assert forall|x: ClientId| d_new.contains(x) == (d_old.contains(x) || (x == c
                    && packets@[n as int].1 is Disconnect)) by {
                    if d_old.contains(x) {
                        let i = choose|i: int| 0 <= i < n && #[trigger] packets@.take(n as int)[i].0 == x
                            && packets@.take(n as int)[i].1 is Disconnect;
                        assert(packets@.take(n + 1)[i] == packets@.take(n as int)[i]);
                    }
                    if d_new.contains(x) {
                        let i = choose|i: int| 0 <= i < n + 1 && #[trigger] packets@.take(n + 1)[i].0 == x
                            && packets@.take(n + 1)[i].1 is Disconnect;
                        if i < n {
                            assert(packets@.take(n as int)[i] == packets@.take(n + 1)[i]);
                        }
                    }
                }
                assert(self@ =~= old(self)@.remove_keys(d_new));
            }
            n = n + 1;
        }
        assert(packets@.take(packets@.len() as int) =~= packets@);
    }

    /// The clients of the server.
    pub fn clients(&self) -> (c: &HashMap<ClientId, NetClient<R>>)
        ensures
            c@ == self@,
    {
        &self.clients
    }

    /// The clients of the server, to change.
    pub fn clients_mut(&mut self) -> (c: &mut HashMap<ClientId, NetClient<R>>)
        ensures
            c@ == old(self)@,
            final(self)@ == final(c)@,
    {
        &mut self.clients
    }
}

impl<R: PacketWrite> NetHandler<R> {
    /// Sends a packet to every client, also after a write failed; `true`
    /// when it was written to all of them. With no client there is nothing
    /// to fail.
    pub fn broadcast(&self, packet: &Packet) -> (r: bool)
        ensures
            self@.is_empty() ==> r,
            r ==> forall|id: ClientId| #[trigger] self@.contains_key(id) ==> call_ensures(
                R::write_packet,
                (&self@[id].spec_remote(), packet),
                true,
            ),
            forall|id: ClientId| #[trigger] self@.contains_key(id) ==> exists|b: bool| call_ensures(
                R::write_packet,
                (&self@[id].spec_remote(), packet),
                b,
            ),
            !r ==> exists|id: ClientId| #[trigger] self@.contains_key(id) && call_ensures(
                R::write_packet,
                (&self@[id].spec_remote(), packet),
                false,
            ),
    {
        let mut one_failed = false;
        let ghost seq = spec_hash_map_iter(&self.clients).remaining();
        let ghost mut done: int = 0;
        for entry in it: self.clients.iter()
            invariant
                it.seq() == seq,
                done == it.index(),
                done <= seq.len(),
                seq == spec_hash_map_iter(&self.clients).remaining(),
                !one_failed ==> forall|i: int| 0 <= i < done ==> call_ensures(
                    R::write_packet,
                    (&(*#[trigger] seq[i].1).spec_remote(), packet),
                    true,
                ),
                forall|i: int| 0 <= i < done ==> exists|b: bool| call_ensures(
                    R::write_packet,
                    (&(*#[trigger] seq[i].1).spec_remote(), packet),
                    b,
                ),
                one_failed ==> exists|i: int| 0 <= i < done && call_ensures(
                    R::write_packet,
                    (&(*#[trigger] seq[i].1).spec_remote(), packet),
                    false,
                ),
        {
            let (_id, client) = entry;
            if !client.send(packet) {
                one_failed = true;
            }
            proof {
                done = done + 1;
            }
        }
        proof {
            assert(done == seq.len());
            assert forall|id: ClientId| #[trigger] self@.contains_key(id) implies exists|b: bool| call_ensures(
                R::write_packet,
                (&self@[id].spec_remote(), packet),
                b,
            ) by {
                assert(seq.contains((&id, &self@[id])));
                let i = choose|i: int| 0 <= i < seq.len() && seq[i] == (&id, &self@[id]);
                assert(exists|b: bool| call_ensures(R::write_packet, (&(*seq[i].1).spec_remote(), packet), b));
            }
            if !one_failed {
                assert forall|id: ClientId| #[trigger] self@.contains_key(id) implies call_ensures(
                    R::write_packet,
                    (&self@[id].spec_remote(), packet),
                    true,
                ) by {
                    assert(seq.contains((&id, &self@[id])));
                    let i = choose|i: int| 0 <= i < seq.len() && seq[i] == (&id, &self@[id]);
                    assert(call_ensures(R::write_packet, (&(*seq[i].1).spec_remote(), packet), true));
                }
            } else {
                let i = choose|i: int| 0 <= i < seq.len() && call_ensures(
                    R::write_packet,
                    (&(*#[trigger] seq[i].1).spec_remote(), packet),
                    false,
                );
                let id = *seq[i].0;
                assert(self@.contains_key(id) && self@[id] == *seq[i].1);
            }
        }
        !one_failed
    }

    /// Sends a packet to the client `to`; `false` when no such client is
    /// known, else the result of writing the packet on that client's
    /// connection.
    pub fn send(&self, to: ClientId, packet: &Packet) -> (r: bool)
        ensures
            !self@.contains_key(to) ==> !r,
            self@.contains_key(to) ==> call_ensures(R::write_packet, (&self@[to].spec_remote(), packet), r),
    {
        match self.clients.get(&to) {
            Some(client) => client.send(packet),
            None => false,
        }
    }
}

} // verus!
