use filesync::machine::Machine;
use filesync::packethandler::PacketHandler as _;
use filesync::packets::{ClientId, ClientIdMAX, Packet, PacketWrite};
use filesync::srv::fileserver::FileServer;
use filesync::srv::netclient::NetClient;
use filesync::srv::nethandler::{search_free_id, NetHandler};
use filesync::srv::packethandler::PacketHandler;
use std::collections::HashMap;

struct Link(bool);

impl PacketWrite for Link {
    fn write_packet(&self, _p: &Packet) -> bool {
        self.0
    }
}

fn handler_with(ids: &[(ClientId, bool)]) -> NetHandler<Link> {
    let mut h = NetHandler::new();
    for (id, ok) in ids {
        h.add_client(NetClient::new(*id, Link(*ok)));
    }
    h
}

#[test]
fn free_id_upwards_from_start() {
    let mut m: HashMap<ClientId, ()> = HashMap::new();
    assert_eq!(search_free_id(&m, 1), Some(1));
    m.insert(1, ());
    m.insert(2, ());
    assert_eq!(search_free_id(&m, 1), Some(3));
    assert_eq!(search_free_id(&m, 0), Some(0));
}

#[test]
fn free_id_wraps_below_start() {
    let mut m: HashMap<ClientId, ()> = HashMap::new();
    m.insert(ClientIdMAX - 1, ());
    assert_eq!(search_free_id(&m, ClientIdMAX - 1), Some(0));
    assert_eq!(search_free_id(&m, ClientIdMAX), Some(0));
    m.insert(0, ());
    assert_eq!(search_free_id(&m, ClientIdMAX - 1), Some(1));
}

#[test]
fn next_client_id_after_last() {
    let h = handler_with(&[(1, true), (2, true)]);
    assert_eq!(h.next_client_id(0), Some(3));
    assert_eq!(h.next_client_id(5), Some(6));
}

#[test]
fn disconnected_clients_are_forgotten() {
    let mut h = handler_with(&[(1, true), (2, true), (3, true)]);
    let mut fs = FileServer::new(Machine::new(0));
    h.handle_packets(&mut fs, vec![(2, Packet::Disconnect), (3, Packet::ReqTime), (9, Packet::Disconnect)]);
    let mut ids: Vec<ClientId> = h.clients().keys().cloned().collect();
    ids.sort();
    assert_eq!(ids, vec![1, 3]);
}

#[test]
fn send_to_unknown_client_fails() {
    let h = handler_with(&[(1, true)]);
    assert!(!h.send(4, &Packet::FileEnd));
    assert!(h.send(1, &Packet::FileEnd));
}

#[test]
fn broadcast_reports_failures() {
    assert!(handler_with(&[]).broadcast(&Packet::ReqTime));
    assert!(handler_with(&[(1, true), (2, true)]).broadcast(&Packet::ReqTime));
    assert!(!handler_with(&[(1, true), (2, false)]).broadcast(&Packet::ReqTime));
}

#[test]
fn clients_can_be_changed() {
    let mut h = handler_with(&[(1, true)]);
    h.clients_mut().remove(&1);
    assert!(h.clients().is_empty());
}

#[test]
fn server_handlers_take_packets() {
    let mut p = PacketHandler::new(Machine::new(3));
    p.handle(&vec![(1, Packet::ReqTime)]);
    let mut f = FileServer::new(Machine::new(3));
    f.handle(&vec![(1, Packet::FileEnd)]);
}

#[test]
fn broadcast_goes_on_after_a_failure() {
    let h = handler_with(&[(1, false), (2, false), (3, true)]);
    assert!(!h.broadcast(&Packet::FileEnd));
    assert!(!h.send(1, &Packet::FileEnd));
    assert!(h.send(3, &Packet::FileEnd));
}

struct CountingLink {
    ok: bool,
    writes: std::rc::Rc<std::cell::Cell<u32>>,
}

impl PacketWrite for CountingLink {
    fn write_packet(&self, _p: &Packet) -> bool {
        self.writes.set(self.writes.get() + 1);
        self.ok
    }
}

#[test]
fn broadcast_writes_once_to_every_client() {
    let writes = std::rc::Rc::new(std::cell::Cell::new(0));
    let mut h = NetHandler::new();
    for (id, ok) in [(1u32, false), (2, true), (3, false), (4, true)] {
        h.add_client(NetClient::new(id, CountingLink { ok, writes: writes.clone() }));
    }
    assert!(!h.broadcast(&Packet::ReqTime));
    assert_eq!(writes.get(), 4);
}
