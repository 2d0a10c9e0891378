use filesync::cli::session::{client_action, ClientAction};
use filesync::cli::nethandler::{from_server, packet_from_read, NetHandler as ClientNetHandler};
use filesync::packethandler::PacketHandler;
use filesync::packets::{received_frame, ClientId, ClientIdMAX, Packet, PacketWrite, ReadOutcome, MAX_PACKET_SIZE};
use filesync::srv::netclient::{receive_step, NetClient};
use std::cell::RefCell;

struct Sink {
    ok: bool,
    sent: RefCell<Vec<Packet>>,
}

impl PacketWrite for Sink {
    fn write_packet(&self, p: &Packet) -> bool {
        self.sent.borrow_mut().push(p.clone());
        self.ok
    }
}

struct Recorder {
    seen: Vec<(ClientId, Packet)>,
}

impl PacketHandler for Recorder {
    fn spec_after(&self, _packets: vstd::seq::Seq<(ClientId, Packet)>) -> Self {
        unreachable!()
    }

    fn handle(&mut self, packets: &Vec<(ClientId, Packet)>) {
        self.seen.extend(packets.iter().cloned());
    }
}

#[test]
fn constants() {
    assert_eq!(MAX_PACKET_SIZE, 512);
    assert_eq!(ClientIdMAX, u32::MAX);
}

#[test]
fn empty_read_means_closed() {
    assert_eq!(received_frame(vec![1, 2, 3], 0), None);
    assert_eq!(received_frame(vec![1, 2, 3], 2), Some(vec![1, 2, 3]));
}

#[test]
fn client_receive_loop_decisions() {
    assert_eq!(packet_from_read(ReadOutcome::Received(Packet::FileEnd)), Some(Packet::FileEnd));
    assert_eq!(packet_from_read(ReadOutcome::Closed), Some(Packet::Disconnect));
    assert_eq!(packet_from_read(ReadOutcome::TimedOut), None);
    assert_eq!(packet_from_read(ReadOutcome::Failed), None);
}

#[test]
fn server_receive_loop_decisions() {
    let s = receive_step(ReadOutcome::Received(Packet::ReqTime));
    assert_eq!((s.forward, s.keep_running), (Some(Packet::ReqTime), true));
    let s = receive_step(ReadOutcome::Closed);
    assert_eq!((s.forward, s.keep_running), (Some(Packet::Disconnect), false));
    let s = receive_step(ReadOutcome::Failed);
    assert_eq!((s.forward, s.keep_running), (None, true));
    let s = receive_step(ReadOutcome::TimedOut);
    assert_eq!((s.forward, s.keep_running), (None, true));
}

#[test]
fn client_connection_state() {
    let mut h = ClientNetHandler::new(Sink { ok: true, sent: RefCell::new(vec![]) });
    assert!(h.connected());
    assert!(h.send(&Packet::ReqTime));
    h.disconnect();
    assert!(!h.connected());
}

#[test]
fn client_hands_packets_from_server() {
    let h = ClientNetHandler::new(Sink { ok: true, sent: RefCell::new(vec![]) });
    let mut rec = Recorder { seen: vec![] };
    h.handle_packets(&mut rec, vec![Packet::FileChunk(vec![1, 2]), Packet::FileEnd]);
    assert_eq!(rec.seen, vec![(0, Packet::FileChunk(vec![1, 2])), (0, Packet::FileEnd)]);
}

#[test]
fn net_client_sends_over_its_connection() {
    let c = NetClient::new(5, Sink { ok: false, sent: RefCell::new(vec![]) });
    assert_eq!(c.id(), 5);
    assert!(!c.send(&Packet::FileStart(b"x".to_vec(), 3)));
    assert_eq!(c.remote().sent.borrow().clone(), vec![Packet::FileStart(b"x".to_vec(), 3)]);
}

#[test]
fn packets_from_server_carry_client_zero() {
    assert_eq!(from_server(vec![]), vec![]);
    assert_eq!(
        from_server(vec![Packet::ReqTime, Packet::ReqFile(b"./a".to_vec())]),
        vec![(0, Packet::ReqTime), (0, Packet::ReqFile(b"./a".to_vec()))]
    );
}

#[test]
fn client_answers_server_packets() {
    assert_eq!(client_action(Packet::ReqFile(b"./f".to_vec()), true), ClientAction::Push(b"./f".to_vec()));
    assert_eq!(client_action(Packet::ReqFile(b"./f".to_vec()), false), ClientAction::ShowCandidate(b"./f".to_vec()));
    assert_eq!(client_action(Packet::Disconnect, true), ClientAction::Finish);
    assert_eq!(client_action(Packet::FileEnd, false), ClientAction::Unexpected(Packet::FileEnd));
}
