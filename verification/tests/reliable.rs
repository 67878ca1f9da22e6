use netwolf::networking::{update_client_number, ClientCounter, Ipv4};
use netwolf::node::Node;
use netwolf::registry::Registry;
use netwolf::udp::headers::{PacketHeader, StopAndWaitHeader};
use netwolf::udp::reliable::{
    data_server_done, sw_client_step, sw_sender_step, sw_server_step, sw_session_closed,
    three_headers, DemuxAction, ReceiverAction, ReceiverEvent, SenderAction, SenderEvent,
    SenderSession, SenderState, SessionKey, SessionTable, MAX_CORRUPT_PACKETS, MAX_IDLE_ROUNDS,
};

const GET_PORT: u16 = 3222;
const RECEIVER_PORT: u16 = 2600;
const SENDER_PORT: u16 = 2500;

fn receiver_ip() -> Ipv4 {
    Ipv4::new(10, 0, 0, 2)
}

fn sender_ip() -> Ipv4 {
    Ipv4::new(10, 0, 0, 1)
}

fn header(kind: PacketHeader, file_name: &str) -> StopAndWaitHeader {
    StopAndWaitHeader::new(kind, GET_PORT, RECEIVER_PORT, file_name, receiver_ip())
}

fn waiting_session(file_name: &str, prior_comms: u16) -> SenderSession {
    let mut session = SenderSession::new(prior_comms);
    let request = header(PacketHeader::RDTGET, file_name);
    assert_eq!(sw_sender_step(&mut session, SenderEvent::Control(&request)), SenderAction::OpenAndRead);
    assert_eq!(sw_sender_step(&mut session, SenderEvent::ChunkRead(100)), SenderAction::SendChunk);
    assert_eq!(session.state, SenderState::WaitForAck);
    session
}

/// Runs a whole transfer of `file` in memory, every datagram arriving, and
/// gives what the receiver wrote, how many acknowledgements it sent and
/// where the sender's session ended.
fn transfer(file: &[u8], chunk_size: usize) -> (Vec<u8>, usize, SenderState) {
    let mut nodes = Registry::new();
    nodes.insert_if_absent(Node::new("receiver", "10.0.0.2", GET_PORT).unwrap());
    let files = vec!["a.txt".to_string()];
    let mut table = SessionTable::new();
    let mut counter = ClientCounter::new(3);
    let (get_header, ack_header, _nak_header) =
        three_headers(GET_PORT, RECEIVER_PORT, "a.txt", Ipv4::new(127, 0, 0, 1));

    let request_datagram = get_header.as_vec();
    let (request, _) = StopAndWaitHeader::from_bytes(&request_datagram, receiver_ip()).unwrap();
    let opened = sw_server_step(&mut table, &mut counter, &nodes, &files, &request, RECEIVER_PORT);
    let prior_comms = match opened {
        DemuxAction::Open { prior_comms } => prior_comms,
        _ => panic!("no session was opened"),
    };
    let mut session = SenderSession::new(prior_comms);
    assert_eq!(sw_sender_step(&mut session, SenderEvent::Control(&request)), SenderAction::OpenAndRead);

    let mut written = Vec::new();
    let mut acks = 0;
    let mut offset = 0;
    loop {
        let end = std::cmp::min(offset + chunk_size, file.len());
        let chunk = &file[offset..end];
        offset = end;
        let datagram: Vec<u8> = match sw_sender_step(&mut session, SenderEvent::ChunkRead(chunk.len())) {
            SenderAction::SendChunk => chunk.to_vec(),
            SenderAction::SendEnd => PacketHeader::rdt_end().as_bytes().to_vec(),
            other => panic!("the sender does {:?}", other),
        };
        let event = ReceiverEvent::Datagram { ip: sender_ip(), port: SENDER_PORT, data: &datagram };
        match sw_client_step(sender_ip(), SENDER_PORT, event) {
            ReceiverAction::WriteAndAck { payload } => {
                written.extend_from_slice(payload);
                acks += 1;
                let answer = ack_header.as_vec();
                let (ack, _) = StopAndWaitHeader::from_bytes(&answer, receiver_ip()).unwrap();
                let forwarded =
                    sw_server_step(&mut table, &mut counter, &nodes, &files, &ack, RECEIVER_PORT);
                assert_eq!(forwarded, DemuxAction::Forward);
                assert_eq!(sw_sender_step(&mut session, SenderEvent::Control(&ack)), SenderAction::ReadNext);
            }
            ReceiverAction::Finish => break,
            _ => panic!("the receiver neither wrote nor finished"),
        }
    }
    let key = SessionKey { ip: receiver_ip(), port: RECEIVER_PORT };
    assert!(sw_session_closed(&mut table, &mut counter, key));
    assert_eq!(counter.current(), 0);
    (written, acks, session.state)
}

#[test]
fn hello_world_arrives_byte_for_byte() {
    let file = b"HELLO WORLD!!";
    assert_eq!(file.len(), 13);
    let (written, acks, state) = transfer(file, 8192);
    assert_eq!(written, file);
    assert_eq!(acks, 1);
    assert_eq!(state, SenderState::Done);
}

#[test]
fn acknowledgements_are_the_chunks_rounded_up() {
    let file = b"HELLO WORLD!!";
    for (chunk_size, expected) in [(1, 13), (2, 7), (4, 4), (6, 3), (12, 2), (13, 1), (14, 1)] {
        let (written, acks, state) = transfer(file, chunk_size);
        assert_eq!(written, file, "chunks of {}", chunk_size);
        assert_eq!(acks, expected, "chunks of {}", chunk_size);
        assert_eq!(acks, (file.len() + chunk_size - 1) / chunk_size);
        assert_eq!(state, SenderState::Done);
    }
}

#[test]
fn a_large_file_arrives_byte_for_byte() {
    let file: Vec<u8> = (0..100_000u32).map(|i| (i * 7 + i / 251) as u8).collect();
    let (written, acks, state) = transfer(&file, 8192);
    assert_eq!(written, file);
    assert_eq!(acks, 13);
    assert_eq!(state, SenderState::Done);
}

#[test]
fn an_empty_file_ends_at_once() {
    let (written, acks, state) = transfer(b"", 8192);
    assert!(written.is_empty());
    assert_eq!(acks, 0);
    assert_eq!(state, SenderState::Done);
}

#[test]
fn a_chunk_that_begins_with_the_end_tag_ends_the_transfer() {
    let event = ReceiverEvent::Datagram { ip: sender_ip(), port: SENDER_PORT, data: b"ENDLESS SUMMER" };
    assert!(matches!(sw_client_step(sender_ip(), SENDER_PORT, event), ReceiverAction::Finish));
}

#[test]
fn new_session_awaits_its_request() {
    let session = SenderSession::new(0);
    assert_eq!(session.state, SenderState::AwaitingRequest);
    assert_eq!(session.corrupt_packets, 0);
    assert_eq!(session.delay_ms, 0);
    assert_eq!(SenderSession::new(1).delay_ms, 500);
    assert_eq!(SenderSession::new(7).delay_ms, 500);
}

#[test]
fn request_opens_the_file() {
    let mut session = SenderSession::new(3);
    let request = header(PacketHeader::RDTGET, "a.txt");
    assert_eq!(sw_sender_step(&mut session, SenderEvent::Control(&request)), SenderAction::OpenAndRead);
    assert_eq!(session.state, SenderState::Sending);
    assert_eq!(session.ip, receiver_ip());
    assert_eq!(session.get_port, GET_PORT);
    assert_eq!(session.rdt_port, RECEIVER_PORT);
    assert_eq!(session.file_name, "a.txt");
    assert_eq!(session.delay_ms, 500);
    assert!(session.matches_header(&header(PacketHeader::StopWaitACK, "a.txt")));
    assert!(!session.matches_header(&header(PacketHeader::StopWaitACK, "b.txt")));
}

#[test]
fn acknowledgement_reads_on_and_negative_one_repeats() {
    let mut session = waiting_session("a.txt", 0);
    let ack = header(PacketHeader::StopWaitACK, "a.txt");
    let nak = header(PacketHeader::StopWaitNAK, "a.txt");
    assert_eq!(sw_sender_step(&mut session, SenderEvent::Control(&nak)), SenderAction::ResendChunk);
    assert_eq!(session.state, SenderState::WaitForAck);
    assert_eq!(session.last_chunk, 100);
    assert_eq!(sw_sender_step(&mut session, SenderEvent::Control(&nak)), SenderAction::ResendChunk);
    assert_eq!(sw_sender_step(&mut session, SenderEvent::Control(&ack)), SenderAction::ReadNext);
    assert_eq!(session.state, SenderState::Sending);
    assert_eq!(sw_sender_step(&mut session, SenderEvent::ChunkRead(42)), SenderAction::SendChunk);
    assert_eq!(session.last_chunk, 42);
    assert_eq!(sw_sender_step(&mut session, SenderEvent::Control(&ack)), SenderAction::ReadNext);
    assert_eq!(sw_sender_step(&mut session, SenderEvent::ChunkRead(0)), SenderAction::SendEnd);
    assert_eq!(session.state, SenderState::Done);
    assert_eq!(session.corrupt_packets, 0);
    assert_eq!(sw_sender_step(&mut session, SenderEvent::Control(&ack)), SenderAction::Wait);
    assert_eq!(sw_sender_step(&mut session, SenderEvent::ChunkRead(5)), SenderAction::Wait);
    assert_eq!(session.state, SenderState::Done);
}

#[test]
fn six_unrecognized_messages_abort_the_session() {
    let mut session = waiting_session("a.txt", 0);
    let mut other = waiting_session("b.txt", 0);
    let corrupt = [
        header(PacketHeader::Unrecognized, "a.txt"),
        header(PacketHeader::RDTGET, "a.txt"),
        header(PacketHeader::StopWaitACK, "other.txt"),
        StopAndWaitHeader::new(PacketHeader::StopWaitACK, GET_PORT + 1, RECEIVER_PORT, "a.txt", receiver_ip()),
        StopAndWaitHeader::new(PacketHeader::StopWaitNAK, GET_PORT, RECEIVER_PORT + 1, "a.txt", receiver_ip()),
        StopAndWaitHeader::new(PacketHeader::StopWaitACK, GET_PORT, RECEIVER_PORT, "a.txt", sender_ip()),
    ];
    assert_eq!(corrupt.len(), MAX_CORRUPT_PACKETS as usize + 1);
    for (i, message) in corrupt.iter().enumerate() {
        let action = sw_sender_step(&mut session, SenderEvent::Control(message));
        if i < 5 {
            assert_eq!(action, SenderAction::Wait);
            assert_eq!(session.state, SenderState::WaitForAck);
            assert_eq!(session.corrupt_packets as usize, i + 1);
        } else {
            assert_eq!(action, SenderAction::Abort);
            assert_eq!(session.state, SenderState::Aborted);
        }
    }
    let ack = header(PacketHeader::StopWaitACK, "a.txt");
    assert_eq!(sw_sender_step(&mut session, SenderEvent::Control(&ack)), SenderAction::Wait);
    assert_eq!(session.state, SenderState::Aborted);
    let other_ack = header(PacketHeader::StopWaitACK, "b.txt");
    assert_eq!(other.corrupt_packets, 0);
    assert_eq!(sw_sender_step(&mut other, SenderEvent::Control(&other_ack)), SenderAction::ReadNext);
}

#[test]
fn unrecognized_messages_are_counted_across_good_ones() {
    let mut session = waiting_session("a.txt", 0);
    let ack = header(PacketHeader::StopWaitACK, "a.txt");
    let junk = header(PacketHeader::GoBackN, "a.txt");
    for _ in 0..5 {
        assert_eq!(sw_sender_step(&mut session, SenderEvent::Control(&junk)), SenderAction::Wait);
        assert_eq!(sw_sender_step(&mut session, SenderEvent::Control(&ack)), SenderAction::ReadNext);
        assert_eq!(sw_sender_step(&mut session, SenderEvent::ChunkRead(9)), SenderAction::SendChunk);
    }
    assert_eq!(session.corrupt_packets, 5);
    assert_eq!(sw_sender_step(&mut session, SenderEvent::Control(&junk)), SenderAction::Abort);
    assert_eq!(session.state, SenderState::Aborted);
}

#[test]
fn a_session_that_awaits_its_request_counts_other_messages() {
    let mut session = SenderSession::new(0);
    let ack = header(PacketHeader::StopWaitACK, "a.txt");
    for _ in 0..5 {
        assert_eq!(sw_sender_step(&mut session, SenderEvent::Control(&ack)), SenderAction::Wait);
        assert_eq!(session.state, SenderState::AwaitingRequest);
    }
    assert_eq!(sw_sender_step(&mut session, SenderEvent::ChunkRead(5)), SenderAction::Wait);
    assert_eq!(sw_sender_step(&mut session, SenderEvent::Control(&ack)), SenderAction::Abort);
    assert_eq!(session.state, SenderState::Aborted);
}

#[test]
fn a_file_that_fails_aborts_the_session() {
    let mut session = SenderSession::new(0);
    let request = header(PacketHeader::RDTGET, "a.txt");
    sw_sender_step(&mut session, SenderEvent::Control(&request));
    assert_eq!(sw_sender_step(&mut session, SenderEvent::Control(&request)), SenderAction::Wait);
    assert_eq!(sw_sender_step(&mut session, SenderEvent::ReadFailed), SenderAction::Abort);
    assert_eq!(session.state, SenderState::Aborted);
    let mut waiting = waiting_session("a.txt", 0);
    assert_eq!(sw_sender_step(&mut waiting, SenderEvent::ReadFailed), SenderAction::Wait);
    assert_eq!(sw_sender_step(&mut waiting, SenderEvent::ChunkRead(1)), SenderAction::Wait);
    assert_eq!(waiting.state, SenderState::WaitForAck);
}

#[test]
fn three_headers_differ_in_kind_only() {
    let (get, ack, nak) = three_headers(GET_PORT, RECEIVER_PORT, "a.txt", receiver_ip());
    assert_eq!(get.header_type, PacketHeader::RDTGET);
    assert_eq!(ack.header_type, PacketHeader::StopWaitACK);
    assert_eq!(nak.header_type, PacketHeader::StopWaitNAK);
    for h in [&get, &ack, &nak] {
        assert_eq!(h.header_size, 14);
        assert_eq!(h.get_port, GET_PORT);
        assert_eq!(h.rdt_port, RECEIVER_PORT);
        assert_eq!(h.file_name, "a.txt");
        assert_eq!(h.ip, receiver_ip());
    }
    assert_eq!(&get.as_vec()[..3], b"RDT");
    assert_eq!(&ack.as_vec()[..3], b"SWA");
    assert_eq!(&nak.as_vec()[..3], b"SWN");
    assert_eq!(&get.as_vec()[3..], &ack.as_vec()[3..]);
}

#[test]
fn receiver_writes_only_what_the_sender_sent() {
    let data = b"some bytes";
    let from_peer = ReceiverEvent::Datagram { ip: sender_ip(), port: SENDER_PORT, data };
    match sw_client_step(sender_ip(), SENDER_PORT, from_peer) {
        ReceiverAction::WriteAndAck { payload } => assert_eq!(payload, data),
        _ => panic!("nothing was written"),
    }
    let forged = [
        (Ipv4::new(10, 0, 0, 66), SENDER_PORT),
        (sender_ip(), SENDER_PORT + 1),
        (Ipv4::new(127, 0, 0, 1), 0),
    ];
    for (ip, port) in forged {
        let event = ReceiverEvent::Datagram { ip, port, data };
        assert!(matches!(sw_client_step(sender_ip(), SENDER_PORT, event), ReceiverAction::Nak));
        let empty = ReceiverEvent::Datagram { ip, port, data: b"" };
        assert!(matches!(sw_client_step(sender_ip(), SENDER_PORT, empty), ReceiverAction::Nak));
    }
}

#[test]
fn receiver_gives_up_after_a_timeout() {
    assert!(matches!(
        sw_client_step(sender_ip(), SENDER_PORT, ReceiverEvent::Timeout),
        ReceiverAction::GiveUp
    ));
    assert!(matches!(
        sw_client_step(Ipv4::new(0, 0, 0, 0), 0, ReceiverEvent::Timeout),
        ReceiverAction::GiveUp
    ));
}

#[test]
fn receiver_gives_up_on_nothing_but_a_timeout() {
    let datagrams: [&[u8]; 5] = [b"", b"x", b"END", b"SWN", &[0, 0, 0]];
    for data in datagrams {
        for (ip, port) in [(sender_ip(), SENDER_PORT), (receiver_ip(), SENDER_PORT), (sender_ip(), 1)] {
            let event = ReceiverEvent::Datagram { ip, port, data };
            assert!(!matches!(sw_client_step(sender_ip(), SENDER_PORT, event), ReceiverAction::GiveUp));
        }
    }
}

#[test]
fn a_lost_acknowledgement_fails_the_transfer_and_writes_nothing_twice() {
    // The chunk arrives and is written once; its acknowledgement is lost,
    // the sender stays silent, and the receiver's read times out.
    let mut written = Vec::new();
    let chunk = ReceiverEvent::Datagram { ip: sender_ip(), port: SENDER_PORT, data: b"HELLO" };
    if let ReceiverAction::WriteAndAck { payload } = sw_client_step(sender_ip(), SENDER_PORT, chunk) {
        written.extend_from_slice(payload);
    }
    let next = sw_client_step(sender_ip(), SENDER_PORT, ReceiverEvent::Timeout);
    assert!(matches!(next, ReceiverAction::GiveUp));
    assert_eq!(written, b"HELLO");
}

#[test]
fn data_socket_is_served_for_its_transfer() {
    assert_eq!(MAX_IDLE_ROUNDS, 30);
    // a session is open: never done
    assert!(!data_server_done(1, false, 0));
    assert!(!data_server_done(1, true, 0));
    assert!(!data_server_done(2, true, 1000));
    assert!(!data_server_done(1, false, u32::MAX));
    // none open, one was served: done
    assert!(data_server_done(0, true, 0));
    assert!(data_server_done(0, true, 31));
    // none open, none served yet: done only after more than thirty idle rounds
    assert!(!data_server_done(0, false, 0));
    assert!(!data_server_done(0, false, 30));
    assert!(data_server_done(0, false, 31));
    assert!(data_server_done(0, false, u32::MAX));
}

#[test]
fn receiver_finishes_on_the_end_tag_and_waits_on_nothing() {
    let end = ReceiverEvent::Datagram { ip: sender_ip(), port: SENDER_PORT, data: b"END" };
    assert!(matches!(sw_client_step(sender_ip(), SENDER_PORT, end), ReceiverAction::Finish));
    let empty = ReceiverEvent::Datagram { ip: sender_ip(), port: SENDER_PORT, data: b"" };
    assert!(matches!(sw_client_step(sender_ip(), SENDER_PORT, empty), ReceiverAction::Wait));
    let short = ReceiverEvent::Datagram { ip: sender_ip(), port: SENDER_PORT, data: b"EN" };
    match sw_client_step(sender_ip(), SENDER_PORT, short) {
        ReceiverAction::WriteAndAck { payload } => assert_eq!(payload, b"EN"),
        _ => panic!("nothing was written"),
    }
}

#[test]
fn session_table_holds_each_key_once() {
    let mut table = SessionTable::new();
    let a = SessionKey { ip: receiver_ip(), port: 1 };
    let b = SessionKey { ip: receiver_ip(), port: 2 };
    assert_eq!(table.len(), 0);
    assert!(!table.contains(a));
    assert!(table.open(a));
    assert!(!table.open(a));
    assert!(table.open(b));
    assert_eq!(table.len(), 2);
    assert!(table.contains(a) && table.contains(b));
    assert!(table.close(a));
    assert!(!table.close(a));
    assert!(!table.contains(a));
    assert!(table.contains(b));
    assert_eq!(table.len(), 1);
}

#[test]
fn reader_opens_forwards_and_drops() {
    let mut nodes = Registry::new();
    nodes.insert_if_absent(Node::new("known", "10.0.0.2", GET_PORT).unwrap());
    nodes.upsert(Node::new("known", "10.0.0.2", GET_PORT).unwrap());
    let files = vec!["a.txt".to_string()];
    let mut table = SessionTable::new();
    let mut counter = ClientCounter::new(2);
    let request = header(PacketHeader::RDTGET, "a.txt");
    let ack = header(PacketHeader::StopWaitACK, "a.txt");

    // nothing is open yet: an acknowledgement has nowhere to go
    assert_eq!(sw_server_step(&mut table, &mut counter, &nodes, &files, &ack, 2600), DemuxAction::Drop);
    assert_eq!(
        sw_server_step(&mut table, &mut counter, &nodes, &files, &request, 2600),
        DemuxAction::Open { prior_comms: 1 }
    );
    assert_eq!(counter.current(), 1);
    assert!(table.contains(SessionKey { ip: receiver_ip(), port: 2600 }));
    // the open session gets everything that comes from its key
    assert_eq!(sw_server_step(&mut table, &mut counter, &nodes, &files, &ack, 2600), DemuxAction::Forward);
    assert_eq!(sw_server_step(&mut table, &mut counter, &nodes, &files, &request, 2600), DemuxAction::Forward);
    let junk = header(PacketHeader::Unrecognized, "a.txt");
    assert_eq!(sw_server_step(&mut table, &mut counter, &nodes, &files, &junk, 2600), DemuxAction::Forward);
    assert_eq!(counter.current(), 1);
    assert_eq!(table.len(), 1);
    // another port of the same peer is another session
    assert_eq!(
        sw_server_step(&mut table, &mut counter, &nodes, &files, &request, 2601),
        DemuxAction::Open { prior_comms: 1 }
    );
    assert_eq!(counter.current(), 2);
    // no room for a third
    assert_eq!(sw_server_step(&mut table, &mut counter, &nodes, &files, &request, 2602), DemuxAction::Drop);
    assert_eq!(counter.current(), 2);
    assert_eq!(table.len(), 2);
    // a session that ends leaves room, and the other session stays
    assert!(sw_session_closed(&mut table, &mut counter, SessionKey { ip: receiver_ip(), port: 2600 }));
    assert!(!sw_session_closed(&mut table, &mut counter, SessionKey { ip: receiver_ip(), port: 2600 }));
    assert_eq!(counter.current(), 1);
    assert!(table.contains(SessionKey { ip: receiver_ip(), port: 2601 }));
    assert_eq!(sw_server_step(&mut table, &mut counter, &nodes, &files, &ack, 2601), DemuxAction::Forward);
}

#[test]
fn reader_serves_unknown_peers_shared_files_only() {
    let nodes = Registry::new();
    let files = vec!["a.txt".to_string()];
    let mut table = SessionTable::new();
    let mut counter = ClientCounter::new(3);
    let shared = header(PacketHeader::RDTGET, "a.txt");
    let missing = header(PacketHeader::RDTGET, "missing.txt");
    assert_eq!(sw_server_step(&mut table, &mut counter, &nodes, &files, &missing, 2600), DemuxAction::Drop);
    assert_eq!(table.len(), 0);
    assert_eq!(counter.current(), 0);
    assert_eq!(
        sw_server_step(&mut table, &mut counter, &nodes, &files, &shared, 2600),
        DemuxAction::Open { prior_comms: 0 }
    );
    let mut known = Registry::new();
    known.insert_if_absent(Node::new("known", "10.0.0.2", GET_PORT).unwrap());
    assert_eq!(
        sw_server_step(&mut table, &mut counter, &known, &files, &missing, 2601),
        DemuxAction::Open { prior_comms: 0 }
    );
}

#[test]
fn transfers_never_exceed_the_limit() {
    let nodes = Registry::new();
    let files = vec!["a.txt".to_string()];
    let mut table = SessionTable::new();
    let mut counter = ClientCounter::new(3);
    let request = header(PacketHeader::RDTGET, "a.txt");
    let mut opened = 0;
    for port in 2000..2050u16 {
        if let DemuxAction::Open { .. } =
            sw_server_step(&mut table, &mut counter, &nodes, &files, &request, port)
        {
            opened += 1;
        }
        assert!(counter.current() <= 3);
        assert!(table.len() <= 3);
        if port % 7 == 0 {
            update_client_number(&mut counter, true);
            assert!(counter.current() <= 3);
        }
    }
    assert_eq!(opened, 3);
}
