//! Stop-and-wait: a file is moved over datagrams, one chunk in flight at a
//! time.
//!
//! The sender reads a chunk and sends it, then waits for the receiver's
//! word: an acknowledgement moves on to the next chunk, a negative
//! acknowledgement repeats the last one. After the last chunk the sender
//! sends the end tag. Sockets, files and clocks live outside this
//! library; each function here is one decision of a session.

use crate::networking::{
    delay_for, delay_to_avoid_surfers, update_client_number, ClientCounter, Ipv4,
};
use crate::node::NodeView;
use crate::registry::{has_address, prior_comms_of, Registry};
use crate::text::chars_of;
use crate::udp::headers::{
    header_size_of, is_end_datagram, PacketHeader, StopAndWaitHeader, StopAndWaitHeaderView,
};
use crate::udp::{file_is_shared, string_views};
use vstd::prelude::*;

verus! {

/// Most unrecognised messages that a sender session puts up with.
pub const MAX_CORRUPT_PACKETS: u8 = 5;

/// Where a sender session stands.
#[derive(Clone, Copy, PartialEq, Eq, Structural, Debug)]
pub enum SenderState {
    /// The session waits for the request that names the file.
    AwaitingRequest,
    /// A chunk is being read from the file.
    Sending,
    /// A chunk is in flight; the session waits for the receiver's word.
    WaitForAck,
    /// The end tag was sent after the last chunk.
    Done,
    /// Too many messages were not recognised, or the file failed.
    Aborted,
}

/// What the owner of a sender session does next.
#[derive(Clone, Copy, PartialEq, Eq, Structural, Debug)]
pub enum SenderAction {
    /// Open the requested file and read its first chunk.
    OpenAndRead,
    /// Read the next chunk of the file.
    ReadNext,
    /// Send the chunk that was just read.
    SendChunk,
    /// Send the last chunk again, unchanged.
    ResendChunk,
    /// Send the end tag and close the file: the transfer is complete.
    SendEnd,
    /// Close the file and free the session: the transfer is given up.
    Abort,
    /// Nothing; wait for the next event.
    Wait,
}

/// What a `SenderSession` holds, with its file name as a sequence of
/// characters.
pub struct SenderSessionView {
    pub state: SenderState,
    pub ip: Ipv4,
    pub get_port: u16,
    pub rdt_port: u16,
    pub file_name: Seq<char>,
    pub corrupt_packets: u8,
    pub delay_ms: u64,
    pub last_chunk: usize,
}

/// One transfer on the sender's side: the peer, the file that it asked
/// for, the messages that were not recognised so far, the pause before
/// each answer and the length of the chunk in flight.
pub struct SenderSession {
    pub state: SenderState,
    pub ip: Ipv4,
    pub get_port: u16,
    pub rdt_port: u16,
    pub file_name: String,
    pub corrupt_packets: u8,
    pub delay_ms: u64,
    pub last_chunk: usize,
}

impl View for SenderSession {
    type V = SenderSessionView;

    open spec fn view(&self) -> SenderSessionView {
        SenderSessionView {
            state: self.state,
            ip: self.ip,
            get_port: self.get_port,
            rdt_port: self.rdt_port,
            file_name: self.file_name@,
            corrupt_packets: self.corrupt_packets,
            delay_ms: self.delay_ms,
            last_chunk: self.last_chunk,
        }
    }
}

/// What happens to a sender session, with headers by their views.
pub enum SenderEventView {
    Control(StopAndWaitHeaderView),
    ChunkRead(usize),
    ReadFailed,
}

/// What happens to a sender session.
pub enum SenderEvent<'a> {
    /// A message from the peer arrived on the session's channel.
    Control(&'a StopAndWaitHeader),
    /// A chunk of this many bytes was read from the file; none at its end.
    ChunkRead(usize),
    /// The file could not be opened or read.
    ReadFailed,
}

impl<'a> View for SenderEvent<'a> {
    type V = SenderEventView;

    open spec fn view(&self) -> SenderEventView {
        match self {
            SenderEvent::Control(h) => SenderEventView::Control(h@),
            SenderEvent::ChunkRead(n) => SenderEventView::ChunkRead(*n),
            SenderEvent::ReadFailed => SenderEventView::ReadFailed,
        }
    }
}

impl SenderSessionView {
    /// Whether a message is about this session's transfer: it comes from
    /// the session's peer and names its ports and its file.
    pub open spec fn matches_header(self, h: StopAndWaitHeaderView) -> bool {
        h.ip == self.ip && h.get_port == self.get_port && h.rdt_port == self.rdt_port
            && h.file_name == self.file_name
    }

    /// Whether a message is one that the session acts on while a chunk is
    /// in flight: an acknowledgement or a negative acknowledgement for
    /// this transfer.
    pub open spec fn recognises(self, h: StopAndWaitHeaderView) -> bool {
        self.matches_header(h) && (h.header_type == PacketHeader::StopWaitACK || h.header_type
            == PacketHeader::StopWaitNAK)
    }

    /// The session after one more message that was not recognised: the
    /// session is aborted once there are more than five of them.
    pub open spec fn after_corrupt(self) -> (SenderSessionView, SenderAction) {
        let count = if self.corrupt_packets < u8::MAX {
            (self.corrupt_packets + 1) as u8
        } else {
            self.corrupt_packets
        };
        if count > MAX_CORRUPT_PACKETS {
            (
                SenderSessionView { corrupt_packets: count, state: SenderState::Aborted, ..self },
                SenderAction::Abort,
            )
        } else {
            (SenderSessionView { corrupt_packets: count, ..self }, SenderAction::Wait)
        }
    }

    /// The session after an event, and what its owner does next.
    ///
    /// A session that awaits its request takes peer and file from a
    /// request and has the file opened. A chunk that was read is sent, and
    /// the session waits; at the end of the file the end tag is sent and
    /// the session is done. While a chunk is in flight, an acknowledgement
    /// for this transfer has the next chunk read, and a negative one has
    /// the last chunk sent again. Every other message counts as not
    /// recognised. A session that is done or aborted stays so.
    pub open spec fn step(self, event: SenderEventView) -> (SenderSessionView, SenderAction) {
        match self.state {
            SenderState::AwaitingRequest => match event {
                SenderEventView::Control(h) => if h.header_type == PacketHeader::RDTGET {
                    (
                        SenderSessionView {
                            state: SenderState::Sending,
                            ip: h.ip,
                            get_port: h.get_port,
                            rdt_port: h.rdt_port,
                            file_name: h.file_name,
                            ..self
                        },
                        SenderAction::OpenAndRead,
                    )
                } else {
                    self.after_corrupt()
                },
                _ => (self, SenderAction::Wait),
            },
            SenderState::Sending => match event {
                SenderEventView::ChunkRead(n) => if n == 0 {
                    (SenderSessionView { state: SenderState::Done, ..self }, SenderAction::SendEnd)
                } else {
                    (
                        SenderSessionView { state: SenderState::WaitForAck, last_chunk: n, ..self },
                        SenderAction::SendChunk,
                    )
                },
                SenderEventView::ReadFailed => (
                    SenderSessionView { state: SenderState::Aborted, ..self },
                    SenderAction::Abort,
                ),
                SenderEventView::Control(_) => (self, SenderAction::Wait),
            },
            SenderState::WaitForAck => match event {
                SenderEventView::Control(h) => if self.matches_header(h) && h.header_type
                    == PacketHeader::StopWaitACK {
                    (
                        SenderSessionView { state: SenderState::Sending, ..self },
                        SenderAction::ReadNext,
                    )
                } else if self.matches_header(h) && h.header_type == PacketHeader::StopWaitNAK {
                    (self, SenderAction::ResendChunk)
                } else {
                    self.after_corrupt()
                },
                _ => (self, SenderAction::Wait),
            },
            SenderState::Done => (self, SenderAction::Wait),
            SenderState::Aborted => (self, SenderAction::Wait),
        }
    }
}

impl SenderSession {
    /// A session that awaits its request, for a peer with `prior_comms`
    /// earlier exchanges.
    pub fn new(prior_comms: u16) -> (s: SenderSession)
        ensures
            s@ == (SenderSessionView {
                state: SenderState::AwaitingRequest,
                ip: Ipv4 { a: 0, b: 0, c: 0, d: 0 },
                get_port: 0,
                rdt_port: 0,
                file_name: Seq::empty(),
                corrupt_packets: 0,
                delay_ms: delay_for(prior_comms),
                last_chunk: 0,
            }),
    {
        SenderSession {
            state: SenderState::AwaitingRequest,
            ip: Ipv4 { a: 0, b: 0, c: 0, d: 0 },
            get_port: 0,
            rdt_port: 0,
            file_name: String::new(),
            corrupt_packets: 0,
            delay_ms: delay_to_avoid_surfers(prior_comms),
            last_chunk: 0,
        }
    }

    /// Whether `header` is about this session's transfer.
    pub fn matches_header(&self, header: &StopAndWaitHeader) -> (r: bool)
        ensures
            r == self@.matches_header(header@),
    {
        header.ip == self.ip && header.get_port == self.get_port && header.rdt_port
            == self.rdt_port && header.file_name == self.file_name
    }

    /// Counts one more message that was not recognised.
    fn count_corrupt(&mut self) -> (action: SenderAction)
        ensures
            (final(self)@, action) == old(self)@.after_corrupt(),
    {
        if self.corrupt_packets < u8::MAX {
            self.corrupt_packets = self.corrupt_packets + 1;
        }
        if self.corrupt_packets > MAX_CORRUPT_PACKETS {
            self.state = SenderState::Aborted;
            SenderAction::Abort
        } else {
            SenderAction::Wait
        }
    }
}

/// One step of a sender session: takes in `event` and says what the
/// session's owner does next.
pub fn sw_sender_step(session: &mut SenderSession, event: SenderEvent) -> (action: SenderAction)
    ensures
        (final(session)@, action) == old(session)@.step(event@),
{
    match session.state {
        SenderState::AwaitingRequest => match event {
            SenderEvent::Control(header) => {
                if header.header_type == PacketHeader::RDTGET {
                    session.state = SenderState::Sending;
                    session.ip = header.ip;
                    session.get_port = header.get_port;
                    session.rdt_port = header.rdt_port;
                    session.file_name = header.file_name.clone();
                    SenderAction::OpenAndRead
                } else {
                    session.count_corrupt()
                }
            },
            _ => SenderAction::Wait,
        },
        SenderState::Sending => match event {
            SenderEvent::ChunkRead(n) => {
                if n == 0 {
                    session.state = SenderState::Done;
                    SenderAction::SendEnd
                } else {
                    session.state = SenderState::WaitForAck;
                    session.last_chunk = n;
                    SenderAction::SendChunk
                }
            },
            SenderEvent::ReadFailed => {
                session.state = SenderState::Aborted;
                SenderAction::Abort
            },
            SenderEvent::Control(_) => SenderAction::Wait,
        },
        SenderState::WaitForAck => match event {
            SenderEvent::Control(header) => {
                let ours = session.matches_header(header);
                if ours && header.header_type == PacketHeader::StopWaitACK {
                    session.state = SenderState::Sending;
                    SenderAction::ReadNext
                } else if ours && header.header_type == PacketHeader::StopWaitNAK {
                    SenderAction::ResendChunk
                } else {
                    session.count_corrupt()
                }
            },
            _ => SenderAction::Wait,
        },
        SenderState::Done => SenderAction::Wait,
        SenderState::Aborted => SenderAction::Wait,
    }
}

impl SenderSessionView {
    /// Whether a message is one that the session does not act on: while
    /// the request is awaited, anything but a request; while a chunk is
    /// in flight, anything but an acknowledgement, positive or negative,
    /// for this transfer.
    pub open spec fn unrecognised(self, h: StopAndWaitHeaderView) -> bool {
        match self.state {
            SenderState::AwaitingRequest => h.header_type != PacketHeader::RDTGET,
            SenderState::WaitForAck => !self.recognises(h),
            _ => false,
        }
    }

    /// The session after the messages `headers` arrived, in order.
    pub open spec fn after_controls(self, headers: Seq<StopAndWaitHeaderView>) -> SenderSessionView
        decreases headers.len(),
    {
        if headers.len() == 0 {
            self
        } else {
            self.after_controls(headers.drop_last()).step(
                SenderEventView::Control(headers.last()),
            ).0
        }
    }
}

/// A run of messages that the session does not act on leaves the session
/// as it is but for the count of such messages, until it is aborted.
proof fn lemma_unrecognised_run(s: SenderSessionView, headers: Seq<StopAndWaitHeaderView>)
    requires
        s.state == SenderState::AwaitingRequest || s.state == SenderState::WaitForAck,
        forall|i: int| 0 <= i < headers.len() ==> s.unrecognised(#[trigger] headers[i]),
    ensures
        ({
            let t = s.after_controls(headers);
            ||| t.state == SenderState::Aborted
            ||| headers.len() == 0 && t == s
            ||| t == (SenderSessionView {
                corrupt_packets: (s.corrupt_packets + headers.len()) as u8,
                ..s
            }) && s.corrupt_packets + headers.len() <= MAX_CORRUPT_PACKETS
        }),
    decreases headers.len(),
{
    if headers.len() > 0 {
        let before = headers.drop_last();
        assert forall|i: int| 0 <= i < before.len() implies s.unrecognised(#[trigger] before[i]) by {
            assert(before[i] == headers[i]);
        }
        lemma_unrecognised_run(s, before);
        let mid = s.after_controls(before);
        if mid.state != SenderState::Aborted {
            assert(mid.unrecognised(headers.last())) by {
                assert(s.unrecognised(headers[headers.len() - 1]));
            }
        }
    }
}

/// After six messages in a row that a sender session does not act on, the
/// session is aborted, however few such messages it had seen before.
pub proof fn lemma_corrupt_threshold(s: SenderSessionView, headers: Seq<StopAndWaitHeaderView>)
    requires
        s.state == SenderState::AwaitingRequest || s.state == SenderState::WaitForAck,
        headers.len() == MAX_CORRUPT_PACKETS + 1,
        forall|i: int| 0 <= i < headers.len() ==> s.unrecognised(#[trigger] headers[i]),
    ensures
        s.after_controls(headers).state == SenderState::Aborted,
{
    lemma_unrecognised_run(s, headers);
}

/// One chunk is in flight at a time. A chunk is sent only on the step that
/// takes the session from reading to waiting, and the next chunk is read
/// only on an acknowledgement for this transfer that arrives while the
/// session waits. The chunk in flight is repeated only while the session
/// waits, and repeating it leaves the session as it is.
pub proof fn lemma_one_in_flight(s: SenderSessionView, event: SenderEventView)
    ensures
        s.step(event).1 == SenderAction::SendChunk ==> s.state == SenderState::Sending && s.step(
            event,
        ).0.state == SenderState::WaitForAck,
        s.step(event).1 == SenderAction::ReadNext ==> s.state == SenderState::WaitForAck
            && s.step(event).0.state == SenderState::Sending && (event matches SenderEventView::Control(
            h,
        ) && s.matches_header(h) && h.header_type == PacketHeader::StopWaitACK),
        s.step(event).1 == SenderAction::ResendChunk ==> s.state == SenderState::WaitForAck
            && s.step(event).0 == s,
        s.step(event).1 == SenderAction::OpenAndRead ==> s.state == SenderState::AwaitingRequest
            && s.step(event).0.state == SenderState::Sending,
        s.step(event).1 == SenderAction::SendEnd ==> s.state == SenderState::Sending && s.step(
            event,
        ).0.state == SenderState::Done,
{
}

/// The step that aborts a session is the one that tells its owner to
/// close the file, and an aborted session takes no further step.
pub proof fn lemma_abort_is_final(s: SenderSessionView, event: SenderEventView)
    ensures
        s.state != SenderState::Aborted && s.step(event).0.state == SenderState::Aborted
            ==> s.step(event).1 == SenderAction::Abort,
        s.state == SenderState::Aborted ==> s.step(event) == (s, SenderAction::Wait),
{
}

/// The three headers of a receiver's transfer: the request that opens it,
/// the acknowledgement and the negative acknowledgement.
pub fn three_headers(get_port: u16, rdt_port: u16, file_name: &str, ip: Ipv4) -> (r: (
    StopAndWaitHeader,
    StopAndWaitHeader,
    StopAndWaitHeader,
))
    requires
        header_size_of(file_name@) <= u16::MAX,
    ensures
        r.0@ == (StopAndWaitHeaderView {
            header_type: PacketHeader::RDTGET,
            header_size: header_size_of(file_name@) as u16,
            get_port,
            rdt_port,
            file_name: file_name@,
            ip,
        }),
        r.1@ == (StopAndWaitHeaderView { header_type: PacketHeader::StopWaitACK, ..r.0@ }),
        r.2@ == (StopAndWaitHeaderView { header_type: PacketHeader::StopWaitNAK, ..r.0@ }),
{
    let get_header = StopAndWaitHeader::new(PacketHeader::RDTGET, get_port, rdt_port, file_name, ip);
    let ack_header = StopAndWaitHeader::new(
        PacketHeader::StopWaitACK,
        get_port,
        rdt_port,
        file_name,
        ip,
    );
    let nak_header = StopAndWaitHeader::new(
        PacketHeader::StopWaitNAK,
        get_port,
        rdt_port,
        file_name,
        ip,
    );
    (get_header, ack_header, nak_header)
}

/// What arrives at a receiver, with bytes as a sequence.
pub enum ReceiverEventView {
    Datagram { ip: Ipv4, port: u16, data: Seq<u8> },
    Timeout,
}

/// What arrives at a receiver.
pub enum ReceiverEvent<'a> {
    /// A datagram with the bytes `data` came from `ip` and `port`.
    Datagram { ip: Ipv4, port: u16, data: &'a [u8] },
    /// Nothing came within the time allowed.
    Timeout,
}

impl<'a> View for ReceiverEvent<'a> {
    type V = ReceiverEventView;

    open spec fn view(&self) -> ReceiverEventView {
        match self {
            ReceiverEvent::Datagram { ip, port, data } => ReceiverEventView::Datagram {
                ip: *ip,
                port: *port,
                data: data@,
            },
            ReceiverEvent::Timeout => ReceiverEventView::Timeout,
        }
    }
}

/// What a receiver does next, with bytes as a sequence.
pub enum ReceiverActionView {
    WriteAndAck { payload: Seq<u8> },
    Nak,
    Finish,
    GiveUp,
    Wait,
}

/// What a receiver does next.
pub enum ReceiverAction<'a> {
    /// Write `payload` to the end of the file and acknowledge it.
    WriteAndAck { payload: &'a [u8] },
    /// Write nothing and ask for the last chunk again.
    Nak,
    /// Close the file: the transfer is complete.
    Finish,
    /// Write nothing, send nothing, close the file and report an error:
    /// the transfer has failed.
    GiveUp,
    /// Nothing; wait for the next datagram.
    Wait,
}

impl<'a> View for ReceiverAction<'a> {
    type V = ReceiverActionView;

    open spec fn view(&self) -> ReceiverActionView {
        match self {
            ReceiverAction::WriteAndAck { payload } => ReceiverActionView::WriteAndAck {
                payload: payload@,
            },
            ReceiverAction::Nak => ReceiverActionView::Nak,
            ReceiverAction::Finish => ReceiverActionView::Finish,
            ReceiverAction::GiveUp => ReceiverActionView::GiveUp,
            ReceiverAction::Wait => ReceiverActionView::Wait,
        }
    }
}

/// Whether an event is a datagram from `peer_ip` and `peer_port`.
pub open spec fn comes_from(event: ReceiverEventView, peer_ip: Ipv4, peer_port: u16) -> bool {
    match event {
        ReceiverEventView::Datagram { ip, port, data } => ip == peer_ip && port == peer_port,
        ReceiverEventView::Timeout => false,
    }
}

/// What a receiver that is connected to the sender at `peer_ip` and
/// `peer_port` does about an event.
///
/// A datagram that begins with the end tag completes the transfer. Any
/// other datagram from the sender is written to the file as it is and
/// acknowledged, unless it is empty. A datagram from another address
/// writes nothing and asks the sender for its last chunk again. Where
/// nothing comes within the time allowed, the receiver gives up: it
/// writes nothing and sends nothing, and the transfer has failed.
pub open spec fn receiver_action(
    peer_ip: Ipv4,
    peer_port: u16,
    event: ReceiverEventView,
) -> ReceiverActionView {
    match event {
        ReceiverEventView::Datagram { ip, port, data } => if is_end_datagram(data) {
            ReceiverActionView::Finish
        } else if ip == peer_ip && port == peer_port {
            if data.len() > 0 {
                ReceiverActionView::WriteAndAck { payload: data }
            } else {
                ReceiverActionView::Wait
            }
        } else {
            ReceiverActionView::Nak
        },
        ReceiverEventView::Timeout => ReceiverActionView::GiveUp,
    }
}

/// One step of a receiver that is connected to the sender at `peer_ip`
/// and `peer_port`. Bytes are written only where they came from that
/// sender, and a timeout, and nothing else, makes the receiver give up.
pub fn sw_client_step<'a>(peer_ip: Ipv4, peer_port: u16, event: ReceiverEvent<'a>) -> (action:
    ReceiverAction<'a>)
    ensures
        action@ == receiver_action(peer_ip, peer_port, event@),
        action is WriteAndAck ==> comes_from(event@, peer_ip, peer_port),
        action is GiveUp <==> event is Timeout,
{
    match event {
        ReceiverEvent::Datagram { ip, port, data } => {
            if PacketHeader::is_end(data) {
                ReceiverAction::Finish
            } else if ip == peer_ip && port == peer_port {
                if data.len() > 0 {
                    ReceiverAction::WriteAndAck { payload: data }
                } else {
                    ReceiverAction::Wait
                }
            } else {
                ReceiverAction::Nak
            }
        },
        ReceiverEvent::Timeout => ReceiverAction::GiveUp,
    }
}

/// What tells the sender sessions apart: the address of the peer and the
/// port of its data socket.
#[derive(Clone, Copy, PartialEq, Eq, Structural, Debug)]
pub struct SessionKey {
    pub ip: Ipv4,
    pub port: u16,
}

/// The sender sessions that are open. There is at most one for each key.
pub struct SessionTable {
    keys: Vec<SessionKey>,
}

impl View for SessionTable {
    type V = Set<SessionKey>;

    closed spec fn view(&self) -> Set<SessionKey> {
        self.keys@.to_set()
    }
}

impl SessionTable {
    #[verifier::type_invariant]
    spec fn wf(self) -> bool {
        self.keys@.no_duplicates()
    }

    /// A table without sessions.
    pub fn new() -> (t: SessionTable)
        ensures
            t@ == Set::<SessionKey>::empty(),
    {
        let t = SessionTable { keys: Vec::new() };
        proof {
            assert(t@ =~= Set::<SessionKey>::empty());
        }
        t
    }

    /// Number of open sessions.
    pub fn len(&self) -> (n: usize)
        ensures
            self@.finite(),
            n == self@.len(),
    {
        proof {
            use_type_invariant(self);
            self.keys@.unique_seq_to_set();
            vstd::seq_lib::seq_to_set_is_finite(self.keys@);
        }
        self.keys.len()
    }

    /// Index of `key` among the keys.
    fn index_of(&self, key: SessionKey) -> (r: Option<usize>)
        ensures
            match r {
                Some(i) => i < self.keys@.len() && self.keys@[i as int] == key,
                None => !self.keys@.contains(key),
            },
    {
        let mut i: usize = 0;
        while i < self.keys.len()
            invariant
                i <= self.keys.len(),
                forall|j: int| 0 <= j < i ==> self.keys@[j] != key,
            decreases self.keys.len() - i,
        {
            if self.keys[i] == key {
                return Some(i);
            }
            i += 1;
        }
        None
    }

    /// Whether a session is open for `key`.
    pub fn contains(&self, key: SessionKey) -> (r: bool)
        ensures
            r == self@.contains(key),
    {
        match self.index_of(key) {
            Some(i) => {
                proof {
                    assert(self.keys@.contains(key));
                }
                true
            },
            None => false,
        }
    }

    /// Opens a session for `key` unless one is open, and says whether it
    /// did.
    pub fn open(&mut self, key: SessionKey) -> (opened: bool)
        ensures
            opened == !old(self)@.contains(key),
            final(self)@ == old(self)@.insert(key),
    {
        proof {
            use_type_invariant(&*self);
        }
        let ghost before = self.keys@;
        if self.contains(key) {
            proof {
                assert(self@.insert(key) =~= self@);
            }
            return false;
        }
        let mut keys: Vec<SessionKey> = Vec::new();
        std::mem::swap(&mut self.keys, &mut keys);
        keys.push(key);
        proof {
            assert(keys@ == before.push(key));
            assert forall|i: int, j: int| 0 <= i < j < keys@.len() implies keys@[i] != keys@[j] by {
                if j == before.len() {
                    assert(before.contains(before[i]));
                }
            }
            assert forall|k: SessionKey| keys@.to_set().contains(k) <==> before.to_set().insert(
                key,
            ).contains(k) by {
                if keys@.contains(k) {
                    let i = choose|i: int| 0 <= i < keys@.len() && keys@[i] == k;
                    if i < before.len() {
                        assert(before[i] == k);
                    }
                }
                if before.contains(k) {
                    let i = choose|i: int| 0 <= i < before.len() && before[i] == k;
                    assert(keys@[i] == k);
                }
                if k == key {
                    assert(keys@[before.len() as int] == k);
                }
            }
            assert(keys@.to_set() =~= before.to_set().insert(key));
        }
        self.keys = keys;
        true
    }

    /// Closes the session for `key` where one is open, and says whether it
    /// did. No other session is touched.
    pub fn close(&mut self, key: SessionKey) -> (closed: bool)
        ensures
            closed == old(self)@.contains(key),
            final(self)@ == old(self)@.remove(key),
    {
        proof {
            use_type_invariant(&*self);
        }
        let ghost before = self.keys@;
        match self.index_of(key) {
            Some(i) => {
                let mut keys: Vec<SessionKey> = Vec::new();
                std::mem::swap(&mut self.keys, &mut keys);
                keys.remove(i);
                proof {
                    let after = keys@;
                    assert(after == before.remove(i as int));
                    assert(before.contains(key));
                    assert forall|a: int, b: int| 0 <= a < b < after.len() implies after[a]
                        != after[b] by {
                        let a2 = if a < i {
                            a
                        } else {
                            a + 1
                        };
                        let b2 = if b < i {
                            b
                        } else {
                            b + 1
                        };
                        assert(after[a] == before[a2] && after[b] == before[b2]);
                    }
                    assert forall|k: SessionKey| after.to_set().contains(k) <==> before.to_set().remove(
                        key,
                    ).contains(k) by {
                        if after.contains(k) {
                            let j = choose|j: int| 0 <= j < after.len() && after[j] == k;
                            let j2 = if j < i {
                                j
                            } else {
                                j + 1
                            };
                            assert(before[j2] == k);
                            assert(before.contains(k));
                            assert(j2 != i);
                        }
                        if before.contains(k) && k != key {
                            let j = choose|j: int| 0 <= j < before.len() && before[j] == k;
                            let j2 = if j < i {
                                j
                            } else {
                                j - 1
                            };
                            assert(after[j2] == k);
                        }
                    }
                    assert(after.to_set() =~= before.to_set().remove(key));
                }
                self.keys = keys;
                true
            },
            None => {
                proof {
                    assert(self@.remove(key) =~= self@);
                }
                false
            },
        }
    }
}

/// What the reader of the data socket does with a datagram.
#[derive(Clone, Copy, PartialEq, Eq, Structural, Debug)]
pub enum DemuxAction {
    /// Open a session for a peer with `prior_comms` earlier exchanges and
    /// hand it the request.
    Open { prior_comms: u16 },
    /// Hand the message to the session that is open for its key.
    Forward,
    /// Drop the datagram.
    Drop,
}

/// What the reader of the data socket does with a message that came from
/// the port `source_port` of the address in its header.
///
/// A message for an open session goes to that session. A request from a
/// peer without a session opens one where there is room for one more
/// transfer and where the peer is known or the file that it names is
/// shared. Everything else is dropped.
pub open spec fn demux_action(
    open: Set<SessionKey>,
    has_room: bool,
    nodes: Seq<NodeView>,
    files: Seq<Seq<char>>,
    header: StopAndWaitHeaderView,
    source_port: u16,
) -> DemuxAction {
    if open.contains(SessionKey { ip: header.ip, port: source_port }) {
        DemuxAction::Forward
    } else if header.header_type == PacketHeader::RDTGET && has_room && (has_address(
        nodes,
        header.ip,
        header.get_port,
    ) || files.contains(header.file_name)) {
        DemuxAction::Open { prior_comms: prior_comms_of(nodes, header.ip, header.get_port) }
    } else {
        DemuxAction::Drop
    }
}

/// One step of the reader of the data socket: what to do with a message
/// that came from the port `source_port`. Where a session is opened, its
/// key enters the table and the count of transfers goes up by one;
/// nothing else changes either.
pub fn sw_server_step(
    table: &mut SessionTable,
    counter: &mut ClientCounter,
    nodes: &Registry,
    files: &Vec<String>,
    header: &StopAndWaitHeader,
    source_port: u16,
) -> (action: DemuxAction)
    ensures
        action == demux_action(
            old(table)@,
            old(counter).active() < old(counter).limit(),
            nodes@,
            string_views(files@),
            header@,
            source_port,
        ),
        final(counter).limit() == old(counter).limit(),
        final(counter).active() <= final(counter).limit(),
        action is Open ==> final(table)@ == old(table)@.insert(
            SessionKey { ip: header.ip, port: source_port },
        ) && final(counter).active() == old(counter).active() + 1,
        !(action is Open) ==> final(table)@ == old(table)@ && final(counter).active() == old(
            counter,
        ).active(),
{
    let key = SessionKey { ip: header.ip, port: source_port };
    let _active = counter.current();
    if table.contains(key) {
        return DemuxAction::Forward;
    }
    if header.header_type != PacketHeader::RDTGET || !counter.has_room() {
        return DemuxAction::Drop;
    }
    let file_name = chars_of(header.file_name.as_str());
    let prior_comms: u16 = match nodes.prior_comms(header.ip, header.get_port) {
        Some(count) => count,
        None => {
            if !file_is_shared(files, file_name.as_slice()) {
                return DemuxAction::Drop;
            }
            0
        },
    };
    table.open(key);
    update_client_number(counter, true);
    DemuxAction::Open { prior_comms }
}

/// The end of a sender session, done or aborted: its key leaves the table
/// and the count of transfers goes down by one. Where no session is open
/// for `key`, nothing changes. No other session is touched.
pub fn sw_session_closed(
    table: &mut SessionTable,
    counter: &mut ClientCounter,
    key: SessionKey,
) -> (closed: bool)
    ensures
        closed == old(table)@.contains(key),
        final(table)@ == old(table)@.remove(key),
        final(counter).limit() == old(counter).limit(),
        final(counter).active() <= final(counter).limit(),
        final(counter).active() == (if closed && old(counter).active() > 0 {
            old(counter).active() - 1
        } else {
            old(counter).active() as int
        }),
{
    let _active = counter.current();
    if table.close(key) {
        update_client_number(counter, false);
        true
    } else {
        false
    }
}

/// Most reads that may time out before a data socket that has served no
/// session is given up.
pub const MAX_IDLE_ROUNDS: u32 = 30;

/// Whether the reader of a data socket is done, with `open` sessions at
/// the moment and `idle_rounds` reads that have timed out so far. It is
/// done once no session is open and either a session was served or more
/// than `MAX_IDLE_ROUNDS` reads have timed out: the socket of a transfer
/// lives for that transfer, and one that the requester never came for is
/// not kept.
pub fn data_server_done(open: usize, served: bool, idle_rounds: u32) -> (done: bool)
    ensures
        done == (open == 0 && (served || idle_rounds > MAX_IDLE_ROUNDS)),
{
    open == 0 && (served || idle_rounds > MAX_IDLE_ROUNDS)
}

} // verus!
