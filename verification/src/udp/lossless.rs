//! What stop-and-wait achieves where no datagram is lost: the receiver's
//! file equals the sender's, and each chunk is acknowledged once.

use crate::networking::Ipv4;
use crate::udp::headers::{
    is_end_datagram, lemma_rdt_round_trip, parse_rdt_header, PacketHeader, StopAndWaitHeaderView,
};
use crate::udp::reliable::{
    receiver_action, ReceiverActionView, ReceiverEventView, SenderAction, SenderEventView,
    SenderSessionView, SenderState,
};
use vstd::arithmetic::div_mod::{lemma_basic_div, lemma_div_plus_one, lemma_mod_add_multiples_vanish};
use vstd::prelude::*;
use vstd::utf8::encode_utf8;

verus! {

/// The chunk of `file` that is read at `offset` into a buffer of
/// `chunk_size` bytes: the bytes up to the buffer's size or the end of
/// the file.
pub open spec fn chunk_at(file: Seq<u8>, offset: int, chunk_size: int) -> Seq<u8> {
    if offset + chunk_size <= file.len() {
        file.subrange(offset, offset + chunk_size)
    } else {
        file.subrange(offset, file.len() as int)
    }
}

/// The number of chunks of `chunk_size` bytes that hold `len` bytes: the
/// quotient, rounded up.
pub open spec fn chunk_count(len: int, chunk_size: int) -> int {
    (len + chunk_size - 1) / chunk_size
}

/// How a transfer stands: what the receiver has written, how many
/// acknowledgements it has sent, the sender's session, and whether the
/// receiver has closed its file on the end tag.
pub struct TransferView {
    pub written: Seq<u8>,
    pub acks: nat,
    pub sender: SenderSessionView,
    pub complete: bool,
}

/// The datagram that ends a transfer.
pub open spec fn end_datagram() -> Seq<u8> {
    encode_utf8(PacketHeader::RDTEND.tag())
}

/// What the sender does when the receiver's answer `ack` arrives: the
/// answer travels as bytes and is read from them again.
pub open spec fn answer_arrives(
    waiting: SenderSessionView,
    ack: StopAndWaitHeaderView,
) -> (SenderSessionView, SenderAction) {
    match parse_rdt_header(ack.wire(), ack.ip) {
        Some(heard) => waiting.step(SenderEventView::Control(heard.0)),
        None => (waiting, SenderAction::Wait),
    }
}

/// A transfer in which every datagram arrives. The sender, about to read
/// at `offset`, takes the chunk there. It sends the chunk; the receiver,
/// connected to the sender at `ip` and `port`, writes it and answers with
/// `ack`; the sender moves on. At the end of the file the sender sends
/// the end tag and the receiver closes its file. The transfer stops early
/// where one side does not play its part.
pub open spec fn lossless_transfer(
    sender: SenderSessionView,
    ip: Ipv4,
    port: u16,
    ack: StopAndWaitHeaderView,
    file: Seq<u8>,
    chunk_size: int,
    offset: int,
    written: Seq<u8>,
    acks: nat,
) -> TransferView
    decreases file.len() - offset,
{
    let data = chunk_at(file, offset, chunk_size);
    let read = sender.step(SenderEventView::ChunkRead(data.len() as usize));
    if 0 <= offset <= file.len() && 0 < chunk_size <= usize::MAX {
        if read.1 == SenderAction::SendEnd {
            let closed = receiver_action(
                ip,
                port,
                ReceiverEventView::Datagram { ip, port, data: end_datagram() },
            );
            TransferView {
                written,
                acks,
                sender: read.0,
                complete: closed == ReceiverActionView::Finish,
            }
        } else if read.1 == SenderAction::SendChunk && data.len() > 0 {
            match receiver_action(ip, port, ReceiverEventView::Datagram { ip, port, data }) {
                ReceiverActionView::WriteAndAck { payload } => {
                    let answered = answer_arrives(read.0, ack);
                    if answered.1 == SenderAction::ReadNext {
                        lossless_transfer(
                            answered.0,
                            ip,
                            port,
                            ack,
                            file,
                            chunk_size,
                            offset + data.len(),
                            written + payload,
                            acks + 1,
                        )
                    } else {
                        TransferView {
                            written: written + payload,
                            acks: acks + 1,
                            sender: answered.0,
                            complete: false,
                        }
                    }
                },
                _ => TransferView { written, acks, sender: read.0, complete: false },
            }
        } else {
            TransferView { written, acks, sender: read.0, complete: false }
        }
    } else {
        TransferView { written, acks, sender, complete: false }
    }
}

/// No chunk of the file, as it is cut into chunks of `chunk_size` bytes,
/// begins with the end tag.
pub open spec fn no_chunk_looks_like_end(file: Seq<u8>, chunk_size: int) -> bool {
    forall|offset: int|
        0 <= offset < file.len() && offset % chunk_size == 0 ==> !is_end_datagram(
            #[trigger] chunk_at(file, offset, chunk_size),
        )
}

/// The transfer from `offset` on, where what was written so far is the
/// file up to `offset`.
proof fn lemma_lossless_from(
    sender: SenderSessionView,
    ip: Ipv4,
    port: u16,
    ack: StopAndWaitHeaderView,
    file: Seq<u8>,
    chunk_size: int,
    offset: int,
    acks: nat,
)
    requires
        sender.state == SenderState::Sending,
        sender.matches_header(ack),
        ack.header_type == PacketHeader::StopWaitACK,
        ack.wf(),
        0 < chunk_size <= usize::MAX,
        0 <= offset <= file.len(),
        offset % chunk_size == 0 || offset == file.len(),
        no_chunk_looks_like_end(file, chunk_size),
    ensures
        ({
            let t = lossless_transfer(
                sender,
                ip,
                port,
                ack,
                file,
                chunk_size,
                offset,
                file.take(offset),
                acks,
            );
            &&& t.complete
            &&& t.written == file
            &&& t.acks == acks + chunk_count(file.len() - offset, chunk_size)
            &&& t.sender.state == SenderState::Done
        }),
    decreases file.len() - offset,
{
    let data = chunk_at(file, offset, chunk_size);
    let remaining = file.len() - offset;
    crate::udp::headers::lemma_end_datagram();
    if offset == file.len() {
        assert(data.len() == 0);
        assert(file.take(offset) =~= file);
        lemma_basic_div(chunk_size - 1, chunk_size);
    } else {
        assert(data.len() > 0);
        assert(data.len() <= chunk_size);
        assert(!is_end_datagram(data));
        let next = offset + data.len();
        let waiting = sender.step(SenderEventView::ChunkRead(data.len() as usize)).0;
        let answered = answer_arrives(waiting, ack);
        assert(waiting.matches_header(ack));
        assert(parse_rdt_header(ack.wire(), ack.ip) == Some((ack, Seq::<u8>::empty()))) by {
            lemma_rdt_round_trip(ack, Seq::empty());
            assert(ack.wire() + Seq::<u8>::empty() =~= ack.wire());
        }
        assert(answered.1 == SenderAction::ReadNext);
        assert(file.take(offset) + data =~= file.take(next));
        if data.len() == chunk_size {
            lemma_mod_add_multiples_vanish(offset, chunk_size);
            lemma_div_plus_one(remaining - chunk_size + chunk_size - 1, chunk_size);
            assert(chunk_count(remaining, chunk_size) == 1 + chunk_count(
                remaining - chunk_size,
                chunk_size,
            ));
        } else {
            assert(next == file.len());
            lemma_basic_div(remaining - 1, chunk_size);
            lemma_div_plus_one(remaining - 1, chunk_size);
            lemma_basic_div(chunk_size - 1, chunk_size);
            assert(chunk_count(remaining, chunk_size) == 1);
            assert(chunk_count(0, chunk_size) == 0);
        }
        lemma_lossless_from(
            answered.0,
            ip,
            port,
            ack,
            file,
            chunk_size,
            next,
            (acks + 1) as nat,
        );
    }
}

/// A file that is sent by stop-and-wait with no datagram lost arrives
/// byte for byte, the receiver sends one acknowledgement for each chunk,
/// that is the file's length divided by the chunk size and rounded up,
/// and the sender's session ends as done. The receiver answers with the
/// well-formed acknowledgement `ack` for the sender's transfer. This holds
/// of every file no chunk of which begins with the end tag: such a chunk
/// would be taken for the end of the transfer.
pub proof fn lemma_lossless_transfer(
    sender: SenderSessionView,
    ip: Ipv4,
    port: u16,
    ack: StopAndWaitHeaderView,
    file: Seq<u8>,
    chunk_size: int,
)
    requires
        sender.state == SenderState::Sending,
        sender.matches_header(ack),
        ack.header_type == PacketHeader::StopWaitACK,
        ack.wf(),
        0 < chunk_size <= usize::MAX,
        no_chunk_looks_like_end(file, chunk_size),
    ensures
        ({
            let t = lossless_transfer(
                sender,
                ip,
                port,
                ack,
                file,
                chunk_size,
                0,
                Seq::empty(),
                0,
            );
            &&& t.complete
            &&& t.written == file
            &&& t.acks == chunk_count(file.len() as int, chunk_size)
            &&& t.sender.state == SenderState::Done
        }),
{
    assert(file.take(0) =~= Seq::<u8>::empty());
    assert(0int % chunk_size == 0) by {
        lemma_basic_div(0, chunk_size);
        vstd::arithmetic::div_mod::lemma_fundamental_div_mod(0, chunk_size);
    }
    lemma_lossless_from(sender, ip, port, ack, file, chunk_size, 0, 0);
}

} // verus!
