//! The headers of every packet that the nodes exchange.
//!
//! The control plane speaks in newline-terminated ASCII tags followed by
//! text. The reliable transport speaks in a fixed three-byte ASCII tag
//! followed by a small binary header.

use crate::networking::Ipv4;
use crate::number::{decimal, is_digit, lemma_decimal, parse_u16, push_decimal, read_u16};
use crate::text::{
    chars_of, first_index, first_line, first_line_of, has_no, has_prefix, lemma_first_index,
    lemma_lines_three, lines, lines_of, string_from_utf8, string_of, strip_cr, views,
};
use vstd::prelude::*;
use vstd::slice::{slice_subrange, slice_to_vec};
use vstd::utf8::{
    decode_utf8, decode_utf8_encode_utf8, encode_utf8, encode_utf8_decode_utf8,
    encode_utf8_valid_utf8, is_ascii_chars, is_ascii_chars_encode_utf8, valid_utf8,
};

verus! {

/// The backend that moves the bytes of a file.
#[derive(Clone, Copy, PartialEq, Eq, Structural, Debug)]
pub enum ConnectionType {
    TCP,
    SAndW,
    GoBackN,
    SRepeat,
}

impl Default for ConnectionType {
    fn default() -> (t: ConnectionType)
        ensures
            t == ConnectionType::TCP,
    {
        ConnectionType::TCP
    }
}

/// What kind of packet a datagram is, as told by its leading tag.
#[derive(Clone, Copy, PartialEq, Eq, Structural, Debug)]
pub enum PacketHeader {
    Disc,
    GET,
    GETACK,
    TCPGET,
    RDTGET,
    StopWaitACK,
    StopWaitNAK,
    GoBackN,
    SRepeat,
    RDTEND,
    Unrecognized,
}

/// The tag that precedes a chunk of file data where one is framed.
pub open spec fn data_tag() -> Seq<char> {
    seq!['S', 'W', 'D']
}

impl PacketHeader {
    /// The tag that a header is written as. The three tags of the control
    /// plane end in a line feed; the others are three or six letters. A
    /// header that was not recognised has no tag: it is written as the
    /// empty text, which is read as not recognised again.
    pub open spec fn tag(self) -> Seq<char> {
        match self {
            PacketHeader::Disc => seq!['D', 'I', 'S', 'C', '\n'],
            PacketHeader::GET => seq!['G', 'E', 'T', '\n'],
            PacketHeader::GETACK => seq!['A', 'C', 'K', '\n'],
            PacketHeader::TCPGET => seq!['T', 'C', 'P', 'G', 'E', 'T'],
            PacketHeader::RDTGET => seq!['R', 'D', 'T'],
            PacketHeader::StopWaitACK => seq!['S', 'W', 'A'],
            PacketHeader::StopWaitNAK => seq!['S', 'W', 'N'],
            PacketHeader::GoBackN => seq!['G', 'B', 'N'],
            PacketHeader::SRepeat => seq!['S', 'E', 'R'],
            PacketHeader::RDTEND => seq!['E', 'N', 'D'],
            PacketHeader::Unrecognized => Seq::empty(),
        }
    }

    /// The kind of a packet: its first line, closed by a line feed, is held
    /// against the tags one after the other.
    pub open spec fn classify(packet: Seq<char>) -> PacketHeader {
        let header = first_line(packet).push('\n');
        if PacketHeader::Disc.tag().is_prefix_of(header) {
            PacketHeader::Disc
        } else if PacketHeader::GET.tag().is_prefix_of(header) {
            PacketHeader::GET
        } else if PacketHeader::GETACK.tag().is_prefix_of(header) {
            PacketHeader::GETACK
        } else if PacketHeader::TCPGET.tag().is_prefix_of(header) {
            PacketHeader::TCPGET
        } else if PacketHeader::StopWaitACK.tag().is_prefix_of(header) {
            PacketHeader::StopWaitACK
        } else if PacketHeader::StopWaitNAK.tag().is_prefix_of(header) {
            PacketHeader::StopWaitNAK
        } else if PacketHeader::GoBackN.tag().is_prefix_of(header) {
            PacketHeader::GoBackN
        } else if PacketHeader::SRepeat.tag().is_prefix_of(header) {
            PacketHeader::SRepeat
        } else if PacketHeader::RDTGET.tag().is_prefix_of(header) {
            PacketHeader::RDTGET
        } else if PacketHeader::RDTEND.tag().is_prefix_of(header) {
            PacketHeader::RDTEND
        } else {
            PacketHeader::Unrecognized
        }
    }

    /// Tag of a peer list.
    pub fn discovery() -> (s: &'static str)
        ensures
            s@ == PacketHeader::Disc.tag(),
    {
        proof {
            reveal_strlit("DISC\n");
        }
        "DISC\n"
    }

    /// Tag of the answer to a request for a file.
    pub fn ack() -> (s: &'static str)
        ensures
            s@ == PacketHeader::GETACK.tag(),
    {
        proof {
            reveal_strlit("ACK\n");
        }
        "ACK\n"
    }

    /// Tag of a request for a file.
    pub fn get() -> (s: &'static str)
        ensures
            s@ == PacketHeader::GET.tag(),
    {
        proof {
            reveal_strlit("GET\n");
        }
        "GET\n"
    }

    /// Tag that opens a transfer over a stream.
    pub fn tcp_get() -> (s: &'static str)
        ensures
            s@ == PacketHeader::TCPGET.tag(),
    {
        proof {
            reveal_strlit("TCPGET");
        }
        "TCPGET"
    }

    /// Tag that opens a reliable transfer over datagrams.
    pub fn rdt_get() -> (s: &'static str)
        ensures
            s@ == PacketHeader::RDTGET.tag(),
    {
        proof {
            reveal_strlit("RDT");
        }
        "RDT"
    }

    /// Tag of a framed chunk of file data.
    pub fn stop_and_wait_data() -> (s: &'static str)
        ensures
            s@ == data_tag(),
    {
        proof {
            reveal_strlit("SWD");
        }
        "SWD"
    }

    /// Tag that acknowledges a chunk.
    pub fn stop_and_wait_ack() -> (s: &'static str)
        ensures
            s@ == PacketHeader::StopWaitACK.tag(),
    {
        proof {
            reveal_strlit("SWA");
        }
        "SWA"
    }

    /// Tag that asks for the last chunk again.
    pub fn stop_and_wait_nak() -> (s: &'static str)
        ensures
            s@ == PacketHeader::StopWaitNAK.tag(),
    {
        proof {
            reveal_strlit("SWN");
        }
        "SWN"
    }

    /// Tag kept for a go-back-n transport.
    pub fn go_back_n() -> (s: &'static str)
        ensures
            s@ == PacketHeader::GoBackN.tag(),
    {
        proof {
            reveal_strlit("GBN");
        }
        "GBN"
    }

    /// Tag kept for a selective-repeat transport.
    pub fn selective_repeat() -> (s: &'static str)
        ensures
            s@ == PacketHeader::SRepeat.tag(),
    {
        proof {
            reveal_strlit("SER");
        }
        "SER"
    }

    /// Tag that ends a reliable transfer.
    pub fn rdt_end() -> (s: &'static str)
        ensures
            s@ == PacketHeader::RDTEND.tag(),
    {
        proof {
            reveal_strlit("END");
        }
        "END"
    }

    /// The tag that this header is written as.
    pub fn as_str(&self) -> (s: &'static str)
        ensures
            s@ == self.tag(),
    {
        match self {
            PacketHeader::Disc => PacketHeader::discovery(),
            PacketHeader::GET => PacketHeader::get(),
            PacketHeader::GETACK => PacketHeader::ack(),
            PacketHeader::TCPGET => PacketHeader::tcp_get(),
            PacketHeader::RDTGET => PacketHeader::rdt_get(),
            PacketHeader::StopWaitACK => PacketHeader::stop_and_wait_ack(),
            PacketHeader::StopWaitNAK => PacketHeader::stop_and_wait_nak(),
            PacketHeader::GoBackN => PacketHeader::go_back_n(),
            PacketHeader::SRepeat => PacketHeader::selective_repeat(),
            PacketHeader::RDTEND => PacketHeader::rdt_end(),
            PacketHeader::Unrecognized => {
                proof {
                    reveal_strlit("");
                }
                ""
            },
        }
    }

    /// The tag that this header is written as, as an owned string.
    pub fn to_string(&self) -> (s: String)
        ensures
            s@ == self.tag(),
    {
        self.as_str().to_owned()
    }

    /// The kind of the packet that the characters `packet` hold.
    pub fn packet_type_of(packet: &[char]) -> (h: PacketHeader)
        ensures
            h == PacketHeader::classify(packet@),
    {
        let mut header = first_line_of(packet);
        header.push('\n');
        if has_prefix(header.as_slice(), chars_of(PacketHeader::discovery()).as_slice()) {
            PacketHeader::Disc
        } else if has_prefix(header.as_slice(), chars_of(PacketHeader::get()).as_slice()) {
            PacketHeader::GET
        } else if has_prefix(header.as_slice(), chars_of(PacketHeader::ack()).as_slice()) {
            PacketHeader::GETACK
        } else if has_prefix(header.as_slice(), chars_of(PacketHeader::tcp_get()).as_slice()) {
            PacketHeader::TCPGET
        } else if has_prefix(
            header.as_slice(),
            chars_of(PacketHeader::stop_and_wait_ack()).as_slice(),
        ) {
            PacketHeader::StopWaitACK
        } else if has_prefix(
            header.as_slice(),
            chars_of(PacketHeader::stop_and_wait_nak()).as_slice(),
        ) {
            PacketHeader::StopWaitNAK
        } else if has_prefix(header.as_slice(), chars_of(PacketHeader::go_back_n()).as_slice()) {
            PacketHeader::GoBackN
        } else if has_prefix(
            header.as_slice(),
            chars_of(PacketHeader::selective_repeat()).as_slice(),
        ) {
            PacketHeader::SRepeat
        } else if has_prefix(header.as_slice(), chars_of(PacketHeader::rdt_get()).as_slice()) {
            PacketHeader::RDTGET
        } else if has_prefix(header.as_slice(), chars_of(PacketHeader::rdt_end()).as_slice()) {
            PacketHeader::RDTEND
        } else {
            PacketHeader::Unrecognized
        }
    }

    /// The kind of the packet that `packet_str` holds.
    pub fn packet_type(packet_str: &str) -> (h: PacketHeader)
        ensures
            h == PacketHeader::classify(packet_str@),
    {
        let chars = chars_of(packet_str);
        PacketHeader::packet_type_of(chars.as_slice())
    }
}

/// A prefix agrees with the text at each of its positions.
pub proof fn lemma_prefix_index(p: Seq<char>, s: Seq<char>, k: int)
    requires
        p.is_prefix_of(s),
        0 <= k < p.len(),
    ensures
        k < s.len(),
        s[k] == p[k],
{
    assert(s.subrange(0, p.len() as int)[k] == s[k]);
}

/// Where `tag` ends in its only line feed and has no carriage return
/// before it, the first line of `tag + rest`, closed by a line feed, is
/// `tag`.
pub proof fn lemma_header_of_line_tag(tag: Seq<char>, rest: Seq<char>)
    requires
        tag.len() >= 2,
        tag.last() == '\n',
        tag[tag.len() - 2] != '\r',
        forall|k: int| 0 <= k < tag.len() - 1 ==> tag[k] != '\n',
    ensures
        first_line(tag + rest).push('\n') == tag,
{
    let s = tag + rest;
    let n = tag.len() - 1;
    lemma_first_index(s, '\n');
    let i = first_index(s, '\n');
    assert(s[n] == '\n');
    assert(i == n) by {
        if i < n {
            assert(s[i] == tag[i]);
        }
    }
    assert(s.take(i) =~= tag.take(n));
    assert(tag.take(n).last() == tag[n - 1]);
    assert(first_line(s).push('\n') =~= tag);
}

/// Where `tag` holds no line feed and does not end in a carriage return,
/// the first line of `tag + rest` begins with `tag`.
pub proof fn lemma_header_of_plain_tag(tag: Seq<char>, rest: Seq<char>)
    requires
        tag.len() >= 1,
        tag.last() != '\r',
        forall|k: int| 0 <= k < tag.len() ==> tag[k] != '\n',
    ensures
        tag.is_prefix_of(first_line(tag + rest).push('\n')),
{
    let s = tag + rest;
    let n = tag.len() as int;
    lemma_first_index(s, '\n');
    let i = first_index(s, '\n');
    let line = first_line(s);
    assert(i >= n) by {
        if i < n {
            assert(s[i] == tag[i]);
        }
    }
    assert(line.len() >= n && line.take(n) =~= tag) by {
        if 0 <= i < s.len() {
            if i == n {
                assert(s.take(i) =~= tag);
            } else {
                assert(s.take(i).take(n) =~= tag);
                if strip_cr(s.take(i)) != s.take(i) {
                    assert(s.take(i).drop_last().take(n) =~= tag);
                }
            }
        } else {
            assert(s.take(n) =~= tag);
        }
    }
    assert(line.push('\n').subrange(0, n) =~= line.take(n));
}

/// A packet whose header line begins with the tag of a recognised header
/// is classified as that header: no two tags begin alike.
pub proof fn lemma_classify_by_tag(h: PacketHeader, packet: Seq<char>)
    requires
        h != PacketHeader::Unrecognized,
        h.tag().is_prefix_of(first_line(packet).push('\n')),
    ensures
        PacketHeader::classify(packet) == h,
{
    let header = first_line(packet).push('\n');
    lemma_tags_differ(h, header);
    lemma_tags_differ(PacketHeader::Disc, header);
    lemma_tags_differ(PacketHeader::GET, header);
    lemma_tags_differ(PacketHeader::GETACK, header);
    lemma_tags_differ(PacketHeader::TCPGET, header);
    lemma_tags_differ(PacketHeader::StopWaitACK, header);
    lemma_tags_differ(PacketHeader::StopWaitNAK, header);
    lemma_tags_differ(PacketHeader::GoBackN, header);
    lemma_tags_differ(PacketHeader::SRepeat, header);
    lemma_tags_differ(PacketHeader::RDTGET, header);
    lemma_tags_differ(PacketHeader::RDTEND, header);
}

/// Text that begins with the tag of a recognised header, whatever follows
/// the tag, is classified as that header.
pub proof fn lemma_classify_tag(h: PacketHeader, rest: Seq<char>)
    requires
        h != PacketHeader::Unrecognized,
    ensures
        PacketHeader::classify(h.tag() + rest) == h,
{
    let tag = h.tag();
    if h == PacketHeader::Disc || h == PacketHeader::GET || h == PacketHeader::GETACK {
        lemma_header_of_line_tag(tag, rest);
        assert(tag.subrange(0, tag.len() as int) =~= tag);
    } else {
        lemma_header_of_plain_tag(tag, rest);
    }
    lemma_classify_by_tag(h, tag + rest);
}

/// The tag of every header is read back as that header, the empty tag of
/// a header that was not recognised included.
pub proof fn lemma_tag_is_read_back(h: PacketHeader)
    ensures
        PacketHeader::classify(h.tag()) == h,
{
    if h == PacketHeader::Unrecognized {
        let header = first_line(h.tag()).push('\n');
        assert(header =~= seq!['\n']);
        assert(header.len() == 1);
    } else {
        lemma_classify_tag(h, Seq::empty());
        assert(h.tag() + Seq::<char>::empty() =~= h.tag());
    }
}

/// Text that begins with the tag of a recognised header has the first
/// three characters of that tag.
pub proof fn lemma_tags_differ(h: PacketHeader, header: Seq<char>)
    requires
        h != PacketHeader::Unrecognized,
    ensures
        h.tag().is_prefix_of(header) ==> header.len() >= 3 && header[0] == h.tag()[0] && header[1]
            == h.tag()[1] && header[2] == h.tag()[2],
{
    if h.tag().is_prefix_of(header) {
        lemma_prefix_index(h.tag(), header, 0);
        lemma_prefix_index(h.tag(), header, 1);
        lemma_prefix_index(h.tag(), header, 2);
    }
}

/// What a `TCPHeader` holds, with its file name as a sequence of
/// characters.
pub struct TCPHeaderView {
    pub conn_type: PacketHeader,
    pub udp_get_port: u16,
    pub file_name: Seq<char>,
}

/// The first packet of a transfer over a stream: who asks, and for what.
pub struct TCPHeader {
    pub conn_type: PacketHeader,
    pub udp_get_port: u16,
    pub file_name: String,
}

impl View for TCPHeader {
    type V = TCPHeaderView;

    open spec fn view(&self) -> TCPHeaderView {
        TCPHeaderView {
            conn_type: self.conn_type,
            udp_get_port: self.udp_get_port,
            file_name: self.file_name@,
        }
    }
}

/// Reads the first packet of a stream. Its first line gives the kind, its
/// second the requester's control port (0 where that line is no number
/// that fits 16 bits), its third the file name (empty where there is
/// none). A packet of fewer than two lines is not read.
pub open spec fn parse_tcp_header(packet: Seq<char>) -> Option<TCPHeaderView> {
    let ls = lines(packet);
    if ls.len() < 2 {
        None
    } else {
        Some(
            TCPHeaderView {
                conn_type: PacketHeader::classify(ls[0]),
                udp_get_port: match parse_u16(ls[1]) {
                    Some(port) => port,
                    None => 0,
                },
                file_name: if ls.len() > 2 {
                    ls[2]
                } else {
                    Seq::empty()
                },
            },
        )
    }
}

/// The text of the first packet of a stream: tag, port and file name, one
/// per line.
pub open spec fn tcp_header_text(h: TCPHeaderView) -> Seq<char> {
    h.conn_type.tag() + seq!['\n'] + decimal(h.udp_get_port as nat) + seq!['\n'] + h.file_name
}

impl TCPHeader {
    pub fn new(conn_type: PacketHeader, udp_get_port: u16, file_name: String) -> (h: TCPHeader)
        ensures
            h@ == (TCPHeaderView { conn_type, udp_get_port, file_name: file_name@ }),
    {
        TCPHeader { conn_type, udp_get_port, file_name }
    }

    /// Reads the first packet of a stream, or nothing where it has fewer
    /// than two lines.
    pub fn from_string(packet: String) -> (r: Option<TCPHeader>)
        ensures
            match r {
                Some(h) => parse_tcp_header(packet@) == Some(h@),
                None => parse_tcp_header(packet@) is None,
            },
    {
        let chars = chars_of(packet.as_str());
        let all = lines_of(chars.as_slice());
        if all.len() < 2 {
            return None;
        }
        proof {
            assert(views(all@)[0] == all@[0]@);
            assert(views(all@)[1] == all@[1]@);
        }
        let conn_type = PacketHeader::packet_type_of(all[0].as_slice());
        let udp_get_port: u16 = match read_u16(all[1].as_slice()) {
            Some(port) => port,
            None => 0,
        };
        let file_name = if all.len() > 2 {
            proof {
                assert(views(all@)[2] == all@[2]@);
            }
            string_of(all[2].as_slice())
        } else {
            String::new()
        };
        Some(TCPHeader::new(conn_type, udp_get_port, file_name))
    }

    /// The text of this packet.
    pub fn to_string(&self) -> (s: String)
        ensures
            s@ == tcp_header_text(self@),
    {
        let mut out = chars_of(self.conn_type.as_str());
        out.push('\n');
        push_decimal(&mut out, self.udp_get_port as u32);
        out.push('\n');
        let mut name = chars_of(self.file_name.as_str());
        out.append(&mut name);
        proof {
            assert(out@ =~= tcp_header_text(self@));
        }
        string_of(out.as_slice())
    }
}

/// The commands that the operator types.
#[derive(Clone, Copy, PartialEq, Eq, Structural, Debug)]
pub enum StdinHeader {
    LIST,
    GET,
}

impl StdinHeader {
    /// The word that asks for a file.
    pub open spec fn get_word() -> Seq<char> {
        seq!['g', 'e', 't']
    }

    /// The word that asks for the known peers.
    pub open spec fn list_word() -> Seq<char> {
        seq!['l', 'i', 's', 't']
    }

    pub fn get() -> (s: &'static str)
        ensures
            s@ == StdinHeader::get_word(),
    {
        proof {
            reveal_strlit("get");
        }
        "get"
    }

    pub fn list() -> (s: &'static str)
        ensures
            s@ == StdinHeader::list_word(),
    {
        proof {
            reveal_strlit("list");
        }
        "list"
    }
}

/// Length of the tag of a header of the reliable transport.
pub const RDT_HEADER_SIZE: u16 = 3;

/// Length of such a header up to its file name: the tag and three numbers
/// of two bytes each.
pub const RDT_FIXED_SIZE: u16 = 9;

/// The two bytes of `n`, least significant first.
pub open spec fn le_bytes(n: u16) -> Seq<u8> {
    seq![(n % 256) as u8, (n / 256) as u8]
}

/// The number whose two bytes are `lo` and `hi`, least significant first.
pub open spec fn le_value(lo: u8, hi: u8) -> u16 {
    (lo + 256 * hi) as u16
}

/// The bytes of `n`, least significant first.
pub fn u16_to_bytes(n: u16) -> (b: [u8; 2])
    ensures
        b@ == le_bytes(n),
{
    [(n % 256) as u8, (n / 256) as u8]
}

/// The number whose two bytes are `lo` and `hi`, least significant first.
pub fn u16_of_bytes(lo: u8, hi: u8) -> (n: u16)
    ensures
        n == le_value(lo, hi),
{
    lo as u16 + 256 * (hi as u16)
}

/// Whether every byte is below 128.
pub open spec fn is_ascii_bytes(bytes: Seq<u8>) -> bool {
    forall|i: int| 0 <= i < bytes.len() ==> #[trigger] bytes[i] < 128
}

/// The text of bytes that are all below 128.
pub open spec fn ascii_text(bytes: Seq<u8>) -> Seq<char> {
    Seq::new(bytes.len(), |i: int| bytes[i] as char)
}

/// The kind that the tag bytes of a datagram stand for: the bytes read as
/// text where they are ASCII, and nothing recognised where they are not.
pub open spec fn classify_bytes(tag: Seq<u8>) -> PacketHeader {
    if is_ascii_bytes(tag) {
        PacketHeader::classify(ascii_text(tag))
    } else {
        PacketHeader::Unrecognized
    }
}

/// The kind that the tag bytes `tag` stand for.
pub fn packet_type_of_bytes(tag: &[u8]) -> (h: PacketHeader)
    ensures
        h == classify_bytes(tag@),
{
    let mut chars: Vec<char> = Vec::new();
    let mut i: usize = 0;
    while i < tag.len()
        invariant
            i <= tag.len(),
            chars@ == ascii_text(tag@.take(i as int)),
            is_ascii_bytes(tag@.take(i as int)),
        decreases tag.len() - i,
    {
        let b = tag[i];
        if b >= 128 {
            return PacketHeader::Unrecognized;
        }
        chars.push(b as char);
        proof {
            assert(tag@.take(i + 1) == tag@.take(i as int).push(b));
            assert(chars@ =~= ascii_text(tag@.take(i + 1)));
        }
        i += 1;
    }
    proof {
        assert(tag@.take(tag@.len() as int) == tag@);
    }
    PacketHeader::packet_type_of(chars.as_slice())
}

/// What a `StopAndWaitHeader` holds, with its file name as a sequence of
/// characters.
pub struct StopAndWaitHeaderView {
    pub header_type: PacketHeader,
    pub header_size: u16,
    pub get_port: u16,
    pub rdt_port: u16,
    pub file_name: Seq<char>,
    pub ip: Ipv4,
}

/// The header that opens and drives a reliable transfer, with the address
/// of the peer that sent it.
pub struct StopAndWaitHeader {
    pub header_type: PacketHeader,
    pub header_size: u16,
    pub get_port: u16,
    pub rdt_port: u16,
    pub file_name: String,
    pub ip: Ipv4,
}

impl View for StopAndWaitHeader {
    type V = StopAndWaitHeaderView;

    open spec fn view(&self) -> StopAndWaitHeaderView {
        StopAndWaitHeaderView {
            header_type: self.header_type,
            header_size: self.header_size,
            get_port: self.get_port,
            rdt_port: self.rdt_port,
            file_name: self.file_name@,
            ip: self.ip,
        }
    }
}

/// Most bytes that a file name can have in a header.
pub const MAX_FILE_NAME_BYTES: usize = 65526;

/// Length in bytes of a header with the given file name.
pub open spec fn header_size_of(file_name: Seq<char>) -> int {
    RDT_FIXED_SIZE + encode_utf8(file_name).len()
}

impl StopAndWaitHeaderView {
    /// The size field is the length of the header on the wire.
    pub open spec fn wf(self) -> bool {
        self.header_size == header_size_of(self.file_name)
    }

    /// The header on the wire: the tag, then size, control port and data
    /// port with the least significant byte first, then the file name.
    pub open spec fn wire(self) -> Seq<u8> {
        encode_utf8(self.header_type.tag()) + le_bytes(self.header_size) + le_bytes(self.get_port)
            + le_bytes(self.rdt_port) + encode_utf8(self.file_name)
    }

    /// The header as one line of text, for a log.
    pub open spec fn text(self) -> Seq<char> {
        self.header_type.tag() + decimal(self.header_size as nat) + decimal(self.get_port as nat)
            + decimal(self.rdt_port as nat) + self.file_name
    }
}

/// Reads a datagram of the reliable transport that came from `ip`: a tag
/// of three bytes, the header's size, the requester's control port and its
/// data port, each in two bytes with the least significant first, then
/// the file name up to the header's size. What follows the header is the
/// payload. A datagram is not read where it is shorter than nine bytes,
/// where its size field is below nine or beyond its end, or where the
/// file name is not valid UTF-8.
pub open spec fn parse_rdt_header(buf: Seq<u8>, ip: Ipv4) -> Option<
    (StopAndWaitHeaderView, Seq<u8>),
> {
    if buf.len() < RDT_FIXED_SIZE {
        None
    } else {
        let size = le_value(buf[3], buf[4]);
        let name = buf.subrange(RDT_FIXED_SIZE as int, size as int);
        if size < RDT_FIXED_SIZE || size > buf.len() || !valid_utf8(name) {
            None
        } else {
            Some(
                (
                    StopAndWaitHeaderView {
                        header_type: classify_bytes(buf.take(RDT_HEADER_SIZE as int)),
                        header_size: size,
                        get_port: le_value(buf[5], buf[6]),
                        rdt_port: le_value(buf[7], buf[8]),
                        file_name: decode_utf8(name),
                        ip,
                    },
                    buf.skip(size as int),
                ),
            )
        }
    }
}

impl StopAndWaitHeader {
    /// Whether a header for `file_name` fits the 16 bits of its size
    /// field.
    pub fn name_fits(file_name: &str) -> (r: bool)
        ensures
            r == (header_size_of(file_name@) <= u16::MAX),
    {
        file_name.as_bytes().len() <= MAX_FILE_NAME_BYTES
    }

    /// A header for `file_name`, with its size field filled in.
    pub fn new(
        header_type: PacketHeader,
        get_port: u16,
        rdt_port: u16,
        file_name: &str,
        ip: Ipv4,
    ) -> (h: StopAndWaitHeader)
        requires
            header_size_of(file_name@) <= u16::MAX,
        ensures
            h@ == (StopAndWaitHeaderView {
                header_type,
                header_size: header_size_of(file_name@) as u16,
                get_port,
                rdt_port,
                file_name: file_name@,
                ip,
            }),
            h@.wf(),
    {
        StopAndWaitHeader {
            header_type,
            header_size: StopAndWaitHeader::find_header_size(file_name),
            get_port,
            rdt_port,
            file_name: file_name.to_owned(),
            ip,
        }
    }

    /// Reads a datagram of the reliable transport that came from `ip`, and
    /// gives its header and its payload.
    pub fn from_bytes<'a>(buf: &'a [u8], ip: Ipv4) -> (r: Option<(StopAndWaitHeader, &'a [u8])>)
        ensures
            match r {
                Some((h, payload)) => parse_rdt_header(buf@, ip) == Some((h@, payload@)),
                None => parse_rdt_header(buf@, ip) is None,
            },
    {
        if buf.len() < 9 {
            return None;
        }
        let size: usize = u16_of_bytes(buf[3], buf[4]) as usize;
        if size < 9 || size > buf.len() {
            return None;
        }
        let name_bytes = slice_to_vec(slice_subrange(buf, 9, size));
        let file_name = match string_from_utf8(name_bytes) {
            Some(name) => name,
            None => {
                return None;
            },
        };
        let header_type = packet_type_of_bytes(slice_subrange(buf, 0, 3));
        let get_port = u16_of_bytes(buf[5], buf[6]);
        let rdt_port = u16_of_bytes(buf[7], buf[8]);
        proof {
            decode_utf8_encode_utf8(buf@.subrange(9, size as int));
        }
        let header = StopAndWaitHeader::new(
            header_type,
            get_port,
            rdt_port,
            file_name.as_str(),
            ip,
        );
        let payload = slice_subrange(buf, size, buf.len());
        Some((header, payload))
    }

    /// The header as one line of text, for a log.
    pub fn as_string(&self) -> (s: String)
        ensures
            s@ == self@.text(),
    {
        let mut out = chars_of(self.header_type.as_str());
        push_decimal(&mut out, self.header_size as u32);
        push_decimal(&mut out, self.get_port as u32);
        push_decimal(&mut out, self.rdt_port as u32);
        let mut name = chars_of(self.file_name.as_str());
        out.append(&mut name);
        proof {
            assert(out@ =~= self@.text());
        }
        string_of(out.as_slice())
    }

    /// Length in bytes of a header with the given file name.
    pub fn find_header_size(file_name: &str) -> (size: u16)
        requires
            header_size_of(file_name@) <= u16::MAX,
        ensures
            size == header_size_of(file_name@),
    {
        RDT_HEADER_SIZE + 2 * 3 + (file_name.len() as u16)
    }

    /// The header on the wire. For a well-formed header of the reliable
    /// transport, whose tag has three bytes, what is written is as long as
    /// the size field says.
    pub fn as_vec(&self) -> (v: Vec<u8>)
        ensures
            v@ == self@.wire(),
            is_rdt_kind(self.header_type) && self@.wf() ==> v@.len() == self.header_size,
    {
        let mut out: Vec<u8> = slice_to_vec(self.header_type.as_str().as_bytes());
        let size_bytes = u16_to_bytes(self.header_size);
        let get_port_bytes = u16_to_bytes(self.get_port);
        let rdt_port_bytes = u16_to_bytes(self.rdt_port);
        out.push(size_bytes[0]);
        out.push(size_bytes[1]);
        out.push(get_port_bytes[0]);
        out.push(get_port_bytes[1]);
        out.push(rdt_port_bytes[0]);
        out.push(rdt_port_bytes[1]);
        let mut name = slice_to_vec(self.file_name.as_str().as_bytes());
        out.append(&mut name);
        proof {
            assert(out@ =~= self@.wire());
            if is_rdt_kind(self.header_type) && self@.wf() {
                lemma_wire_len(self@);
            }
        }
        out
    }
}

/// The bytes that are the end tag and nothing else open an end datagram.
pub open spec fn is_end_datagram(datagram: Seq<u8>) -> bool {
    datagram.len() >= RDT_HEADER_SIZE && datagram.take(RDT_HEADER_SIZE as int) == encode_utf8(
        PacketHeader::RDTEND.tag(),
    )
}

impl PacketHeader {
    /// Whether a datagram begins with the tag that ends a transfer.
    pub fn is_end(datagram: &[u8]) -> (r: bool)
        ensures
            r == is_end_datagram(datagram@),
    {
        let tag = PacketHeader::rdt_end().as_bytes();
        proof {
            is_ascii_chars_encode_utf8(PacketHeader::RDTEND.tag());
        }
        if datagram.len() < 3 {
            return false;
        }
        let r = datagram[0] == tag[0] && datagram[1] == tag[1] && datagram[2] == tag[2];
        proof {
            let head = datagram@.take(3);
            assert(head[0] == datagram@[0] && head[1] == datagram@[1] && head[2] == datagram@[2]);
            if r {
                assert(head =~= tag@);
            }
        }
        r
    }
}

/// The kinds whose tag has three letters: those of the reliable transport.
pub open spec fn is_rdt_kind(h: PacketHeader) -> bool {
    h == PacketHeader::RDTGET || h == PacketHeader::StopWaitACK || h == PacketHeader::StopWaitNAK
        || h == PacketHeader::GoBackN || h == PacketHeader::SRepeat || h == PacketHeader::RDTEND
}

/// A tag of three letters is read back from its bytes.
pub proof fn lemma_classify_tag_bytes(h: PacketHeader)
    requires
        is_rdt_kind(h),
    ensures
        encode_utf8(h.tag()).len() == 3,
        classify_bytes(encode_utf8(h.tag())) == h,
{
    let tag = h.tag();
    assert(is_ascii_chars(tag));
    is_ascii_chars_encode_utf8(tag);
    let bytes = encode_utf8(tag);
    assert(bytes[0] == tag[0] as u8 && bytes[1] == tag[1] as u8 && bytes[2] == tag[2] as u8);
    assert(is_ascii_bytes(bytes));
    assert(ascii_text(bytes) =~= tag);
    lemma_classify_tag(h, Seq::empty());
    assert(tag + Seq::<char>::empty() =~= tag);
}

/// A well-formed header of the reliable transport takes as many bytes on
/// the wire as its size field says: three of the tag, six of the three
/// numbers, and those of the file name.
pub proof fn lemma_wire_len(h: StopAndWaitHeaderView)
    requires
        h.wf(),
        is_rdt_kind(h.header_type),
    ensures
        h.wire().len() == h.header_size,
        h.header_size >= RDT_FIXED_SIZE,
{
    lemma_classify_tag_bytes(h.header_type);
}

/// A well-formed header of the reliable transport, written to the wire
/// and followed by any payload, is read back as the same header and the
/// same payload.
pub proof fn lemma_rdt_round_trip(h: StopAndWaitHeaderView, payload: Seq<u8>)
    requires
        h.wf(),
        is_rdt_kind(h.header_type),
    ensures
        parse_rdt_header(h.wire() + payload, h.ip) == Some((h, payload)),
{
    let tag = encode_utf8(h.header_type.tag());
    let name = encode_utf8(h.file_name);
    let buf = h.wire() + payload;
    lemma_classify_tag_bytes(h.header_type);
    encode_utf8_valid_utf8(h.file_name);
    encode_utf8_decode_utf8(h.file_name);
    let size = h.header_size;
    assert(buf.len() == 9 + name.len() + payload.len());
    assert(buf[3] == le_bytes(size)[0] && buf[4] == le_bytes(size)[1]);
    assert(buf[5] == le_bytes(h.get_port)[0] && buf[6] == le_bytes(h.get_port)[1]);
    assert(buf[7] == le_bytes(h.rdt_port)[0] && buf[8] == le_bytes(h.rdt_port)[1]);
    assert(le_value(buf[3], buf[4]) == size);
    assert(le_value(buf[5], buf[6]) == h.get_port);
    assert(le_value(buf[7], buf[8]) == h.rdt_port);
    assert(buf.subrange(9, size as int) =~= name);
    assert(buf.take(3) =~= tag);
    assert(buf.skip(size as int) =~= payload);
}

/// The end tag alone is an end datagram.
pub proof fn lemma_end_datagram()
    ensures
        is_end_datagram(encode_utf8(PacketHeader::RDTEND.tag())),
{
    let tag = PacketHeader::RDTEND.tag();
    assert(is_ascii_chars(tag));
    is_ascii_chars_encode_utf8(tag);
    assert(encode_utf8(tag).take(3) =~= encode_utf8(tag));
}

/// The first packet of a stream that asks for a file whose name holds no
/// line feed is read back as it was written.
pub proof fn lemma_tcp_header_round_trip(h: TCPHeaderView)
    requires
        h.conn_type == PacketHeader::TCPGET,
        has_no(h.file_name, '\n'),
    ensures
        parse_tcp_header(tcp_header_text(h)) == Some(h),
{
    let word = PacketHeader::TCPGET.tag();
    let number = decimal(h.udp_get_port as nat);
    lemma_decimal(h.udp_get_port as nat);
    assert(has_no(number, '\n') && number.last() != '\r') by {
        assert forall|i: int| 0 <= i < number.len() implies number[i] != '\n' by {
            assert(is_digit(number[i]));
        }
        assert(is_digit(number[number.len() - 1]));
    }
    lemma_lines_three(word, number, h.file_name);
    lemma_classify_tag(PacketHeader::TCPGET, Seq::empty());
    assert(word + Seq::<char>::empty() =~= word);
    let ls = lines(tcp_header_text(h));
    assert(ls[0] == word && ls[1] == number);
    let back = parse_tcp_header(tcp_header_text(h))->0;
    assert(back.file_name =~= h.file_name);
}

} // verus!
