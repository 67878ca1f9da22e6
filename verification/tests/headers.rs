use netwolf::networking::Ipv4;
use netwolf::udp::headers::{
    packet_type_of_bytes, u16_of_bytes, u16_to_bytes, ConnectionType, PacketHeader, StdinHeader,
    StopAndWaitHeader, TCPHeader, MAX_FILE_NAME_BYTES, RDT_FIXED_SIZE, RDT_HEADER_SIZE,
};

fn ip() -> Ipv4 {
    Ipv4::new(127, 0, 0, 1)
}

#[test]
fn tags_are_the_wire_tags() {
    assert_eq!(PacketHeader::discovery(), "DISC\n");
    assert_eq!(PacketHeader::ack(), "ACK\n");
    assert_eq!(PacketHeader::get(), "GET\n");
    assert_eq!(PacketHeader::tcp_get(), "TCPGET");
    assert_eq!(PacketHeader::rdt_get(), "RDT");
    assert_eq!(PacketHeader::stop_and_wait_data(), "SWD");
    assert_eq!(PacketHeader::stop_and_wait_ack(), "SWA");
    assert_eq!(PacketHeader::stop_and_wait_nak(), "SWN");
    assert_eq!(PacketHeader::go_back_n(), "GBN");
    assert_eq!(PacketHeader::selective_repeat(), "SER");
    assert_eq!(PacketHeader::rdt_end(), "END");
    assert_eq!(StdinHeader::get(), "get");
    assert_eq!(StdinHeader::list(), "list");
}

#[test]
fn default_connection_type_is_the_stream() {
    assert_eq!(ConnectionType::default(), ConnectionType::TCP);
}

#[test]
fn packet_type_reads_every_tag() {
    assert_eq!(PacketHeader::packet_type("DISC\nalice 127.0.0.1 3222\n"), PacketHeader::Disc);
    assert_eq!(PacketHeader::packet_type("GET\na.txt"), PacketHeader::GET);
    assert_eq!(PacketHeader::packet_type("ACK\n4000\na.txt"), PacketHeader::GETACK);
    assert_eq!(PacketHeader::packet_type("TCPGET\n3222\na.txt"), PacketHeader::TCPGET);
    assert_eq!(PacketHeader::packet_type("RDT"), PacketHeader::RDTGET);
    assert_eq!(PacketHeader::packet_type("SWA"), PacketHeader::StopWaitACK);
    assert_eq!(PacketHeader::packet_type("SWN"), PacketHeader::StopWaitNAK);
    assert_eq!(PacketHeader::packet_type("GBN"), PacketHeader::GoBackN);
    assert_eq!(PacketHeader::packet_type("SER"), PacketHeader::SRepeat);
    assert_eq!(PacketHeader::packet_type("END"), PacketHeader::RDTEND);
}

#[test]
fn packet_type_looks_at_the_first_line_only() {
    assert_eq!(PacketHeader::packet_type("DISC"), PacketHeader::Disc);
    assert_eq!(PacketHeader::packet_type("DISC\r\n"), PacketHeader::Disc);
    assert_eq!(PacketHeader::packet_type("GET"), PacketHeader::GET);
    assert_eq!(PacketHeader::packet_type("TCPGETanything"), PacketHeader::TCPGET);
    assert_eq!(PacketHeader::packet_type("SWAtail\nmore"), PacketHeader::StopWaitACK);
    assert_eq!(PacketHeader::packet_type("\nDISC\n"), PacketHeader::Unrecognized);
    assert_eq!(PacketHeader::packet_type("x\nGET\n"), PacketHeader::Unrecognized);
}

#[test]
fn packet_type_rejects_what_is_no_tag() {
    assert_eq!(PacketHeader::packet_type(""), PacketHeader::Unrecognized);
    assert_eq!(PacketHeader::packet_type("DISCO\n"), PacketHeader::Unrecognized);
    assert_eq!(PacketHeader::packet_type("GETS\n"), PacketHeader::Unrecognized);
    assert_eq!(PacketHeader::packet_type("get\n"), PacketHeader::Unrecognized);
    assert_eq!(PacketHeader::packet_type(" GET\n"), PacketHeader::Unrecognized);
    assert_eq!(PacketHeader::packet_type("SW"), PacketHeader::Unrecognized);
    assert_eq!(PacketHeader::packet_type("SWD"), PacketHeader::Unrecognized);
    assert_eq!(PacketHeader::packet_type("TCPGE"), PacketHeader::Unrecognized);
    assert_eq!(PacketHeader::packet_type("DISC\r"), PacketHeader::Unrecognized);
}

#[test]
fn a_header_is_written_as_its_tag_and_read_back() {
    let all = [
        (PacketHeader::Disc, "DISC\n"),
        (PacketHeader::GET, "GET\n"),
        (PacketHeader::GETACK, "ACK\n"),
        (PacketHeader::TCPGET, "TCPGET"),
        (PacketHeader::RDTGET, "RDT"),
        (PacketHeader::StopWaitACK, "SWA"),
        (PacketHeader::StopWaitNAK, "SWN"),
        (PacketHeader::GoBackN, "GBN"),
        (PacketHeader::SRepeat, "SER"),
        (PacketHeader::RDTEND, "END"),
    ];
    for (header, tag) in all {
        assert_eq!(header.to_string(), tag);
        assert_eq!(header.as_str(), tag);
        assert_eq!(PacketHeader::packet_type(&header.to_string()), header);
        let followed = format!("{}payload", tag);
        assert_eq!(PacketHeader::packet_type(&followed), header);
    }
}

#[test]
fn a_header_that_was_not_recognised_has_no_tag() {
    assert_eq!(PacketHeader::Unrecognized.to_string(), "");
    assert_eq!(PacketHeader::Unrecognized.as_str(), "");
    assert_eq!(PacketHeader::packet_type(&PacketHeader::Unrecognized.to_string()), PacketHeader::Unrecognized);
    let header = TCPHeader::new(PacketHeader::Unrecognized, 7, "a.txt".to_string());
    assert_eq!(header.to_string(), "\n7\na.txt");
}

#[test]
fn a_reliable_header_is_as_long_as_its_size_field_says() {
    for kind in [
        PacketHeader::RDTGET,
        PacketHeader::StopWaitACK,
        PacketHeader::StopWaitNAK,
        PacketHeader::GoBackN,
        PacketHeader::SRepeat,
        PacketHeader::RDTEND,
    ] {
        for name in ["", "a", "a.txt", "caf\u{e9}.txt"] {
            let header = StopAndWaitHeader::new(kind, 3222, 2500, name, ip());
            assert_eq!(header.as_vec().len(), header.header_size as usize);
            assert_eq!(header.as_vec().len(), 9 + name.len());
        }
    }
    let header = StopAndWaitHeader::new(PacketHeader::RDTGET, 1, 2, "a", ip());
    assert_eq!(header.header_size, 10);
    assert_eq!(header.as_vec(), vec![b'R', b'D', b'T', 10, 0, 1, 0, 2, 0, b'a']);
}

#[test]
fn tag_bytes_are_read_as_text() {
    assert_eq!(packet_type_of_bytes(b"RDT"), PacketHeader::RDTGET);
    assert_eq!(packet_type_of_bytes(b"SWA"), PacketHeader::StopWaitACK);
    assert_eq!(packet_type_of_bytes(b"SWN"), PacketHeader::StopWaitNAK);
    assert_eq!(packet_type_of_bytes(b"END"), PacketHeader::RDTEND);
    assert_eq!(packet_type_of_bytes(b"GET"), PacketHeader::GET);
    assert_eq!(packet_type_of_bytes(b"XYZ"), PacketHeader::Unrecognized);
    assert_eq!(packet_type_of_bytes(&[0x53, 0x57, 0xc1]), PacketHeader::Unrecognized);
    assert_eq!(packet_type_of_bytes(&[0xff, 0xfe, 0xfd]), PacketHeader::Unrecognized);
    assert_eq!(packet_type_of_bytes(&[]), PacketHeader::Unrecognized);
}

#[test]
fn tcp_header_text_has_three_lines() {
    let header = TCPHeader::new(PacketHeader::TCPGET, 3222, "a.txt".to_string());
    assert_eq!(header.to_string(), "TCPGET\n3222\na.txt");
    let back = TCPHeader::from_string(header.to_string()).unwrap();
    assert_eq!(back.conn_type, PacketHeader::TCPGET);
    assert_eq!(back.udp_get_port, 3222);
    assert_eq!(back.file_name, "a.txt");
}

#[test]
fn tcp_header_is_lenient_about_port_and_file() {
    let header = TCPHeader::from_string("TCPGET\nnot a port\nb.bin".to_string()).unwrap();
    assert_eq!(header.udp_get_port, 0);
    assert_eq!(header.file_name, "b.bin");
    let header = TCPHeader::from_string("TCPGET\n70000".to_string()).unwrap();
    assert_eq!(header.udp_get_port, 0);
    assert_eq!(header.file_name, "");
    let header = TCPHeader::from_string("hello\r\n80\r\nc.txt\r\nextra".to_string()).unwrap();
    assert_eq!(header.conn_type, PacketHeader::Unrecognized);
    assert_eq!(header.udp_get_port, 80);
    assert_eq!(header.file_name, "c.txt");
}

#[test]
fn tcp_header_needs_two_lines() {
    assert!(TCPHeader::from_string("".to_string()).is_none());
    assert!(TCPHeader::from_string("TCPGET".to_string()).is_none());
    assert!(TCPHeader::from_string("TCPGET\n".to_string()).is_none());
    assert!(TCPHeader::from_string("TCPGET\n\n".to_string()).is_some());
}

#[test]
fn two_byte_numbers_have_the_least_significant_byte_first() {
    assert_eq!(u16_to_bytes(0), [0, 0]);
    assert_eq!(u16_to_bytes(1), [1, 0]);
    assert_eq!(u16_to_bytes(256), [0, 1]);
    assert_eq!(u16_to_bytes(3222), 3222u16.to_le_bytes());
    assert_eq!(u16_to_bytes(65535), [255, 255]);
    assert_eq!(u16_of_bytes(0x96, 0x0c), 3222);
    for n in [0u16, 1, 255, 256, 3222, 4660, 65535] {
        let b = u16_to_bytes(n);
        assert_eq!(b, n.to_le_bytes());
        assert_eq!(u16_of_bytes(b[0], b[1]), n);
    }
}

#[test]
fn header_size_counts_tag_numbers_and_name() {
    assert_eq!(RDT_HEADER_SIZE, 3);
    assert_eq!(RDT_FIXED_SIZE, 9);
    assert_eq!(StopAndWaitHeader::find_header_size(""), 9);
    assert_eq!(StopAndWaitHeader::find_header_size("a.txt"), 14);
    assert_eq!(StopAndWaitHeader::find_header_size("\u{e9}.txt"), 15);
    let longest = "x".repeat(MAX_FILE_NAME_BYTES);
    assert_eq!(StopAndWaitHeader::find_header_size(&longest), 65535);
}

#[test]
fn a_name_fits_up_to_the_size_field() {
    assert!(StopAndWaitHeader::name_fits(""));
    assert!(StopAndWaitHeader::name_fits("a.txt"));
    assert!(StopAndWaitHeader::name_fits(&"x".repeat(MAX_FILE_NAME_BYTES)));
    assert!(!StopAndWaitHeader::name_fits(&"x".repeat(MAX_FILE_NAME_BYTES + 1)));
    assert!(!StopAndWaitHeader::name_fits(&"\u{e9}".repeat(MAX_FILE_NAME_BYTES / 2 + 1)));
    assert!(StopAndWaitHeader::name_fits(&"\u{e9}".repeat(MAX_FILE_NAME_BYTES / 2)));
}

#[test]
fn stop_and_wait_header_on_the_wire() {
    let header = StopAndWaitHeader::new(PacketHeader::RDTGET, 3222, 4660, "a.txt", ip());
    assert_eq!(header.header_size, 14);
    assert_eq!(
        header.as_vec(),
        vec![b'R', b'D', b'T', 14, 0, 0x96, 0x0c, 0x34, 0x12, b'a', b'.', b't', b'x', b't']
    );
    assert_eq!(header.as_string(), "RDT1432224660a.txt");
}

#[test]
fn stop_and_wait_header_is_read_back_with_its_payload() {
    for kind in [
        PacketHeader::RDTGET,
        PacketHeader::StopWaitACK,
        PacketHeader::StopWaitNAK,
        PacketHeader::GoBackN,
        PacketHeader::SRepeat,
        PacketHeader::RDTEND,
    ] {
        let header = StopAndWaitHeader::new(kind, 3222, 2500, "caf\u{e9}.txt", ip());
        let mut datagram = header.as_vec();
        datagram.extend_from_slice(b"payload bytes");
        let (back, payload) = StopAndWaitHeader::from_bytes(&datagram, Ipv4::new(10, 0, 0, 7)).unwrap();
        assert_eq!(back.header_type, kind);
        assert_eq!(back.header_size, header.header_size);
        assert_eq!(back.get_port, 3222);
        assert_eq!(back.rdt_port, 2500);
        assert_eq!(back.file_name, "caf\u{e9}.txt");
        assert_eq!(back.ip, Ipv4::new(10, 0, 0, 7));
        assert_eq!(payload, b"payload bytes");
    }
}

#[test]
fn stop_and_wait_header_without_payload_or_name() {
    let header = StopAndWaitHeader::new(PacketHeader::StopWaitACK, 1, 2, "", ip());
    let datagram = header.as_vec();
    assert_eq!(datagram.len(), 9);
    let (back, payload) = StopAndWaitHeader::from_bytes(&datagram, ip()).unwrap();
    assert_eq!(back.header_type, PacketHeader::StopWaitACK);
    assert_eq!(back.file_name, "");
    assert!(payload.is_empty());
}

#[test]
fn malformed_datagrams_are_not_read() {
    assert!(StopAndWaitHeader::from_bytes(b"", ip()).is_none());
    assert!(StopAndWaitHeader::from_bytes(b"RDT", ip()).is_none());
    assert!(StopAndWaitHeader::from_bytes(&[b'R', b'D', b'T', 9, 0, 1, 0, 2], ip()).is_none());
    // size field below the fixed part
    assert!(StopAndWaitHeader::from_bytes(&[b'R', b'D', b'T', 8, 0, 1, 0, 2, 0], ip()).is_none());
    // size field beyond the datagram
    assert!(StopAndWaitHeader::from_bytes(&[b'R', b'D', b'T', 10, 0, 1, 0, 2, 0], ip()).is_none());
    assert!(StopAndWaitHeader::from_bytes(&[b'R', b'D', b'T', 0xff, 0xff, 1, 0, 2, 0], ip()).is_none());
    // file name that is no UTF-8
    assert!(StopAndWaitHeader::from_bytes(&[b'R', b'D', b'T', 10, 0, 1, 0, 2, 0, 0xff], ip()).is_none());
    assert!(StopAndWaitHeader::from_bytes(&[b'R', b'D', b'T', 10, 0, 1, 0, 2, 0, 0xc3], ip()).is_none());
}

#[test]
fn unknown_tag_is_read_as_unrecognized() {
    let (header, payload) =
        StopAndWaitHeader::from_bytes(&[b'X', b'Y', b'Z', 10, 0, 1, 0, 2, 0, b'f', 7, 8], ip()).unwrap();
    assert_eq!(header.header_type, PacketHeader::Unrecognized);
    assert_eq!(header.header_size, 10);
    assert_eq!(header.get_port, 1);
    assert_eq!(header.rdt_port, 2);
    assert_eq!(header.file_name, "f");
    assert_eq!(payload, &[7, 8]);
}

#[test]
fn end_datagram_begins_with_the_end_tag() {
    assert!(PacketHeader::is_end(b"END"));
    assert!(PacketHeader::is_end(b"END of everything"));
    assert!(!PacketHeader::is_end(b"EN"));
    assert!(!PacketHeader::is_end(b""));
    assert!(!PacketHeader::is_end(b"end"));
    assert!(!PacketHeader::is_end(b" END"));
    assert!(!PacketHeader::is_end(&[0, 0, 0]));
}
