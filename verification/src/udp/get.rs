//! A request for a file together with the port on which it is to be served.

use crate::networking::{PORT_MAX, PORT_MIN};
use crate::number::{decimal, is_digit, lemma_decimal, parse_u16, push_decimal, read_u16};
use crate::random::random_in_range;
use crate::text::{
    chars_of, has_no, lemma_split_cons, lemma_split_single, split, split_chars, string_of, views,
};
use vstd::prelude::*;

verus! {

/// What a `GETPair` holds, with its file name as a sequence of characters.
pub struct GETPairView {
    pub file_name: Seq<char>,
    pub tcp_port: u16,
}

/// The name of a file and the port on which it is to be served.
pub struct GETPair {
    pub file_name: String,
    pub tcp_port: u16,
}

impl View for GETPair {
    type V = GETPairView;

    open spec fn view(&self) -> GETPairView {
        GETPairView { file_name: self.file_name@, tcp_port: self.tcp_port }
    }
}

/// Why a text is no request.
#[derive(Clone, Copy, PartialEq, Eq, Structural, Debug)]
pub enum GETPairError {
    /// The text has no space, and so no port.
    MissingPort,
    /// What follows the first space is no decimal number that fits 16 bits.
    InvalidPort,
}

/// Reads a request `file_name port`. Fields after the second are ignored.
pub open spec fn parse_get_pair(input: Seq<char>) -> Result<GETPairView, GETPairError> {
    let parts = split(input, ' ');
    if parts.len() < 2 {
        Err(GETPairError::MissingPort)
    } else {
        match parse_u16(parts[1]) {
            Some(port) => Ok(GETPairView { file_name: parts[0], tcp_port: port }),
            None => Err(GETPairError::InvalidPort),
        }
    }
}

/// The files that a random request may name.
pub open spec fn request_options() -> Seq<Seq<char>> {
    seq![
        seq!['m', 'a', 'm', 'a', 'd', '.', 't', 'x', 't'],
        seq!['r', 'e', 'z', 'a', '.', 'm', 'p', '4'],
        seq!['a', 'h', 'm', 'a', 'd', '.', 'p', 'n', 'g'],
    ]
}

/// Number of files that a random request may name.
pub const REQUEST_OPTIONS: u16 = 3;

impl GETPairView {
    /// The text `file_name port` of the request.
    pub open spec fn text(self) -> Seq<char> {
        self.file_name + seq![' '] + decimal(self.tcp_port as nat)
    }
}

impl GETPair {
    pub fn new(file_name: &str, tcp_port: u16) -> (p: GETPair)
        ensures
            p@ == (GETPairView { file_name: file_name@, tcp_port }),
    {
        let file_name = file_name.to_owned();
        GETPair { file_name, tcp_port }
    }

    /// Reads a request `file_name port`.
    pub fn from_str(input: &str) -> (r: Result<GETPair, GETPairError>)
        ensures
            match r {
                Ok(p) => parse_get_pair(input@) == Ok::<GETPairView, GETPairError>(p@),
                Err(e) => parse_get_pair(input@) == Err::<GETPairView, GETPairError>(e),
            },
    {
        let chars = chars_of(input);
        let parts = split_chars(chars.as_slice(), ' ');
        if parts.len() < 2 {
            return Err(GETPairError::MissingPort);
        }
        proof {
            assert(views(parts@)[0] == parts@[0]@);
            assert(views(parts@)[1] == parts@[1]@);
        }
        match read_u16(parts[1].as_slice()) {
            Some(port) => Ok(GETPair { file_name: string_of(parts[0].as_slice()), tcp_port: port }),
            None => Err(GETPairError::InvalidPort),
        }
    }

    /// A request for `file_name` on a port chosen at random among those
    /// from `PORT_MIN` up to, and without, `PORT_MAX`.
    pub fn with_random_port(file_name: &str) -> (p: GETPair)
        ensures
            p.file_name@ == file_name@,
            PORT_MIN <= p.tcp_port < PORT_MAX,
    {
        let file_name = file_name.to_owned();
        let tcp_port = random_in_range(PORT_MIN, PORT_MAX);
        GETPair { file_name, tcp_port }
    }

    /// The file of the given index that a random request may name.
    pub fn request_option(index: u16) -> (name: &'static str)
        requires
            index < REQUEST_OPTIONS,
        ensures
            name@ == request_options()[index as int],
    {
        proof {
            reveal_strlit("mamad.txt");
            reveal_strlit("reza.mp4");
            reveal_strlit("ahmad.png");
        }
        if index == 0 {
            "mamad.txt"
        } else if index == 1 {
            "reza.mp4"
        } else {
            "ahmad.png"
        }
    }

    /// A request for one of three files, chosen at random, on a port
    /// chosen at random.
    pub fn random_get() -> (p: GETPair)
        ensures
            PORT_MIN <= p.tcp_port < PORT_MAX,
            exists|i: int| 0 <= i < REQUEST_OPTIONS && p.file_name@ == #[trigger] request_options()[i],
    {
        let tcp_port = random_in_range(PORT_MIN, PORT_MAX);
        let option_index = random_in_range(0, REQUEST_OPTIONS);
        let random_option = GETPair::request_option(option_index);
        let p = GETPair::new(random_option, tcp_port);
        proof {
            assert(p.file_name@ == request_options()[option_index as int]);
        }
        p
    }

    /// The text `file_name port` of the request.
    pub fn to_string(&self) -> (s: String)
        ensures
            s@ == self@.text(),
    {
        let mut out = chars_of(self.file_name.as_str());
        out.push(' ');
        push_decimal(&mut out, self.tcp_port as u32);
        proof {
            assert(out@ =~= self@.text());
        }
        string_of(out.as_slice())
    }
}

/// The text of a request whose file name holds no space is read back as
/// that request.
pub proof fn lemma_get_pair_round_trip(p: GETPairView)
    requires
        has_no(p.file_name, ' '),
    ensures
        parse_get_pair(p.text()) == Ok::<GETPairView, GETPairError>(p),
{
    let port = decimal(p.tcp_port as nat);
    lemma_decimal(p.tcp_port as nat);
    assert(has_no(port, ' ')) by {
        assert forall|i: int| 0 <= i < port.len() implies port[i] != ' ' by {
            assert(is_digit(port[i]));
        }
    }
    lemma_split_single(port, ' ');
    lemma_split_cons(p.file_name, ' ', port);
    assert(split(p.text(), ' ') =~= seq![p.file_name, port]);
}

} // verus!
