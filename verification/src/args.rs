//! Command-line arguments.

use crate::net::{mac_of_text, mac_parts};
use crate::protocol::MacAddr;
use crate::text::{
    chars_of, hex_octet, lemma_split_len, parse_hex_octet, pieces, split, split_at_any,
};
use vstd::prelude::*;
use vstd::string::*;

verus! {

/// Why an argument is no MAC address.
#[derive(Debug)]
pub enum MacArgError {
    /// The argument does not consist of six parts.
    Format(String),
    /// This part, the first such one, is no hexadecimal octet.
    Hex(String),
}

/// The text for an error.
pub open spec fn mac_arg_error_text(e: MacArgError) -> Seq<char> {
    match e {
        MacArgError::Format(s) => "Invalid MAC address: "@ + s@
            + "\nExpected format: AA:BB:CC:DD:EE:FF"@,
        MacArgError::Hex(p) => "Invalid hex in MAC address: "@ + p@,
    }
}

impl MacArgError {
    /// The message for display.
    pub fn to_string(&self) -> (r: String)
        ensures
            r@ == mac_arg_error_text(*self),
    {
        match self {
            MacArgError::Format(s) => {
                let mut r = String::from_str("Invalid MAC address: ");
                r.append(s.as_str());
                r.append("\nExpected format: AA:BB:CC:DD:EE:FF");
                r
            },
            MacArgError::Hex(p) => {
                let mut r = String::from_str("Invalid hex in MAC address: ");
                r.append(p.as_str());
                r
            },
        }
    }
}

/// Where the i-th of some pieces begins in the text that was split into them.
spec fn piece_start(parts: Seq<Seq<char>>, i: int) -> int
    decreases i,
{
    if i <= 0 {
        0
    } else {
        piece_start(parts, i - 1) + parts[i - 1].len() + 1
    }
}

/// Only the pieces before it tell where a piece begins.
proof fn lemma_same_start(a: Seq<Seq<char>>, b: Seq<Seq<char>>, i: int)
    requires
        i <= a.len(),
        i <= b.len(),
        forall|k: int| 0 <= k < i ==> (#[trigger] a[k]).len() == b[k].len(),
    ensures
        piece_start(a, i) == piece_start(b, i),
    decreases i,
{
    if i > 0 {
        lemma_same_start(a, b, i - 1);
        assert(a[i - 1].len() == b[i - 1].len());
    }
}

/// A piece is found where it begins; the last one reaches to the end.
proof fn lemma_piece_position(s: Seq<char>, seps: Seq<char>, i: int)
    requires
        0 <= i < split(s, seps).len(),
    ensures
        0 <= piece_start(split(s, seps), i),
        piece_start(split(s, seps), i) + split(s, seps)[i].len() <= s.len(),
        s.subrange(
            piece_start(split(s, seps), i),
            piece_start(split(s, seps), i) + split(s, seps)[i].len(),
        ) == split(s, seps)[i],
        i == split(s, seps).len() - 1 ==> piece_start(split(s, seps), i)
            + split(s, seps)[i].len() == s.len(),
    decreases s.len(),
{
    let parts = split(s, seps);
    if s.len() == 0 {
        assert(s.subrange(0, 0) == parts[0]);
    } else {
        let init = s.drop_last();
        let before = split(init, seps);
        let n = before.len() - 1;
        lemma_split_len(init, seps);
        if i <= n {
            lemma_piece_position(init, seps, i);
            lemma_same_start(before, parts, i);
        }
        if seps.contains(s.last()) {
            assert(parts == before.push(Seq::empty()));
            if i <= n {
                let from = piece_start(parts, i);
                assert(s.subrange(from, from + parts[i].len()) == init.subrange(
                    from,
                    from + parts[i].len(),
                ));
            } else {
                lemma_piece_position(init, seps, n);
                lemma_same_start(before, parts, n);
                assert(piece_start(parts, i) == piece_start(parts, n) + parts[n].len() + 1);
                assert(s.subrange(s.len() as int, s.len() as int) == Seq::<char>::empty());
            }
        } else {
            let from = piece_start(parts, i);
            if i < n {
                assert(s.subrange(from, from + parts[i].len()) == init.subrange(
                    from,
                    from + parts[i].len(),
                ));
            } else {
                assert(parts[i] == before[i].push(s.last()));
                assert(s.subrange(from, from + parts[i].len()) == init.subrange(
                    from,
                    from + before[i].len(),
                ).push(s.last()));
            }
        }
    }
}

/// Read a MAC address argument. Accepts the formats AA:BB:CC:DD:EE:FF and
/// AA-BB-CC-DD-EE-FF.
pub fn parse_mac_arg(s: &str) -> (r: Result<MacAddr, MacArgError>)
    ensures
        match r {
            Ok(mac) => mac_of_text(s@) == Some(mac),
            Err(MacArgError::Format(text)) => mac_parts(s@).len() != 6 && text@ == s@,
            Err(MacArgError::Hex(part)) => {
                &&& mac_parts(s@).len() == 6
                &&& exists|i: int|
                    0 <= i < 6 && part@ == #[trigger] mac_parts(s@)[i] && hex_octet(
                        mac_parts(s@)[i],
                    ) is None && forall|k: int|
                        0 <= k < i ==> hex_octet(#[trigger] mac_parts(s@)[k]) is Some
            },
        },
{
    let seps: [char; 2] = [':', '-'];
    let parts = split_at_any(chars_of(s).as_slice(), seps.as_slice());
    assert(seps@ == seq![':', '-']);
    let ghost texts = mac_parts(s@);
    if parts.len() != 6 {
        return Err(MacArgError::Format(String::from_str(s)));
    }
    let mut addr: [u8; 6] = [0, 0, 0, 0, 0, 0];
    let mut from: usize = 0;
    let total = s.unicode_len();
    let mut i: usize = 0;
    while i < 6
        invariant
            i <= 6,
            parts@.len() == 6,
            texts == mac_parts(s@),
            pieces(parts@) == texts,
            total == s@.len(),
            i < 6 ==> from == piece_start(texts, i as int),
            forall|k: int| 0 <= k < i ==> hex_octet(#[trigger] texts[k]) == Some(addr@[k]),
        decreases 6 - i,
    {
        proof {
            assert(texts[i as int] == parts@[i as int]@);
            lemma_piece_position(s@, seq![':', '-'], i as int);
            if i < 5 {
                lemma_piece_position(s@, seq![':', '-'], i + 1);
            }
        }
        let to: usize = from + parts[i].len();
        match parse_hex_octet(parts[i].as_slice()) {
            Some(v) => {
                addr[i] = v;
            },
            None => {
                let part = s.substring_char(from, to);
                assert(part@ == texts[i as int]);
                return Err(MacArgError::Hex(String::from_str(part)));
            },
        }
        if i < 5 {
            from = to + 1;
        }
        i += 1;
    }
    let ghost found = mac_of_text(s@);
    assert(found is Some && found.unwrap().0 =~= addr);
    Ok(MacAddr(addr))
}

}
