//! Interface discovery: which interface to capture on, whether capturing is
//! permitted, and which address the interface has.

use crate::protocol::{mac_text, MacAddr};
use crate::text::{
    all_hex, begins_with, chars_begin_with, chars_of, contains, first_word, has_text, hex_byte,
    hex_digit_value, hex_octet, hex_value, is_space, law_split, parse_hex_octet, pieces, split,
    split_at_any, starts_with, trim, trimmed, word,
};
use vstd::prelude::*;
use vstd::string::*;

verus! {

// -- Capture settings --------------------------------------------------------------

/// The frames to capture: both powerline EtherTypes.
pub const CAPTURE_FILTER: &'static str = "ether proto 0x88e1 or ether proto 0x8912";

/// How many bytes of a frame to capture.
pub const CAPTURE_SNAPLEN: i32 = 4096;

/// Milliseconds after which a read without a frame returns.
pub const CAPTURE_TIMEOUT_MS: i32 = 500;

// -- Errors ------------------------------------------------------------------------

/// Why frames cannot be captured. A failure of the capture library is carried as
/// its message.
#[derive(Debug)]
pub enum NetError {
    Pcap(String),
    NoInterface,
    PermissionDenied(String),
    NoMacAddr(String),
}

/// The text for an error.
pub open spec fn net_error_text(e: NetError) -> Seq<char> {
    match e {
        NetError::Pcap(m) => "pcap: "@ + m@,
        NetError::NoInterface => "no suitable network interface found (need wired Ethernet)"@,
        NetError::PermissionDenied(m) => m@,
        NetError::NoMacAddr(name) => "interface "@ + name@ + " has no MAC address"@,
    }
}

impl NetError {
    /// The message for display.
    pub fn to_string(&self) -> (r: String)
        ensures
            r@ == net_error_text(*self),
    {
        match self {
            NetError::Pcap(m) => {
                let mut r = String::from_str("pcap: ");
                r.append(m.as_str());
                r
            },
            NetError::NoInterface => {
                String::from_str("no suitable network interface found (need wired Ethernet)")
            },
            NetError::PermissionDenied(m) => String::from_str(m.as_str()),
            NetError::NoMacAddr(name) => {
                let mut r = String::from_str("interface ");
                r.append(name.as_str());
                r.append(" has no MAC address");
                r
            },
        }
    }
}

// -- Permissions ---------------------------------------------------------------------

/// What to tell a user who may not capture, on Linux.
pub const RAW_CAPTURE_DENIED: &'static str =
    "Raw capture not permitted — run:  sudo plcmon setup\n(grants cap_net_raw so you can capture without root)";

/// What to tell a user who may not capture, on macOS.
pub const BPF_DENIED: &'static str =
    "BPF devices not accessible — run:  sudo plcmon setup\n(creates access_bpf group so you can capture without root)";

/// Raw capture on Linux needs root or CAP_NET_RAW. `capabilities` is the report on
/// the process's capabilities, where there is one; without a report capturing is
/// tried.
pub fn check_capture_permissions(euid: u32, capabilities: Option<&str>) -> (r: Result<
    (),
    NetError,
>)
    ensures
        match r {
            Ok(_) => euid == 0 || capabilities is None || has_text(
                capabilities.unwrap()@,
                "cap_net_raw"@,
            ),
            Err(e) => {
                &&& euid != 0
                &&& capabilities is Some
                &&& !has_text(capabilities.unwrap()@, "cap_net_raw"@)
                &&& e is PermissionDenied
                &&& net_error_text(e) == RAW_CAPTURE_DENIED@
            },
        },
{
    if euid != 0 {
        match capabilities {
            Some(text) => {
                if !contains(text, "cap_net_raw") {
                    return Err(NetError::PermissionDenied(String::from_str(RAW_CAPTURE_DENIED)));
                }
            },
            None => {},
        }
    }
    Ok(())
}

/// Capturing on macOS needs access to the BPF devices.
pub fn check_bpf_permissions(denied: bool) -> (r: Result<(), NetError>)
    ensures
        match r {
            Ok(_) => !denied,
            Err(e) => denied && e is PermissionDenied && net_error_text(e) == BPF_DENIED@,
        },
{
    if denied {
        Err(NetError::PermissionDenied(String::from_str(BPF_DENIED)))
    } else {
        Ok(())
    }
}

// -- Interface discovery ---------------------------------------------------------------

/// A network interface as the capture library lists it.
#[derive(Debug)]
pub struct Interface {
    pub name: String,
    pub has_address: bool,
}

/// The name of an Ethernet interface: en* on macOS, eth*, enp*, eno* on Linux.
pub open spec fn is_ethernet_name(name: Seq<char>) -> bool {
    ||| begins_with(name, "en"@)
    ||| begins_with(name, "eth"@)
    ||| begins_with(name, "enp"@)
    ||| begins_with(name, "eno"@)
}

/// An interface to prefer: Ethernet, with an address.
pub open spec fn is_preferred(i: Interface) -> bool {
    is_ethernet_name(i.name@) && i.has_address
}

/// An interface to fall back to: not loopback, with an address.
pub open spec fn is_fallback(i: Interface) -> bool {
    !begins_with(i.name@, "lo"@) && i.has_address
}

/// The position of the first interface that is wanted; the length if there is none.
pub open spec fn first_wanted(devs: Seq<Interface>, wanted: spec_fn(Interface) -> bool) -> int
    decreases devs.len(),
{
    if devs.len() == 0 || wanted(devs[0]) {
        0
    } else {
        1 + first_wanted(devs.skip(1), wanted)
    }
}

/// The interface to capture on: the first preferred one, else the first to fall
/// back to.
pub open spec fn chosen_interface(devs: Seq<Interface>) -> Option<Seq<char>> {
    let i = first_wanted(devs, |d: Interface| is_preferred(d));
    let j = first_wanted(devs, |d: Interface| is_fallback(d));
    if i < devs.len() {
        Some(devs[i].name@)
    } else if j < devs.len() {
        Some(devs[j].name@)
    } else {
        None
    }
}

proof fn lemma_first_wanted(devs: Seq<Interface>, wanted: spec_fn(Interface) -> bool, n: int)
    requires
        0 <= n <= devs.len(),
        forall|k: int| 0 <= k < n ==> !wanted(#[trigger] devs[k]),
        n < devs.len() ==> wanted(devs[n]),
    ensures
        first_wanted(devs, wanted) == n,
    decreases devs.len(),
{
    if n > 0 {
        assert(!wanted(devs[0]));
        let rest = devs.skip(1);
        assert forall|k: int| 0 <= k < n - 1 implies !wanted(#[trigger] rest[k]) by {
            assert(rest[k] == devs[k + 1]);
        }
        lemma_first_wanted(rest, wanted, n - 1);
    }
}

/// Choose the interface to capture on.
pub fn find_ethernet_iface(devs: &Vec<Interface>) -> (r: Result<String, NetError>)
    ensures
        match r {
            Ok(name) => chosen_interface(devs@) == Some(name@),
            Err(e) => chosen_interface(devs@) is None && e is NoInterface,
        },
{
    let ghost preferred = |d: Interface| is_preferred(d);
    let ghost fallback = |d: Interface| is_fallback(d);
    let mut i: usize = 0;
    while i < devs.len()
        invariant
            i <= devs.len(),
            preferred == (|d: Interface| is_preferred(d)),
            forall|k: int| 0 <= k < i ==> !preferred(#[trigger] devs@[k]),
        decreases devs.len() - i,
    {
        let name = devs[i].name.as_str();
        let ethernet = starts_with(name, "en") || starts_with(name, "eth") || starts_with(
            name,
            "enp",
        ) || starts_with(name, "eno");
        if ethernet && devs[i].has_address {
            proof {
                lemma_first_wanted(devs@, preferred, i as int);
            }
            return Ok(String::from_str(name));
        }
        i += 1;
    }
    proof {
        lemma_first_wanted(devs@, preferred, i as int);
    }
    let mut j: usize = 0;
    while j < devs.len()
        invariant
            j <= devs.len(),
            preferred == (|d: Interface| is_preferred(d)),
            first_wanted(devs@, preferred) == devs@.len(),
            fallback == (|d: Interface| is_fallback(d)),
            forall|k: int| 0 <= k < j ==> !fallback(#[trigger] devs@[k]),
        decreases devs.len() - j,
    {
        let name = devs[j].name.as_str();
        if !starts_with(name, "lo") && devs[j].has_address {
            proof {
                lemma_first_wanted(devs@, fallback, j as int);
            }
            return Ok(String::from_str(name));
        }
        j += 1;
    }
    proof {
        lemma_first_wanted(devs@, fallback, j as int);
    }
    Err(NetError::NoInterface)
}

// -- MAC addresses -----------------------------------------------------------------------

/// The parts of a written MAC address: what stands between colons or dashes.
pub open spec fn mac_parts(s: Seq<char>) -> Seq<Seq<char>> {
    split(s, seq![':', '-'])
}

/// The address that `s` writes: six hexadecimal octets with colons or dashes
/// between them.
pub open spec fn mac_of_text(s: Seq<char>) -> Option<MacAddr> {
    let parts = mac_parts(s);
    if parts.len() == 6 && forall|i: int| 0 <= i < 6 ==> hex_octet(#[trigger] parts[i]) is Some {
        Some(
            MacAddr(
                [
                    hex_octet(parts[0]).unwrap(),
                    hex_octet(parts[1]).unwrap(),
                    hex_octet(parts[2]).unwrap(),
                    hex_octet(parts[3]).unwrap(),
                    hex_octet(parts[4]).unwrap(),
                    hex_octet(parts[5]).unwrap(),
                ],
            ),
        )
    } else {
        None
    }
}

fn parse_mac_chars(s: &[char]) -> (r: Option<MacAddr>)
    ensures
        r == mac_of_text(s@),
{
    let seps: [char; 2] = [':', '-'];
    let parts = split_at_any(s, seps.as_slice());
    assert(seps@ == seq![':', '-']);
    let ghost texts = mac_parts(s@);
    assert(pieces(parts@) == texts);
    if parts.len() != 6 {
        return None;
    }
    let mut addr: [u8; 6] = [0, 0, 0, 0, 0, 0];
    let mut i: usize = 0;
    while i < 6
        invariant
            i <= 6,
            parts@.len() == 6,
            texts == mac_parts(s@),
            pieces(parts@) == texts,
            forall|k: int| 0 <= k < i ==> hex_octet(#[trigger] texts[k]) == Some(addr@[k]),
        decreases 6 - i,
    {
        assert(texts[i as int] == parts@[i as int]@);
        match parse_hex_octet(parts[i].as_slice()) {
            Some(v) => {
                addr[i] = v;
            },
            None => {
                return None;
            },
        }
        i += 1;
    }
    let ghost found = mac_of_text(s@);
    assert(found is Some && found.unwrap().0 =~= addr);
    Some(MacAddr(addr))
}

/// Parse a MAC address. Accepts both ':' and '-' separators.
pub fn parse_mac(s: &str) -> (r: Option<MacAddr>)
    ensures
        r == mac_of_text(s@),
{
    parse_mac_chars(chars_of(s).as_slice())
}

/// The address in the text of an interface's `address` file.
pub open spec fn sysfs_mac(text: Seq<char>) -> Option<MacAddr> {
    mac_of_text(trimmed(text))
}

/// The address on the first of `lines` that begins, after white space, with `ether`:
/// the word that follows. More may stand behind it, such as the queue length that
/// Linux prints.
pub open spec fn ether_line_mac(lines: Seq<Seq<char>>) -> Option<MacAddr>
    decreases lines.len(),
{
    if lines.len() == 0 {
        None
    } else {
        let line = trimmed(lines[0]);
        if begins_with(line, "ether "@) {
            mac_of_text(first_word(trimmed(line.skip(6))))
        } else {
            ether_line_mac(lines.skip(1))
        }
    }
}

/// The address in a report of `ifconfig`.
pub open spec fn ifconfig_mac(text: Seq<char>) -> Option<MacAddr> {
    ether_line_mac(split(text, seq!['\n']))
}

/// The address of an interface: from its `address` file where that gives one, else
/// from the `ifconfig` report. A text that could not be had gives none.
pub open spec fn interface_mac(sysfs: Option<Seq<char>>, ifconfig: Option<Seq<char>>) -> Option<
    MacAddr,
> {
    let first = match sysfs {
        Some(text) => sysfs_mac(text),
        None => None,
    };
    match (first, ifconfig) {
        (Some(m), _) => Some(m),
        (None, Some(text)) => ifconfig_mac(text),
        (None, None) => None,
    }
}

/// Read the address in the text of an interface's `address` file.
pub fn get_mac_sysfs(text: &str) -> (r: Option<MacAddr>)
    ensures
        r == sysfs_mac(text@),
{
    parse_mac_chars(trim(chars_of(text).as_slice()))
}

/// Read the address in a report of `ifconfig`.
pub fn get_mac_ifconfig(text: &str) -> (r: Option<MacAddr>)
    ensures
        r == ifconfig_mac(text@),
{
    let newline: [char; 1] = ['\n'];
    let lines = split_at_any(chars_of(text).as_slice(), newline.as_slice());
    assert(newline@ == seq!['\n']);
    let ghost all = pieces(lines@);
    let mut i: usize = 0;
    assert(all.skip(0) == all);
    proof {
        reveal_strlit("ether ");
    }
    while i < lines.len()
        invariant
            i <= lines.len(),
            all == pieces(lines@),
            ifconfig_mac(text@) == ether_line_mac(all.skip(i as int)),
            "ether "@.len() == 6,
        decreases lines.len() - i,
    {
        assert(all.skip(i as int)[0] == lines@[i as int]@);
        assert(all.skip(i as int).skip(1) == all.skip(i + 1));
        let line = trim(lines[i].as_slice());
        if chars_begin_with(line, "ether ") {
            let rest = vstd::slice::slice_subrange(line, 6, line.len());
            assert(rest@ == line@.skip(6));
            return parse_mac_chars(word(trim(rest)));
        }
        i += 1;
    }
    None
}

/// The address of an interface, from the texts that describe it.
pub fn get_mac(sysfs: Option<&str>, ifconfig: Option<&str>) -> (r: Option<MacAddr>)
    ensures
        r == interface_mac(
            match sysfs {
                Some(text) => Some(text@),
                None => None,
            },
            match ifconfig {
                Some(text) => Some(text@),
                None => None,
            },
        ),
{
    match sysfs {
        Some(text) => {
            let m = get_mac_sysfs(text);
            if m.is_some() {
                return m;
            }
        },
        None => {},
    }
    match ifconfig {
        Some(text) => get_mac_ifconfig(text),
        None => None,
    }
}

// -- Laws ----------------------------------------------------------------------------------

/// Two hexadecimal digits write an octet, and hold no separator.
proof fn lemma_hex_byte(b: u8)
    ensures
        hex_octet(hex_byte(b)) == Some(b),
        forall|i: int|
            0 <= i < 2 ==> (#[trigger] hex_byte(b)[i]) != ':' && hex_byte(b)[i] != '-',
{
    let s = hex_byte(b);
    assert(s.drop_last().drop_last() == Seq::<char>::empty());
    assert(s.drop_last().last() == s[0]);
    assert(hex_value(s.drop_last().drop_last()) == 0);
    assert(hex_value(s.drop_last()) == b as int / 16);
    assert(hex_value(s) == b);
    assert(all_hex(s));
}

/// An octet that is written behind `s` becomes part of the last piece of `s`.
proof fn lemma_octet_behind(s: Seq<char>, b: u8)
    requires
        mac_parts(s).len() >= 1,
    ensures
        mac_parts(s + hex_byte(b)) == mac_parts(s).update(
            mac_parts(s).len() - 1,
            mac_parts(s).last() + hex_byte(b),
        ),
{
    lemma_hex_byte(b);
    let d = hex_byte(b);
    let one = s.push(d[0]);
    let two = one.push(d[1]);
    assert(two == s + d);
    assert(one.drop_last() == s);
    assert(two.drop_last() == one);
    assert(!seq![':', '-'].contains(d[0]));
    assert(!seq![':', '-'].contains(d[1]));
    let parts = mac_parts(s);
    let n = parts.len() - 1;
    assert(mac_parts(one) == parts.update(n, parts.last().push(d[0])));
    assert(mac_parts(two) == parts.update(n, parts.last().push(d[0]).push(d[1])));
    assert(parts.last().push(d[0]).push(d[1]) == parts.last() + d);
}

/// A colon behind `s` opens a new piece.
proof fn lemma_colon_behind(s: Seq<char>)
    ensures
        mac_parts(s + seq![':']) == mac_parts(s).push(Seq::empty()),
{
    assert((s + seq![':']).drop_last() == s);
    assert(seq![':', '-'][0] == ':');
}

/// The first `n` octets of an address, with a colon between neighbours.
spec fn octets_text(m: MacAddr, n: int) -> Seq<char>
    decreases n,
{
    if n <= 1 {
        hex_byte(m.0[0])
    } else {
        octets_text(m, n - 1) + seq![':'] + hex_byte(m.0[n - 1])
    }
}

proof fn lemma_octets_text(m: MacAddr, n: int)
    requires
        1 <= n <= 6,
    ensures
        mac_parts(octets_text(m, n)) == Seq::new(n as nat, |i: int| hex_byte(m.0[i])),
    decreases n,
{
    let empty = Seq::<char>::empty();
    if n == 1 {
        assert(mac_parts(empty) == seq![empty]);
        lemma_octet_behind(empty, m.0[0]);
        assert(empty + hex_byte(m.0[0]) == hex_byte(m.0[0]));
    } else {
        lemma_octets_text(m, n - 1);
        let before = octets_text(m, n - 1);
        lemma_colon_behind(before);
        lemma_octet_behind(before + seq![':'], m.0[n - 1]);
        assert(empty + hex_byte(m.0[n - 1]) == hex_byte(m.0[n - 1]));
    }
}

/// Parsing gives back the address that was written.
pub proof fn law_written_address_parses(m: MacAddr)
    ensures
        mac_of_text(mac_text(m)) == Some(m),
{
    reveal_with_fuel(octets_text, 6);
    assert(octets_text(m, 6) == mac_text(m));
    lemma_octets_text(m, 6);
    let parts = mac_parts(mac_text(m));
    assert forall|i: int| 0 <= i < 6 implies hex_octet(#[trigger] parts[i]) == Some(m.0[i]) by {
        lemma_hex_byte(m.0[i]);
    }
    assert(mac_of_text(mac_text(m)).unwrap().0 =~= m.0);
}

/// Different addresses are written differently.
pub proof fn law_addresses_are_told_apart(a: MacAddr, b: MacAddr)
    requires
        mac_text(a) == mac_text(b),
    ensures
        a == b,
{
    law_written_address_parses(a);
    law_written_address_parses(b);
}

/// Colons and dashes separate octets alike: a text in which some are exchanged for
/// the other writes the same address, or none, as before.
pub proof fn law_separators_are_alike(s: Seq<char>, t: Seq<char>)
    requires
        s.len() == t.len(),
        forall|i: int|
            0 <= i < s.len() ==> (#[trigger] s[i]) == t[i] || (seq![':', '-'].contains(s[i])
                && seq![':', '-'].contains(t[i])),
    ensures
        mac_of_text(s) == mac_of_text(t),
{
    lemma_same_parts(s, t);
}

proof fn lemma_same_parts(s: Seq<char>, t: Seq<char>)
    requires
        s.len() == t.len(),
        forall|i: int|
            0 <= i < s.len() ==> (#[trigger] s[i]) == t[i] || (seq![':', '-'].contains(s[i])
                && seq![':', '-'].contains(t[i])),
    ensures
        mac_parts(s) == mac_parts(t),
    decreases s.len(),
{
    if s.len() > 0 {
        let a = s.drop_last();
        let b = t.drop_last();
        assert forall|i: int| 0 <= i < a.len() implies (#[trigger] a[i]) == b[i] || (seq![
            ':',
            '-',
        ].contains(a[i]) && seq![':', '-'].contains(b[i])) by {
            assert(a[i] == s[i]);
        }
        lemma_same_parts(a, b);
        assert(s.last() == s[s.len() - 1]);
    }
}

/// Two texts are the same but for the case of hexadecimal digits.
pub open spec fn same_but_for_case(s: Seq<char>, t: Seq<char>) -> bool {
    &&& s.len() == t.len()
    &&& forall|i: int|
        0 <= i < s.len() ==> (#[trigger] s[i]) == t[i] || (hex_digit_value(s[i]) is Some
            && hex_digit_value(s[i]) == hex_digit_value(t[i]))
}

proof fn lemma_case_of_parts(s: Seq<char>, t: Seq<char>)
    requires
        same_but_for_case(s, t),
    ensures
        mac_parts(s).len() == mac_parts(t).len(),
        mac_parts(s).len() >= 1,
        forall|i: int|
            0 <= i < mac_parts(s).len() ==> same_but_for_case(
                #[trigger] mac_parts(s)[i],
                mac_parts(t)[i],
            ),
    decreases s.len(),
{
    if s.len() > 0 {
        let a = s.drop_last();
        let b = t.drop_last();
        assert forall|i: int| 0 <= i < a.len() implies (#[trigger] a[i]) == b[i] || (
        hex_digit_value(a[i]) is Some && hex_digit_value(a[i]) == hex_digit_value(b[i])) by {
            assert(a[i] == s[i]);
        }
        lemma_case_of_parts(a, b);
        let x = s.last();
        let y = t.last();
        assert(x == s[s.len() - 1]);
        let seps = seq![':', '-'];
        assert(seps[0] == ':' && seps[1] == '-');
        assert(seps.contains(x) == seps.contains(y));
        let p = mac_parts(a);
        let q = mac_parts(b);
        let n = p.len() - 1;
        assert(same_but_for_case(p[n], q[n]));
        if !seps.contains(x) {
            let u = p[n].push(x);
            let v = q[n].push(y);
            assert(same_but_for_case(u, v)) by {
                assert forall|i: int| 0 <= i < u.len() implies (#[trigger] u[i]) == v[i] || (
                hex_digit_value(u[i]) is Some && hex_digit_value(u[i]) == hex_digit_value(
                    v[i],
                )) by {
                    if i < p[n].len() {
                        assert(u[i] == p[n][i]);
                    }
                }
            }
        }
        assert forall|i: int| 0 <= i < mac_parts(s).len() implies same_but_for_case(
            #[trigger] mac_parts(s)[i],
            mac_parts(t)[i],
        ) by {
            if i < n {
                assert(same_but_for_case(p[i], q[i]));
            }
        }
    }
}

proof fn lemma_case_of_value(s: Seq<char>, t: Seq<char>)
    requires
        same_but_for_case(s, t),
    ensures
        hex_value(s) == hex_value(t),
        all_hex(s) == all_hex(t),
    decreases s.len(),
{
    assert forall|i: int| 0 <= i < s.len() implies hex_digit_value(#[trigger] s[i])
        == hex_digit_value(t[i]) by {}
    if all_hex(s) {
        assert forall|i: int| 0 <= i < t.len() implies hex_digit_value(#[trigger] t[i]) is Some by {
            assert(hex_digit_value(s[i]) is Some);
        }
    }
    if all_hex(t) {
        assert forall|i: int| 0 <= i < s.len() implies hex_digit_value(#[trigger] s[i]) is Some by {
            assert(hex_digit_value(t[i]) is Some);
        }
    }
    if s.len() > 0 {
        let a = s.drop_last();
        let b = t.drop_last();
        assert forall|i: int| 0 <= i < a.len() implies (#[trigger] a[i]) == b[i] || (
        hex_digit_value(a[i]) is Some && hex_digit_value(a[i]) == hex_digit_value(b[i])) by {
            assert(a[i] == s[i]);
        }
        lemma_case_of_value(a, b);
        assert(s.last() == s[s.len() - 1]);
    }
}

proof fn lemma_case_of_octet(s: Seq<char>, t: Seq<char>)
    requires
        same_but_for_case(s, t),
    ensures
        hex_octet(s) == hex_octet(t),
{
    if s.len() > 1 && s[0] == '+' {
        let a = s.skip(1);
        let b = t.skip(1);
        assert forall|i: int| 0 <= i < a.len() implies (#[trigger] a[i]) == b[i] || (
        hex_digit_value(a[i]) is Some && hex_digit_value(a[i]) == hex_digit_value(b[i])) by {
            assert(a[i] == s[i + 1]);
        }
        lemma_case_of_value(a, b);
    } else {
        if s.len() > 1 {
            assert(t[0] == '+' ==> s[0] == '+') by {
                assert(s[0] == t[0] || hex_digit_value(t[0]) is Some);
            }
        }
        lemma_case_of_value(s, t);
    }
}

/// The case of the digits does not matter.
pub proof fn law_case_does_not_matter(s: Seq<char>, t: Seq<char>)
    requires
        same_but_for_case(s, t),
    ensures
        mac_of_text(s) == mac_of_text(t),
{
    lemma_case_of_parts(s, t);
    let p = mac_parts(s);
    let q = mac_parts(t);
    assert forall|i: int| 0 <= i < p.len() implies hex_octet(#[trigger] p[i]) == hex_octet(
        q[i],
    ) by {
        assert(same_but_for_case(p[i], q[i]));
        lemma_case_of_octet(p[i], q[i]);
    }
    if mac_of_text(s) is Some {
        assert forall|i: int| 0 <= i < 6 implies hex_octet(#[trigger] q[i]) is Some by {
            assert(hex_octet(p[i]) is Some);
        }
    }
    if mac_of_text(t) is Some {
        assert forall|i: int| 0 <= i < 6 implies hex_octet(#[trigger] p[i]) is Some by {
            assert(hex_octet(q[i]) is Some);
        }
    }
}

/// Whatever stands behind the address on an `ether` line, after white space, does not
/// matter.
pub proof fn law_rest_of_line_does_not_matter(address: Seq<char>, gap: char, rest: Seq<char>)
    requires
        forall|i: int| 0 <= i < address.len() ==> !is_space(#[trigger] address[i]),
        is_space(gap),
    ensures
        mac_of_text(first_word(address + seq![gap] + rest)) == mac_of_text(address),
        mac_of_text(first_word(address)) == mac_of_text(address),
{
    lemma_first_word(address, seq![gap] + rest);
    assert(address + (seq![gap] + rest) == address + seq![gap] + rest);
    lemma_first_word(address, Seq::empty());
    assert(address + Seq::<char>::empty() == address);
}

/// A word ends where white space begins.
proof fn lemma_first_word(s: Seq<char>, rest: Seq<char>)
    requires
        forall|i: int| 0 <= i < s.len() ==> !is_space(#[trigger] s[i]),
        rest.len() > 0 ==> is_space(rest[0]),
    ensures
        first_word(s + rest) == s,
    decreases s.len(),
{
    if s.len() == 0 {
        assert(s + rest == rest);
    } else {
        let tail = s.skip(1);
        assert forall|i: int| 0 <= i < tail.len() implies !is_space(#[trigger] tail[i]) by {
            assert(tail[i] == s[i + 1]);
        }
        lemma_first_word(tail, rest);
        assert((s + rest).skip(1) == tail + rest);
        assert((s + rest)[0] == s[0]);
        assert(seq![s[0]] + tail == s);
    }
}

/// The name of an Ethernet interface begins with en or with eth.
pub open spec fn sounds_wired(name: Seq<char>) -> bool {
    ||| name.len() >= 2 && name[0] == 'e' && name[1] == 'n'
    ||| name.len() >= 3 && name[0] == 'e' && name[1] == 't' && name[2] == 'h'
}

/// The name of a loopback interface begins with lo.
pub open spec fn sounds_looped(name: Seq<char>) -> bool {
    name.len() >= 2 && name[0] == 'l' && name[1] == 'o'
}

proof fn lemma_names(name: Seq<char>)
    ensures
        is_ethernet_name(name) <==> sounds_wired(name),
        begins_with(name, "lo"@) <==> sounds_looped(name),
{
    reveal_strlit("en");
    reveal_strlit("eth");
    reveal_strlit("enp");
    reveal_strlit("eno");
    reveal_strlit("lo");
    if name.len() >= 2 {
        assert(name.take(2)[0] == name[0] && name.take(2)[1] == name[1]);
        if name[0] == 'e' && name[1] == 'n' {
            assert(name.take(2) =~= "en"@);
        }
        if name[0] == 'l' && name[1] == 'o' {
            assert(name.take(2) =~= "lo"@);
        }
    }
    if name.len() >= 3 {
        let t = name.take(3);
        assert(t[0] == name[0] && t[1] == name[1] && t[2] == name[2]);
        if name[0] == 'e' && name[1] == 't' && name[2] == 'h' {
            assert(t =~= "eth"@);
        }
    }
}

/// The interface to capture on is the first wired one with an address; without one, the
/// first with an address that is not a loopback; without one, there is none.
pub proof fn law_chosen_interface(devs: Seq<Interface>, n: int)
    requires
        0 <= n <= devs.len(),
    ensures
        n < devs.len() && devs[n].has_address && sounds_wired(devs[n].name@) && (forall|k: int|
            0 <= k < n ==> !((#[trigger] devs[k]).has_address && sounds_wired(devs[k].name@)))
            ==> chosen_interface(devs) == Some(devs[n].name@),
        n < devs.len() && devs[n].has_address && !sounds_looped(devs[n].name@) && (forall|k: int|
            0 <= k < devs.len() ==> !((#[trigger] devs[k]).has_address && sounds_wired(
                devs[k].name@,
            ))) && (forall|k: int|
            0 <= k < n ==> !((#[trigger] devs[k]).has_address && !sounds_looped(devs[k].name@)))
            ==> chosen_interface(devs) == Some(devs[n].name@),
        (forall|k: int|
            0 <= k < devs.len() ==> !((#[trigger] devs[k]).has_address && (sounds_wired(
                devs[k].name@,
            ) || !sounds_looped(devs[k].name@)))) ==> chosen_interface(devs) is None,
{
    let preferred = |d: Interface| is_preferred(d);
    let fallback = |d: Interface| is_fallback(d);
    assert forall|k: int| 0 <= k < devs.len() implies (preferred(#[trigger] devs[k]) <==> (
    devs[k].has_address && sounds_wired(devs[k].name@))) && (fallback(devs[k]) <==> (
    devs[k].has_address && !sounds_looped(devs[k].name@))) by {
        lemma_names(devs[k].name@);
    }
    if n < devs.len() && devs[n].has_address && sounds_wired(devs[n].name@) && (forall|k: int|
        0 <= k < n ==> !((#[trigger] devs[k]).has_address && sounds_wired(devs[k].name@))) {
        lemma_first_wanted(devs, preferred, n);
    }
    if forall|k: int|
        0 <= k < devs.len() ==> !((#[trigger] devs[k]).has_address && sounds_wired(devs[k].name@)) {
        lemma_first_wanted(devs, preferred, devs.len() as int);
    }
    if n < devs.len() && devs[n].has_address && !sounds_looped(devs[n].name@) && (forall|k: int|
        0 <= k < n ==> !((#[trigger] devs[k]).has_address && !sounds_looped(devs[k].name@))) {
        lemma_first_wanted(devs, fallback, n);
    }
    if forall|k: int|
        0 <= k < devs.len() ==> !((#[trigger] devs[k]).has_address && (sounds_wired(devs[k].name@)
            || !sounds_looped(devs[k].name@))) {
        lemma_first_wanted(devs, preferred, devs.len() as int);
        lemma_first_wanted(devs, fallback, devs.len() as int);
    }
}

/// The address file is believed first, the report of `ifconfig` where the file gives no
/// address.
pub proof fn law_address_file_first(sysfs: Option<Seq<char>>, ifconfig: Option<Seq<char>>, m: MacAddr)
    ensures
        sysfs is Some && sysfs_mac(sysfs.unwrap()) == Some(m) ==> interface_mac(sysfs, ifconfig)
            == Some(m),
        (sysfs is None || sysfs_mac(sysfs.unwrap()) is None) && ifconfig is Some ==> interface_mac(
            sysfs,
            ifconfig,
        ) == ifconfig_mac(ifconfig.unwrap()),
        (sysfs is None || sysfs_mac(sysfs.unwrap()) is None) && ifconfig is None ==> interface_mac(
            sysfs,
            ifconfig,
        ) is None,
{
}

/// Some parts, with a colon between neighbours.
pub open spec fn with_colons(parts: Seq<Seq<char>>) -> Seq<char>
    decreases parts.len(),
{
    if parts.len() == 0 {
        Seq::empty()
    } else if parts.len() == 1 {
        parts[0]
    } else {
        with_colons(parts.drop_last()) + seq![':'] + parts.last()
    }
}

proof fn lemma_with_colons(parts: Seq<Seq<char>>)
    requires
        parts.len() > 0,
        forall|i: int, k: int|
            0 <= i < parts.len() && 0 <= k < parts[i].len() ==> (#[trigger] parts[i][k]) != ':'
                && parts[i][k] != '-',
    ensures
        mac_parts(with_colons(parts)) == parts,
    decreases parts.len(),
{
    let seps = seq![':', '-'];
    let last = parts.last();
    assert(seps[0] == ':' && seps[1] == '-');
    assert forall|k: int| 0 <= k < last.len() implies !seps.contains(#[trigger] last[k]) by {
        assert(parts[parts.len() - 1][k] != ':');
    }
    let init = parts.drop_last();
    law_split(with_colons(init), ':', last, seps);
    if parts.len() == 1 {
        assert(parts =~= seq![last]);
    } else {
        assert forall|i: int, k: int|
            0 <= i < init.len() && 0 <= k < init[i].len() implies (#[trigger] init[i][k]) != ':'
            && init[i][k] != '-' by {
            assert(init[i] == parts[i]);
            assert(parts[i][k] != ':');
        }
        lemma_with_colons(init);
        assert(init.push(last) =~= parts);
    }
}

/// A written address has six parts, each an octet in hexadecimal, and stands for these
/// octets in order; anything else is no address.
pub proof fn law_address_of_parts(parts: Seq<Seq<char>>, k: int)
    requires
        parts.len() > 0,
        forall|i: int, k: int|
            0 <= i < parts.len() && 0 <= k < parts[i].len() ==> (#[trigger] parts[i][k]) != ':'
                && parts[i][k] != '-',
    ensures
        mac_of_text(with_colons(parts)) is Some <==> parts.len() == 6 && forall|i: int|
            0 <= i < 6 ==> hex_octet(#[trigger] parts[i]) is Some,
        mac_of_text(with_colons(parts)) is Some && 0 <= k < 6 ==> Some(
            mac_of_text(with_colons(parts)).unwrap().0@[k],
        ) == hex_octet(parts[k]),
{
    lemma_with_colons(parts);
}

/// The address in a report of `ifconfig` is the word behind `ether` on the first line
/// that begins with it; other lines do not matter.
pub proof fn law_ether_line(line: Seq<char>, lines: Seq<Seq<char>>)
    ensures
        ether_line_mac(Seq::empty()) is None,
        trimmed(line).len() >= 6 && trimmed(line).take(6) == "ether "@ ==> ether_line_mac(
            seq![line] + lines,
        ) == mac_of_text(first_word(trimmed(trimmed(line).skip(6)))),
        !(trimmed(line).len() >= 6 && trimmed(line).take(6) == "ether "@) ==> ether_line_mac(
            seq![line] + lines,
        ) == ether_line_mac(lines),
{
    reveal_strlit("ether ");
    let all = seq![line] + lines;
    assert(all[0] == line);
    assert(all.skip(1) =~= lines);
}

}
