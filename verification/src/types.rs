//! Results of a network scan.

use crate::clock::{Instant, Timestamp};
use crate::protocol::MacAddr;
use crate::text::{begins_with, chars_of, lemma_split_len, split, starts_with};
use vstd::prelude::*;
use vstd::string::*;
use vstd::utf8::{
    encode_utf8, encode_utf8_valid_utf8, is_ascii_chars, is_ascii_chars_encode_utf8,
    is_char_boundary, is_char_boundary_iff_is_leading_byte, is_char_boundary_start_end_of_seq,
    is_leading_byte_width_1,
};

verus! {

#[derive(Debug, Clone)]
pub struct NetworkScan {
    pub timestamp: Timestamp,
    pub interface: String,
    pub devices: Vec<Device>,
    pub links: Vec<Link>,
}

#[derive(Debug, Clone)]
pub struct Device {
    pub mac: MacAddr,
    pub model: String,
    pub firmware: String,
    pub is_local: bool,
    pub is_cco: bool,
    pub chipset: Chipset,
}

#[derive(Debug, Clone, Copy, PartialEq, Eq, Structural)]
pub enum Chipset {
    Broadcom,
    Qualcomm,
    Unknown,
}

#[derive(Debug, Clone)]
pub struct Link {
    pub from: MacAddr,
    pub to: MacAddr,
    pub tx_mbps: u16,
    pub rx_mbps: u16,
    pub tx_signal: String,
    pub rx_signal: String,
}

// -- Views -----------------------------------------------------------------------

pub struct DeviceView {
    pub mac: MacAddr,
    pub model: Seq<char>,
    pub firmware: Seq<char>,
    pub is_local: bool,
    pub is_cco: bool,
    pub chipset: Chipset,
}

pub struct LinkView {
    pub from: MacAddr,
    pub to: MacAddr,
    pub tx_mbps: u16,
    pub rx_mbps: u16,
    pub tx_signal: Seq<char>,
    pub rx_signal: Seq<char>,
}

pub struct ScanView {
    pub timestamp: Instant,
    pub interface: Seq<char>,
    pub devices: Seq<DeviceView>,
    pub links: Seq<LinkView>,
}

impl View for Device {
    type V = DeviceView;

    open spec fn view(&self) -> DeviceView {
        DeviceView {
            mac: self.mac,
            model: self.model@,
            firmware: self.firmware@,
            is_local: self.is_local,
            is_cco: self.is_cco,
            chipset: self.chipset,
        }
    }
}

impl View for Link {
    type V = LinkView;

    open spec fn view(&self) -> LinkView {
        LinkView {
            from: self.from,
            to: self.to,
            tx_mbps: self.tx_mbps,
            rx_mbps: self.rx_mbps,
            tx_signal: self.tx_signal@,
            rx_signal: self.rx_signal@,
        }
    }
}

/// The devices of a list.
pub open spec fn device_views(devices: Seq<Device>) -> Seq<DeviceView> {
    devices.map_values(|d: Device| d@)
}

/// The links of a list.
pub open spec fn link_views(links: Seq<Link>) -> Seq<LinkView> {
    links.map_values(|l: Link| l@)
}

impl View for NetworkScan {
    type V = ScanView;

    open spec fn view(&self) -> ScanView {
        ScanView {
            timestamp: self.timestamp@,
            interface: self.interface@,
            devices: device_views(self.devices@),
            links: link_views(self.links@),
        }
    }
}

// -- Mean rate ------------------------------------------------------------------------

/// The mean of the two rates of a link, rounded down.
pub open spec fn average(tx: u16, rx: u16) -> int {
    (tx + rx) / 2
}

/// Compute the mean of the two rates of a link.
pub fn average_mbps(tx: u16, rx: u16) -> (r: u16)
    ensures
        r == average(tx, rx),
{
    ((tx as u32 + rx as u32) / 2) as u16
}

// -- Chipset ---------------------------------------------------------------------

/// The name under which a chipset is shown.
pub open spec fn chipset_name(c: Chipset) -> Seq<char> {
    match c {
        Chipset::Broadcom => "BCM"@,
        Chipset::Qualcomm => "QCA"@,
        Chipset::Unknown => "???"@,
    }
}

impl Chipset {
    /// The name for display.
    pub fn to_string(&self) -> (r: String)
        ensures
            r@ == chipset_name(*self),
    {
        match self {
            Chipset::Broadcom => String::from_str("BCM"),
            Chipset::Qualcomm => String::from_str("QCA"),
            Chipset::Unknown => String::from_str("???"),
        }
    }
}

// -- Speed matrix ------------------------------------------------------------------

/// The TX rate from one device to another, as the last link between them says.
pub open spec fn speeds(links: Seq<LinkView>) -> Map<(MacAddr, MacAddr), u16>
    decreases links.len(),
{
    if links.len() == 0 {
        Map::empty()
    } else {
        speeds(links.drop_last()).insert((links.last().from, links.last().to), links.last().tx_mbps)
    }
}

/// The name of the TX signal from one device to another, as the last link between
/// them says.
pub open spec fn signals(links: Seq<LinkView>) -> Map<(MacAddr, MacAddr), Seq<char>>
    decreases links.len(),
{
    if links.len() == 0 {
        Map::empty()
    } else {
        signals(links.drop_last()).insert(
            (links.last().from, links.last().to),
            links.last().tx_signal,
        )
    }
}

/// A from→to speed lookup, with one entry for each pair of devices.
pub struct SpeedMatrix {
    entries: Vec<(MacAddr, MacAddr, u16)>,
}

/// The pair that an entry is for.
pub open spec fn pair_of(entry: (MacAddr, MacAddr, u16)) -> (MacAddr, MacAddr) {
    (entry.0, entry.1)
}

/// No two entries are for the same pair.
pub open spec fn distinct_pairs(entries: Seq<(MacAddr, MacAddr, u16)>) -> bool {
    forall|i: int, j: int|
        0 <= i < j < entries.len() ==> pair_of(#[trigger] entries[i]) != pair_of(
            #[trigger] entries[j],
        )
}

/// The entries as a map.
pub open spec fn entry_map(entries: Seq<(MacAddr, MacAddr, u16)>) -> Map<(MacAddr, MacAddr), u16>
    decreases entries.len(),
{
    if entries.len() == 0 {
        Map::empty()
    } else {
        entry_map(entries.drop_last()).insert(pair_of(entries.last()), entries.last().2)
    }
}

/// The map of distinct entries holds each of them, and nothing else.
pub proof fn lemma_entry_map(entries: Seq<(MacAddr, MacAddr, u16)>)
    requires
        distinct_pairs(entries),
    ensures
        entry_map(entries).dom().finite(),
        entry_map(entries).len() == entries.len(),
        forall|i: int|
            0 <= i < entries.len() ==> entry_map(entries).get(pair_of(#[trigger] entries[i]))
                == Some(entries[i].2),
        forall|p: (MacAddr, MacAddr)| #[trigger]
            entry_map(entries).dom().contains(p) ==> exists|i: int|
                0 <= i < entries.len() && pair_of(#[trigger] entries[i]) == p,
    decreases entries.len(),
{
    if entries.len() > 0 {
        let rest = entries.drop_last();
        let last = entries.len() - 1;
        lemma_entry_map(rest);
        assert(!entry_map(rest).dom().contains(pair_of(entries[last])));
        assert forall|i: int| 0 <= i < entries.len() implies entry_map(entries).get(
            pair_of(#[trigger] entries[i]),
        ) == Some(entries[i].2) by {
            if i < last {
                assert(rest[i] == entries[i]);
                assert(pair_of(entries[i]) != pair_of(entries[last]));
            }
        }
        assert forall|p: (MacAddr, MacAddr)| #[trigger]
            entry_map(entries).dom().contains(p) implies exists|i: int|
            0 <= i < entries.len() && pair_of(#[trigger] entries[i]) == p by {
            if p == pair_of(entries[last]) {
                assert(pair_of(entries[last]) == p);
            } else {
                let i = choose|i: int| 0 <= i < rest.len() && pair_of(#[trigger] rest[i]) == p;
                assert(pair_of(entries[i]) == p);
            }
        }
    }
}

/// Enter a speed, in place of an earlier one for the same pair.
fn put_entry(entries: &mut Vec<(MacAddr, MacAddr, u16)>, from: MacAddr, to: MacAddr, mbps: u16)
    requires
        distinct_pairs(old(entries)@),
    ensures
        distinct_pairs(final(entries)@),
        entry_map(final(entries)@) == entry_map(old(entries)@).insert((from, to), mbps),
{
    let ghost before = entries@;
    let mut i: usize = 0;
    while i < entries.len()
        invariant
            i <= entries.len(),
            entries@ == before,
            before == old(entries)@,
            distinct_pairs(before),
            forall|k: int| 0 <= k < i ==> pair_of(#[trigger] before[k]) != (from, to),
        decreases entries.len() - i,
    {
        if entries[i].0 == from && entries[i].1 == to {
            entries.set(i, (from, to, mbps));
            proof {
                lemma_put(before, i as int, mbps);
            }
            return;
        }
        i += 1;
    }
    entries.push((from, to, mbps));
    assert(entries@.drop_last() == before);
}

/// To change the speed in an entry is to enter it in the map.
proof fn lemma_put(entries: Seq<(MacAddr, MacAddr, u16)>, at: int, mbps: u16)
    requires
        distinct_pairs(entries),
        0 <= at < entries.len(),
    ensures
        distinct_pairs(entries.update(at, (entries[at].0, entries[at].1, mbps))),
        entry_map(entries.update(at, (entries[at].0, entries[at].1, mbps))) == entry_map(
            entries,
        ).insert(pair_of(entries[at]), mbps),
    decreases entries.len(),
{
    let new = entries.update(at, (entries[at].0, entries[at].1, mbps));
    let last = entries.len() - 1;
    if at == last {
        assert(new.drop_last() == entries.drop_last());
    } else {
        assert(new.drop_last() == entries.drop_last().update(
            at,
            (entries[at].0, entries[at].1, mbps),
        ));
        lemma_put(entries.drop_last(), at, mbps);
        assert(pair_of(entries[at]) != pair_of(entries[last]));
    }
    assert(entry_map(new) =~= entry_map(entries).insert(pair_of(entries[at]), mbps));
}

impl View for SpeedMatrix {
    type V = Map<(MacAddr, MacAddr), u16>;

    closed spec fn view(&self) -> Map<(MacAddr, MacAddr), u16> {
        entry_map(self.entries@)
    }
}

impl SpeedMatrix {
    #[verifier::type_invariant]
    spec fn well_formed(self) -> bool {
        distinct_pairs(self.entries@)
    }

    /// The speed from `from` to `to`, where one is known.
    pub fn get(&self, from: MacAddr, to: MacAddr) -> (r: Option<u16>)
        ensures
            r == self@.get((from, to)),
    {
        proof {
            use_type_invariant(self);
            lemma_entry_map(self.entries@);
        }
        let mut i: usize = 0;
        while i < self.entries.len()
            invariant
                i <= self.entries.len(),
                forall|k: int|
                    0 <= k < self.entries.len() ==> self@.get(
                        pair_of(#[trigger] self.entries@[k]),
                    ) == Some(self.entries@[k].2),
                forall|k: int| 0 <= k < i ==> pair_of(#[trigger] self.entries@[k]) != (from, to),
            decreases self.entries.len() - i,
        {
            let e = self.entries[i];
            if e.0 == from && e.1 == to {
                return Some(e.2);
            }
            i += 1;
        }
        None
    }

    /// All pairs with a known speed, each once, with that speed.
    pub fn entries(&self) -> (r: Vec<(MacAddr, MacAddr, u16)>)
        ensures
            distinct_pairs(r@),
            entry_map(r@) == self@,
            r@.len() == self@.len(),
            forall|i: int|
                0 <= i < r@.len() ==> self@.get(pair_of(#[trigger] r@[i])) == Some(r@[i].2),
            forall|p: (MacAddr, MacAddr)| #[trigger]
                self@.dom().contains(p) ==> exists|i: int|
                    0 <= i < r@.len() && pair_of(#[trigger] r@[i]) == p,
    {
        proof {
            use_type_invariant(self);
            lemma_entry_map(self.entries@);
        }
        let mut r: Vec<(MacAddr, MacAddr, u16)> = Vec::new();
        let mut i: usize = 0;
        while i < self.entries.len()
            invariant
                i <= self.entries.len(),
                r@ == self.entries@.take(i as int),
            decreases self.entries.len() - i,
        {
            r.push(self.entries[i]);
            assert(r@ == self.entries@.take(i + 1));
            i += 1;
        }
        assert(r@ == self.entries@);
        r
    }
}

impl NetworkScan {
    /// Build a from→to speed lookup. Value = TX rate from the `from` device.
    pub fn speed_matrix(&self) -> (r: SpeedMatrix)
        ensures
            r@ == speeds(self@.links),
    {
        let mut entries: Vec<(MacAddr, MacAddr, u16)> = Vec::new();
        let mut i: usize = 0;
        let ghost links = self@.links;
        assert(links.take(0).len() == 0);
        while i < self.links.len()
            invariant
                i <= self.links.len(),
                links == link_views(self.links@),
                distinct_pairs(entries@),
                entry_map(entries@) == speeds(links.take(i as int)),
            decreases self.links.len() - i,
        {
            let l = &self.links[i];
            put_entry(&mut entries, l.from, l.to, l.tx_mbps);
            assert(links.take(i + 1).drop_last() == links.take(i as int));
            assert(links[i as int] == l@);
            i += 1;
        }
        assert(links.take(i as int) == links);
        SpeedMatrix { entries }
    }

    /// The name of the TX signal from `from` to `to`, where a link is known.
    pub fn signal_between(&self, from: MacAddr, to: MacAddr) -> (r: Option<&String>)
        ensures
            match r {
                Some(s) => signals(self@.links).get((from, to)) == Some(s@),
                None => signals(self@.links).get((from, to)) is None,
            },
    {
        let mut i: usize = self.links.len();
        let ghost links = self@.links;
        assert(links.take(i as int) == links);
        while i > 0
            invariant
                i <= self.links.len(),
                links == link_views(self.links@),
                signals(links).get((from, to)) == signals(links.take(i as int)).get((from, to)),
                links == self@.links,
            decreases i,
        {
            let l = &self.links[i - 1];
            assert(links.take(i as int).drop_last() == links.take(i - 1));
            assert(links.take(i as int).last() == l@);
            if l.from == from && l.to == to {
                return Some(&l.tx_signal);
            }
            i -= 1;
        }
        assert(links.take(0).len() == 0);
        None
    }

    /// A scan that found nothing.
    pub fn empty(iface: &str) -> (r: Self)
        ensures
            r@.timestamp.valid(),
            r@.timestamp.secs >= 0,
            r@.timestamp.leap() == 0,
            r@ == (ScanView {
                timestamp: r@.timestamp,
                interface: iface@,
                devices: Seq::empty(),
                links: Seq::empty(),
            }),
    {
        Self::empty_at(iface, Timestamp::now())
    }

    /// A scan that found nothing at a given time.
    pub fn empty_at(iface: &str, timestamp: Timestamp) -> (r: Self)
        ensures
            r@ == (ScanView {
                timestamp: timestamp@,
                interface: iface@,
                devices: Seq::empty(),
                links: Seq::empty(),
            }),
    {
        let r = NetworkScan {
            timestamp,
            interface: String::from_str(iface),
            devices: Vec::new(),
            links: Vec::new(),
        };
        assert(r@.devices == Seq::<DeviceView>::empty());
        assert(r@.links == Seq::<LinkView>::empty());
        r
    }
}

// -- Models ------------------------------------------------------------------------

/// The model code in a TP-Link HFID: what stands between the prefix and the next
/// underscore. Empty where the prefix is missing.
pub open spec fn hfid_code(hfid: Seq<char>) -> Seq<char> {
    if begins_with(hfid, "tpver_"@) {
        split(hfid.skip(6), seq!['_'])[0]
    } else {
        Seq::empty()
    }
}

/// The code is shorter than four bytes, or its first four bytes are whole
/// characters.
pub open spec fn hfid_sliceable(hfid: Seq<char>) -> bool {
    let bytes = encode_utf8(hfid_code(hfid));
    bytes.len() >= 4 ==> is_char_boundary(bytes, 4)
}

/// The model with a given code.
pub open spec fn model_of_code(code: Seq<char>) -> Seq<char> {
    if begins_with(code, "9021"@) {
        "TL-PA9020P"@
    } else if begins_with(code, "9020"@) {
        "TL-PA9020"@
    } else if begins_with(code, "8010"@) {
        "TL-PA8010"@
    } else if begins_with(code, "7420"@) {
        "TL-PA7420"@
    } else if begins_with(code, "7510"@) {
        "TL-PA7510"@
    } else if begins_with(code, "4220"@) {
        "TL-WPA4220"@
    } else if begins_with(code, "8630"@) {
        "TL-WPA8630"@
    } else if begins_with(code, "9610"@) {
        "TL-WPA9610"@
    } else {
        "TP-Link ("@ + code + ")"@
    }
}

/// The model name for an HFID: that of its code, or the HFID itself where the code
/// is shorter than four bytes.
pub open spec fn model_of(hfid: Seq<char>) -> Seq<char> {
    let code = hfid_code(hfid);
    if encode_utf8(code).len() < 4 {
        hfid
    } else {
        model_of_code(code)
    }
}

/// The first piece of a split ends at the first separator.
proof fn lemma_first_piece(s: Seq<char>, seps: Seq<char>, n: int)
    requires
        0 <= n <= s.len(),
        forall|k: int| 0 <= k < n ==> !seps.contains(#[trigger] s[k]),
        n < s.len() ==> seps.contains(s[n]),
    ensures
        split(s, seps).len() >= 1,
        split(s, seps)[0] == s.take(n),
        n == s.len() ==> split(s, seps).len() == 1,
    decreases s.len(),
{
    if s.len() > 0 {
        let init = s.drop_last();
        if n == s.len() {
            lemma_first_piece(init, seps, n - 1);
            assert(!seps.contains(s[n - 1]));
            assert(split(s, seps)[0] == init.take(n - 1).push(s.last()));
            assert(init.take(n - 1).push(s.last()) == s.take(n));
        } else {
            assert forall|k: int| 0 <= k < n implies !seps.contains(#[trigger] init[k]) by {
                assert(init[k] == s[k]);
            }
            lemma_first_piece(init, seps, n);
            assert(init.take(n) == s.take(n));
            if n < init.len() {
                lemma_split_grows(init, seps, n);
            }
        }
    } else {
        assert(s.take(0) == Seq::<char>::empty());
    }
}

/// A text with a separator in it has more than one piece.
proof fn lemma_split_grows(s: Seq<char>, seps: Seq<char>, n: int)
    requires
        0 <= n < s.len(),
        seps.contains(s[n]),
    ensures
        split(s, seps).len() > 1,
    decreases s.len(),
{
    lemma_split_len(s.drop_last(), seps);
    if n < s.len() - 1 {
        assert(s.drop_last()[n] == s[n]);
        lemma_split_grows(s.drop_last(), seps, n);
    }
}

/// The model code in `hfid`.
fn find_hfid_code<'a>(hfid: &'a str) -> (r: &'a str)
    ensures
        r@ == hfid_code(hfid@),
{
    proof {
        reveal_strlit("tpver_");
    }
    let chars = chars_of(hfid);
    if !starts_with(hfid, "tpver_") {
        let r = hfid.substring_char(0, 0);
        assert(r@ == Seq::<char>::empty());
        return r;
    }
    let ghost rest = hfid@.skip(6);
    let mut end: usize = 6;
    while end < chars.len() && chars[end] != '_'
        invariant
            chars@ == hfid@,
            6 <= end <= chars.len(),
            rest == hfid@.skip(6),
            forall|k: int| 0 <= k < end - 6 ==> #[trigger] rest[k] != '_',
        decreases chars.len() - end,
    {
        assert(rest[end - 6] == chars@[end as int]);
        end += 1;
    }
    proof {
        assert(seq!['_'][0] == '_');
        if end < chars.len() {
            assert(rest[end - 6] == '_');
        }
        lemma_first_piece(rest, seq!['_'], end - 6);
        assert(rest.take(end - 6) == hfid@.subrange(6, end as int));
    }
    hfid.substring_char(6, end)
}

/// Test whether the first four bytes of the model code are whole characters.
pub fn is_hfid_sliceable(hfid: &str) -> (r: bool)
    ensures
        r == hfid_sliceable(hfid@),
{
    let code = find_hfid_code(hfid);
    code.as_bytes().len() < 4 || code.is_char_boundary(4)
}

/// Map TP-Link HFID model codes to human-readable model names.
pub fn hfid_to_model(hfid: &str) -> (r: String)
    requires
        hfid_sliceable(hfid@),
    ensures
        r@ == model_of(hfid@),
{
    let code = find_hfid_code(hfid);
    if code.as_bytes().len() < 4 {
        return String::from_str(hfid);
    }
    if starts_with(code, "9021") {
        String::from_str("TL-PA9020P")
    } else if starts_with(code, "9020") {
        String::from_str("TL-PA9020")
    } else if starts_with(code, "8010") {
        String::from_str("TL-PA8010")
    } else if starts_with(code, "7420") {
        String::from_str("TL-PA7420")
    } else if starts_with(code, "7510") {
        String::from_str("TL-PA7510")
    } else if starts_with(code, "4220") {
        String::from_str("TL-WPA4220")
    } else if starts_with(code, "8630") {
        String::from_str("TL-WPA8630")
    } else if starts_with(code, "9610") {
        String::from_str("TL-WPA9610")
    } else {
        let mut r = String::from_str("TP-Link (");
        r.append(code);
        r.append(")");
        r
    }
}

// -- Laws --------------------------------------------------------------------------------

/// Of several links between two devices the last one counts; without one there is no
/// speed and no signal.
pub proof fn law_last_link_counts(links: Seq<LinkView>, from: MacAddr, to: MacAddr, i: int)
    requires
        -1 <= i < links.len(),
        i >= 0 ==> links[i].from == from && links[i].to == to,
        forall|k: int|
            i < k < links.len() ==> (#[trigger] links[k]).from != from || links[k].to != to,
    ensures
        speeds(links).get((from, to)) == if i >= 0 {
            Some(links[i].tx_mbps)
        } else {
            None
        },
        signals(links).get((from, to)) == if i >= 0 {
            Some(links[i].tx_signal)
        } else {
            None
        },
    decreases links.len(),
{
    if links.len() > 0 {
        let init = links.drop_last();
        if i < links.len() - 1 {
            assert forall|k: int| i < k < init.len() implies (#[trigger] init[k]).from != from
                || init[k].to != to by {
                assert(init[k] == links[k]);
            }
            law_last_link_counts(init, from, to, i);
            assert(links.last() == links[links.len() - 1]);
        }
    }
}

/// A further link between other devices leaves the speed between two devices as it is.
pub proof fn law_speeds_of_other_links(
    links: Seq<LinkView>,
    link: LinkView,
    from: MacAddr,
    to: MacAddr,
)
    requires
        link.from != from || link.to != to,
    ensures
        speeds(links.push(link)).get((from, to)) == speeds(links).get((from, to)),
{
    assert(links.push(link).drop_last() == links);
}

/// The first piece of a split is part of the text.
proof fn lemma_first_piece_within(s: Seq<char>, seps: Seq<char>)
    ensures
        split(s, seps).len() >= 1,
        exists|n: int| 0 <= n <= s.len() && split(s, seps)[0] == #[trigger] s.take(n),
    decreases s.len(),
{
    lemma_split_len(s, seps);
    if s.len() == 0 {
        assert(split(s, seps)[0] == s.take(0));
    } else {
        let init = s.drop_last();
        lemma_first_piece_within(init, seps);
        let n = choose|n: int| 0 <= n <= init.len() && split(init, seps)[0] == #[trigger] init.take(n);
        assert(init.take(n) == s.take(n));
        if !seps.contains(s.last()) && split(init, seps).len() == 1 {
            lemma_only_piece(init, seps);
            assert(split(s, seps)[0] == s.take(s.len() as int));
        } else {
            assert(split(s, seps)[0] == s.take(n));
        }
    }
}

/// A text in one piece is that piece.
proof fn lemma_only_piece(s: Seq<char>, seps: Seq<char>)
    requires
        split(s, seps).len() == 1,
    ensures
        split(s, seps)[0] == s,
    decreases s.len(),
{
    if s.len() > 0 {
        lemma_split_len(s.drop_last(), seps);
        lemma_only_piece(s.drop_last(), seps);
        assert(s.drop_last().push(s.last()) == s);
    }
}

/// A model can be looked up for every HFID in ASCII.
pub proof fn law_ascii_hfid_is_sliceable(hfid: Seq<char>)
    requires
        is_ascii_chars(hfid),
    ensures
        hfid_sliceable(hfid),
{
    let code = hfid_code(hfid);
    reveal_strlit("tpver_");
    assert(is_ascii_chars(code)) by {
        if begins_with(hfid, "tpver_"@) {
            let rest = hfid.skip(6);
            lemma_first_piece_within(rest, seq!['_']);
            let n = choose|n: int| 0 <= n <= rest.len() && code == #[trigger] rest.take(n);
            assert forall|i: int| 0 <= i < code.len() implies '\0' <= #[trigger] code[i]
                <= '\u{7f}' by {
                assert(code[i] == hfid[i + 6]);
            }
        }
    }
    let bytes = encode_utf8(code);
    is_ascii_chars_encode_utf8(code);
    encode_utf8_valid_utf8(code);
    if bytes.len() == 4 {
        is_char_boundary_start_end_of_seq(bytes);
    } else if bytes.len() > 4 {
        is_char_boundary_iff_is_leading_byte(bytes, 4);
        assert(code[4] as u8 == bytes[4]);
        let b = bytes[4];
        assert(b < 128);
        assert(is_leading_byte_width_1(b));
    }
}

/// An HFID without the prefix is its own model name.
pub proof fn law_unknown_hfid_stands_for_itself(hfid: Seq<char>)
    requires
        !begins_with(hfid, "tpver_"@),
    ensures
        model_of(hfid) == hfid,
{
}

/// The mean of two rates lies between them, and is half their sum rounded down.
pub proof fn law_average(tx: u16, rx: u16)
    ensures
        2 * average(tx, rx) <= tx + rx < 2 * average(tx, rx) + 2,
        tx <= rx ==> tx <= average(tx, rx) <= rx,
        rx <= tx ==> rx <= average(tx, rx) <= tx,
{
}

/// The models by the code in an HFID: what stands behind the prefix, up to an underscore
/// or the end. The first four characters decide.
pub proof fn law_models(hfid: Seq<char>, code: Seq<char>, tail: Seq<char>)
    requires
        hfid == "tpver_"@ + code + tail,
        !code.contains('_'),
        tail.len() == 0 || tail[0] == '_',
        code.len() >= 4,
        encode_utf8(code).len() >= 4,
    ensures
        code.take(4) == "9021"@ ==> model_of(hfid) == "TL-PA9020P"@,
        code.take(4) == "9020"@ ==> model_of(hfid) == "TL-PA9020"@,
        code.take(4) == "8010"@ ==> model_of(hfid) == "TL-PA8010"@,
        code.take(4) == "7420"@ ==> model_of(hfid) == "TL-PA7420"@,
        code.take(4) == "7510"@ ==> model_of(hfid) == "TL-PA7510"@,
        code.take(4) == "4220"@ ==> model_of(hfid) == "TL-WPA4220"@,
        code.take(4) == "8630"@ ==> model_of(hfid) == "TL-WPA8630"@,
        code.take(4) == "9610"@ ==> model_of(hfid) == "TL-WPA9610"@,
        code.take(4) != "9021"@ && code.take(4) != "9020"@ && code.take(4) != "8010"@ && code.take(
            4,
        ) != "7420"@ && code.take(4) != "7510"@ && code.take(4) != "4220"@ && code.take(4)
            != "8630"@ && code.take(4) != "9610"@ ==> model_of(hfid) == "TP-Link ("@ + code + ")"@,
{
    lemma_code(hfid, code, tail);
    lemma_model_codes();
}

proof fn lemma_code(hfid: Seq<char>, code: Seq<char>, tail: Seq<char>)
    requires
        hfid == "tpver_"@ + code + tail,
        !code.contains('_'),
        tail.len() == 0 || tail[0] == '_',
    ensures
        hfid_code(hfid) == code,
{
    reveal_strlit("tpver_");
    assert(hfid.take(6) =~= "tpver_"@);
    let rest = hfid.skip(6);
    assert(rest =~= code + tail);
    let seps = seq!['_'];
    assert(seps[0] == '_');
    assert forall|k: int| 0 <= k < code.len() implies !seps.contains(#[trigger] rest[k]) by {
        assert(rest[k] == code[k]);
        assert(code.contains(code[k]));
    }
    if code.len() < rest.len() {
        assert(rest[code.len() as int] == tail[0]);
    }
    lemma_first_piece(rest, seps, code.len() as int);
    assert(rest.take(code.len() as int) =~= code);
}

/// The codes have four characters each, and differ.
proof fn lemma_model_codes()
    ensures
        "9021"@.len() == 4,
        "9020"@.len() == 4,
        "8010"@.len() == 4,
        "7420"@.len() == 4,
        "7510"@.len() == 4,
        "4220"@.len() == 4,
        "8630"@.len() == 4,
        "9610"@.len() == 4,
        "9021"@[3] != "9020"@[3],
        "9020"@[0] != "8010"@[0],
        "9021"@[0] != "8010"@[0],
        "9021"@[0] != "7420"@[0] && "9020"@[0] != "7420"@[0] && "8010"@[0] != "7420"@[0],
        "9021"@[0] != "7510"@[0] && "9020"@[0] != "7510"@[0] && "8010"@[0] != "7510"@[0],
        "7420"@[1] != "7510"@[1],
        "9021"@[0] != "4220"@[0] && "9020"@[0] != "4220"@[0] && "8010"@[0] != "4220"@[0],
        "7420"@[0] != "4220"@[0] && "7510"@[0] != "4220"@[0],
        "9021"@[0] != "8630"@[0] && "9020"@[0] != "8630"@[0] && "8010"@[1] != "8630"@[1],
        "7420"@[0] != "8630"@[0] && "7510"@[0] != "8630"@[0] && "4220"@[0] != "8630"@[0],
        "9021"@[1] != "9610"@[1] && "9020"@[1] != "9610"@[1] && "8010"@[0] != "9610"@[0],
        "7420"@[0] != "9610"@[0] && "7510"@[0] != "9610"@[0] && "4220"@[0] != "9610"@[0],
        "8630"@[0] != "9610"@[0],
{
    reveal_strlit("9021");
    reveal_strlit("9020");
    reveal_strlit("8010");
    reveal_strlit("7420");
    reveal_strlit("7510");
    reveal_strlit("4220");
    reveal_strlit("8630");
    reveal_strlit("9610");
}

/// An HFID with a shorter code is its own model name.
pub proof fn law_short_codes(hfid: Seq<char>, code: Seq<char>, tail: Seq<char>)
    requires
        hfid == "tpver_"@ + code + tail,
        !code.contains('_'),
        tail.len() == 0 || tail[0] == '_',
        encode_utf8(code).len() < 4,
    ensures
        model_of(hfid) == hfid,
{
    lemma_code(hfid, code, tail);
}

}
