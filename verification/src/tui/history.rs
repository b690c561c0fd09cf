//! Speed and signal history of the links, in a fixed order.

use crate::protocol::{mac_short, MacAddr};
use crate::text::{chars_of, hex_byte, hex_char};
use std::collections::VecDeque;
use vstd::prelude::*;
use vstd::string::*;

verus! {

/// How many samples of a link are kept.
pub const MAX_HISTORY: usize = 120;

// -- Order of texts --------------------------------------------------------------------------

/// `a` comes before `b`, character by character.
pub open spec fn text_less(a: Seq<char>, b: Seq<char>) -> bool
    decreases a.len(),
{
    if b.len() == 0 {
        false
    } else if a.len() == 0 {
        true
    } else {
        a[0] < b[0] || (a[0] == b[0] && text_less(a.skip(1), b.skip(1)))
    }
}

/// One link comes before another: by where it begins, then by where it ends.
pub open spec fn key_less(a: (Seq<char>, Seq<char>), b: (Seq<char>, Seq<char>)) -> bool {
    text_less(a.0, b.0) || (a.0 == b.0 && text_less(a.1, b.1))
}

proof fn lemma_text_order(a: Seq<char>, b: Seq<char>)
    ensures
        text_less(a, b) ==> a != b && !text_less(b, a),
        text_less(a, b) || a == b || text_less(b, a),
    decreases a.len(),
{
    if a.len() > 0 && b.len() > 0 {
        lemma_text_order(a.skip(1), b.skip(1));
        if a[0] == b[0] && a.skip(1) == b.skip(1) {
            assert(a == seq![a[0]] + a.skip(1));
            assert(b == seq![b[0]] + b.skip(1));
        }
    } else if a.len() == 0 && b.len() == 0 {
        assert(a == b);
    }
}

proof fn lemma_text_transitive(a: Seq<char>, b: Seq<char>, c: Seq<char>)
    requires
        text_less(a, b),
        text_less(b, c),
    ensures
        text_less(a, c),
    decreases a.len(),
{
    if a.len() > 0 && a[0] == b[0] && b[0] == c[0] {
        lemma_text_transitive(a.skip(1), b.skip(1), c.skip(1));
    }
}

/// The order of links is total.
proof fn lemma_key_order(a: (Seq<char>, Seq<char>), b: (Seq<char>, Seq<char>))
    ensures
        key_less(a, b) ==> a != b && !key_less(b, a),
        key_less(a, b) || a == b || key_less(b, a),
{
    lemma_text_order(a.0, b.0);
    lemma_text_order(a.1, b.1);
}

proof fn lemma_key_transitive(
    a: (Seq<char>, Seq<char>),
    b: (Seq<char>, Seq<char>),
    c: (Seq<char>, Seq<char>),
)
    requires
        key_less(a, b),
        key_less(b, c),
    ensures
        key_less(a, c),
{
    if text_less(a.0, b.0) && text_less(b.0, c.0) {
        lemma_text_transitive(a.0, b.0, c.0);
    }
    if text_less(a.1, b.1) && text_less(b.1, c.1) {
        lemma_text_transitive(a.1, b.1, c.1);
    }
}

/// How two texts are ordered.
#[derive(Debug, Clone, Copy, PartialEq, Eq, Structural)]
enum Order {
    Before,
    Same,
    After,
}

spec fn is_order(o: Order, less: bool, same: bool) -> bool {
    match o {
        Order::Before => less,
        Order::Same => same,
        Order::After => !less && !same,
    }
}

fn order_texts(a: &str, b: &str) -> (r: Order)
    ensures
        is_order(r, text_less(a@, b@), a@ == b@),
{
    let x = chars_of(a);
    let y = chars_of(b);
    let mut i: usize = 0;
    assert(x@.skip(0) == x@);
    assert(y@.skip(0) == y@);
    while i < x.len() && i < y.len() && x[i] == y[i]
        invariant
            i <= x.len(),
            i <= y.len(),
            x@ == a@,
            y@ == b@,
            x@.take(i as int) == y@.take(i as int),
            text_less(a@, b@) == text_less(x@.skip(i as int), y@.skip(i as int)),
        decreases x.len() - i,
    {
        assert(x@.skip(i as int).skip(1) == x@.skip(i + 1));
        assert(y@.skip(i as int).skip(1) == y@.skip(i + 1));
        assert(x@.take(i + 1) == x@.take(i as int).push(x@[i as int]));
        assert(y@.take(i + 1) == y@.take(i as int).push(y@[i as int]));
        i += 1;
    }
    proof {
        lemma_text_order(a@, b@);
        if i < x.len() && i < y.len() {
            assert(x@.skip(i as int)[0] == x@[i as int]);
            assert(y@.skip(i as int)[0] == y@[i as int]);
        }
    }
    if i == y.len() {
        if i == x.len() {
            assert(x@.take(i as int) == x@);
            assert(y@.take(i as int) == y@);
            Order::Same
        } else {
            Order::After
        }
    } else if i == x.len() || x[i] < y[i] {
        Order::Before
    } else {
        Order::After
    }
}

// -- Samples ----------------------------------------------------------------------------------

/// The samples of one link, oldest first.
pub struct Samples {
    pub speeds: Seq<u64>,
    pub signals: Seq<Seq<char>>,
}

/// `s` without its oldest element where there are more than are kept.
pub open spec fn bounded<T>(s: Seq<T>) -> Seq<T> {
    if s.len() > MAX_HISTORY {
        s.skip(1)
    } else {
        s
    }
}

/// The samples after one more; `None` stands for a link of which there are none.
pub open spec fn extended(before: Option<Samples>, speed: u16, signal: Seq<char>) -> Samples {
    let (speeds, signals) = match before {
        Some(s) => (s.speeds, s.signals),
        None => (Seq::empty(), Seq::empty()),
    };
    Samples { speeds: bounded(speeds.push(speed as u64)), signals: bounded(signals.push(signal)) }
}

/// There is a sample, there are no more than are kept, each has a speed and a signal.
pub open spec fn well_kept(s: Samples) -> bool {
    &&& 1 <= s.speeds.len() <= MAX_HISTORY
    &&& s.signals.len() == s.speeds.len()
    &&& forall|i: int| 0 <= i < s.speeds.len() ==> #[trigger] s.speeds[i] <= u16::MAX
}

/// The history of one link.
pub struct LinkHistory {
    pub from: String,
    pub to: String,
    pub speeds: VecDeque<u64>,
    pub signals: VecDeque<String>,
}

/// The texts of a ring buffer.
pub open spec fn signal_texts(signals: Seq<String>) -> Seq<Seq<char>> {
    signals.map_values(|s: String| s@)
}

/// A link, told by the short forms of its ends, and its samples.
pub struct EntryView {
    pub key: (Seq<char>, Seq<char>),
    pub samples: Samples,
}

impl View for LinkHistory {
    type V = EntryView;

    open spec fn view(&self) -> EntryView {
        EntryView {
            key: (self.from@, self.to@),
            samples: Samples { speeds: self.speeds@, signals: signal_texts(self.signals@) },
        }
    }
}

impl LinkHistory {
    fn add(&mut self, speed: u16, signal: &str)
        requires
            well_kept(old(self)@.samples),
        ensures
            final(self)@.key == old(self)@.key,
            final(self)@.samples == extended(Some(old(self)@.samples), speed, signal@),
            well_kept(final(self)@.samples),
    {
        let ghost before = self@.samples;
        let text = String::from_str(signal);
        self.speeds.push_back(speed as u64);
        self.signals.push_back(text);
        assert(signal_texts(self.signals@) == before.signals.push(signal@));
        if self.speeds.len() > MAX_HISTORY {
            let ghost speeds = self.speeds@;
            let ghost signals = self.signals@;
            let _ = self.speeds.pop_front();
            let _ = self.signals.pop_front();
            assert(self.speeds@ == speeds.skip(1));
            assert(signal_texts(self.signals@) == signal_texts(signals).skip(1));
        }
    }

    fn first(from: &str, to: &str, speed: u16, signal: &str) -> (r: Self)
        ensures
            r@.key == (from@, to@),
            r@.samples == extended(None, speed, signal@),
            well_kept(r@.samples),
    {
        let mut speeds: VecDeque<u64> = VecDeque::new();
        speeds.push_back(speed as u64);
        let mut signals: VecDeque<String> = VecDeque::new();
        signals.push_back(String::from_str(signal));
        let r = LinkHistory {
            from: String::from_str(from),
            to: String::from_str(to),
            speeds,
            signals,
        };
        assert(r@.samples.signals == Seq::<Seq<char>>::empty().push(signal@));
        r
    }
}

// -- History ------------------------------------------------------------------------------------

/// The links are in order, each once.
pub open spec fn ordered(entries: Seq<EntryView>) -> bool {
    forall|i: int, j: int|
        0 <= i < j < entries.len() ==> key_less(
            (#[trigger] entries[i]).key,
            (#[trigger] entries[j]).key,
        )
}

/// The samples of every link are well kept.
pub open spec fn all_well_kept(entries: Seq<EntryView>) -> bool {
    forall|i: int| 0 <= i < entries.len() ==> well_kept((#[trigger] entries[i]).samples)
}

/// A link has a history.
pub open spec fn lists_key(entries: Seq<EntryView>, key: (Seq<char>, Seq<char>)) -> bool {
    exists|i: int| 0 <= i < entries.len() && (#[trigger] entries[i]).key == key
}

/// The samples of each link.
pub open spec fn history_map(entries: Seq<EntryView>) -> Map<(Seq<char>, Seq<char>), Samples> {
    Map::new(
        |key: (Seq<char>, Seq<char>)| lists_key(entries, key),
        |key: (Seq<char>, Seq<char>)|
            entries[choose|i: int|
                0 <= i < entries.len() && (#[trigger] entries[i]).key == key].samples,
    )
}

/// The samples of each link after one more of one link.
pub open spec fn with_sample(
    map: Map<(Seq<char>, Seq<char>), Samples>,
    key: (Seq<char>, Seq<char>),
    speed: u16,
    signal: Seq<char>,
) -> Map<(Seq<char>, Seq<char>), Samples> {
    map.insert(key, extended(map.get(key), speed, signal))
}

/// Each link is found under its key.
proof fn lemma_entry(entries: Seq<EntryView>, i: int)
    requires
        ordered(entries),
        0 <= i < entries.len(),
    ensures
        lists_key(entries, entries[i].key),
        history_map(entries)[entries[i].key] == entries[i].samples,
{
    let key = entries[i].key;
    let k = choose|k: int| 0 <= k < entries.len() && (#[trigger] entries[k]).key == key;
    if k < i {
        lemma_key_order(entries[k].key, entries[i].key);
    } else if i < k {
        lemma_key_order(entries[i].key, entries[k].key);
    }
}

proof fn lemma_update(entries: Seq<EntryView>, i: int, e: EntryView)
    requires
        ordered(entries),
        0 <= i < entries.len(),
        entries[i].key == e.key,
    ensures
        ordered(entries.update(i, e)),
        history_map(entries.update(i, e)) == history_map(entries).insert(e.key, e.samples),
{
    let next = entries.update(i, e);
    assert(ordered(next)) by {
        assert forall|a: int, b: int| 0 <= a < b < next.len() implies key_less(
            (#[trigger] next[a]).key,
            (#[trigger] next[b]).key,
        ) by {
            assert(key_less(entries[a].key, entries[b].key));
        }
    }
    lemma_same_map(next, history_map(entries).insert(e.key, e.samples), entries, i, e);
}

/// The map of `next` is `expected`, where `next` has the entries of `entries` and `e`
/// in place of the one at `i`.
proof fn lemma_same_map(
    next: Seq<EntryView>,
    expected: Map<(Seq<char>, Seq<char>), Samples>,
    entries: Seq<EntryView>,
    i: int,
    e: EntryView,
)
    requires
        ordered(entries),
        0 <= i < entries.len(),
        entries[i].key == e.key,
        next == entries.update(i, e),
        ordered(next),
        expected == history_map(entries).insert(e.key, e.samples),
    ensures
        history_map(next) == expected,
{
    assert forall|key: (Seq<char>, Seq<char>)|
        #![trigger history_map(next).dom().contains(key)]
        history_map(next).dom().contains(key) == expected.dom().contains(key) && (
        history_map(next).dom().contains(key) ==> history_map(next)[key] == expected[key]) by {
        if lists_key(next, key) {
            let k = choose|k: int| 0 <= k < next.len() && (#[trigger] next[k]).key == key;
            lemma_entry(next, k);
            assert(entries[k].key == key);
            lemma_entry(entries, k);
            if k != i && key == e.key {
                lemma_entry(next, i);
            }
        }
        if lists_key(entries, key) {
            let k = choose|k: int| 0 <= k < entries.len() && (#[trigger] entries[k]).key == key;
            assert(next[k].key == key);
        }
        if key == e.key {
            assert(next[i].key == key);
            lemma_entry(next, i);
        }
    }
    assert(history_map(next) =~= expected);
}

proof fn lemma_insert(entries: Seq<EntryView>, i: int, e: EntryView)
    requires
        ordered(entries),
        0 <= i <= entries.len(),
        forall|k: int| 0 <= k < i ==> key_less((#[trigger] entries[k]).key, e.key),
        i < entries.len() ==> key_less(e.key, entries[i].key),
    ensures
        ordered(entries.insert(i, e)),
        !lists_key(entries, e.key),
        history_map(entries.insert(i, e)) == history_map(entries).insert(e.key, e.samples),
{
    let next = entries.insert(i, e);
    assert forall|k: int| i <= k < entries.len() implies key_less(
        e.key,
        (#[trigger] entries[k]).key,
    ) by {
        if i < k {
            assert(key_less(entries[i].key, entries[k].key));
            lemma_key_transitive(e.key, entries[i].key, entries[k].key);
        }
    }
    assert(ordered(next)) by {
        assert forall|a: int, b: int| 0 <= a < b < next.len() implies key_less(
            (#[trigger] next[a]).key,
            (#[trigger] next[b]).key,
        ) by {
            let x = if a < i {
                a
            } else {
                a - 1
            };
            let y = if b < i {
                b
            } else {
                b - 1
            };
            if a != i && b != i {
                assert(next[a] == entries[x] && next[b] == entries[y]);
                assert(key_less(entries[x].key, entries[y].key));
            } else if a == i {
                assert(next[b] == entries[y]);
            } else {
                assert(next[a] == entries[x]);
            }
        }
    }
    if lists_key(entries, e.key) {
        let k = choose|k: int| 0 <= k < entries.len() && (#[trigger] entries[k]).key == e.key;
        lemma_key_order(entries[k].key, e.key);
        lemma_key_order(e.key, entries[k].key);
    }
    let expected = history_map(entries).insert(e.key, e.samples);
    assert forall|key: (Seq<char>, Seq<char>)|
        #![trigger history_map(next).dom().contains(key)]
        history_map(next).dom().contains(key) == expected.dom().contains(key) && (
        history_map(next).dom().contains(key) ==> history_map(next)[key] == expected[key]) by {
        assert(next[i] == e);
        lemma_entry(next, i);
        if lists_key(entries, key) {
            let k = choose|k: int| 0 <= k < entries.len() && (#[trigger] entries[k]).key == key;
            let at = if k < i {
                k
            } else {
                k + 1
            };
            assert(next[at] == entries[k]);
            lemma_entry(next, at);
            lemma_entry(entries, k);
        }
        if lists_key(next, key) && key != e.key {
            let k = choose|k: int| 0 <= k < next.len() && (#[trigger] next[k]).key == key;
            let at = if k < i {
                k
            } else {
                k - 1
            };
            assert(next[k] == entries[at]);
        }
    }
    assert(history_map(next) =~= expected);
}

/// The history of all links that were ever seen.
pub struct History {
    entries: Vec<LinkHistory>,
}

spec fn entry_views(entries: Seq<LinkHistory>) -> Seq<EntryView> {
    entries.map_values(|e: LinkHistory| e@)
}

impl View for History {
    type V = Seq<EntryView>;

    closed spec fn view(&self) -> Seq<EntryView> {
        entry_views(self.entries@)
    }
}

impl History {
    #[verifier::type_invariant]
    spec fn inv(self) -> bool {
        ordered(self@) && all_well_kept(self@)
    }

    /// No link was seen yet.
    pub fn new() -> (r: Self)
        ensures
            r@ == Seq::<EntryView>::empty(),
            history_map(r@) == Map::<(Seq<char>, Seq<char>), Samples>::empty(),
    {
        let r = History { entries: Vec::new() };
        assert(r@ == Seq::<EntryView>::empty());
        assert(history_map(r@) =~= Map::<(Seq<char>, Seq<char>), Samples>::empty());
        r
    }

    /// How many links were seen.
    pub fn len(&self) -> (r: usize)
        ensures
            r == self@.len(),
            ordered(self@),
            all_well_kept(self@),
    {
        proof {
            use_type_invariant(self);
        }
        self.entries.len()
    }

    /// The i-th link in order.
    pub fn entry(&self, i: usize) -> (r: &LinkHistory)
        requires
            i < self@.len(),
        ensures
            r@ == self@[i as int],
            well_kept(r@.samples),
    {
        proof {
            use_type_invariant(self);
        }
        let r = &self.entries[i];
        assert(self@[i as int] == r@);
        r
    }

    /// Add a sample of the link between two ends.
    pub fn record(&mut self, from: &str, to: &str, speed: u16, signal: &str)
        ensures
            history_map(final(self)@) == with_sample(
                history_map(old(self)@),
                (from@, to@),
                speed,
                signal@,
            ),
            ordered(final(self)@),
            final(self)@.len() >= old(self)@.len(),
    {
        proof {
            use_type_invariant(&*self);
        }
        let mut list: Vec<LinkHistory> = Vec::new();
        std::mem::swap(&mut list, &mut self.entries);
        let ghost start = entry_views(list@);
        let ghost key = (from@, to@);
        let mut i: usize = 0;
        let mut order = Order::Before;
        while i < list.len()
            invariant
                i <= list.len(),
                start == entry_views(list@),
                key == (from@, to@),
                forall|k: int| 0 <= k < i ==> key_less((#[trigger] start[k]).key, key),
            ensures
                i < list.len() ==> is_order(
                    order,
                    key_less(start[i as int].key, key),
                    start[i as int].key == key,
                ) && !(order is Before),
                i <= list.len(),
                start == entry_views(list@),
                forall|k: int| 0 <= k < i ==> key_less((#[trigger] start[k]).key, key),
            decreases list.len() - i,
        {
            let e = &list[i];
            assert(start[i as int] == e@);
            order = order_texts(e.from.as_str(), from);
            proof {
                lemma_text_order(e.from@, from@);
            }
            if order == Order::Same {
                order = order_texts(e.to.as_str(), to);
            }
            if order != Order::Before {
                break;
            }
            i += 1;
        }
        if i < list.len() && order == Order::Same {
            list[i].add(speed, signal);
            proof {
                let e = list@[i as int]@;
                assert(entry_views(list@) == start.update(i as int, e));
                lemma_entry(start, i as int);
                lemma_update(start, i as int, e);
            }
        } else {
            let e = LinkHistory::first(from, to, speed, signal);
            proof {
                if i < list.len() {
                    lemma_key_order(start[i as int].key, key);
                }
                lemma_insert(start, i as int, e@);
            }
            list.insert(i, e);
            assert(entry_views(list@) == start.insert(i as int, e@));
        }
        assert(all_well_kept(entry_views(list@)));
        self.entries = list;
    }
}

// -- Laws ------------------------------------------------------------------------------------------

/// The order of short addresses is that of their octets.
pub proof fn law_short_addresses_in_order(a: MacAddr, b: MacAddr)
    ensures
        text_less(mac_short(a), mac_short(b)) <==> a.0[3] < b.0[3] || (a.0[3] == b.0[3] && (a.0[4]
            < b.0[4] || (a.0[4] == b.0[4] && a.0[5] < b.0[5]))),
{
    let colon = seq![':'];
    let a5 = hex_byte(a.0[5]);
    let b5 = hex_byte(b.0[5]);
    let a4 = hex_byte(a.0[4]) + (colon + a5);
    let b4 = hex_byte(b.0[4]) + (colon + b5);
    assert(mac_short(a) == hex_byte(a.0[3]) + (colon + a4));
    assert(mac_short(b) == hex_byte(b.0[3]) + (colon + b4));
    lemma_octet_first(a.0[3], b.0[3], colon + a4, colon + b4);
    lemma_same_first(':', a4, b4);
    lemma_octet_first(a.0[4], b.0[4], colon + a5, colon + b5);
    lemma_same_first(':', a5, b5);
    let none = Seq::<char>::empty();
    assert(a5 == a5 + none && b5 == b5 + none);
    lemma_octet_first(a.0[5], b.0[5], none, none);
}

proof fn lemma_same_first(c: char, s: Seq<char>, t: Seq<char>)
    ensures
        text_less(seq![c] + s, seq![c] + t) == text_less(s, t),
{
    assert((seq![c] + s).skip(1) == s);
    assert((seq![c] + t).skip(1) == t);
}

/// Octets in front decide, unless they are the same.
proof fn lemma_octet_first(x: u8, y: u8, s: Seq<char>, t: Seq<char>)
    ensures
        text_less(hex_byte(x) + s, hex_byte(y) + t) <==> x < y || (x == y && text_less(s, t)),
{
    let p = hex_byte(x) + s;
    let q = hex_byte(y) + t;
    let xh = x as int / 16;
    let xl = x as int % 16;
    let yh = y as int / 16;
    let yl = y as int % 16;
    assert(p.skip(1) == seq![hex_char(xl)] + s);
    assert(q.skip(1) == seq![hex_char(yl)] + t);
    assert(p.skip(1).skip(1) == s);
    assert(q.skip(1).skip(1) == t);
    lemma_digit_order(xh, yh);
    lemma_digit_order(xl, yl);
    assert(p[0] == hex_char(xh) && q[0] == hex_char(yh));
    assert(p.skip(1)[0] == hex_char(xl) && q.skip(1)[0] == hex_char(yl));
    assert(text_less(p, q) == (hex_char(xh) < hex_char(yh) || (hex_char(xh) == hex_char(yh)
        && text_less(p.skip(1), q.skip(1)))));
    assert(text_less(p.skip(1), q.skip(1)) == (hex_char(xl) < hex_char(yl) || (hex_char(xl)
        == hex_char(yl) && text_less(s, t))));
}

proof fn lemma_digit_order(x: int, y: int)
    requires
        0 <= x < 16,
        0 <= y < 16,
    ensures
        hex_char(x) < hex_char(y) <==> x < y,
        hex_char(x) == hex_char(y) <==> x == y,
{
}

/// The samples of a link are found under its key, and there are samples exactly of the
/// links in the list.
pub proof fn law_history_by_key(entries: Seq<EntryView>, key: (Seq<char>, Seq<char>), i: int)
    requires
        ordered(entries),
    ensures
        history_map(entries).dom().contains(key) <==> exists|k: int|
            0 <= k < entries.len() && (#[trigger] entries[k]).key == key,
        0 <= i < entries.len() && entries[i].key == key ==> history_map(entries)[key]
            == entries[i].samples,
        forall|k: int|
            0 <= k < entries.len() && k != i && 0 <= i < entries.len() ==> (
            #[trigger] entries[k]).key != entries[i].key,
{
    if 0 <= i < entries.len() {
        lemma_entry(entries, i);
        assert forall|k: int| 0 <= k < entries.len() && k != i implies (#[trigger] entries[k]).key
            != entries[i].key by {
            if k < i {
                lemma_key_order(entries[k].key, entries[i].key);
            } else {
                lemma_key_order(entries[i].key, entries[k].key);
            }
        }
    }
}

/// A further sample comes last, and the first one goes where there are 120 already.
pub proof fn law_a_sample_more(before: Samples, speed: u16, signal: Seq<char>)
    requires
        before.speeds.len() == before.signals.len() <= 120,
    ensures
        extended(Some(before), speed, signal).speeds.last() == speed,
        extended(Some(before), speed, signal).signals.last() == signal,
        before.speeds.len() < 120 ==> {
            &&& extended(Some(before), speed, signal).speeds.drop_last() == before.speeds
            &&& extended(Some(before), speed, signal).signals.drop_last() == before.signals
        },
        before.speeds.len() == 120 ==> {
            &&& extended(Some(before), speed, signal).speeds.drop_last() == before.speeds.skip(1)
            &&& extended(Some(before), speed, signal).signals.drop_last() == before.signals.skip(1)
        },
        extended(None, speed, signal).speeds == seq![speed as u64],
        extended(None, speed, signal).signals == seq![signal],
{
    let after = extended(Some(before), speed, signal);
    if before.speeds.len() < 120 {
        assert(after.speeds.drop_last() =~= before.speeds);
        assert(after.signals.drop_last() =~= before.signals);
    } else {
        assert(after.speeds.drop_last() =~= before.speeds.skip(1));
        assert(after.signals.drop_last() =~= before.signals.skip(1));
    }
    assert(extended(None, speed, signal).speeds =~= seq![speed as u64]);
    assert(extended(None, speed, signal).signals =~= seq![signal]);
}

}
