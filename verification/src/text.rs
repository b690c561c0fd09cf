//! Text as sequences of characters: the rendering and scanning that the
//! protocol, report and monitor modules share.

use vstd::prelude::*;
use vstd::string::*;

verus! {

// -- Rendering: what the text is ---------------------------------------------

/// The decimal digit `d`.
pub open spec fn digit_char(d: int) -> char {
    ('0' as int + d) as char
}

/// The upper-case hexadecimal digit `d`.
pub open spec fn hex_char(d: int) -> char {
    if d < 10 {
        ('0' as int + d) as char
    } else {
        ('A' as int + (d - 10)) as char
    }
}

/// `n` in decimal, without leading zeros.
pub open spec fn decimal(n: nat) -> Seq<char>
    decreases n,
{
    if n < 10 {
        seq![digit_char(n as int)]
    } else {
        decimal(n / 10).push(digit_char(n as int % 10))
    }
}

/// `b` as two upper-case hexadecimal digits.
pub open spec fn hex_byte(b: u8) -> Seq<char> {
    seq![hex_char(b as int / 16), hex_char(b as int % 16)]
}

/// `w` as eight upper-case hexadecimal digits, most significant first.
pub open spec fn hex_word(w: u32) -> Seq<char> {
    hex_byte((w / 0x100_0000) as u8) + hex_byte((w / 0x1_0000 % 0x100) as u8) + hex_byte(
        (w / 0x100 % 0x100) as u8,
    ) + hex_byte((w % 0x100) as u8)
}

/// `c`, `n` times.
pub open spec fn repeated(c: char, n: int) -> Seq<char> {
    Seq::new(
        if n < 0 {
            0
        } else {
            n as nat
        },
        |i: int| c,
    )
}

/// `s` on the left of a field of at least `width` characters, filled with `fill`.
pub open spec fn pad_end(s: Seq<char>, width: int, fill: char) -> Seq<char> {
    s + repeated(fill, width - s.len())
}

/// `s` on the right of a field of at least `width` characters, filled with `fill`.
pub open spec fn pad_start(s: Seq<char>, width: int, fill: char) -> Seq<char> {
    repeated(fill, width - s.len()) + s
}

/// The texts of `items`, with `sep` between neighbours.
pub open spec fn joined(items: Seq<String>, sep: Seq<char>) -> Seq<char>
    decreases items.len(),
{
    if items.len() == 0 {
        Seq::empty()
    } else if items.len() == 1 {
        items[0]@
    } else {
        joined(items.drop_last(), sep) + sep + items.last()@
    }
}

// -- Rendering: how it is written --------------------------------------------

fn append_hex_char(out: &mut String, d: u8)
    requires
        d < 16,
    ensures
        final(out)@ == old(out)@.push(hex_char(d as int)),
{
    proof {
        reveal_strlit("0");
        reveal_strlit("1");
        reveal_strlit("2");
        reveal_strlit("3");
        reveal_strlit("4");
        reveal_strlit("5");
        reveal_strlit("6");
        reveal_strlit("7");
        reveal_strlit("8");
        reveal_strlit("9");
        reveal_strlit("A");
        reveal_strlit("B");
        reveal_strlit("C");
        reveal_strlit("D");
        reveal_strlit("E");
        reveal_strlit("F");
    }
    let digit = match d {
        0 => "0",
        1 => "1",
        2 => "2",
        3 => "3",
        4 => "4",
        5 => "5",
        6 => "6",
        7 => "7",
        8 => "8",
        9 => "9",
        10 => "A",
        11 => "B",
        12 => "C",
        13 => "D",
        14 => "E",
        _ => "F",
    };
    assert(digit@ == seq![hex_char(d as int)]);
    out.append(digit);
    assert(out@ == old(out)@.push(hex_char(d as int)));
}

/// Writes `b` as two hexadecimal digits.
pub fn append_hex_byte(out: &mut String, b: u8)
    ensures
        final(out)@ == old(out)@ + hex_byte(b),
{
    append_hex_char(out, b / 16);
    append_hex_char(out, b % 16);
    assert(out@ == old(out)@ + hex_byte(b));
}

/// Writes `w` as eight hexadecimal digits.
pub fn append_hex_word(out: &mut String, w: u32)
    ensures
        final(out)@ == old(out)@ + hex_word(w),
{
    append_hex_byte(out, (w / 0x100_0000) as u8);
    append_hex_byte(out, (w / 0x1_0000 % 0x100) as u8);
    append_hex_byte(out, (w / 0x100 % 0x100) as u8);
    append_hex_byte(out, (w % 0x100) as u8);
    assert(out@ == old(out)@ + hex_word(w));
}

/// Writes `n` in decimal.
pub fn append_decimal(out: &mut String, n: u64)
    ensures
        final(out)@ == old(out)@ + decimal(n as nat),
    decreases n,
{
    if n >= 10 {
        append_decimal(out, n / 10);
    }
    append_hex_char(out, (n % 10) as u8);
    assert(out@ == old(out)@ + decimal(n as nat));
}

/// Writes `unit`, a text of one character, `n` times.
pub fn append_repeated(out: &mut String, unit: &str, n: usize)
    requires
        unit@.len() == 1,
    ensures
        final(out)@ == old(out)@ + repeated(unit@[0], n as int),
{
    let ghost start = out@;
    let mut i: usize = 0;
    assert(out@ == start + repeated(unit@[0], 0));
    while i < n
        invariant
            i <= n,
            unit@.len() == 1,
            out@ == start + repeated(unit@[0], i as int),
        decreases n - i,
    {
        out.append(unit);
        i += 1;
        assert(out@ == start + repeated(unit@[0], i as int));
    }
}

/// Writes `s` left-aligned in a field of `width` characters.
pub fn append_pad_end(out: &mut String, s: &str, width: usize, fill: &str)
    requires
        fill@.len() == 1,
    ensures
        final(out)@ == old(out)@ + pad_end(s@, width as int, fill@[0]),
{
    let n = s.unicode_len();
    out.append(s);
    if n < width {
        append_repeated(out, fill, width - n);
    }
    assert(out@ == old(out)@ + pad_end(s@, width as int, fill@[0]));
}

/// Writes `s` right-aligned in a field of `width` characters.
pub fn append_pad_start(out: &mut String, s: &str, width: usize, fill: &str)
    requires
        fill@.len() == 1,
    ensures
        final(out)@ == old(out)@ + pad_start(s@, width as int, fill@[0]),
{
    let n = s.unicode_len();
    if n < width {
        append_repeated(out, fill, width - n);
    }
    out.append(s);
    assert(out@ == old(out)@ + pad_start(s@, width as int, fill@[0]));
}

/// `n` in decimal, as a text of its own.
pub fn decimal_text(n: u64) -> (r: String)
    ensures
        r@ == decimal(n as nat),
{
    let mut r = String::new();
    append_decimal(&mut r, n);
    r
}

/// The texts of `items`, separated by `sep`.
pub fn join(items: &Vec<String>, sep: &str) -> (r: String)
    ensures
        r@ == joined(items@, sep@),
{
    let mut r = String::new();
    let mut i: usize = 0;
    while i < items.len()
        invariant
            i <= items.len(),
            r@ == joined(items@.take(i as int), sep@),
        decreases items.len() - i,
    {
        if i > 0 {
            r.append(sep);
        }
        r.append(items[i].as_str());
        assert(items@.take(i + 1).drop_last() == items@.take(i as int));
        assert(i == 0 ==> items@.take(i + 1)[0] == items@[0]);
        i += 1;
    }
    assert(items@.take(i as int) == items@);
    r
}

// -- Scanning: what is found ---------------------------------------------------

/// `s` begins with `p`.
pub open spec fn begins_with(s: Seq<char>, p: Seq<char>) -> bool {
    s.len() >= p.len() && s.take(p.len() as int) == p
}

/// `p` occurs in `s`.
pub open spec fn has_text(s: Seq<char>, p: Seq<char>) -> bool {
    exists|i: int| 0 <= i <= s.len() - p.len() && #[trigger] s.subrange(i, i + p.len()) == p
}

/// The characters with the Unicode property White_Space.
pub open spec fn is_space(c: char) -> bool {
    let n = c as u32;
    ||| 0x09 <= n <= 0x0D
    ||| n == 0x20
    ||| n == 0x85
    ||| n == 0xA0
    ||| n == 0x1680
    ||| 0x2000 <= n <= 0x200A
    ||| n == 0x2028
    ||| n == 0x2029
    ||| n == 0x202F
    ||| n == 0x205F
    ||| n == 0x3000
}

/// `s` without its leading white space.
pub open spec fn trim_front(s: Seq<char>) -> Seq<char>
    decreases s.len(),
{
    if s.len() > 0 && is_space(s[0]) {
        trim_front(s.skip(1))
    } else {
        s
    }
}

/// `s` without its trailing white space.
pub open spec fn trim_back(s: Seq<char>) -> Seq<char>
    decreases s.len(),
{
    if s.len() > 0 && is_space(s.last()) {
        trim_back(s.drop_last())
    } else {
        s
    }
}

/// `s` without white space at either end.
pub open spec fn trimmed(s: Seq<char>) -> Seq<char> {
    trim_back(trim_front(s))
}

/// What stands in `s` before the first white space.
pub open spec fn first_word(s: Seq<char>) -> Seq<char>
    decreases s.len(),
{
    if s.len() == 0 || is_space(s[0]) {
        Seq::empty()
    } else {
        seq![s[0]] + first_word(s.skip(1))
    }
}

/// The pieces of `s` between the characters that `seps` lists; one more than
/// there are such characters.
pub open spec fn split(s: Seq<char>, seps: Seq<char>) -> Seq<Seq<char>>
    decreases s.len(),
{
    if s.len() == 0 {
        seq![Seq::empty()]
    } else {
        let before = split(s.drop_last(), seps);
        if seps.contains(s.last()) {
            before.push(Seq::empty())
        } else {
            before.update(before.len() - 1, before.last().push(s.last()))
        }
    }
}

/// The value of a hexadecimal digit of either case.
pub open spec fn hex_digit_value(c: char) -> Option<nat> {
    if '0' <= c <= '9' {
        Some((c as int - '0' as int) as nat)
    } else if 'A' <= c <= 'F' {
        Some((c as int - 'A' as int + 10) as nat)
    } else if 'a' <= c <= 'f' {
        Some((c as int - 'a' as int + 10) as nat)
    } else {
        None
    }
}

/// Every character of `s` is a hexadecimal digit.
pub open spec fn all_hex(s: Seq<char>) -> bool {
    forall|i: int| 0 <= i < s.len() ==> hex_digit_value(#[trigger] s[i]) is Some
}

/// The number that the hexadecimal digits of `s` write.
pub open spec fn hex_value(s: Seq<char>) -> nat
    decreases s.len(),
{
    if s.len() == 0 {
        0
    } else {
        hex_value(s.drop_last()) * 16 + hex_digit_value(s.last()).unwrap_or(0)
    }
}

/// An octet in hexadecimal: at least one digit, after an optional plus sign,
/// with any number of leading zeros and a value below 256.
pub open spec fn hex_octet(s: Seq<char>) -> Option<u8> {
    let digits = if s.len() > 1 && s[0] == '+' {
        s.skip(1)
    } else {
        s
    };
    if digits.len() > 0 && all_hex(digits) && hex_value(digits) < 256 {
        Some(hex_value(digits) as u8)
    } else {
        None
    }
}

// -- Scanning: how it is found -------------------------------------------------

/// The characters of `s`.
pub fn chars_of(s: &str) -> (r: Vec<char>)
    ensures
        r@ == s@,
{
    let mut r: Vec<char> = Vec::new();
    for c in it: s.chars()
        invariant
            it.seq() == s@,
            r@ == s@.take(it.index() as int),
    {
        r.push(c);
        assert(r@ == s@.take(it.index() + 1));
    }
    assert(s@.take(s@.len() as int) == s@);
    r
}

/// `a` and `b` are the same text.
pub fn same_text(a: &str, b: &str) -> (r: bool)
    ensures
        r == (a@ == b@),
{
    let x = chars_of(a);
    let y = chars_of(b);
    if x.len() != y.len() {
        return false;
    }
    let mut i: usize = 0;
    while i < x.len()
        invariant
            i <= x.len() == y.len(),
            x@.take(i as int) == y@.take(i as int),
            x@ == a@,
            y@ == b@,
        decreases x.len() - i,
    {
        if x[i] != y[i] {
            return false;
        }
        assert(x@.take(i + 1) == x@.take(i as int).push(x@[i as int]));
        assert(y@.take(i + 1) == y@.take(i as int).push(y@[i as int]));
        i += 1;
    }
    assert(x@.take(i as int) == x@);
    assert(y@.take(i as int) == y@);
    true
}

/// `s` has `p` at position `at`.
fn matches_at(s: &Vec<char>, p: &Vec<char>, at: usize) -> (r: bool)
    requires
        at + p@.len() <= s@.len(),
    ensures
        r == (s@.subrange(at as int, at + p@.len()) == p@),
{
    let ghost window = s@.subrange(at as int, at + p@.len());
    let mut i: usize = 0;
    while i < p.len()
        invariant
            i <= p.len(),
            at + p@.len() <= s.len(),
            window == s@.subrange(at as int, at + p@.len()),
            forall|k: int| 0 <= k < i ==> window[k] == p@[k],
        decreases p.len() - i,
    {
        if s[at + i] != p[i] {
            assert(window[i as int] != p@[i as int]);
            return false;
        }
        i += 1;
    }
    assert(window =~= p@);
    true
}

/// The characters `s` begin with `p`.
pub fn chars_begin_with(s: &[char], p: &str) -> (r: bool)
    ensures
        r == begins_with(s@, p@),
{
    let y = chars_of(p);
    if s.len() < y.len() {
        return false;
    }
    let ghost head = s@.take(p@.len() as int);
    let mut i: usize = 0;
    while i < y.len()
        invariant
            i <= y.len() <= s.len(),
            y@ == p@,
            head == s@.take(p@.len() as int),
            forall|k: int| 0 <= k < i ==> head[k] == p@[k],
        decreases y.len() - i,
    {
        if s[i] != y[i] {
            assert(head[i as int] != p@[i as int]);
            return false;
        }
        i += 1;
    }
    assert(head =~= p@);
    true
}

/// `s` begins with `p`.
pub fn starts_with(s: &str, p: &str) -> (r: bool)
    ensures
        r == begins_with(s@, p@),
{
    chars_begin_with(chars_of(s).as_slice(), p)
}

/// `p` occurs somewhere in `s`.
pub fn contains(s: &str, p: &str) -> (r: bool)
    ensures
        r == has_text(s@, p@),
{
    let x = chars_of(s);
    let y = chars_of(p);
    if x.len() < y.len() {
        return false;
    }
    let last: usize = x.len() - y.len();
    let mut i: usize = 0;
    while i <= last
        invariant
            i <= last + 1,
            last == x@.len() - y@.len(),
            x@ == s@,
            y@ == p@,
            forall|k: int| 0 <= k < i ==> #[trigger] s@.subrange(k, k + p@.len()) != p@,
        decreases last + 1 - i,
    {
        if matches_at(&x, &y, i) {
            assert(s@.subrange(i as int, i + p@.len()) == p@);
            return true;
        }
        if i == last {
            return false;
        }
        i += 1;
    }
    false
}

/// A character with the Unicode property White_Space.
pub fn is_white_space(c: char) -> (r: bool)
    ensures
        r == is_space(c),
{
    let n = c as u32;
    (0x09 <= n && n <= 0x0D) || n == 0x20 || n == 0x85 || n == 0xA0 || n == 0x1680 || (0x2000 <= n
        && n <= 0x200A) || n == 0x2028 || n == 0x2029 || n == 0x202F || n == 0x205F || n == 0x3000
}

/// `s` without white space at either end.
pub fn trim<'a>(s: &'a [char]) -> (r: &'a [char])
    ensures
        r@ == trimmed(s@),
{
    let mut from: usize = 0;
    assert(s@.skip(0) == s@);
    while from < s.len() && is_white_space(s[from])
        invariant
            from <= s.len(),
            trim_front(s@.skip(from as int)) == trim_front(s@),
        decreases s.len() - from,
    {
        assert(s@.skip(from as int).skip(1) == s@.skip(from + 1));
        from += 1;
    }
    let ghost front = s@.skip(from as int);
    assert(front.len() > 0 ==> front[0] == s@[from as int]);
    assert(trim_front(s@) == front);
    let mut to: usize = s.len();
    assert(s@.subrange(from as int, to as int) == front);
    while from < to && is_white_space(s[to - 1])
        invariant
            from <= to <= s.len(),
            trim_back(s@.subrange(from as int, to as int)) == trim_back(front),
        decreases to - from,
    {
        assert(s@.subrange(from as int, to as int).last() == s@[to - 1]);
        assert(s@.subrange(from as int, to as int).drop_last() == s@.subrange(
            from as int,
            to - 1,
        ));
        to -= 1;
    }
    assert(to > from ==> s@.subrange(from as int, to as int).last() == s@[to - 1]);
    vstd::slice::slice_subrange(s, from, to)
}

/// What stands in `s` before the first white space.
pub fn word<'a>(s: &'a [char]) -> (r: &'a [char])
    ensures
        r@ == first_word(s@),
{
    let mut end: usize = 0;
    assert(s@.skip(0) == s@);
    assert(s@.take(0) + first_word(s@) == first_word(s@));
    while end < s.len() && !is_white_space(s[end])
        invariant
            end <= s.len(),
            first_word(s@) == s@.take(end as int) + first_word(s@.skip(end as int)),
        decreases s.len() - end,
    {
        let ghost rest = s@.skip(end as int);
        assert(rest[0] == s@[end as int]);
        assert(rest.skip(1) == s@.skip(end + 1));
        assert(s@.take(end as int) + (seq![rest[0]] + first_word(rest.skip(1))) == s@.take(end + 1)
            + first_word(s@.skip(end + 1)));
        end += 1;
    }
    assert(s@.skip(end as int).len() > 0 ==> s@.skip(end as int)[0] == s@[end as int]);
    assert(first_word(s@) == s@.take(end as int));
    vstd::slice::slice_subrange(s, 0, end)
}

fn hex_digit_of(c: char) -> (r: Option<u8>)
    ensures
        match hex_digit_value(c) {
            Some(v) => r == Some(v as u8) && v < 16,
            None => r is None,
        },
{
    if '0' <= c && c <= '9' {
        Some((c as u32 - '0' as u32) as u8)
    } else if 'A' <= c && c <= 'F' {
        Some((c as u32 - 'A' as u32 + 10) as u8)
    } else if 'a' <= c && c <= 'f' {
        Some((c as u32 - 'a' as u32 + 10) as u8)
    } else {
        None
    }
}

/// More digits never make the number smaller.
proof fn lemma_hex_value_grows(s: Seq<char>, n: int)
    requires
        0 <= n <= s.len(),
    ensures
        hex_value(s.take(n)) <= hex_value(s),
    decreases s.len() - n,
{
    if n < s.len() {
        assert(s.take(n + 1).drop_last() == s.take(n));
        lemma_hex_value_grows(s, n + 1);
    } else {
        assert(s.take(n) == s);
    }
}

/// Reads an octet in hexadecimal.
pub fn parse_hex_octet(s: &[char]) -> (r: Option<u8>)
    ensures
        r == hex_octet(s@),
{
    let signed = s.len() > 1 && s[0] == '+';
    let from: usize = if signed {
        1
    } else {
        0
    };
    let ghost digits = s@.skip(from as int);
    assert(!signed ==> digits == s@);
    if s.len() == from {
        return None;
    }
    let mut value: u32 = 0;
    let mut i: usize = from;
    while i < s.len()
        invariant
            from <= i <= s.len(),
            digits == s@.skip(from as int),
            value == hex_value(digits.take(i - from)),
            value < 256,
            all_hex(digits.take(i - from)),
            hex_octet(s@) == if digits.len() > 0 && all_hex(digits) && hex_value(digits) < 256 {
                Some(hex_value(digits) as u8)
            } else {
                None::<u8>
            },
        decreases s.len() - i,
    {
        let ghost read = i - from;
        assert(digits[read] == s@[i as int]);
        match hex_digit_of(s[i]) {
            Some(d) => {
                value = value * 16 + d as u32;
                assert(digits.take(read + 1).drop_last() == digits.take(read));
                assert(all_hex(digits.take(read + 1))) by {
                    assert forall|k: int| 0 <= k < read + 1 implies hex_digit_value(
                        #[trigger] digits.take(read + 1)[k],
                    ) is Some by {
                        if k < read {
                            assert(digits.take(read)[k] == digits[k]);
                        }
                    }
                }
                if value >= 256 {
                    proof {
                        lemma_hex_value_grows(digits, read + 1);
                    }
                    return None;
                }
            },
            None => {
                assert(!all_hex(digits));
                return None;
            },
        }
        i += 1;
    }
    assert(digits.take(i - from) == digits);
    Some(value as u8)
}

/// The texts of a list of character lists.
pub open spec fn pieces(v: Seq<Vec<char>>) -> Seq<Seq<char>> {
    v.map_values(|p: Vec<char>| p@)
}

fn is_one_of(c: char, seps: &[char]) -> (r: bool)
    ensures
        r == seps@.contains(c),
{
    let mut i: usize = 0;
    while i < seps.len()
        invariant
            i <= seps.len(),
            forall|k: int| 0 <= k < i ==> seps@[k] != c,
        decreases seps.len() - i,
    {
        if seps[i] == c {
            return true;
        }
        i += 1;
    }
    false
}

/// The pieces of `s` between the characters that `seps` lists.
pub fn split_at_any(s: &[char], seps: &[char]) -> (r: Vec<Vec<char>>)
    ensures
        pieces(r@) == split(s@, seps@),
{
    let mut done: Vec<Vec<char>> = Vec::new();
    let mut current: Vec<char> = Vec::new();
    let mut i: usize = 0;
    assert(pieces(done@).push(current@) == split(s@.take(0), seps@));
    while i < s.len()
        invariant
            i <= s.len(),
            pieces(done@).push(current@) == split(s@.take(i as int), seps@),
        decreases s.len() - i,
    {
        let c = s[i];
        assert(s@.take(i + 1).drop_last() == s@.take(i as int));
        let ghost before = pieces(done@).push(current@);
        if is_one_of(c, seps) {
            done.push(current);
            current = Vec::new();
            assert(pieces(done@) == before);
            assert(current@ == Seq::<char>::empty());
        } else {
            current.push(c);
            assert(pieces(done@).push(current@) == before.update(
                before.len() - 1,
                before.last().push(c),
            ));
        }
        i += 1;
    }
    assert(s@.take(i as int) == s@);
    let ghost before = pieces(done@).push(current@);
    done.push(current);
    assert(pieces(done@) == before);
    done
}

/// Every text has a first piece.
pub proof fn lemma_split_len(s: Seq<char>, seps: Seq<char>)
    ensures
        split(s, seps).len() >= 1,
    decreases s.len(),
{
    if s.len() > 0 {
        lemma_split_len(s.drop_last(), seps);
    }
}

// -- Laws ------------------------------------------------------------------------------

/// The number that decimal digits write.
pub open spec fn decimal_value(s: Seq<char>) -> int
    decreases s.len(),
{
    if s.len() == 0 {
        0
    } else {
        10 * decimal_value(s.drop_last()) + (s.last() as int - '0' as int)
    }
}

/// A number in decimal reads back as that number. It consists of digits, and begins
/// with a zero only where it is zero.
pub proof fn law_decimal(n: nat, i: int)
    ensures
        decimal_value(decimal(n)) == n,
        decimal(n).len() >= 1,
        0 <= i < decimal(n).len() ==> '0' <= decimal(n)[i] <= '9',
        decimal(n)[0] == '0' <==> n == 0,
    decreases n,
{
    reveal_with_fuel(decimal_value, 2);
    if n < 10 {
        assert(decimal(n).drop_last() =~= Seq::<char>::empty());
    } else {
        law_decimal(n / 10, i);
        assert(decimal(n).drop_last() =~= decimal(n / 10));
        assert(decimal(n)[0] == decimal(n / 10)[0]);
        if 0 <= i < decimal(n / 10).len() {
            assert(decimal(n)[i] == decimal(n / 10)[i]);
        }
    }
}

/// A number below ten to the power of some digits has no more digits than that.
pub proof fn law_decimal_width(n: nat)
    ensures
        n < 10 ==> decimal(n).len() == 1,
        n < 100 ==> decimal(n).len() <= 2,
        n < 1000 ==> decimal(n).len() <= 3,
        n < 10_000 ==> decimal(n).len() <= 4,
        n < 100_000 ==> decimal(n).len() <= 5,
{
    reveal_with_fuel(decimal, 6);
}

/// A byte in hexadecimal has two digits, in upper case, and reads back as that byte.
pub proof fn law_hex_byte(a: u8, b: u8)
    ensures
        hex_byte(a).len() == 2,
        hex_value(hex_byte(a)) == a,
        hex_byte(a) == hex_byte(b) <==> a == b,
        forall|i: int|
            0 <= i < 2 ==> '0' <= #[trigger] hex_byte(a)[i] <= '9' || 'A' <= hex_byte(a)[i] <= 'F',
{
    lemma_hex_pair(a);
    lemma_hex_pair(b);
}

proof fn lemma_hex_pair(a: u8)
    ensures
        hex_value(hex_byte(a)) == a,
{
    reveal_with_fuel(hex_value, 3);
    let s = hex_byte(a);
    assert(s.drop_last() =~= seq![s[0]]);
    assert(s.drop_last().drop_last() =~= Seq::<char>::empty());
    assert(hex_digit_value(s[0]) == Some((a / 16) as nat));
    assert(hex_digit_value(s[1]) == Some((a % 16) as nat));
}

proof fn lemma_hex_append(s: Seq<char>, b: u8)
    ensures
        hex_value(s + hex_byte(b)) == 256 * hex_value(s) + b,
{
    reveal_with_fuel(hex_value, 3);
    let h = hex_byte(b);
    let t = s + h;
    assert(t.drop_last() =~= s.push(h[0]));
    assert(t.drop_last().drop_last() =~= s);
    assert(hex_digit_value(h[0]) == Some((b / 16) as nat));
    assert(hex_digit_value(h[1]) == Some((b % 16) as nat));
    assert(t.last() == h[1] && t.drop_last().last() == h[0]);
}

/// A word in hexadecimal has eight digits, and reads back as that word.
pub proof fn law_hex_word(w: u32)
    ensures
        hex_word(w).len() == 8,
        hex_value(hex_word(w)) == w,
{
    let a = (w / 0x100_0000) as u8;
    let b = (w / 0x1_0000 % 0x100) as u8;
    let c = (w / 0x100 % 0x100) as u8;
    let d = (w % 0x100) as u8;
    lemma_hex_pair(a);
    lemma_hex_append(hex_byte(a), b);
    lemma_hex_append(hex_byte(a) + hex_byte(b), c);
    lemma_hex_append(hex_byte(a) + hex_byte(b) + hex_byte(c), d);
}

/// A padded text is as wide as is asked, or as the text where that is wider; the text
/// stands whole at one end of it, and blanks fill the rest.
pub proof fn law_padding(s: Seq<char>, width: int, fill: char)
    ensures
        pad_end(s, width, fill).len() == if s.len() < width {
            width
        } else {
            s.len() as int
        },
        pad_end(s, width, fill).take(s.len() as int) == s,
        forall|i: int|
            s.len() <= i < pad_end(s, width, fill).len() ==> #[trigger] pad_end(s, width, fill)[i]
                == fill,
        pad_start(s, width, fill).len() == pad_end(s, width, fill).len(),
        pad_start(s, width, fill).skip(pad_start(s, width, fill).len() - s.len()) == s,
        forall|i: int|
            0 <= i < pad_start(s, width, fill).len() - s.len() ==> #[trigger] pad_start(
                s,
                width,
                fill,
            )[i] == fill,
{
    assert(pad_end(s, width, fill).take(s.len() as int) =~= s);
    assert(pad_start(s, width, fill).skip(pad_start(s, width, fill).len() - s.len()) =~= s);
}

/// Joined texts follow each other, with the separator between neighbours and nowhere
/// else.
pub proof fn law_joined(items: Seq<String>, item: String, sep: Seq<char>)
    ensures
        joined(Seq::empty(), sep).len() == 0,
        joined(seq![item], sep) == item@,
        items.len() > 0 ==> joined(items.push(item), sep) == joined(items, sep) + sep + item@,
{
    assert(items.push(item).drop_last() == items);
}

/// Trimming takes away white space at both ends, all of it, and nothing else.
pub proof fn law_trimmed(s: Seq<char>)
    ensures
        exists|from: int, to: int|
            0 <= from <= to <= s.len() && trimmed(s) == #[trigger] s.subrange(from, to) && (forall|
                i: int,
            |
                0 <= i < from || to <= i < s.len() ==> is_space(#[trigger] s[i])),
        trimmed(s).len() > 0 ==> !is_space(trimmed(s)[0]) && !is_space(trimmed(s).last()),
{
    lemma_trim_front(s);
    let t = trim_front(s);
    lemma_trim_back(t);
    let from = s.len() - t.len();
    let to = from + trim_back(t).len();
    assert(s.subrange(from, to) =~= trimmed(s));
    assert forall|i: int| 0 <= i < from || to <= i < s.len() implies is_space(#[trigger] s[i]) by {
        if to <= i {
            assert(t[i - from] == s[i]);
        }
    }
}

proof fn lemma_trim_front(s: Seq<char>)
    ensures
        trim_front(s).len() <= s.len(),
        trim_front(s) == s.skip(s.len() - trim_front(s).len()),
        forall|i: int| 0 <= i < s.len() - trim_front(s).len() ==> is_space(#[trigger] s[i]),
        trim_front(s).len() > 0 ==> !is_space(trim_front(s)[0]),
    decreases s.len(),
{
    if s.len() > 0 && is_space(s[0]) {
        let rest = s.skip(1);
        lemma_trim_front(rest);
        assert(trim_front(s) =~= s.skip(s.len() - trim_front(s).len()));
        assert forall|i: int| 0 <= i < s.len() - trim_front(s).len() implies is_space(
            #[trigger] s[i],
        ) by {
            if i > 0 {
                assert(rest[i - 1] == s[i]);
            }
        }
    } else {
        assert(s.skip(0) =~= s);
    }
}

proof fn lemma_trim_back(s: Seq<char>)
    ensures
        trim_back(s).len() <= s.len(),
        trim_back(s) == s.take(trim_back(s).len() as int),
        forall|i: int| trim_back(s).len() <= i < s.len() ==> is_space(#[trigger] s[i]),
        trim_back(s).len() > 0 ==> !is_space(trim_back(s).last()),
        trim_back(s).len() > 0 ==> trim_back(s)[0] == s[0],
        s.len() > 0 && !is_space(s[0]) ==> trim_back(s).len() > 0,
    decreases s.len(),
{
    if s.len() > 0 && is_space(s.last()) {
        let init = s.drop_last();
        lemma_trim_back(init);
        assert(trim_back(s) =~= s.take(trim_back(s).len() as int));
        assert forall|i: int| trim_back(s).len() <= i < s.len() implies is_space(
            #[trigger] s[i],
        ) by {
            if i < init.len() {
                assert(init[i] == s[i]);
            }
        }
    } else {
        assert(s.take(s.len() as int) =~= s);
    }
}

/// The first word of a text reaches up to the first white space.
pub proof fn law_first_word(s: Seq<char>, n: int)
    requires
        0 <= n <= s.len(),
        forall|k: int| 0 <= k < n ==> !is_space(#[trigger] s[k]),
        n < s.len() ==> is_space(s[n]),
    ensures
        first_word(s) == s.take(n),
    decreases s.len(),
{
    if n > 0 {
        let rest = s.skip(1);
        assert forall|k: int| 0 <= k < n - 1 implies !is_space(#[trigger] rest[k]) by {
            assert(rest[k] == s[k + 1]);
        }
        assert(!is_space(s[0]));
        law_first_word(rest, n - 1);
        assert(first_word(s) =~= s.take(n));
    } else {
        assert(s.take(0) =~= Seq::<char>::empty());
    }
}

/// White space, as far as ASCII goes: the blank and the characters from tab to carriage
/// return.
pub proof fn law_ascii_space(c: char)
    requires
        (c as u32) < 0x80,
    ensures
        is_space(c) <==> c == ' ' || 9 <= c as u32 <= 13,
{
}

/// A text without separators is one piece; a separator and a text behind it make one
/// piece more.
pub proof fn law_split(s: Seq<char>, sep: char, t: Seq<char>, seps: Seq<char>)
    requires
        seps.contains(sep),
        forall|i: int| 0 <= i < t.len() ==> !seps.contains(#[trigger] t[i]),
    ensures
        split(t, seps) == seq![t],
        split(s + seq![sep] + t, seps) == split(s, seps).push(t),
    decreases t.len(),
{
    if t.len() == 0 {
        assert(t =~= Seq::<char>::empty());
        assert((s + seq![sep] + t) =~= s.push(sep));
        assert(s.push(sep).drop_last() =~= s);
        assert(split(t, seps) =~= seq![t]);
    } else {
        let init = t.drop_last();
        assert forall|i: int| 0 <= i < init.len() implies !seps.contains(#[trigger] init[i]) by {
            assert(init[i] == t[i]);
        }
        law_split(s, sep, init, seps);
        assert(!seps.contains(t[t.len() - 1]));
        assert((s + seq![sep] + t).drop_last() =~= s + seq![sep] + init);
        assert(init.push(t.last()) =~= t);
        assert(split(t, seps) =~= seq![t]);
        assert(split(s + seq![sep] + t, seps) =~= split(s, seps).push(t));
    }
}

/// What an octet is written as: one or two hexadecimal digits of either case are read
/// as usual, and nothing at all is no octet.
pub proof fn law_hex_octet(a: char, b: char)
    ensures
        hex_octet(Seq::empty()) is None,
        hex_octet(seq![a]) is Some <==> hex_digit_value(a) is Some,
        hex_digit_value(a) matches Some(x) ==> hex_octet(seq![a]) == Some(x as u8),
        hex_digit_value(a) is Some && hex_digit_value(b) is Some ==> hex_octet(seq![a, b]) == Some(
            (16 * hex_digit_value(a).unwrap() + hex_digit_value(b).unwrap()) as u8,
        ),
        a != '+' && (hex_digit_value(a) is None || hex_digit_value(b) is None) ==> hex_octet(
            seq![a, b],
        ) is None,
{
    reveal_with_fuel(hex_value, 3);
    let one = seq![a];
    let two = seq![a, b];
    assert(one.drop_last() =~= Seq::<char>::empty());
    assert(two.drop_last() =~= one);
    assert(one[0] == a && two[0] == a && two[1] == b);
    if hex_digit_value(a) is Some && hex_digit_value(b) is Some {
        assert(all_hex(two));
    }
    if hex_digit_value(a) is Some {
        assert(all_hex(one));
    }
}

/// The hexadecimal digits and their values.
pub proof fn law_hex_digits(c: char)
    ensures
        '0' <= c <= '9' ==> hex_digit_value(c) == Some((c as int - 48) as nat),
        'a' <= c <= 'f' ==> hex_digit_value(c) == Some((c as int - 87) as nat),
        'A' <= c <= 'F' ==> hex_digit_value(c) == Some((c as int - 55) as nat),
        hex_digit_value(c) is Some ==> '0' <= c <= '9' || 'a' <= c <= 'f' || 'A' <= c <= 'F',
{
}

/// A text occurs in another exactly if that is made up of it and what stands before and
/// behind it.
pub proof fn law_has_text(a: Seq<char>, p: Seq<char>, b: Seq<char>, s: Seq<char>)
    ensures
        has_text(a + p + b, p),
        has_text(s, p) ==> exists|x: Seq<char>, y: Seq<char>| s == #[trigger] (x + p + y),
{
    let whole = a + p + b;
    let at = a.len() as int;
    assert(whole.subrange(at, at + p.len()) =~= p);
    if has_text(s, p) {
        let i = choose|i: int|
            0 <= i <= s.len() - p.len() && #[trigger] s.subrange(i, i + p.len()) == p;
        assert(s =~= s.take(i) + p + s.skip(i + p.len()));
    }
}

/// A text begins with another exactly if it is that text with something behind it.
pub proof fn law_begins_with(p: Seq<char>, b: Seq<char>, s: Seq<char>)
    ensures
        begins_with(p + b, p),
        begins_with(s, p) ==> s == p + s.skip(p.len() as int),
{
    assert((p + b).take(p.len() as int) =~= p);
    if begins_with(s, p) {
        assert(s =~= s.take(p.len() as int) + s.skip(p.len() as int));
    }
}

}
