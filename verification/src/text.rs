//! Text as sequences of characters: white space, lines, separators, decimal numbers.

use vstd::prelude::*;
use vstd::slice::slice_subrange;

verus! {

/// `String::push` appends the character to the end of the string and changes nothing else.
pub assume_specification[ String::push ](s: &mut String, c: char)
    ensures
        final(s)@ == old(s)@.push(c),
;

/// The characters of `s`, in order.
pub fn chars_of(s: &str) -> (r: Vec<char>)
    ensures
        r@ == s@,
{
    let mut out: Vec<char> = Vec::new();
    for c in it: s.chars()
        invariant
            it.seq() == s@,
            out@ == s@.take(it.index() as int),
    {
        out.push(c);
    }
    out
}

/// The string with the characters `cs`.
pub fn string_of(cs: &[char]) -> (r: String)
    ensures
        r@ == cs@,
{
    let mut out = String::new();
    for i in 0..cs.len()
        invariant
            out@ == cs@.take(i as int),
    {
        out.push(cs[i]);
        assert(cs@.take(i + 1) =~= cs@.take(i as int).push(cs@[i as int]));
    }
    assert(cs@.take(cs@.len() as int) =~= cs@);
    out
}

/// Whether `c` has the Unicode property White_Space.
pub open spec fn is_white_space(c: char) -> bool {
    let n = c as u32;
    ||| 0x9 <= n <= 0xd
    ||| n == 0x20
    ||| n == 0x85
    ||| n == 0xa0
    ||| n == 0x1680
    ||| 0x2000 <= n <= 0x200a
    ||| n == 0x2028
    ||| n == 0x2029
    ||| n == 0x202f
    ||| n == 0x205f
    ||| n == 0x3000
}

/// Tests a character for the property White_Space.
pub fn white_space(c: char) -> (r: bool)
    ensures
        r == is_white_space(c),
{
    let n: u32 = c as u32;
    (0x9 <= n && n <= 0xd) || n == 0x20 || n == 0x85 || n == 0xa0 || n == 0x1680
        || (0x2000 <= n && n <= 0x200a) || n == 0x2028 || n == 0x2029 || n == 0x202f
        || n == 0x205f || n == 0x3000
}

/// What is left of `s` without its longest prefix of characters in `set`.
pub open spec fn strip_front(s: Seq<char>, set: spec_fn(char) -> bool) -> Seq<char>
    decreases s.len(),
{
    if s.len() > 0 && set(s[0]) {
        strip_front(s.drop_first(), set)
    } else {
        s
    }
}

/// What is left of `s` without its longest suffix of characters in `set`.
pub open spec fn strip_back(s: Seq<char>, set: spec_fn(char) -> bool) -> Seq<char>
    decreases s.len(),
{
    if s.len() > 0 && set(s.last()) {
        strip_back(s.drop_last(), set)
    } else {
        s
    }
}

/// What is left of `s` without the characters in `set` at either end.
pub open spec fn strip(s: Seq<char>, set: spec_fn(char) -> bool) -> Seq<char> {
    strip_back(strip_front(s, set), set)
}

/// The set that holds `c` alone.
pub open spec fn just(c: char) -> spec_fn(char) -> bool {
    |x: char| x == c
}

/// The set of white space.
pub open spec fn spaces() -> spec_fn(char) -> bool {
    |x: char| is_white_space(x)
}

/// `s` without white space at either end.
pub open spec fn trim(s: Seq<char>) -> Seq<char> {
    strip(s, spaces())
}

/// A character outside of `set` ends the stripped prefix, whatever stands before it.
pub proof fn lemma_strip_front(s: Seq<char>, set: spec_fn(char) -> bool, k: int)
    requires
        0 <= k <= s.len(),
        forall|i: int| 0 <= i < k ==> set(#[trigger] s[i]),
        k < s.len() ==> !set(s[k]),
    ensures
        strip_front(s, set) == s.skip(k),
    decreases k,
{
    if k > 0 {
        let t = s.drop_first();
        assert(set(s[0]));
        assert forall|i: int| 0 <= i < k - 1 implies set(#[trigger] t[i]) by {
            assert(t[i] == s[i + 1]);
        }
        lemma_strip_front(t, set, k - 1);
        assert(t.skip(k - 1) =~= s.skip(k));
    } else {
        assert(s.skip(0) =~= s);
    }
}

/// A character outside of `set` starts the kept part, whatever stands behind the suffix.
pub proof fn lemma_strip_back(s: Seq<char>, set: spec_fn(char) -> bool, k: int)
    requires
        0 <= k <= s.len(),
        forall|i: int| k <= i < s.len() ==> set(#[trigger] s[i]),
        k > 0 ==> !set(s[k - 1]),
    ensures
        strip_back(s, set) == s.take(k),
    decreases s.len() - k,
{
    if k < s.len() {
        let t = s.drop_last();
        assert(set(s[s.len() - 1]));
        assert forall|i: int| k <= i < t.len() implies set(#[trigger] t[i]) by {
            assert(t[i] == s[i]);
        }
        lemma_strip_back(t, set, k);
        assert(t.take(k) =~= s.take(k));
    } else {
        assert(s.take(k) =~= s);
    }
}

/// White space around a text does not matter to `trim`, which leaves the text alone.
pub proof fn law_trim_takes_padding(before: Seq<char>, s: Seq<char>, after: Seq<char>)
    requires
        forall|i: int| 0 <= i < before.len() ==> is_white_space(#[trigger] before[i]),
        forall|i: int| 0 <= i < after.len() ==> is_white_space(#[trigger] after[i]),
        s.len() > 0 ==> !is_white_space(s[0]) && !is_white_space(s.last()),
    ensures
        trim(before + s + after) == s,
{
    let all = before + s + after;
    if s.len() > 0 {
        lemma_strip_front(all, spaces(), before.len() as int);
        let rest = all.skip(before.len() as int);
        assert(rest =~= s + after);
        assert forall|i: int| s.len() <= i < rest.len() implies spaces()(#[trigger] rest[i]) by {
            assert(rest[i] == after[i - s.len()]);
        }
        lemma_strip_back(rest, spaces(), s.len() as int);
        assert(rest.take(s.len() as int) =~= s);
    } else {
        lemma_strip_front(all, spaces(), all.len() as int);
        assert(all.skip(all.len() as int) =~= s);
    }
}

/// What `trim` leaves has no white space at its ends, so that a second `trim` changes nothing.
pub proof fn law_trim_once(s: Seq<char>)
    ensures
        trim(s).len() > 0 ==> !is_white_space(trim(s)[0]) && !is_white_space(trim(s).last()),
        trim(trim(s)) == trim(s),
{
    lemma_stripped_ends(s, spaces());
    let t = trim(s);
    assert(Seq::<char>::empty() + t + Seq::<char>::empty() =~= t);
    law_trim_takes_padding(Seq::empty(), t, Seq::empty());
}

/// What `strip` leaves has no character of `set` at its ends.
proof fn lemma_stripped_ends(s: Seq<char>, set: spec_fn(char) -> bool)
    ensures
        strip(s, set).len() > 0 ==> !set(strip(s, set)[0]) && !set(strip(s, set).last()),
    decreases s.len(),
{
    if s.len() > 0 {
        if set(s[0]) {
            lemma_stripped_ends(s.drop_first(), set);
        } else if set(s.last()) {
            let init = s.drop_last();
            assert(init.len() > 0) by {
                if init.len() == 0 {
                    assert(s.last() == s[0]);
                }
            }
            assert(init[0] == s[0]);
            lemma_stripped_ends(init, set);
        }
    }
}

/// `s` without the leading characters equal to `c`.
pub fn strip_front_char(s: &[char], c: char) -> (r: &[char])
    ensures
        r@ == strip_front(s@, just(c)),
{
    let mut k: usize = 0;
    while k < s.len() && s[k] == c
        invariant
            k <= s@.len(),
            forall|i: int| 0 <= i < k ==> s@[i] == c,
        decreases s@.len() - k,
    {
        k = k + 1;
    }
    proof {
        lemma_strip_front(s@, just(c), k as int);
        assert(s@.subrange(k as int, s@.len() as int) =~= s@.skip(k as int));
    }
    slice_subrange(s, k, s.len())
}

/// `s` without the characters equal to `c` at either end.
pub fn strip_char(s: &[char], c: char) -> (r: &[char])
    ensures
        r@ == strip(s@, just(c)),
{
    let t = strip_front_char(s, c);
    let mut k: usize = t.len();
    while k > 0 && t[k - 1] == c
        invariant
            k <= t@.len(),
            forall|i: int| k <= i < t@.len() ==> t@[i] == c,
        decreases k,
    {
        k = k - 1;
    }
    proof {
        lemma_strip_back(t@, just(c), k as int);
        assert(t@.subrange(0, k as int) =~= t@.take(k as int));
    }
    slice_subrange(t, 0, k)
}

/// `s` without white space at either end.
pub fn trimmed(s: &[char]) -> (r: &[char])
    ensures
        r@ == trim(s@),
{
    let mut lo: usize = 0;
    while lo < s.len() && white_space(s[lo])
        invariant
            lo <= s@.len(),
            forall|i: int| 0 <= i < lo ==> is_white_space(#[trigger] s@[i]),
        decreases s@.len() - lo,
    {
        lo = lo + 1;
    }
    let mut hi: usize = s.len();
    while hi > lo && white_space(s[hi - 1])
        invariant
            lo <= hi <= s@.len(),
            forall|i: int| hi <= i < s@.len() ==> is_white_space(#[trigger] s@[i]),
        decreases hi,
    {
        hi = hi - 1;
    }
    proof {
        lemma_strip_front(s@, spaces(), lo as int);
        let t = s@.skip(lo as int);
        assert forall|i: int| hi - lo <= i < t.len() implies spaces()(#[trigger] t[i]) by {
            assert(t[i] == s@[i + lo]);
        }
        if hi > lo {
            assert(t[hi - lo - 1] == s@[hi - 1]);
        }
        lemma_strip_back(t, spaces(), hi - lo);
        assert(s@.subrange(lo as int, hi as int) =~= t.take(hi - lo));
    }
    slice_subrange(s, lo, hi)
}

/// The place of the first `c` in `s`, or the length of `s` where there is none.
pub open spec fn find(s: Seq<char>, c: char) -> int
    decreases s.len(),
{
    if s.len() == 0 || s[0] == c {
        0
    } else {
        1 + find(s.drop_first(), c)
    }
}

/// `find` gives the one place with no `c` before it that holds `c` or ends `s`.
pub proof fn lemma_find(s: Seq<char>, c: char, k: int)
    requires
        0 <= k <= s.len(),
        forall|i: int| 0 <= i < k ==> s[i] != c,
        k < s.len() ==> s[k] == c,
    ensures
        find(s, c) == k,
    decreases k,
{
    if k > 0 {
        let t = s.drop_first();
        assert(s[0] != c);
        assert forall|i: int| 0 <= i < k - 1 implies t[i] != c by {
            assert(t[i] == s[i + 1]);
        }
        lemma_find(t, c, k - 1);
    }
}

/// `find` stays within `s`, finds `c`, and passes over none.
pub proof fn lemma_find_bounds(s: Seq<char>, c: char)
    ensures
        0 <= find(s, c) <= s.len(),
        find(s, c) < s.len() ==> s[find(s, c)] == c,
        forall|i: int| 0 <= i < find(s, c) ==> s[i] != c,
    decreases s.len(),
{
    if s.len() > 0 && s[0] != c {
        let t = s.drop_first();
        lemma_find_bounds(t, c);
        assert forall|i: int| 0 <= i < find(s, c) implies s[i] != c by {
            if i > 0 {
                assert(s[i] == t[i - 1]);
            }
        }
    }
}

/// The place of the first `c` in `s`, or the length of `s` where there is none.
pub fn find_char(s: &[char], c: char) -> (r: usize)
    ensures
        r == find(s@, c),
        r <= s@.len(),
{
    let mut k: usize = 0;
    while k < s.len() && s[k] != c
        invariant
            k <= s@.len(),
            forall|i: int| 0 <= i < k ==> s@[i] != c,
        decreases s@.len() - k,
    {
        k = k + 1;
    }
    proof {
        lemma_find(s@, c, k as int);
    }
    k
}

/// What a vector of texts holds.
pub open spec fn views(v: Seq<Vec<char>>) -> Seq<Seq<char>> {
    v.map_values(|t: Vec<char>| t@)
}

/// The pieces of `s` between the separators `c`: one more than there are separators.
pub open spec fn split(s: Seq<char>, c: char) -> Seq<Seq<char>>
    decreases s.len(),
    via split_decreases
{
    let k = find(s, c);
    if k < s.len() {
        seq![s.take(k)] + split(s.skip(k + 1), c)
    } else {
        seq![s]
    }
}

#[via_fn]
proof fn split_decreases(s: Seq<char>, c: char) {
    lemma_find_bounds(s, c);
}

/// The pieces of `s` between the separators `c`.
pub fn split_at_char(s: &[char], c: char) -> (r: Vec<Vec<char>>)
    ensures
        views(r@) == split(s@, c),
{
    let mut out: Vec<Vec<char>> = Vec::new();
    let mut rest: &[char] = s;
    let mut k: usize = find_char(rest, c);
    proof {
        assert(views(out@) + split(rest@, c) =~= split(s@, c));
    }
    while k < rest.len()
        invariant
            k == find(rest@, c),
            k <= rest@.len(),
            views(out@) + split(rest@, c) == split(s@, c),
        decreases rest@.len(),
    {
        let ghost before = views(out@);
        let ghost whole = rest@;
        let piece = copied(slice_subrange(rest, 0, k));
        out.push(piece);
        rest = slice_subrange(rest, k + 1, rest.len());
        proof {
            assert(whole.subrange(0, k as int) =~= whole.take(k as int));
            assert(rest@ =~= whole.skip(k + 1));
            assert(views(out@) =~= before.push(whole.take(k as int)));
            assert(views(out@) + split(rest@, c) =~= before + split(whole, c));
        }
        k = find_char(rest, c);
    }
    let ghost before = views(out@);
    let piece = copied(rest);
    out.push(piece);
    proof {
        assert(views(out@) =~= before.push(rest@));
        assert(views(out@) =~= before + split(rest@, c));
    }
    out
}

/// A vector with the characters `cs`.
pub fn copied(cs: &[char]) -> (r: Vec<char>)
    ensures
        r@ == cs@,
{
    let mut out: Vec<char> = Vec::new();
    for i in 0..cs.len()
        invariant
            out@ == cs@.take(i as int),
    {
        out.push(cs[i]);
        assert(cs@.take(i + 1) =~= cs@.take(i as int).push(cs@[i as int]));
    }
    assert(cs@.take(cs@.len() as int) =~= cs@);
    out
}

/// A line that a line feed ended, without the carriage return right before the feed.
pub open spec fn drop_return(line: Seq<char>) -> Seq<char> {
    if line.len() > 0 && line.last() == '\r' {
        line.drop_last()
    } else {
        line
    }
}

/// The lines of `s`. Each ends at a line feed, with or without a carriage return before it;
/// the feed behind the last line may be missing.
pub open spec fn lines(s: Seq<char>) -> Seq<Seq<char>>
    decreases s.len(),
    via lines_decreases
{
    let k = find(s, '\n');
    if s.len() == 0 {
        Seq::empty()
    } else if k < s.len() {
        seq![drop_return(s.take(k))] + lines(s.skip(k + 1))
    } else {
        seq![s]
    }
}

#[via_fn]
proof fn lines_decreases(s: Seq<char>) {
    lemma_find_bounds(s, '\n');
}

/// The lines of `s`.
pub fn lines_of(s: &[char]) -> (r: Vec<Vec<char>>)
    ensures
        views(r@) == lines(s@),
{
    let mut out: Vec<Vec<char>> = Vec::new();
    let mut rest: &[char] = s;
    proof {
        assert(views(out@) + lines(rest@) =~= lines(s@));
    }
    while rest.len() > 0
        invariant
            views(out@) + lines(rest@) == lines(s@),
        decreases rest@.len(),
    {
        let k: usize = find_char(rest, '\n');
        let ghost before = views(out@);
        let ghost whole = rest@;
        if k < rest.len() {
            let end: usize = if k > 0 && rest[k - 1] == '\r' {
                k - 1
            } else {
                k
            };
            let piece = copied(slice_subrange(rest, 0, end));
            out.push(piece);
            rest = slice_subrange(rest, k + 1, rest.len());
            proof {
                let line = drop_return(whole.take(k as int));
                assert(whole.subrange(0, end as int) =~= line);
                assert(rest@ =~= whole.skip(k + 1));
                assert(views(out@) =~= before.push(line));
                assert(views(out@) + lines(rest@) =~= before + lines(whole));
            }
        } else {
            let piece = copied(rest);
            out.push(piece);
            rest = slice_subrange(rest, k, k);
            proof {
                assert(rest@ =~= Seq::<char>::empty());
                assert(views(out@) =~= before.push(whole));
                assert(views(out@) + lines(rest@) =~= before + lines(whole));
            }
        }
    }
    assert(lines(rest@) =~= Seq::<Seq<char>>::empty());
    assert(views(out@) + lines(rest@) =~= views(out@));
    out
}

/// Whether `c` is one of the ten decimal digits of ASCII.
pub open spec fn is_digit(c: char) -> bool {
    '0' <= c <= '9'
}

/// The number that a run of decimal digits stands for.
pub open spec fn digits_value(s: Seq<char>) -> nat
    decreases s.len(),
{
    if s.len() == 0 {
        0
    } else {
        10 * digits_value(s.drop_last()) + (s.last() as u32 - '0' as u32) as nat
    }
}

/// The digits of a number, written as an optional plus sign and then digits.
pub open spec fn unsigned(s: Seq<char>) -> Seq<char> {
    if s.len() > 0 && s[0] == '+' {
        s.drop_first()
    } else {
        s
    }
}

/// The number that `s` writes in decimal, where it is at most `max`. `s` is one or more digits,
/// after a plus sign or nothing.
pub open spec fn number(s: Seq<char>, max: nat) -> Option<nat> {
    let d = unsigned(s);
    if d.len() > 0 && (forall|i: int| 0 <= i < d.len() ==> is_digit(#[trigger] d[i]))
        && digits_value(d) <= max {
        Some(digits_value(d))
    } else {
        None
    }
}

/// More digits never make a smaller number.
proof fn lemma_digits_grow(s: Seq<char>, k: int)
    requires
        0 <= k <= s.len(),
        forall|i: int| 0 <= i < s.len() ==> is_digit(#[trigger] s[i]),
    ensures
        digits_value(s.take(k)) <= digits_value(s),
    decreases s.len() - k,
{
    if k < s.len() {
        let t = s.take(k + 1);
        lemma_digits_grow(s, k + 1);
        assert(t.drop_last() =~= s.take(k));
    } else {
        assert(s.take(k) =~= s);
    }
}

/// Reads a number of at most `max` in decimal.
pub fn read_number(s: &[char], max: u64) -> (r: Option<u64>)
    ensures
        r is Some <==> number(s@, max as nat) is Some,
        r matches Some(n) ==> number(s@, max as nat) == Some(n as nat),
{
    let d: &[char] = if s.len() > 0 && s[0] == '+' {
        slice_subrange(s, 1, s.len())
    } else {
        s
    };
    assert(d@ =~= unsigned(s@));
    if d.len() == 0 {
        return None;
    }
    let mut value: u64 = 0;
    let mut i: usize = 0;
    assert(d@.take(0) =~= Seq::<char>::empty());
    while i < d.len()
        invariant
            i <= d@.len(),
            value <= max,
            d@ == unsigned(s@),
            d@.len() > 0,
            value == digits_value(d@.take(i as int)),
            forall|j: int| 0 <= j < i ==> is_digit(#[trigger] d@[j]),
        decreases d@.len() - i,
    {
        let c = d[i];
        if !('0' <= c && c <= '9') {
            assert(!is_digit(d@[i as int]));
            return None;
        }
        let digit: u64 = (c as u32 - '0' as u32) as u64;
        let ghost next = 10 * value + digit;
        proof {
            assert(d@.take(i + 1).drop_last() =~= d@.take(i as int));
            assert(d@.take(i + 1).last() == c);
            assert(digits_value(d@.take(i + 1)) == next);
        }
        if value > max / 10 || digit > max - 10 * value {
            proof {
                assert(next > max);
                if forall|j: int| 0 <= j < d@.len() ==> is_digit(#[trigger] d@[j]) {
                    lemma_digits_grow(d@, i + 1);
                }
            }
            return None;
        }
        value = 10 * value + digit;
        i = i + 1;
    }
    assert(d@.take(i as int) =~= d@);
    Some(value)
}

/// The port that `s` writes in decimal: a number below two to the sixteenth.
pub open spec fn port(s: Seq<char>) -> Option<nat> {
    number(s, u16::MAX as nat)
}

/// Reads a port number.
pub fn read_port(s: &str) -> (r: Option<u16>)
    ensures
        r is Some <==> port(s@) is Some,
        r matches Some(p) ==> port(s@) == Some(p as nat),
{
    let cs = chars_of(s);
    match read_number(cs.as_slice(), u16::MAX as u64) {
        Some(n) => Some(n as u16),
        None => None,
    }
}

/// The decimal digit for a number below ten.
pub open spec fn digit(n: nat) -> char {
    ('0' as u32 + n) as char
}

/// `n` in decimal, without leading zeros.
pub open spec fn decimal(n: nat) -> Seq<char>
    decreases n,
{
    if n < 10 {
        seq![digit(n)]
    } else {
        decimal(n / 10).push(digit(n % 10))
    }
}

/// Writes `n` in decimal.
pub fn decimal_of(n: u64) -> (r: String)
    ensures
        r@ == decimal(n as nat),
    decreases n,
{
    let mut out = if n < 10 {
        String::new()
    } else {
        decimal_of(n / 10)
    };
    out.push(digit_of(n % 10));
    assert(out@ =~= decimal(n as nat));
    out
}

/// The decimal digit for a number below ten.
fn digit_of(n: u64) -> (r: char)
    requires
        n < 10,
    ensures
        r == digit(n as nat),
{
    match n {
        0 => '0',
        1 => '1',
        2 => '2',
        3 => '3',
        4 => '4',
        5 => '5',
        6 => '6',
        7 => '7',
        8 => '8',
        _ => '9',
    }
}

/// The digits that `decimal` writes are digits, and read as the number written.
pub proof fn lemma_decimal(n: nat)
    ensures
        decimal(n).len() > 0,
        forall|i: int| 0 <= i < decimal(n).len() ==> is_digit(#[trigger] decimal(n)[i]),
        digits_value(decimal(n)) == n,
    decreases n,
{
    if n < 10 {
        assert(decimal(n).drop_last() =~= Seq::<char>::empty());
        assert(digits_value(Seq::<char>::empty()) == 0);
    } else {
        lemma_decimal(n / 10);
        assert(decimal(n).drop_last() =~= decimal(n / 10));
        assert forall|i: int| 0 <= i < decimal(n).len() implies is_digit(
            #[trigger] decimal(n)[i],
        ) by {
            if i < decimal(n / 10).len() {
                assert(decimal(n)[i] == decimal(n / 10)[i]);
            }
        }
    }
}

/// A number written in decimal reads back as itself.
pub proof fn law_decimal_reads_back(n: nat, max: nat)
    requires
        n <= max,
    ensures
        number(decimal(n), max) == Some(n),
{
    lemma_decimal(n);
    let d = decimal(n);
    assert(is_digit(d[0]));
    assert(unsigned(d) == d);
}

/// White space is these characters and no other: the tab, the line feed, the vertical tab, the form
/// feed, the carriage return and the space, the next line, the no-break space, the Ogham space, the
/// eleven typographical spaces, the line and the paragraph separator, the narrow no-break space,
/// the mathematical space and the ideographic space.
pub proof fn law_white_space(c: char)
    ensures
        is_white_space(c)
            <==> "\t\n\u{b}\u{c}\r \u{85}\u{a0}\u{1680}\u{2000}\u{2001}\u{2002}\u{2003}\u{2004}\u{2005}\u{2006}\u{2007}\u{2008}\u{2009}\u{200a}\u{2028}\u{2029}\u{202f}\u{205f}\u{3000}"@.contains(
        c),
{
    reveal_strlit(
        "\t\n\u{b}\u{c}\r \u{85}\u{a0}\u{1680}\u{2000}\u{2001}\u{2002}\u{2003}\u{2004}\u{2005}\u{2006}\u{2007}\u{2008}\u{2009}\u{200a}\u{2028}\u{2029}\u{202f}\u{205f}\u{3000}",
    );
    let all =
        "\t\n\u{b}\u{c}\r \u{85}\u{a0}\u{1680}\u{2000}\u{2001}\u{2002}\u{2003}\u{2004}\u{2005}\u{2006}\u{2007}\u{2008}\u{2009}\u{200a}\u{2028}\u{2029}\u{202f}\u{205f}\u{3000}"@;
    if is_white_space(c) {
        let n = c as u32;
        let k: int = if 0x9 <= n <= 0xd {
            n - 0x9
        } else if n == 0x20 {
            5
        } else if n == 0x85 {
            6
        } else if n == 0xa0 {
            7
        } else if n == 0x1680 {
            8
        } else if 0x2000 <= n <= 0x200a {
            n - 0x2000 + 9
        } else if n == 0x2028 {
            20
        } else if n == 0x2029 {
            21
        } else if n == 0x202f {
            22
        } else if n == 0x205f {
            23
        } else {
            24
        };
        assert(all[k] == c);
    }
}

/// Whatever characters are to be stripped, those around a text go, and the text itself stays,
/// where it does not start or end with one of them.
pub proof fn law_strip_takes_padding(
    before: Seq<char>,
    s: Seq<char>,
    after: Seq<char>,
    set: spec_fn(char) -> bool,
)
    requires
        forall|i: int| 0 <= i < before.len() ==> set(#[trigger] before[i]),
        forall|i: int| 0 <= i < after.len() ==> set(#[trigger] after[i]),
        s.len() > 0 ==> !set(s[0]) && !set(s.last()),
    ensures
        strip(before + s + after, set) == s,
        s.len() > 0 ==> strip_front(before + s + after, set) == s + after,
{
    let all = before + s + after;
    if s.len() > 0 {
        lemma_strip_front(all, set, before.len() as int);
        let rest = all.skip(before.len() as int);
        assert(rest =~= s + after);
        assert forall|i: int| s.len() <= i < rest.len() implies set(#[trigger] rest[i]) by {
            assert(rest[i] == after[i - s.len()]);
        }
        lemma_strip_back(rest, set, s.len() as int);
        assert(rest.take(s.len() as int) =~= s);
    } else {
        assert forall|i: int| 0 <= i < all.len() implies set(#[trigger] all[i]) by {
            if i >= before.len() {
                assert(all[i] == after[i - before.len()]);
            }
        }
        lemma_strip_front(all, set, all.len() as int);
        assert(all.skip(all.len() as int) =~= s);
    }
}

/// `pieces` in a row, with `c` between each two.
pub open spec fn join_with(pieces: Seq<Seq<char>>, c: char) -> Seq<char>
    decreases pieces.len(),
{
    if pieces.len() == 0 {
        Seq::empty()
    } else if pieces.len() == 1 {
        pieces[0]
    } else {
        pieces[0] + seq![c] + join_with(pieces.drop_first(), c)
    }
}

/// Pieces that were joined come apart again: as many, the same, and in the same order.
pub proof fn law_split_undoes_join(pieces: Seq<Seq<char>>, c: char)
    requires
        pieces.len() > 0,
        forall|i: int| 0 <= i < pieces.len() ==> !(#[trigger] pieces[i]).contains(c),
    ensures
        split(join_with(pieces, c), c) == pieces,
    decreases pieces.len(),
{
    let all = join_with(pieces, c);
    let first = pieces[0];
    let k = first.len() as int;
    assert forall|i: int| 0 <= i < k implies first[i] != c by {
        assert(first.contains(first[i]));
    }
    lemma_find(all, c, k);
    if pieces.len() == 1 {
        assert(split(all, c) =~= pieces);
    } else {
        let rest = pieces.drop_first();
        assert forall|i: int| 0 <= i < rest.len() implies !(#[trigger] rest[i]).contains(c) by {
            assert(rest[i] == pieces[i + 1]);
        }
        law_split_undoes_join(rest, c);
        assert(all.take(k) =~= first);
        assert(all.skip(k + 1) =~= join_with(rest, c));
        assert(seq![first] + rest =~= pieces);
    }
}

/// Joining what a text was split into gives the text, and no piece holds the separator.
pub proof fn law_join_undoes_split(s: Seq<char>, c: char)
    ensures
        split(s, c).len() > 0,
        join_with(split(s, c), c) == s,
        forall|i: int| 0 <= i < split(s, c).len() ==> !(#[trigger] split(s, c)[i]).contains(c),
    decreases s.len(),
{
    let k = find(s, c);
    lemma_find_bounds(s, c);
    if k < s.len() {
        let rest = s.skip(k + 1);
        law_join_undoes_split(rest, c);
        let pieces = split(s, c);
        assert(pieces.drop_first() =~= split(rest, c));
        assert(s =~= s.take(k) + seq![c] + rest);
        assert forall|i: int| 0 <= i < pieces.len() implies !(#[trigger] pieces[i]).contains(c) by {
            if i > 0 {
                assert(pieces[i] == split(rest, c)[i - 1]);
            }
        }
    }
}

/// A line that ends in a line feed, or in a carriage return and a line feed, is the first line of
/// the text; the others are those of the rest. What no line feed ends is a line too, if there is
/// anything.
pub proof fn law_lines(line: Seq<char>, carriage_return: bool, rest: Seq<char>)
    requires
        !line.contains('\n'),
        line.len() > 0 && !carriage_return ==> line.last() != '\r',
    ensures
        carriage_return ==> lines(line + seq!['\r', '\n'] + rest) == seq![line] + lines(rest),
        !carriage_return ==> lines(line + seq!['\n'] + rest) == seq![line] + lines(rest),
        line.len() > 0 ==> lines(line) == seq![line],
        lines(Seq::<char>::empty()) == Seq::<Seq<char>>::empty(),
{
    assert forall|i: int| 0 <= i < line.len() implies line[i] != '\n' by {
        assert(line.contains(line[i]));
    }
    if line.len() > 0 {
        lemma_find(line, '\n', line.len() as int);
    }
    let full = if carriage_return {
        line + seq!['\r']
    } else {
        line
    };
    let all = full + seq!['\n'] + rest;
    lemma_find(all, '\n', full.len() as int);
    assert(all.take(full.len() as int) =~= full);
    assert(all.skip(full.len() as int + 1) =~= rest);
    if carriage_return {
        assert(all =~= line + seq!['\r', '\n'] + rest);
        assert(full.drop_last() =~= line);
    }
}

/// A number is written digit by digit: the last digit behind the number without it.
pub proof fn law_decimal_digits(n: nat)
    ensures
        n < 10 ==> decimal(n) == seq!["0123456789"@[n as int]],
        n >= 10 ==> decimal(n) == decimal(n / 10) + decimal(n % 10),
{
    reveal_strlit("0123456789");
    if n >= 10 {
        assert(decimal(n % 10) =~= seq![digit(n % 10)]);
        assert(decimal(n) =~= decimal(n / 10) + decimal(n % 10));
    }
}

/// Whether `s` writes the number `n`: in decimal, with any number of zeros in front, and a plus
/// sign or nothing before these.
pub open spec fn writes(s: Seq<char>, n: nat) -> bool {
    exists|plus: bool, zeros: nat| #[trigger] written(plus, zeros, n) == s
}

/// `c`, `n` times in a row.
pub open spec fn repeated(c: char, n: nat) -> Seq<char> {
    Seq::new(n, |i: int| c)
}

/// `n` in decimal, behind `zeros` zeros and, where `plus` says so, a plus sign.
pub open spec fn written(plus: bool, zeros: nat, n: nat) -> Seq<char> {
    (if plus {
        seq!['+']
    } else {
        Seq::empty()
    }) + repeated('0', zeros) + decimal(n)
}

/// Zeros in front of digits do not change their number.
proof fn lemma_leading_zeros(zeros: nat, d: Seq<char>)
    ensures
        digits_value(repeated('0', zeros) + d) == digits_value(d),
    decreases zeros + d.len(),
{
    let z = repeated('0', zeros);
    let all = z + d;
    if d.len() > 0 {
        lemma_leading_zeros(zeros, d.drop_last());
        assert(all.drop_last() =~= z + d.drop_last());
        assert(all.last() == d.last());
    } else if zeros > 0 {
        let less = repeated('0', (zeros - 1) as nat);
        lemma_leading_zeros((zeros - 1) as nat, d);
        assert(all.drop_last() =~= less + d);
        assert(all.last() == '0');
    } else {
        assert(all =~= d);
    }
}

/// A run of digits is its number in decimal behind some zeros.
proof fn lemma_digits_written(d: Seq<char>) -> (zeros: nat)
    requires
        d.len() > 0,
        forall|i: int| 0 <= i < d.len() ==> is_digit(#[trigger] d[i]),
    ensures
        d == repeated('0', zeros) + decimal(digits_value(d)),
    decreases d.len(),
{
    let init = d.drop_last();
    let x = (d.last() as u32 - '0' as u32) as nat;
    assert(is_digit(d[d.len() - 1]));
    assert(digit(x) == d.last());
    assert(init.push(d.last()) =~= d);
    if d.len() == 1 {
        assert(digits_value(init) == 0);
        assert(d =~= repeated('0', 0) + decimal(digits_value(d)));
        0
    } else {
        assert forall|i: int| 0 <= i < init.len() implies is_digit(#[trigger] init[i]) by {
            assert(init[i] == d[i]);
        }
        let zeros = lemma_digits_written(init);
        let v = digits_value(init);
        if v == 0 {
            assert(decimal(0) =~= seq!['0']);
            assert(init =~= repeated('0', zeros + 1));
            assert(d =~= repeated('0', zeros + 1) + decimal(digits_value(d)));
            zeros + 1
        } else {
            assert(digits_value(d) == 10 * v + x);
            assert((10 * v + x) / 10 == v && (10 * v + x) % 10 == x);
            assert(d =~= repeated('0', zeros) + decimal(digits_value(d)));
            zeros
        }
    }
}

/// A text is read as a number exactly where it writes that number and the number is not too large.
pub proof fn law_number_is_what_is_written(s: Seq<char>, max: nat, n: nat)
    ensures
        number(s, max) == Some(n) <==> n <= max && writes(s, n),
{
    if number(s, max) == Some(n) {
        let d = unsigned(s);
        let zeros = lemma_digits_written(d);
        let plus = s.len() > 0 && s[0] == '+';
        assert(d == repeated('0', zeros) + decimal(n));
        if plus {
            assert(s =~= seq!['+'] + d);
        }
        assert(written(plus, zeros, n) =~= s);
    }
    if n <= max && writes(s, n) {
        let (plus, zeros) = choose|plus: bool, zeros: nat| #[trigger] written(plus, zeros, n) == s;
        let d = repeated('0', zeros) + decimal(n);
        lemma_decimal(n);
        assert forall|i: int| 0 <= i < d.len() implies is_digit(#[trigger] d[i]) by {
            if i >= zeros {
                assert(d[i] == decimal(n)[i - zeros]);
            }
        }
        assert(is_digit(d[0]));
        if plus {
            assert(s.drop_first() =~= d);
        } else {
            assert(s =~= d);
        }
        lemma_leading_zeros(zeros, decimal(n));
    }
}

/// Every port can be entered, and nothing else is one: a text is read as a port exactly where it
/// writes a number up to 65535, and as that number.
pub proof fn law_port_is_what_is_written(s: Seq<char>, n: nat)
    ensures
        port(s) == Some(n) <==> n <= 65535 && writes(s, n),
{
    law_number_is_what_is_written(s, u16::MAX as nat, n);
}

/// A port that is entered in decimal is read as itself.
pub proof fn law_port_reads_back(n: nat)
    requires
        n <= 65535,
    ensures
        port(decimal(n)) == Some(n),
{
    law_port_is_what_is_written(decimal(n), n);
    assert(written(false, 0, n) =~= decimal(n));
}

/// What `trim` leaves is everything from the first to the last character that is no white space;
/// it leaves nothing exactly where there is no such character.
pub proof fn law_trim_keeps_all_between(s: Seq<char>, first: int, last: int)
    requires
        0 <= first <= last < s.len(),
        !is_white_space(s[first]),
        !is_white_space(s[last]),
        forall|i: int| 0 <= i < first ==> is_white_space(#[trigger] s[i]),
        forall|i: int| last < i < s.len() ==> is_white_space(#[trigger] s[i]),
    ensures
        trim(s) == s.subrange(first, last + 1),
{
    let before = s.take(first);
    let middle = s.subrange(first, last + 1);
    let after = s.skip(last + 1);
    assert(before + middle + after =~= s);
    law_trim_takes_padding(before, middle, after);
}

/// A text is trimmed to nothing exactly where it is all white space.
pub proof fn law_trim_to_nothing(s: Seq<char>)
    ensures
        trim(s).len() == 0 <==> (forall|i: int| 0 <= i < s.len() ==> is_white_space(#[trigger] s[i])),
{
    if forall|i: int| 0 <= i < s.len() ==> is_white_space(#[trigger] s[i]) {
        assert(s + Seq::<char>::empty() + Seq::<char>::empty() =~= s);
        law_trim_takes_padding(s, Seq::empty(), Seq::empty());
    } else {
        let k = choose|k: int| 0 <= k < s.len() && !is_white_space(#[trigger] s[k]);
        let first = lemma_first_ink(s, k);
        let last = lemma_last_ink(s, k);
        law_trim_keeps_all_between(s, first, last);
    }
}

/// The first place that is no white space.
proof fn lemma_first_ink(s: Seq<char>, k: int) -> (first: int)
    requires
        0 <= k < s.len(),
        !is_white_space(s[k]),
    ensures
        0 <= first <= k,
        !is_white_space(s[first]),
        forall|i: int| 0 <= i < first ==> is_white_space(#[trigger] s[i]),
    decreases k,
{
    if exists|i: int| 0 <= i < k && !is_white_space(#[trigger] s[i]) {
        let i = choose|i: int| 0 <= i < k && !is_white_space(#[trigger] s[i]);
        lemma_first_ink(s, i)
    } else {
        k
    }
}

/// The last place that is no white space.
proof fn lemma_last_ink(s: Seq<char>, k: int) -> (last: int)
    requires
        0 <= k < s.len(),
        !is_white_space(s[k]),
    ensures
        k <= last < s.len(),
        !is_white_space(s[last]),
        forall|i: int| last < i < s.len() ==> is_white_space(#[trigger] s[i]),
    decreases s.len() - k,
{
    if exists|i: int| k < i < s.len() && !is_white_space(#[trigger] s[i]) {
        let i = choose|i: int| k < i < s.len() && !is_white_space(#[trigger] s[i]);
        lemma_last_ink(s, i)
    } else {
        k
    }
}

/// The lines of a text that ends in a line feed, and of what follows it, are the lines of both
/// together.
pub proof fn law_lines_of_parts(front: Seq<char>, rest: Seq<char>)
    requires
        front.len() > 0 ==> front.last() == '\n',
    ensures
        lines(front + rest) == lines(front) + lines(rest),
    decreases front.len(),
{
    if front.len() == 0 {
        assert(front + rest =~= rest);
        assert(lines(front) + lines(rest) =~= lines(rest));
    } else {
        let k = find(front, '\n');
        lemma_find_bounds(front, '\n');
        assert(front[front.len() - 1] == '\n');
        let tail = front.skip(k + 1);
        lemma_find(front + rest, '\n', k);
        assert((front + rest).take(k) =~= front.take(k));
        assert((front + rest).skip(k + 1) =~= tail + rest);
        if tail.len() > 0 {
            assert(tail.last() == front.last());
        }
        law_lines_of_parts(tail, rest);
        assert(lines(front + rest) =~= lines(front) + lines(rest));
    }
}

/// What a vector of texts is seen to hold is its texts: as many, in full, and in their order.
pub proof fn law_texts_are_seen_whole(v: Seq<Vec<char>>)
    ensures
        views(v).len() == v.len(),
        forall|i: int| 0 <= i < v.len() ==> #[trigger] views(v)[i] == v[i]@,
{
}

} // verus!
