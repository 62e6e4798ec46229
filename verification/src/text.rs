//! Character-level building blocks of the playlist format: white space,
//! trimming, lines, decimal numbers and UTF-8 lengths.
//!
//! A text is modelled as a `Seq<char>`. The executable helpers work on a
//! `Vec<char>` and a range of indices into it, and say what they compute in
//! terms of the corresponding `subrange`.

use vstd::prelude::*;
use vstd::utf8::*;

verus! {

/// Length of the longest prefix of `s` whose characters all satisfy `p`.
pub open spec fn run_len(s: Seq<char>, p: spec_fn(char) -> bool) -> nat
    decreases s.len(),
{
    if s.len() > 0 && p(s[0]) {
        1 + run_len(s.drop_first(), p)
    } else {
        0
    }
}

/// Length of the longest suffix of `s` whose characters all satisfy `p`.
pub open spec fn tail_run_len(s: Seq<char>, p: spec_fn(char) -> bool) -> nat
    decreases s.len(),
{
    if s.len() > 0 && p(s.last()) {
        1 + tail_run_len(s.drop_last(), p)
    } else {
        0
    }
}

/// A run is a prefix: it stays inside `s`, every character of it satisfies
/// `p`, and the character that follows it, if any, does not.
pub proof fn lemma_run_len_is_run(s: Seq<char>, p: spec_fn(char) -> bool)
    ensures
        run_len(s, p) <= s.len(),
        forall|i: int| 0 <= i < run_len(s, p) ==> p(#[trigger] s[i]),
        run_len(s, p) < s.len() ==> !p(s[run_len(s, p) as int]),
    decreases s.len(),
{
    if s.len() > 0 && p(s[0]) {
        let t = s.drop_first();
        lemma_run_len_is_run(t, p);
        assert forall|i: int| 0 <= i < run_len(s, p) implies p(#[trigger] s[i]) by {
            if i > 0 {
                assert(s[i] == t[i - 1]);
            }
        }
    }
}

/// The run is the only prefix with the properties of `lemma_run_len_is_run`.
pub proof fn lemma_run_len_unique(s: Seq<char>, p: spec_fn(char) -> bool, n: int)
    requires
        0 <= n <= s.len(),
        forall|i: int| 0 <= i < n ==> p(#[trigger] s[i]),
        n < s.len() ==> !p(s[n]),
    ensures
        run_len(s, p) == n,
    decreases s.len(),
{
    if n > 0 {
        let t = s.drop_first();
        lemma_run_len_unique(t, p, n - 1);
    }
}

/// The same for the run at the end of `s`.
pub proof fn lemma_tail_run_len_is_run(s: Seq<char>, p: spec_fn(char) -> bool)
    ensures
        tail_run_len(s, p) <= s.len(),
        forall|i: int| s.len() - tail_run_len(s, p) <= i < s.len() ==> p(#[trigger] s[i]),
        tail_run_len(s, p) < s.len() ==> !p(s[s.len() - tail_run_len(s, p) - 1]),
    decreases s.len(),
{
    if s.len() > 0 && p(s.last()) {
        let t = s.drop_last();
        lemma_tail_run_len_is_run(t, p);
        assert forall|i: int| s.len() - tail_run_len(s, p) <= i < s.len() implies p(
            #[trigger] s[i],
        ) by {
            if i < s.len() - 1 {
                assert(s[i] == t[i]);
            }
        }
    }
}

/// And it is the only suffix with these properties.
pub proof fn lemma_tail_run_len_unique(s: Seq<char>, p: spec_fn(char) -> bool, n: int)
    requires
        0 <= n <= s.len(),
        forall|i: int| s.len() - n <= i < s.len() ==> p(#[trigger] s[i]),
        n < s.len() ==> !p(s[s.len() - n - 1]),
    ensures
        tail_run_len(s, p) == n,
    decreases s.len(),
{
    if n > 0 {
        let t = s.drop_last();
        lemma_tail_run_len_unique(t, p, n - 1);
    }
}

/// White space: the characters that Unicode gives the property `White_Space`.
pub open spec fn is_space(c: char) -> bool {
    let u = c as u32;
    ||| 0x09 <= u <= 0x0D
    ||| u == 0x20
    ||| u == 0x85
    ||| u == 0xA0
    ||| u == 0x1680
    ||| 0x2000 <= u <= 0x200A
    ||| u == 0x2028
    ||| u == 0x2029
    ||| u == 0x202F
    ||| u == 0x205F
    ||| u == 0x3000
}

/// Whether `c` is white space.
pub fn is_whitespace(c: char) -> (b: bool)
    ensures
        b == is_space(c),
{
    let u: u32 = c as u32;
    (0x09 <= u && u <= 0x0D) || u == 0x20 || u == 0x85 || u == 0xA0 || u == 0x1680 || (0x2000 <= u
        && u <= 0x200A) || u == 0x2028 || u == 0x2029 || u == 0x202F || u == 0x205F || u
        == 0x3000
}

/// `s` without the white space at its start.
pub open spec fn trim_start(s: Seq<char>) -> Seq<char> {
    s.skip(run_len(s, |c: char| is_space(c)) as int)
}

/// `s` without the white space at its end.
pub open spec fn trim_end(s: Seq<char>) -> Seq<char> {
    s.take(s.len() - tail_run_len(s, |c: char| is_space(c)))
}

/// `s` without the white space at both ends.
pub open spec fn trim(s: Seq<char>) -> Seq<char> {
    trim_end(trim_start(s))
}

/// A text is trimmed when it neither starts nor ends with white space.
pub open spec fn is_trimmed(s: Seq<char>) -> bool {
    s.len() > 0 ==> !is_space(s[0]) && !is_space(s.last())
}

/// Trimming changes exactly the texts that are not trimmed.
pub proof fn lemma_trim_fixes_trimmed(s: Seq<char>)
    ensures
        is_trimmed(trim(s)),
        is_trimmed(s) <==> trim(s) == s,
{
    let sp = |c: char| is_space(c);
    lemma_run_len_is_run(s, sp);
    let t = trim_start(s);
    lemma_tail_run_len_is_run(t, sp);
    if is_trimmed(s) {
        assert(t == s);
    }
}

/// The bounds of `trim` within a range of `text`.
pub fn trim_bounds(text: &Vec<char>, from: usize, to: usize) -> (r: (usize, usize))
    requires
        from <= to <= text.len(),
    ensures
        from <= r.0 <= r.1 <= to,
        text@.subrange(r.0 as int, r.1 as int) == trim(text@.subrange(from as int, to as int)),
{
    let ghost sp = |c: char| is_space(c);
    let ghost s = text@.subrange(from as int, to as int);
    let mut a: usize = from;
    while a < to && is_whitespace(text[a])
        invariant
            from <= a <= to <= text.len(),
            forall|i: int| from <= i < a ==> is_space(#[trigger] text@[i]),
        decreases to - a,
    {
        a += 1;
    }
    let mut b: usize = to;
    while a < b && is_whitespace(text[b - 1])
        invariant
            a <= b <= to <= text.len(),
            forall|i: int| b <= i < to ==> is_space(#[trigger] text@[i]),
        decreases b - a,
    {
        b -= 1;
    }
    proof {
        lemma_run_len_unique(s, sp, a - from);
        let t = trim_start(s);
        lemma_tail_run_len_unique(t, sp, to - b);
    }
    (a, b)
}

/// Number of characters before the first line feed of `s`, or in all of `s`
/// where it holds none.
pub open spec fn line_len(s: Seq<char>) -> nat {
    run_len(s, |c: char| c != '\n')
}

/// The first line of `s`, without its line feed.
pub open spec fn first_line(s: Seq<char>) -> Seq<char> {
    s.take(line_len(s) as int)
}

/// What follows the first line of `s` and its line feed.
pub open spec fn after_line(s: Seq<char>) -> Seq<char> {
    if line_len(s) < s.len() {
        s.skip(line_len(s) as int + 1)
    } else {
        Seq::empty()
    }
}

/// A text is closed when it is empty or ends with a line feed: text appended
/// to it starts a new line.
pub open spec fn is_closed(s: Seq<char>) -> bool {
    s.len() > 0 ==> s.last() == '\n'
}

/// The index at which the line that starts at `from` ends: that of its line
/// feed, or the length of the text.
pub fn line_end(text: &Vec<char>, from: usize) -> (end: usize)
    requires
        from <= text.len(),
    ensures
        from <= end <= text.len(),
        end - from == line_len(text@.skip(from as int)),
        text@.subrange(from as int, end as int) == first_line(text@.skip(from as int)),
        end < text.len() ==> text@[end as int] == '\n' && after_line(text@.skip(from as int))
            == text@.skip(end + 1),
        end == text.len() ==> after_line(text@.skip(from as int)) == Seq::<char>::empty(),
{
    let mut end: usize = from;
    while end < text.len() && text[end] != '\n'
        invariant
            from <= end <= text.len(),
            forall|i: int| from <= i < end ==> #[trigger] text@[i] != '\n',
        decreases text.len() - end,
    {
        end += 1;
    }
    proof {
        let p = |c: char| c != '\n';
        let s = text@.skip(from as int);
        lemma_run_len_unique(s, p, end - from);
    }
    end
}

/// Whether `pattern` stands at the start of the range `from..to` of `text`.
pub fn starts_with(text: &Vec<char>, from: usize, to: usize, pattern: &Vec<char>) -> (b: bool)
    requires
        from <= to <= text.len(),
    ensures
        b == pattern@.is_prefix_of(text@.subrange(from as int, to as int)),
{
    let ghost s = text@.subrange(from as int, to as int);
    if pattern.len() > to - from {
        return false;
    }
    let mut i: usize = 0;
    while i < pattern.len()
        invariant
            i <= pattern.len() <= to - from,
            from <= to <= text.len(),
            s == text@.subrange(from as int, to as int),
            forall|j: int| 0 <= j < i ==> pattern@[j] == #[trigger] s[j],
        decreases pattern.len() - i,
    {
        if text[from + i] != pattern[i] {
            return false;
        }
        i += 1;
    }
    true
}

/// The decimal digits, `'0'` to `'9'`.
pub open spec fn is_digit(c: char) -> bool {
    0x30 <= c as u32 <= 0x39
}

/// The number that the digit `c` stands for.
pub open spec fn digit_value(c: char) -> nat {
    (c as u32 - 0x30) as nat
}

/// The digit that stands for `d`, a number below ten.
pub open spec fn digit_char(d: nat) -> char {
    ((0x30 + d) as u8) as char
}

/// The number that the digits `s` spell in base ten; the empty text spells 0.
pub open spec fn decimal_value(s: Seq<char>) -> nat
    decreases s.len(),
{
    if s.len() == 0 {
        0
    } else {
        decimal_value(s.drop_last()) * 10 + digit_value(s.last())
    }
}

/// The digits of `n` in base ten, without leading zeros.
pub open spec fn decimal_digits(n: nat) -> Seq<char>
    decreases n,
{
    if n < 10 {
        seq![digit_char(n)]
    } else {
        decimal_digits(n / 10).push(digit_char(n % 10))
    }
}

/// Whether every character of `s` is a digit.
pub open spec fn all_digits(s: Seq<char>) -> bool {
    forall|i: int| 0 <= i < s.len() ==> is_digit(#[trigger] s[i])
}

/// Reading the digits of a number gives the number back.
pub proof fn lemma_decimal_round_trip(n: nat)
    ensures
        decimal_digits(n).len() > 0,
        all_digits(decimal_digits(n)),
        decimal_value(decimal_digits(n)) == n,
    decreases n,
{
    if n < 10 {
        let s = decimal_digits(n);
        assert(decimal_value(s.drop_last()) == 0);
    } else {
        lemma_decimal_round_trip(n / 10);
        let s = decimal_digits(n);
        assert(s.drop_last() == decimal_digits(n / 10));
    }
}

/// A text spells at least what any of its prefixes spells.
pub proof fn lemma_decimal_value_grows(s: Seq<char>, k: int)
    requires
        0 <= k <= s.len(),
    ensures
        decimal_value(s.take(k)) <= decimal_value(s),
    decreases s.len(),
{
    if k < s.len() {
        lemma_decimal_value_grows(s.drop_last(), k);
        assert(s.drop_last().take(k) == s.take(k));
    } else {
        assert(s.take(k) == s);
    }
}

/// The whole seconds that a duration field holds: one or more digits, which
/// may be followed by a point and further digits. The digits after the point
/// are not counted. `None` for any other text, and for a number of seconds
/// above `u64::MAX`.
pub open spec fn seconds_of(t: Seq<char>) -> Option<u64> {
    let run = run_len(t, |c: char| is_digit(c)) as int;
    let whole = t.take(run);
    let rest = t.skip(run);
    if run == 0 {
        None
    } else if rest.len() > 0 && !(rest[0] == '.' && all_digits(rest.skip(1))) {
        None
    } else if decimal_value(whole) > u64::MAX {
        None
    } else {
        Some(decimal_value(whole) as u64)
    }
}

/// Reads the range `from..to` of `text` as a duration in seconds.
pub fn parse_seconds(text: &Vec<char>, from: usize, to: usize) -> (r: Option<u64>)
    requires
        from <= to <= text.len(),
    ensures
        r == seconds_of(text@.subrange(from as int, to as int)),
{
    let ghost t = text@.subrange(from as int, to as int);
    let mut i: usize = from;
    let mut value: u64 = 0;
    while i < to && 0x30 <= text[i] as u32 && text[i] as u32 <= 0x39
        invariant
            from <= i <= to <= text.len(),
            t == text@.subrange(from as int, to as int),
            forall|j: int| 0 <= j < i - from ==> is_digit(#[trigger] t[j]),
            value == decimal_value(t.take(i - from)),
        decreases to - i,
    {
        let d: u64 = (text[i] as u32 - 0x30) as u64;
        proof {
            assert(t.take(i - from + 1).drop_last() == t.take(i - from));
        }
        if value > (u64::MAX - d) / 10 {
            proof {
                let dg = |c: char| is_digit(c);
                let k = i - from + 1;
                let run = run_len(t, dg) as int;
                lemma_run_len_is_run(t, dg);
                lemma_decimal_value_grows(t.take(run), k);
                assert(t.take(run).take(k) == t.take(k));
            }
            return None;
        }
        value = value * 10 + d;
        i += 1;
    }
    proof {
        let dg = |c: char| is_digit(c);
        lemma_run_len_unique(t, dg, i - from);
    }
    if i == from {
        return None;
    }
    if i < to {
        if text[i] != '.' {
            return None;
        }
        let mut j: usize = i + 1;
        while j < to
            invariant
                from <= i < j <= to <= text.len(),
                t == text@.subrange(from as int, to as int),
                run_len(t, |c: char| is_digit(c)) == i - from,
                t[i - from] == '.',
                forall|k: int|
                    0 <= k < j - (i + 1) ==> is_digit(#[trigger] t.skip(i - from).skip(1)[k]),
            decreases to - j,
        {
            let c: u32 = text[j] as u32;
            proof {
                assert(t.skip(i - from).skip(1)[j - (i + 1)] == text@[j as int]);
            }
            if !(0x30 <= c && c <= 0x39) {
                return None;
            }
            j += 1;
        }
    }
    Some(value)
}

/// `std::string::String::push`: the text grows by the one character at its
/// end.
pub assume_specification[ String::push ](s: &mut String, c: char)
    ensures
        final(s)@ == old(s)@.push(c),
;

/// Appends the digits of `n` in base ten to `out`.
pub fn push_decimal(out: &mut String, n: u64)
    ensures
        final(out)@ == old(out)@ + decimal_digits(n as nat),
    decreases n,
{
    if n >= 10 {
        push_decimal(out, n / 10);
    }
    let d: u8 = (n % 10) as u8;
    out.push((0x30u8 + d) as char);
}

/// Appends the characters of the range `from..to` of `text` to `out`.
pub fn push_chars(out: &mut String, text: &Vec<char>, from: usize, to: usize)
    requires
        from <= to <= text.len(),
    ensures
        final(out)@ == old(out)@ + text@.subrange(from as int, to as int),
{
    let mut i: usize = from;
    while i < to
        invariant
            from <= i <= to <= text.len(),
            out@ == old(out)@ + text@.subrange(from as int, i as int),
        decreases to - i,
    {
        out.push(text[i]);
        proof {
            assert(text@.subrange(from as int, i + 1) == text@.subrange(from as int, i as int).push(
                text@[i as int],
            ));
        }
        i += 1;
    }
}

/// The text of the range `from..to` as a string.
pub fn range_to_string(text: &Vec<char>, from: usize, to: usize) -> (s: String)
    requires
        from <= to <= text.len(),
    ensures
        s@ == text@.subrange(from as int, to as int),
{
    let mut s = String::new();
    push_chars(&mut s, text, from, to);
    s
}

/// The characters of `s`, one by one.
pub fn to_chars(s: &str) -> (v: Vec<char>)
    ensures
        v@ == s@,
{
    broadcast use vstd::string::group_string_axioms;

    let mut v: Vec<char> = Vec::new();
    for c in it: s.chars()
        invariant
            it.seq() == s@,
            v@ == s@.take(it.index()),
    {
        v.push(c);
    }
    v
}

/// Number of bytes that `c` takes in UTF-8.
pub open spec fn utf8_width(c: char) -> nat {
    if (c as u32) < 0x80 {
        1
    } else if (c as u32) < 0x800 {
        2
    } else if (c as u32) < 0x10000 {
        3
    } else {
        4
    }
}

/// Number of bytes that the text `s` takes in UTF-8.
pub open spec fn byte_len(s: Seq<char>) -> nat {
    encode_utf8(s).len()
}

/// The bytes of two texts, one after the other, are the bytes of the two
/// as one text.
pub proof fn lemma_byte_len_concat(a: Seq<char>, b: Seq<char>)
    ensures
        encode_utf8(a + b) == encode_utf8(a) + encode_utf8(b),
        byte_len(a + b) == byte_len(a) + byte_len(b),
    decreases a.len(),
{
    if a.len() > 0 {
        lemma_byte_len_concat(a.drop_first(), b);
        assert((a + b).drop_first() == a.drop_first() + b);
        assert(encode_utf8(a + b) == encode_scalar(a[0] as u32) + (encode_utf8(a.drop_first())
            + encode_utf8(b)));
    }
}

/// A character at the end of a text adds its own bytes.
pub proof fn lemma_byte_len_push(s: Seq<char>, c: char)
    ensures
        byte_len(s.push(c)) == byte_len(s) + utf8_width(c),
{
    lemma_byte_len_concat(s, seq![c]);
    assert(s.push(c) == s + seq![c]);
    let one = seq![c];
    assert(encode_utf8(one.drop_first()) == Seq::<u8>::empty());
}

/// The UTF-8 form of a text can be cut after the bytes of any of its
/// prefixes: a character starts there, or the text ends.
pub proof fn lemma_byte_len_is_boundary(a: Seq<char>, b: Seq<char>)
    ensures
        is_char_boundary(encode_utf8(a + b), byte_len(a) as int),
    decreases a.len(),
{
    let chars = a + b;
    let bytes = encode_utf8(chars);
    encode_utf8_valid_utf8(chars);
    if a.len() > 0 {
        let rest = a.drop_first();
        encode_utf8_first_scalar(chars);
        assert(chars.drop_first() == rest + b);
        assert(pop_first_scalar(bytes) =~= encode_utf8(chars.drop_first()));
        lemma_byte_len_is_boundary(rest, b);
    }
}

/// The number of bytes that `c` takes in UTF-8.
pub fn char_width(c: char) -> (w: usize)
    ensures
        w == utf8_width(c),
        1 <= w <= 4,
{
    let code: u32 = c as u32;
    if code < 0x80 {
        1
    } else if code < 0x800 {
        2
    } else if code < 0x10000 {
        3
    } else {
        4
    }
}

} // verus!
