//! Text primitives shared by the plan syntax, the model locator and the
//! server: equality, trimming, splitting, and decimal numbers, each with a
//! meaning over sequences of characters.

use vstd::prelude::*;

verus! {

/// Whether `c` has the Unicode `White_Space` property.
pub open spec fn is_white_space(c: char) -> bool {
    ||| '\u{9}' <= c <= '\u{d}'
    ||| c == ' '
    ||| c == '\u{85}'
    ||| c == '\u{a0}'
    ||| c == '\u{1680}'
    ||| '\u{2000}' <= c <= '\u{200a}'
    ||| c == '\u{2028}'
    ||| c == '\u{2029}'
    ||| c == '\u{202f}'
    ||| c == '\u{205f}'
    ||| c == '\u{3000}'
}

/// The position of the first `c` in `s`, or the length of `s` without one.
pub open spec fn first_index(s: Seq<char>, c: char) -> int
    decreases s.len(),
{
    if s.len() == 0 || s[0] == c {
        0
    } else {
        1 + first_index(s.drop_first(), c)
    }
}

/// What stands before and after the first `c`.
pub open spec fn split_once_at(s: Seq<char>, c: char) -> Option<(Seq<char>, Seq<char>)> {
    if first_index(s, c) < s.len() {
        Some((s.take(first_index(s, c)), s.skip(first_index(s, c) + 1)))
    } else {
        None
    }
}

/// The parts of `s` between all occurrences of `c`.
pub open spec fn split_at_every(s: Seq<char>, c: char) -> Seq<Seq<char>>
    decreases s.len(),
    via split_at_every_decreases
{
    match split_once_at(s, c) {
        None => seq![s],
        Some((head, tail)) => seq![head] + split_at_every(tail, c),
    }
}

#[via_fn]
proof fn split_at_every_decreases(s: Seq<char>, c: char) {
    lemma_first_index(s, c);
}

/// `s` without its leading white space.
pub open spec fn trimmed_start(s: Seq<char>) -> Seq<char>
    decreases s.len(),
{
    if s.len() > 0 && is_white_space(s[0]) {
        trimmed_start(s.drop_first())
    } else {
        s
    }
}

/// `s` without its trailing white space.
pub open spec fn trimmed_end(s: Seq<char>) -> Seq<char>
    decreases s.len(),
{
    if s.len() > 0 && is_white_space(s.last()) {
        trimmed_end(s.drop_last())
    } else {
        s
    }
}

/// `s` without leading and trailing white space.
pub open spec fn trimmed(s: Seq<char>) -> Seq<char> {
    trimmed_end(trimmed_start(s))
}

pub open spec fn is_digit(c: char) -> bool {
    '0' <= c <= '9'
}

pub open spec fn all_digits(s: Seq<char>) -> bool {
    forall|i: int| 0 <= i < s.len() ==> is_digit(#[trigger] s[i])
}

/// The number that the decimal digits of `s` denote.
pub open spec fn digits_value(s: Seq<char>) -> nat
    decreases s.len(),
{
    if s.len() == 0 {
        0
    } else {
        digits_value(s.drop_last()) * 10 + (s.last() as nat - '0' as nat) as nat
    }
}

/// `s` without the one plus sign that may stand before its digits.
pub open spec fn without_plus(s: Seq<char>) -> Seq<char> {
    if s.len() > 1 && s[0] == '+' {
        s.drop_first()
    } else {
        s
    }
}

/// The machine number that `s` denotes: an optional plus sign and at least one
/// decimal digit, with a value that fits.
pub open spec fn parsed_usize(s: Seq<char>) -> Option<usize> {
    let digits = without_plus(s);
    if digits.len() > 0 && all_digits(digits) && digits_value(digits) <= usize::MAX {
        Some(digits_value(digits) as usize)
    } else {
        None
    }
}

pub open spec fn digit_char(n: nat) -> char {
    ('0' as nat + n) as char
}

/// The shortest decimal notation of `n`.
pub open spec fn decimal(n: nat) -> Seq<char>
    decreases n,
{
    if n < 10 {
        seq![digit_char(n)]
    } else {
        decimal(n / 10).push(digit_char(n % 10))
    }
}

/// The parts with `separator` between each two of them.
pub open spec fn joined(parts: Seq<Seq<char>>, separator: Seq<char>) -> Seq<char>
    decreases parts.len(),
{
    if parts.len() == 0 {
        Seq::empty()
    } else if parts.len() == 1 {
        parts[0]
    } else {
        parts[0] + separator + joined(parts.drop_first(), separator)
    }
}

pub proof fn lemma_first_index(s: Seq<char>, c: char)
    ensures
        0 <= first_index(s, c) <= s.len(),
        forall|i: int| 0 <= i < first_index(s, c) ==> s[i] != c,
        first_index(s, c) < s.len() ==> s[first_index(s, c)] == c,
    decreases s.len(),
{
    if s.len() > 0 && s[0] != c {
        let rest = s.drop_first();
        lemma_first_index(rest, c);
        assert forall|i: int| 0 <= i < first_index(s, c) implies s[i] != c by {
            if i > 0 {
                assert(rest[i - 1] == s[i]);
            }
        }
    }
}

/// The first index is the only position with these properties.
pub proof fn lemma_first_index_is(s: Seq<char>, c: char, at: int)
    requires
        0 <= at <= s.len(),
        forall|i: int| 0 <= i < at ==> s[i] != c,
        at < s.len() ==> s[at] == c,
    ensures
        first_index(s, c) == at,
{
    lemma_first_index(s, c);
}

/// A separator that the head does not hold is where the text splits.
pub proof fn lemma_split_once_joined(head: Seq<char>, c: char, tail: Seq<char>)
    requires
        !head.contains(c),
    ensures
        split_once_at(head.push(c) + tail, c) == Some((head, tail)),
{
    let s = head.push(c) + tail;
    assert forall|i: int| 0 <= i < head.len() implies s[i] != c by {
        assert(head.contains(head[i]));
    }
    lemma_first_index_is(s, c, head.len() as int);
    assert(s.take(head.len() as int) =~= head);
    assert(s.skip((head.len() + 1) as int) =~= tail);
}

pub proof fn lemma_split_once_absent(s: Seq<char>, c: char)
    requires
        !s.contains(c),
    ensures
        split_once_at(s, c) is None,
{
    assert forall|i: int| 0 <= i < s.len() implies s[i] != c by {
        assert(s.contains(s[i]));
    }
    lemma_first_index_is(s, c, s.len() as int);
}

/// Splitting undoes joining when no part holds the separator.
pub proof fn lemma_split_joined(parts: Seq<Seq<char>>, c: char)
    requires
        parts.len() > 0,
        forall|i: int| 0 <= i < parts.len() ==> !(#[trigger] parts[i]).contains(c),
    ensures
        split_at_every(joined(parts, seq![c]), c) == parts,
    decreases parts.len(),
{
    let s = joined(parts, seq![c]);
    if parts.len() == 1 {
        lemma_split_once_absent(s, c);
        assert(split_at_every(s, c) =~= parts);
    } else {
        let tail = parts.drop_first();
        assert forall|i: int| 0 <= i < tail.len() implies !(#[trigger] tail[i]).contains(c) by {
            assert(tail[i] == parts[i + 1]);
        }
        lemma_split_joined(tail, c);
        assert(s =~= parts[0].push(c) + joined(tail, seq![c]));
        lemma_split_once_joined(parts[0], c, joined(tail, seq![c]));
        assert(split_at_every(s, c) =~= parts);
    }
}

proof fn lemma_trimmed_start_is(s: Seq<char>, from: int)
    requires
        0 <= from <= s.len(),
        forall|i: int| 0 <= i < from ==> is_white_space(#[trigger] s[i]),
        from < s.len() ==> !is_white_space(s[from]),
    ensures
        trimmed_start(s) == s.skip(from),
    decreases s.len(),
{
    if from == 0 {
        assert(s.skip(0) =~= s);
    } else {
        let rest = s.drop_first();
        assert forall|i: int| 0 <= i < from - 1 implies is_white_space(#[trigger] rest[i]) by {
            assert(rest[i] == s[i + 1]);
        }
        lemma_trimmed_start_is(rest, from - 1);
        assert(rest.skip(from - 1) =~= s.skip(from));
    }
}

proof fn lemma_trimmed_end_is(s: Seq<char>, to: int)
    requires
        0 <= to <= s.len(),
        forall|i: int| to <= i < s.len() ==> is_white_space(#[trigger] s[i]),
        to > 0 ==> !is_white_space(s[to - 1]),
    ensures
        trimmed_end(s) == s.take(to),
    decreases s.len(),
{
    if to == s.len() {
        assert(s.take(to) =~= s);
    } else {
        let rest = s.drop_last();
        lemma_trimmed_end_is(rest, to);
        assert(rest.take(to) =~= s.take(to));
    }
}

/// A text whose ends are not white space is its own trimming.
pub proof fn lemma_trimmed_is_same(s: Seq<char>)
    requires
        s.len() > 0 ==> !is_white_space(s[0]) && !is_white_space(s.last()),
    ensures
        trimmed(s) == s,
{
}

pub proof fn lemma_digit_char(n: nat)
    requires
        n < 10,
    ensures
        is_digit(digit_char(n)),
        digit_char(n) as nat - '0' as nat == n,
{
}

pub proof fn lemma_decimal(n: nat)
    ensures
        decimal(n).len() > 0,
        all_digits(decimal(n)),
        digits_value(decimal(n)) == n,
    decreases n,
{
    if n < 10 {
        lemma_digit_char(n);
        let s = decimal(n);
        assert(s.drop_last() =~= Seq::empty());
        assert(digits_value(s.drop_last()) == 0);
    } else {
        lemma_decimal(n / 10);
        lemma_digit_char(n % 10);
        let s = decimal(n);
        assert(s.drop_last() =~= decimal(n / 10));
    }
}

/// Reading back the notation of a machine number gives that number.
pub proof fn lemma_parsed_decimal(n: usize)
    ensures
        parsed_usize(decimal(n as nat)) == Some(n),
{
    lemma_decimal(n as nat);
    let s = decimal(n as nat);
    assert(is_digit(s[0]));
    assert(s[0] != '+');
}

/// A decimal notation holds nothing but digits.
pub proof fn lemma_decimal_holds_no(n: nat, c: char)
    requires
        !is_digit(c),
    ensures
        !decimal(n).contains(c),
{
    lemma_decimal(n);
    let s = decimal(n);
    if s.contains(c) {
        let i = choose|i: int| 0 <= i < s.len() && s[i] == c;
        assert(is_digit(s[i]));
    }
}

pub fn white_space(c: char) -> (answer: bool)
    ensures
        answer == is_white_space(c),
{
    ('\u{9}' <= c && c <= '\u{d}') || c == ' ' || c == '\u{85}' || c == '\u{a0}' || c == '\u{1680}'
        || ('\u{2000}' <= c && c <= '\u{200a}') || c == '\u{2028}' || c == '\u{2029}' || c
        == '\u{202f}' || c == '\u{205f}' || c == '\u{3000}'
}

/// The characters of `s`, in order.
pub fn chars(s: &str) -> (out: Vec<char>)
    ensures
        out@ == s@,
{
    let mut out: Vec<char> = Vec::new();
    for c in it: s.chars()
        invariant
            out@.len() == it.index(),
            forall|i: int| 0 <= i < out@.len() ==> out@[i] == it.seq()[i],
            it.seq() == s@,
    {
        out.push(c);
    }
    out
}

/// Whether two texts hold the same characters.
pub fn same(a: &str, b: &str) -> (answer: bool)
    ensures
        answer == (a@ == b@),
{
    let left = a.as_bytes();
    let right = b.as_bytes();
    proof {
        vstd::utf8::encode_utf8_decode_utf8(a@);
        vstd::utf8::encode_utf8_decode_utf8(b@);
    }
    if left.len() != right.len() {
        return false;
    }
    let mut i: usize = 0;
    while i < left.len()
        invariant
            i <= left.len(),
            left.len() == right.len(),
            left@ == vstd::utf8::encode_utf8(a@),
            right@ == vstd::utf8::encode_utf8(b@),
            forall|j: int| 0 <= j < i ==> left@[j] == right@[j],
        decreases left.len() - i,
    {
        if left[i] != right[i] {
            return false;
        }
        i += 1;
    }
    assert(left@ =~= right@);
    true
}

/// The position of the first `c` in `list`, or its length without one.
fn find(list: &Vec<char>, c: char) -> (at: usize)
    ensures
        at == first_index(list@, c),
{
    let mut at: usize = 0;
    while at < list.len() && list[at] != c
        invariant
            at <= list.len(),
            forall|i: int| 0 <= i < at ==> list@[i] != c,
        decreases list.len() - at,
    {
        at += 1;
    }
    proof {
        lemma_first_index_is(list@, c, at as int);
    }
    at
}

/// Splits at the first `c`.
pub fn split_once(s: &str, c: char) -> (parts: Option<(&str, &str)>)
    ensures
        match (parts, split_once_at(s@, c)) {
            (None, None) => true,
            (Some((head, tail)), Some((expected_head, expected_tail))) => head@ == expected_head
                && tail@ == expected_tail,
            _ => false,
        },
{
    let list = chars(s);
    let at: usize = find(&list, c);
    proof {
        lemma_first_index(s@, c);
    }
    if at < list.len() {
        let head = s.substring_char(0, at);
        let tail = s.substring_char(at + 1, list.len());
        assert(head@ =~= s@.take(at as int));
        assert(tail@ =~= s@.skip(at + 1));
        Some((head, tail))
    } else {
        None
    }
}

/// The characters that each of a list of texts holds.
pub open spec fn views(list: Seq<&str>) -> Seq<Seq<char>> {
    list.map_values(|part: &str| part@)
}

/// The characters that each of a list of strings holds.
pub open spec fn string_views(list: Seq<String>) -> Seq<Seq<char>> {
    list.map_values(|part: String| part@)
}

/// Splits at every `c`.
pub fn split<'a>(s: &'a str, c: char) -> (parts: Vec<&'a str>)
    ensures
        views(parts@) == split_at_every(s@, c),
{
    let mut parts: Vec<&'a str> = Vec::new();
    let mut rest: &'a str = s;
    loop
        invariant_except_break
            views(parts@) + split_at_every(rest@, c) == split_at_every(s@, c),
        ensures
            views(parts@) == split_at_every(s@, c),
        decreases rest@.len(),
    {
        let ghost before = views(parts@);
        proof {
            lemma_first_index(rest@, c);
        }
        match split_once(rest, c) {
            None => {
                parts.push(rest);
                assert(views(parts@) =~= before + seq![rest@]);
                break;
            },
            Some((head, tail)) => {
                parts.push(head);
                assert(views(parts@) =~= before + seq![head@]);
                assert(before + (seq![head@] + split_at_every(tail@, c)) =~= (before + seq![head@])
                    + split_at_every(tail@, c));
                rest = tail;
            },
        }
    }
    parts
}

/// Removes leading and trailing white space.
pub fn trim(s: &str) -> (out: &str)
    ensures
        out@ == trimmed(s@),
{
    let list = chars(s);
    let mut from: usize = 0;
    while from < list.len() && white_space(list[from])
        invariant
            from <= list.len(),
            forall|i: int| 0 <= i < from ==> is_white_space(#[trigger] list@[i]),
        decreases list.len() - from,
    {
        from += 1;
    }
    let mut to: usize = list.len();
    while to > from && white_space(list[to - 1])
        invariant
            from <= to <= list.len(),
            forall|i: int| to <= i < list.len() ==> is_white_space(#[trigger] list@[i]),
        decreases to,
    {
        to -= 1;
    }
    proof {
        lemma_trimmed_start_is(s@, from as int);
        let kept = s@.skip(from as int);
        assert forall|i: int| to - from <= i < kept.len() implies is_white_space(
            #[trigger] kept[i],
        ) by {
            assert(kept[i] == list@[i + from]);
        }
        lemma_trimmed_end_is(kept, to - from);
        assert(kept.take(to - from) =~= s@.subrange(from as int, to as int));
    }
    s.substring_char(from, to)
}

/// Reads a decimal machine number.
pub fn parse_usize(s: &str) -> (number: Option<usize>)
    ensures
        number == parsed_usize(s@),
{
    let list = chars(s);
    let start: usize = if list.len() > 1 && list[0] == '+' {
        1
    } else {
        0
    };
    let ghost digits = without_plus(s@);
    assert(digits =~= s@.skip(start as int));
    if list.len() == start {
        return None;
    }
    let mut value: usize = 0;
    let mut i: usize = start;
    while i < list.len()
        invariant
            start <= i <= list.len(),
            list@ == s@,
            digits == s@.skip(start as int),
            digits == without_plus(s@),
            forall|j: int| 0 <= j < i - start ==> is_digit(#[trigger] digits[j]),
            value == digits_value(digits.take(i - start)),
        decreases list.len() - i,
    {
        let c = list[i];
        assert(digits[i - start] == c);
        if c < '0' || c > '9' {
            return None;
        }
        let ghost shown = digits.take(i - start + 1);
        let digit: usize = (c as u32 - '0' as u32) as usize;
        assert(shown.drop_last() =~= digits.take(i - start));
        assert(digits_value(shown) == value * 10 + digit);
        proof {
            lemma_digits_value_grows(digits, i - start + 1);
        }
        if value > (usize::MAX - digit) / 10 {
            proof {
                if all_digits(digits) {
                    assert(digits_value(digits) > usize::MAX);
                }
            }
            return None;
        }
        value = value * 10 + digit;
        i += 1;
    }
    assert(digits.take(list.len() - start) =~= digits);
    Some(value)
}

proof fn lemma_digits_value_grows(s: Seq<char>, count: int)
    requires
        0 <= count <= s.len(),
    ensures
        digits_value(s.take(count)) <= digits_value(s),
    decreases s.len(),
{
    if count == s.len() {
        assert(s.take(count) =~= s);
    } else {
        lemma_digits_value_grows(s.drop_last(), count);
        assert(s.drop_last().take(count) =~= s.take(count));
    }
}

fn digit_text(digit: usize) -> (out: &'static str)
    requires
        digit < 10,
    ensures
        out@ == seq![digit_char(digit as nat)],
{
    proof {
        reveal_strlit("0");
        reveal_strlit("1");
        reveal_strlit("2");
        reveal_strlit("3");
        reveal_strlit("4");
        reveal_strlit("5");
        reveal_strlit("6");
        reveal_strlit("7");
        reveal_strlit("8");
        reveal_strlit("9");
    }
    match digit {
        0 => "0",
        1 => "1",
        2 => "2",
        3 => "3",
        4 => "4",
        5 => "5",
        6 => "6",
        7 => "7",
        8 => "8",
        _ => "9",
    }
}

/// The shortest decimal notation of a machine number.
pub fn format_usize(n: usize) -> (out: String)
    ensures
        out@ == decimal(n as nat),
    decreases n,
{
    if n < 10 {
        digit_text(n).to_owned()
    } else {
        let mut out = format_usize(n / 10);
        out.append(digit_text(n % 10));
        assert(out@ =~= decimal(n as nat));
        out
    }
}

/// The shortest decimal notation of a number of 64 bits.
pub fn format_u64(n: u64) -> (out: String)
    ensures
        out@ == decimal(n as nat),
    decreases n,
{
    if n < 10 {
        digit_text(n as usize).to_owned()
    } else {
        let mut out = format_u64(n / 10);
        out.append(digit_text((n % 10) as usize));
        assert(out@ =~= decimal(n as nat));
        out
    }
}

/// The texts with `separator` between each two of them.
pub fn join(parts: &Vec<String>, separator: &str) -> (out: String)
    ensures
        out@ == joined(string_views(parts@), separator@),
{
    let ghost all = string_views(parts@);
    if parts.len() == 0 {
        return String::new();
    }
    let mut i: usize = parts.len() - 1;
    let mut out: String = parts[i].clone();
    assert(all.skip(i as int) =~= seq![all[i as int]]);
    while i > 0
        invariant
            i < parts.len(),
            all == string_views(parts@),
            out@ == joined(all.skip(i as int), separator@),
        decreases i,
    {
        i -= 1;
        let mut longer = parts[i].clone();
        longer.append(separator);
        longer.append(out.as_str());
        assert(all.skip(i as int).drop_first() =~= all.skip(i + 1));
        out = longer;
    }
    assert(all.skip(0) =~= all);
    out
}

/// Lexicographic order by code points.
pub open spec fn comes_first(a: Seq<char>, b: Seq<char>) -> bool
    decreases a.len(),
{
    if b.len() == 0 {
        false
    } else if a.len() == 0 {
        true
    } else if a[0] != b[0] {
        a[0] < b[0]
    } else {
        comes_first(a.drop_first(), b.drop_first())
    }
}

pub proof fn lemma_order_is_irreflexive(a: Seq<char>)
    ensures
        !comes_first(a, a),
    decreases a.len(),
{
    if a.len() > 0 {
        lemma_order_is_irreflexive(a.drop_first());
    }
}

pub proof fn lemma_order_is_transitive(a: Seq<char>, b: Seq<char>, c: Seq<char>)
    requires
        comes_first(a, b),
        comes_first(b, c),
    ensures
        comes_first(a, c),
    decreases a.len(),
{
    if a.len() > 0 && a[0] == b[0] && b[0] == c[0] {
        lemma_order_is_transitive(a.drop_first(), b.drop_first(), c.drop_first());
    }
}

pub proof fn lemma_order_is_total(a: Seq<char>, b: Seq<char>)
    ensures
        comes_first(a, b) || comes_first(b, a) || a == b,
    decreases a.len(),
{
    if a.len() == 0 && b.len() == 0 {
        assert(a =~= b);
    } else if a.len() > 0 && b.len() > 0 && a[0] == b[0] {
        lemma_order_is_total(a.drop_first(), b.drop_first());
        if a.drop_first() == b.drop_first() {
            assert(a =~= seq![a[0]] + a.drop_first());
            assert(b =~= seq![b[0]] + b.drop_first());
        }
    }
}

/// Whether `a` comes before `b` in the order by code points.
pub fn precedes(a: &str, b: &str) -> (answer: bool)
    ensures
        answer == comes_first(a@, b@),
{
    let left = chars(a);
    let right = chars(b);
    let mut i: usize = 0;
    assert(left@.skip(0) =~= a@);
    assert(right@.skip(0) =~= b@);
    while i < left.len() && i < right.len() && left[i] == right[i]
        invariant
            i <= left@.len(),
            i <= right@.len(),
            comes_first(a@, b@) == comes_first(left@.skip(i as int), right@.skip(i as int)),
        decreases left.len() - i,
    {
        assert(left@.skip(i as int).drop_first() =~= left@.skip(i + 1));
        assert(right@.skip(i as int).drop_first() =~= right@.skip(i + 1));
        i += 1;
    }
    if i == right.len() {
        false
    } else if i == left.len() {
        true
    } else {
        left[i] < right[i]
    }
}

/// Whether `s` begins with `prefix`.
pub open spec fn starts_with(s: Seq<char>, prefix: Seq<char>) -> bool {
    s.len() >= prefix.len() && s.take(prefix.len() as int) == prefix
}

/// What follows a prefix.
pub fn strip_prefix<'a>(s: &'a str, prefix: &str) -> (rest: Option<&'a str>)
    ensures
        match rest {
            Some(rest) => starts_with(s@, prefix@) && rest@ == s@.skip(prefix@.len() as int),
            None => !starts_with(s@, prefix@),
        },
{
    let n: usize = chars(prefix).len();
    let m: usize = chars(s).len();
    if m < n {
        return None;
    }
    let head = s.substring_char(0, n);
    assert(head@ =~= s@.take(n as int));
    if same(head, prefix) {
        let tail = s.substring_char(n, m);
        assert(tail@ =~= s@.skip(n as int));
        Some(tail)
    } else {
        None
    }
}

/// The parts between all occurrences of a character, with that character between each
/// two of them, are the text again, and none of them holds it.
pub proof fn parts_join_to_the_text(s: Seq<char>, c: char)
    ensures
        split_at_every(s, c).len() > 0,
        joined(split_at_every(s, c), seq![c]) == s,
        forall|i: int|
            0 <= i < split_at_every(s, c).len() ==> !(#[trigger] split_at_every(s, c)[i]).contains(
                c,
            ),
    decreases s.len(),
{
    lemma_first_index(s, c);
    let at = first_index(s, c);
    let parts = split_at_every(s, c);
    match split_once_at(s, c) {
        None => {
            assert(parts =~= seq![s]);
            assert forall|i: int| 0 <= i < s.len() implies s[i] != c by {}
        },
        Some((head, tail)) => {
            parts_join_to_the_text(tail, c);
            let rest = split_at_every(tail, c);
            assert(parts =~= seq![head] + rest);
            assert(parts.drop_first() =~= rest);
            assert(joined(parts, seq![c]) == head + seq![c] + joined(rest, seq![c]));
            assert(head + seq![c] + tail =~= s);
            assert forall|i: int| 0 <= i < parts.len() implies !(#[trigger] parts[i]).contains(
                c,
            ) by {
                if i > 0 {
                    assert(parts[i] == rest[i - 1]);
                } else {
                    assert forall|j: int| 0 <= j < head.len() implies head[j] != c by {
                        assert(head[j] == s[j]);
                    }
                }
            }
        },
    }
}

/// What is trimmed from a text is white space, all that stood at its ends: what is left
/// begins and ends with something else, unless nothing is left.
pub proof fn only_white_space_is_trimmed(s: Seq<char>)
    ensures
        exists|from: int, to: int|
            #![trigger s.subrange(from, to)]
            0 <= from <= to <= s.len() && trimmed(s) == s.subrange(from, to) && (forall|i: int|
                (0 <= i < from || to <= i < s.len()) ==> is_white_space(#[trigger] s[i])),
        trimmed(s).len() > 0 ==> !is_white_space(trimmed(s)[0]) && !is_white_space(
            trimmed(s).last(),
        ),
        trimmed(trimmed(s)) == trimmed(s),
{
    let from = lemma_start_trimmed(s);
    let begun = trimmed_start(s);
    let to = lemma_end_trimmed(begun);
    assert(trimmed(s) =~= s.subrange(from, from + to));
    assert forall|i: int| (0 <= i < from || from + to <= i < s.len()) implies is_white_space(
        #[trigger] s[i],
    ) by {
        if i >= from + to {
            assert(begun[i - from] == s[i]);
        }
    }
    if trimmed(s).len() > 0 {
        assert(trimmed(s)[0] == begun[0]);
        lemma_trimmed_is_same(trimmed(s));
    } else {
        assert(trimmed(trimmed(s)) =~= trimmed(s));
    }
}

proof fn lemma_start_trimmed(s: Seq<char>) -> (from: int)
    ensures
        0 <= from <= s.len(),
        trimmed_start(s) == s.skip(from),
        forall|i: int| 0 <= i < from ==> is_white_space(#[trigger] s[i]),
        trimmed_start(s).len() > 0 ==> !is_white_space(trimmed_start(s)[0]),
    decreases s.len(),
{
    if s.len() > 0 && is_white_space(s[0]) {
        let rest = s.drop_first();
        let from = lemma_start_trimmed(rest);
        assert(rest.skip(from) =~= s.skip(from + 1));
        assert forall|i: int| 0 <= i < from + 1 implies is_white_space(#[trigger] s[i]) by {
            if i > 0 {
                assert(rest[i - 1] == s[i]);
            }
        }
        from + 1
    } else {
        assert(s.skip(0) =~= s);
        0
    }
}

proof fn lemma_end_trimmed(s: Seq<char>) -> (to: int)
    ensures
        0 <= to <= s.len(),
        trimmed_end(s) == s.take(to),
        forall|i: int| to <= i < s.len() ==> is_white_space(#[trigger] s[i]),
        trimmed_end(s).len() > 0 ==> !is_white_space(trimmed_end(s).last()),
    decreases s.len(),
{
    if s.len() > 0 && is_white_space(s.last()) {
        let rest = s.drop_last();
        let to = lemma_end_trimmed(rest);
        assert(rest.take(to) =~= s.take(to));
        assert forall|i: int| to <= i < s.len() implies is_white_space(#[trigger] s[i]) by {
            if i < rest.len() {
                assert(rest[i] == s[i]);
            }
        }
        to
    } else {
        assert(s.take(s.len() as int) =~= s);
        s.len() as int
    }
}

/// A text comes before another where, behind what they share, it has the smaller
/// character or nothing more.
pub proof fn the_first_difference_orders_texts(a: Seq<char>, b: Seq<char>, shared: int)
    requires
        0 <= shared <= a.len(),
        shared <= b.len(),
        a.take(shared) == b.take(shared),
        shared < a.len() && shared < b.len() ==> a[shared] != b[shared],
    ensures
        comes_first(a, b) <==> shared < b.len() && (shared == a.len() || a[shared] < b[shared]),
    decreases a.len(),
{
    if shared > 0 {
        let x = a.drop_first();
        let y = b.drop_first();
        assert(a[0] == a.take(shared)[0]);
        assert(b[0] == b.take(shared)[0]);
        assert(x.take(shared - 1) =~= a.take(shared).drop_first());
        assert(y.take(shared - 1) =~= b.take(shared).drop_first());
        the_first_difference_orders_texts(x, y, shared - 1);
    }
}

} // verus!
