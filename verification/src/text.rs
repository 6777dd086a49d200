//! Text helpers: searching, trimming, ordering and decimal numbers.
use vstd::prelude::*;

verus! {

/// The texts that a list of strings holds.
pub open spec fn texts(strings: Seq<String>) -> Seq<Seq<char>> {
    strings.map_values(|s: String| s@)
}

/// The characters of `s`, in order.
pub fn chars_of(s: &str) -> (chars: Vec<char>)
    ensures
        chars@ == s@,
{
    let mut chars: Vec<char> = Vec::new();
    for c in it: s.chars()
        invariant
            it.seq() == s@,
            chars@ == s@.take(it.index() as int),
    {
        chars.push(c);
    }
    chars
}

/// Whether two texts hold the same characters.
pub fn same_text(a: &str, b: &str) -> (same: bool)
    ensures
        same == (a@ == b@),
{
    a.to_owned() == b.to_owned()
}

/// The ending of a noun that stands behind the number `count`.
pub fn s(count: usize) -> (ending: &'static str)
    ensures
        ending@ == if count != 1 {
            "s"@
        } else {
            ""@
        },
{
    if count != 1 {
        "s"
    } else {
        ""
    }
}

// ---------------------------------------------------------------------------
// Counting
// ---------------------------------------------------------------------------

/// Being the character `c`.
pub open spec fn same_as(c: char) -> spec_fn(char) -> bool {
    |other: char| other == c
}

/// How often the character stands in the text.
pub open spec fn occurrences(text: Seq<char>, c: char) -> nat {
    text.filter(same_as(c)).len()
}

/// Counts how often the character stands in the text.
pub fn count(text: &Vec<char>, c: char) -> (n: usize)
    ensures
        n == occurrences(text@, c),
{
    let mut n: usize = 0;
    let mut i: usize = 0;
    assert(occurrences(text@.take(0), c) == 0) by {
        reveal(Seq::filter);
    }
    while i < text.len()
        invariant
            i <= text@.len(),
            n <= i,
            n == occurrences(text@.take(i as int), c),
        decreases text@.len() - i,
    {
        proof {
            let done = text@.take(i as int);
            let next = text@[i as int];
            assert(text@.take(i + 1) =~= done.push(next));
            done.lemma_filter_push(next, same_as(c));
        }
        if text[i] == c {
            n += 1;
        }
        i += 1;
    }
    assert(text@.take(i as int) =~= text@);
    n
}

// ---------------------------------------------------------------------------
// Searching
// ---------------------------------------------------------------------------

/// `pattern` stands in `text` at position `at`.
pub open spec fn occurs_at(text: Seq<char>, pattern: Seq<char>, at: int) -> bool {
    &&& 0 <= at
    &&& at + pattern.len() <= text.len()
    &&& text.subrange(at, at + pattern.len()) == pattern
}

/// The first position, counted from `from`, at which `pattern` stands in `text`.
pub open spec fn first_occurrence_from(text: Seq<char>, pattern: Seq<char>, from: int) -> Option<int>
    decreases text.len() + 1 - from,
{
    if from + pattern.len() > text.len() {
        None
    } else if occurs_at(text, pattern, from) {
        Some(from)
    } else {
        first_occurrence_from(text, pattern, from + 1)
    }
}

/// The first position at which `pattern` stands in `text`.
pub open spec fn first_occurrence(text: Seq<char>, pattern: Seq<char>) -> Option<int> {
    first_occurrence_from(text, pattern, 0)
}

/// What [`first_occurrence_from`] finds is the least position at which the pattern
/// stands, and it finds one whenever there is one.
pub proof fn lemma_first_occurrence_from(text: Seq<char>, pattern: Seq<char>, from: int)
    requires
        0 <= from,
    ensures
        match first_occurrence_from(text, pattern, from) {
            Some(at) => {
                &&& from <= at
                &&& occurs_at(text, pattern, at)
                &&& forall|i: int| from <= i < at ==> !occurs_at(text, pattern, i)
            },
            None => forall|i: int| from <= i ==> !occurs_at(text, pattern, i),
        },
    decreases text.len() + 1 - from,
{
    if from + pattern.len() <= text.len() && !occurs_at(text, pattern, from) {
        lemma_first_occurrence_from(text, pattern, from + 1);
    }
}

/// A position at which the pattern stands, with no earlier one, is the first occurrence.
pub proof fn lemma_first_occurrence_is(text: Seq<char>, pattern: Seq<char>, at: int)
    requires
        occurs_at(text, pattern, at),
        forall|i: int| 0 <= i < at ==> !occurs_at(text, pattern, i),
    ensures
        first_occurrence(text, pattern) == Some(at),
{
    lemma_first_occurrence_from(text, pattern, 0);
}

fn stands_at(text: &Vec<char>, pattern: &Vec<char>, at: usize) -> (stands: bool)
    requires
        at + pattern@.len() <= text@.len(),
    ensures
        stands == occurs_at(text@, pattern@, at as int),
{
    let mut i: usize = 0;
    while i < pattern.len()
        invariant
            at + pattern@.len() <= text@.len(),
            i <= pattern@.len(),
            forall|k: int| 0 <= k < i ==> text@[at + k] == pattern@[k],
        decreases pattern@.len() - i,
    {
        assert(at + i < text.len());
        if text[at + i] != pattern[i] {
            assert(text@.subrange(at as int, at + pattern@.len())[i as int] != pattern@[i as int]);
            return false;
        }
        i += 1;
    }
    assert(text@.subrange(at as int, at + pattern@.len()) =~= pattern@);
    true
}

/// Finds the first position at which `pattern` stands in `text`.
pub fn find(text: &Vec<char>, pattern: &Vec<char>) -> (found: Option<usize>)
    ensures
        match found {
            Some(at) => first_occurrence(text@, pattern@) == Some(at as int),
            None => first_occurrence(text@, pattern@) is None,
        },
{
    let mut at: usize = 0;
    while pattern.len() <= text.len() && at <= text.len() - pattern.len()
        invariant
            first_occurrence(text@, pattern@) == first_occurrence_from(text@, pattern@, at as int),
            pattern@.len() <= text@.len() ==> at <= text@.len() - pattern@.len() + 1,
        decreases text@.len() + 1 - at,
    {
        if stands_at(text, pattern, at) {
            return Some(at);
        }
        if at == text.len() - pattern.len() {
            assert(first_occurrence_from(text@, pattern@, at + 1) is None);
            return None;
        }
        at += 1;
    }
    None
}

// ---------------------------------------------------------------------------
// Trimming
// ---------------------------------------------------------------------------

/// The characters with the Unicode property `White_Space`.
pub open spec fn white_space(c: char) -> bool {
    ||| '\u{9}' <= c <= '\u{d}'
    ||| c == ' '
    ||| c == '\u{85}'
    ||| c == '\u{a0}'
    ||| c == '\u{1680}'
    ||| '\u{2000}' <= c <= '\u{200a}'
    ||| c == '\u{2028}'
    ||| c == '\u{2029}'
    ||| c == '\u{202f}'
    ||| c == '\u{205f}'
    ||| c == '\u{3000}'
}

/// Whether `c` has the Unicode property `White_Space`.
pub fn is_white_space(c: char) -> (white: bool)
    ensures
        white == white_space(c),
{
    ('\u{9}' <= c && c <= '\u{d}') || c == ' ' || c == '\u{85}' || c == '\u{a0}' || c == '\u{1680}'
        || ('\u{2000}' <= c && c <= '\u{200a}') || c == '\u{2028}' || c == '\u{2029}' || c
        == '\u{202f}' || c == '\u{205f}' || c == '\u{3000}'
}

/// `text` without the white space it starts with.
pub open spec fn trimmed_start(text: Seq<char>) -> Seq<char>
    decreases text.len(),
{
    if text.len() > 0 && white_space(text[0]) {
        trimmed_start(text.drop_first())
    } else {
        text
    }
}

/// `text` without the white space it ends with.
pub open spec fn trimmed_end(text: Seq<char>) -> Seq<char>
    decreases text.len(),
{
    if text.len() > 0 && white_space(text.last()) {
        trimmed_end(text.drop_last())
    } else {
        text
    }
}

/// `text` without the white space at its two ends.
pub open spec fn trimmed(text: Seq<char>) -> Seq<char> {
    trimmed_end(trimmed_start(text))
}

/// White space in front makes no difference.
proof fn lemma_trimmed_start_front(c: char, text: Seq<char>)
    requires
        white_space(c),
    ensures
        trimmed_start(seq![c] + text) == trimmed_start(text),
{
    assert((seq![c] + text).drop_first() =~= text);
}

/// White space behind makes no difference.
proof fn lemma_trimmed_end_behind(text: Seq<char>, c: char)
    requires
        white_space(c),
    ensures
        trimmed_end(text.push(c)) == trimmed_end(text),
{
    assert(text.push(c).drop_last() =~= text);
}

/// White space behind stays behind when the front is trimmed, unless nothing else is there.
proof fn lemma_trimmed_start_behind(text: Seq<char>, c: char)
    requires
        white_space(c),
    ensures
        trimmed_start(text).len() > 0 ==> trimmed_start(text.push(c)) == trimmed_start(text).push(
            c,
        ),
        trimmed_start(text).len() == 0 ==> trimmed_start(text.push(c)).len() == 0,
    decreases text.len(),
{
    if text.len() == 0 {
        assert(text.push(c).drop_first() =~= Seq::<char>::empty());
        assert(trimmed_start(text.push(c).drop_first()).len() == 0);
    } else if white_space(text[0]) {
        lemma_trimmed_start_behind(text.drop_first(), c);
        assert(text.push(c).drop_first() =~= text.drop_first().push(c));
    }
}

/// White space in front of a text makes no difference to what trimming leaves of it.
pub proof fn lemma_trimmed_after(before: char, text: Seq<char>)
    requires
        white_space(before),
    ensures
        trimmed(seq![before] + text) == trimmed(text),
{
    lemma_trimmed_start_front(before, text);
}

/// White space around a text makes no difference to what trimming leaves of it.
pub proof fn lemma_trimmed_between(before: char, text: Seq<char>, behind: char)
    requires
        white_space(before),
        white_space(behind),
    ensures
        trimmed((seq![before] + text).push(behind)) == trimmed(text),
{
    assert((seq![before] + text).push(behind) =~= seq![before] + text.push(behind));
    lemma_trimmed_start_front(before, text.push(behind));
    lemma_trimmed_start_behind(text, behind);
    if trimmed_start(text).len() > 0 {
        lemma_trimmed_end_behind(trimmed_start(text), behind);
    } else {
        assert(trimmed_start(text) =~= trimmed_start(text.push(behind)));
    }
}

/// The bounds of what is left of `text[from..to]` once the white space at its two ends is
/// dropped.
pub fn trim_range(text: &Vec<char>, from: usize, to: usize) -> (range: (usize, usize))
    requires
        from <= to <= text@.len(),
    ensures
        from <= range.0 <= range.1 <= to,
        text@.subrange(range.0 as int, range.1 as int) == trimmed(
            text@.subrange(from as int, to as int),
        ),
{
    let mut start: usize = from;
    while start < to && is_white_space(text[start])
        invariant
            from <= start <= to <= text@.len(),
            trimmed_start(text@.subrange(from as int, to as int)) == trimmed_start(
                text@.subrange(start as int, to as int),
            ),
        decreases to - start,
    {
        assert(text@.subrange(start as int, to as int).drop_first() =~= text@.subrange(
            start + 1,
            to as int,
        ));
        start += 1;
    }
    let mut end: usize = to;
    while start < end && is_white_space(text[end - 1])
        invariant
            start <= end <= to <= text@.len(),
            trimmed_end(text@.subrange(start as int, to as int)) == trimmed_end(
                text@.subrange(start as int, end as int),
            ),
        decreases end - start,
    {
        assert(text@.subrange(start as int, end as int).drop_last() =~= text@.subrange(
            start as int,
            end - 1,
        ));
        end -= 1;
    }
    (start, end)
}

// ---------------------------------------------------------------------------
// Order
// ---------------------------------------------------------------------------

/// `a` stands before `b` in the order of texts: character by character, by code point, a
/// proper prefix first.
pub open spec fn precedes(a: Seq<char>, b: Seq<char>) -> bool
    decreases a.len(),
{
    if b.len() == 0 {
        false
    } else if a.len() == 0 {
        true
    } else if a[0] != b[0] {
        a[0] < b[0]
    } else {
        precedes(a.drop_first(), b.drop_first())
    }
}

/// The order of texts is transitive.
pub proof fn lemma_precedes_transitive(a: Seq<char>, b: Seq<char>, c: Seq<char>)
    requires
        precedes(a, b),
        precedes(b, c),
    ensures
        precedes(a, c),
    decreases a.len(),
{
    if a.len() > 0 && a[0] == b[0] && b[0] == c[0] {
        lemma_precedes_transitive(a.drop_first(), b.drop_first(), c.drop_first());
    }
}

/// No text stands before itself.
pub proof fn lemma_precedes_irreflexive(a: Seq<char>)
    ensures
        !precedes(a, a),
    decreases a.len(),
{
    if a.len() > 0 {
        lemma_precedes_irreflexive(a.drop_first());
    }
}

/// Of two different texts one stands before the other.
pub proof fn lemma_precedes_total(a: Seq<char>, b: Seq<char>)
    ensures
        precedes(a, b) || precedes(b, a) || a == b,
    decreases a.len(),
{
    if a.len() > 0 && b.len() > 0 && a[0] == b[0] {
        lemma_precedes_total(a.drop_first(), b.drop_first());
        assert(a =~= seq![a[0]] + a.drop_first());
        assert(b =~= seq![b[0]] + b.drop_first());
    } else if a.len() == 0 && b.len() == 0 {
        assert(a =~= b);
    }
}

/// Whether `a` stands before `b` in the order of texts.
pub fn text_precedes(a: &str, b: &str) -> (before: bool)
    ensures
        before == precedes(a@, b@),
{
    let x = chars_of(a);
    let y = chars_of(b);
    let mut i: usize = 0;
    assert(x@.skip(0) =~= x@);
    assert(y@.skip(0) =~= y@);
    while i < x.len() && i < y.len()
        invariant
            i <= x@.len(),
            i <= y@.len(),
            precedes(a@, b@) == precedes(x@.skip(i as int), y@.skip(i as int)),
        decreases x@.len() - i,
    {
        let c: char = x[i];
        let d: char = y[i];
        if c != d {
            assert(x@.skip(i as int)[0] == c);
            assert(y@.skip(i as int)[0] == d);
            return c < d;
        }
        assert(x@.skip(i as int).drop_first() =~= x@.skip(i + 1));
        assert(y@.skip(i as int).drop_first() =~= y@.skip(i + 1));
        i += 1;
    }
    i < y.len()
}

// ---------------------------------------------------------------------------
// Decimal numbers
// ---------------------------------------------------------------------------

/// The decimal digit of `d`.
pub open spec fn digit(d: int) -> char {
    (48 + d) as char
}

/// `n` in decimal, without leading zeros.
pub open spec fn decimal(n: nat) -> Seq<char>
    decreases n,
{
    if n < 10 {
        seq![digit(n as int)]
    } else {
        decimal(n / 10).push(digit((n % 10) as int))
    }
}

fn digit_text(d: u64) -> (text: &'static str)
    requires
        d < 10,
    ensures
        text@ == seq![digit(d as int)],
{
    proof {
        reveal_strlit("0");
        reveal_strlit("1");
        reveal_strlit("2");
        reveal_strlit("3");
        reveal_strlit("4");
        reveal_strlit("5");
        reveal_strlit("6");
        reveal_strlit("7");
        reveal_strlit("8");
        reveal_strlit("9");
    }
    let text = match d {
        0 => "0",
        1 => "1",
        2 => "2",
        3 => "3",
        4 => "4",
        5 => "5",
        6 => "6",
        7 => "7",
        8 => "8",
        _ => "9",
    };
    assert(text@ =~= seq![digit(d as int)]);
    text
}

/// Writes `n` in decimal.
pub fn decimal_text(n: u64) -> (text: String)
    ensures
        text@ == decimal(n as nat),
    decreases n,
{
    if n < 10 {
        digit_text(n).to_owned()
    } else {
        let mut text = decimal_text(n / 10);
        text.append(digit_text(n % 10));
        assert(text@ =~= decimal((n / 10) as nat).push(digit((n % 10) as int)));
        text
    }
}

/// `c` is one of the ten decimal digits.
pub open spec fn is_digit(c: char) -> bool {
    '0' <= c <= '9'
}

/// `text` is a run of decimal digits.
pub open spec fn is_number(text: Seq<char>) -> bool {
    &&& text.len() > 0
    &&& forall|i: int| 0 <= i < text.len() ==> is_digit(#[trigger] text[i])
}

/// The number that a run of digits stands for.
pub open spec fn number_of(text: Seq<char>) -> int
    decreases text.len(),
{
    if text.len() == 0 {
        0
    } else {
        10 * number_of(text.drop_last()) + (text.last() as int - 48)
    }
}

/// `text` without a leading plus sign.
pub open spec fn unsigned_part(text: Seq<char>) -> Seq<char> {
    if text.len() > 0 && text[0] == '+' {
        text.drop_first()
    } else {
        text
    }
}

/// The 64-bit number that `text` writes in decimal: an optional plus sign and at least one
/// digit, nothing else, within the range of the type.
pub open spec fn parsed_u64(text: Seq<char>) -> Option<u64> {
    let digits = unsigned_part(text);
    if is_number(digits) && number_of(digits) <= u64::MAX {
        Some(number_of(digits) as u64)
    } else {
        None
    }
}

/// More digits never make a number smaller.
proof fn lemma_number_of_prefix(text: Seq<char>, n: int)
    requires
        is_number(text),
        0 <= n <= text.len(),
    ensures
        0 <= number_of(text.take(n)) <= number_of(text),
    decreases text.len() - n, n,
{
    if n == text.len() {
        assert(text.take(n) =~= text);
        if n > 0 {
            lemma_number_of_nonnegative(text);
        }
    } else {
        lemma_number_of_prefix(text, n + 1);
        lemma_number_of_nonnegative(text.take(n));
        assert(text.take(n + 1).drop_last() =~= text.take(n));
        assert(is_digit(text[n]));
    }
}

proof fn lemma_number_of_nonnegative(text: Seq<char>)
    requires
        forall|i: int| 0 <= i < text.len() ==> is_digit(#[trigger] text[i]),
    ensures
        0 <= number_of(text),
    decreases text.len(),
{
    if text.len() > 0 {
        lemma_number_of_nonnegative(text.drop_last());
        assert(is_digit(text[text.len() - 1]));
    }
}

/// Reads a 64-bit number written in decimal.
pub fn parse_u64(text: &str) -> (number: Option<u64>)
    ensures
        number == parsed_u64(text@),
{
    let chars = chars_of(text);
    let from: usize = if chars.len() > 0 && chars[0] == '+' {
        1
    } else {
        0
    };
    let ghost digits = unsigned_part(text@);
    assert(digits =~= chars@.skip(from as int));
    if from == chars.len() {
        return None;
    }
    let mut value: u64 = 0;
    let mut i: usize = from;
    assert(digits.take(0) =~= Seq::<char>::empty());
    while i < chars.len()
        invariant
            from <= i <= chars@.len(),
            digits == unsigned_part(text@),
            digits == chars@.skip(from as int),
            digits.len() > 0,
            forall|k: int| 0 <= k < i - from ==> is_digit(#[trigger] digits[k]),
            value == number_of(digits.take(i - from)),
        decreases chars@.len() - i,
    {
        let c = chars[i];
        assert(c == digits[i - from]);
        if c < '0' || c > '9' {
            return None;
        }
        let d: u64 = c as u64 - 48;
        assert(digits.take(i + 1 - from).drop_last() =~= digits.take(i - from));
        if value > (u64::MAX - d) / 10 {
            proof {
                if is_number(digits) {
                    lemma_number_of_prefix(digits, i + 1 - from);
                }
            }
            return None;
        }
        value = value * 10 + d;
        i += 1;
    }
    assert(digits.take(i - from) =~= digits);
    Some(value)
}

/// A number written in decimal reads back as itself.
pub proof fn decimal_reads_back(n: u64)
    ensures
        parsed_u64(decimal(n as nat)) == Some(n),
{
    lemma_decimal_is_number(n as nat);
    let text = decimal(n as nat);
    assert(is_digit(text[0]));
}

proof fn lemma_decimal_is_number(n: nat)
    ensures
        is_number(decimal(n)),
        number_of(decimal(n)) == n,
    decreases n,
{
    let text = decimal(n);
    if n < 10 {
        assert(text.drop_last() =~= Seq::<char>::empty());
        assert(number_of(text.drop_last()) == 0);
    } else {
        lemma_decimal_is_number(n / 10);
        assert(text.drop_last() =~= decimal(n / 10));
    }
}

// ---------------------------------------------------------------------------
// Laws
// ---------------------------------------------------------------------------

/// A pattern stands at a position exactly where all its characters do.
pub proof fn pattern_stands_where_its_characters_do(text: Seq<char>, pattern: Seq<char>, at: int)
    ensures
        occurs_at(text, pattern, at) <==> {
            &&& 0 <= at
            &&& at + pattern.len() <= text.len()
            &&& forall|i: int| 0 <= i < pattern.len() ==> text[at + i] == #[trigger] pattern[i]
        },
{
    if occurs_at(text, pattern, at) {
        assert forall|i: int| 0 <= i < pattern.len() implies text[at + i] == #[trigger] pattern[i] by {
            assert(text.subrange(at, at + pattern.len())[i] == pattern[i]);
        }
    }
    if 0 <= at && at + pattern.len() <= text.len() && (forall|i: int|
        0 <= i < pattern.len() ==> text[at + i] == #[trigger] pattern[i]) {
        assert(text.subrange(at, at + pattern.len()) =~= pattern);
    }
}

/// One more character counts where it is the one that is counted.
pub proof fn characters_are_counted_one_by_one(text: Seq<char>, next: char, c: char)
    ensures
        occurrences(Seq::empty(), c) == 0,
        occurrences(text.push(next), c) == occurrences(text, c) + if next == c {
            1int
        } else {
            0
        },
{
    text.lemma_filter_push(next, same_as(c));
    reveal(Seq::filter);
}

/// A character that does not stand in a text does not count.
pub proof fn no_occurrences(text: Seq<char>, c: char)
    requires
        forall|i: int| 0 <= i < text.len() ==> #[trigger] text[i] != c,
    ensures
        occurrences(text, c) == 0,
    decreases text.len(),
{
    if text.len() == 0 {
        characters_are_counted_one_by_one(text, c, c);
        assert(text =~= Seq::empty());
    } else {
        let shorter = text.drop_last();
        assert forall|i: int| 0 <= i < shorter.len() implies #[trigger] shorter[i] != c by {
            assert(shorter[i] == text[i]);
        }
        no_occurrences(shorter, c);
        characters_are_counted_one_by_one(shorter, text.last(), c);
        assert(shorter.push(text.last()) =~= text);
    }
}

/// Trimming leaves a part of the text that neither starts nor ends with white space, and drops
/// nothing but white space before and behind it.
pub proof fn trimming_drops_white_space_only(text: Seq<char>) -> (part: (int, int))
    ensures
        0 <= part.0 <= part.1 <= text.len(),
        trimmed(text) == text.subrange(part.0, part.1),
        forall|i: int| 0 <= i < part.0 ==> white_space(#[trigger] text[i]),
        forall|i: int| part.1 <= i < text.len() ==> white_space(#[trigger] text[i]),
        part.0 < part.1 ==> !white_space(text[part.0]) && !white_space(text[part.1 - 1]),
{
    let from = lemma_start_is_a_suffix(text);
    let rest = trimmed_start(text);
    let to = lemma_end_is_a_prefix(rest);
    assert(trimmed(text) =~= text.subrange(from, from + to));
    assert forall|i: int| from + to <= i < text.len() implies white_space(#[trigger] text[i]) by {
        assert(rest[i - from] == text[i]);
    }
    if to > 0 {
        assert(rest[0] == text[from]);
        assert(rest[to - 1] == text[from + to - 1]);
    }
    (from, from + to)
}

proof fn lemma_start_is_a_suffix(text: Seq<char>) -> (from: int)
    ensures
        0 <= from <= text.len(),
        trimmed_start(text) == text.skip(from),
        forall|i: int| 0 <= i < from ==> white_space(#[trigger] text[i]),
        from < text.len() ==> !white_space(text[from]),
    decreases text.len(),
{
    if text.len() > 0 && white_space(text[0]) {
        let rest = text.drop_first();
        let from = lemma_start_is_a_suffix(rest);
        assert(rest.skip(from) =~= text.skip(from + 1));
        assert forall|i: int| 0 <= i < from + 1 implies white_space(#[trigger] text[i]) by {
            if i > 0 {
                assert(rest[i - 1] == text[i]);
            }
        }
        from + 1
    } else {
        assert(text.skip(0) =~= text);
        0
    }
}

proof fn lemma_end_is_a_prefix(text: Seq<char>) -> (to: int)
    ensures
        0 <= to <= text.len(),
        trimmed_end(text) == text.take(to),
        forall|i: int| to <= i < text.len() ==> white_space(#[trigger] text[i]),
        to > 0 ==> !white_space(text[to - 1]),
    decreases text.len(),
{
    if text.len() > 0 && white_space(text.last()) {
        let rest = text.drop_last();
        let to = lemma_end_is_a_prefix(rest);
        assert(rest.take(to) =~= text.take(to));
        assert forall|i: int| to <= i < text.len() implies white_space(#[trigger] text[i]) by {
            if i < rest.len() {
                assert(rest[i] == text[i]);
            }
        }
        to
    } else {
        assert(text.take(text.len() as int) =~= text);
        text.len() as int
    }
}

/// Of two texts that differ first at a position, the one with the lesser character there stands
/// before the other, and a text stands before every longer one that it starts.
pub proof fn first_difference_decides(a: Seq<char>, b: Seq<char>, at: int)
    requires
        0 <= at <= a.len(),
        at <= b.len(),
        forall|i: int| 0 <= i < at ==> #[trigger] a[i] == b[i],
    ensures
        at < a.len() && at < b.len() && a[at] != b[at] ==> (precedes(a, b) <==> a[at] < b[at]),
        at == a.len() && at < b.len() ==> precedes(a, b) && !precedes(b, a),
    decreases at,
{
    if at > 0 {
        assert(a[0] == b[0]);
        let x = a.drop_first();
        let y = b.drop_first();
        assert forall|i: int| 0 <= i < at - 1 implies #[trigger] x[i] == y[i] by {
            assert(a[i + 1] == b[i + 1]);
        }
        first_difference_decides(x, y, at - 1);
    }
}

/// A number below ten is written as its digit, and any other as the number of its tens followed
/// by the digit of its units.
pub proof fn numbers_are_written_digit_by_digit(n: nat)
    ensures
        n < 10 ==> decimal(n) == seq![(48 + n) as char],
        n >= 10 ==> decimal(n) == decimal(n / 10).push((48 + n % 10) as char),
{
}

/// One more digit makes a number ten times as large and adds its value; a plus sign in front
/// makes no difference; any other character that is no digit makes a text no number.
pub proof fn numbers_are_read_digit_by_digit(digits: Seq<char>, next: char, i: int)
    ensures
        number_of(Seq::empty()) == 0,
        number_of(digits.push(next)) == 10 * number_of(digits) + (next as int - 48),
        is_number(digits) && number_of(digits) <= u64::MAX ==> parsed_u64(digits) == Some(
            number_of(digits) as u64,
        ),
        is_number(digits) && number_of(digits) > u64::MAX ==> parsed_u64(digits) is None,
        is_number(digits) ==> parsed_u64(seq!['+'] + digits) == parsed_u64(digits),
        is_number(digits) <==> digits.len() > 0 && forall|k: int|
            0 <= k < digits.len() ==> '0' <= #[trigger] digits[k] <= '9',
        digits.len() == 0 ==> parsed_u64(digits) is None && parsed_u64(seq!['+'] + digits) is None,
        0 < i < digits.len() && !('0' <= digits[i] <= '9') ==> parsed_u64(digits) is None,
        digits.len() > 0 && !('0' <= digits[0] <= '9') && digits[0] != '+' ==> parsed_u64(
            digits,
        ) is None,
{
    assert(digits.push(next).drop_last() =~= digits);
    assert((seq!['+'] + digits).drop_first() =~= digits);
    if is_number(digits) {
        assert(is_digit(digits[0]));
    }
    if 0 < i < digits.len() && digits[0] == '+' {
        assert(digits.drop_first()[i - 1] == digits[i]);
    }
}

/// The texts of a list keep their number and order.
pub proof fn texts_keep_their_order(strings: Seq<String>)
    ensures
        texts(strings).len() == strings.len(),
        forall|i: int| 0 <= i < strings.len() ==> #[trigger] texts(strings)[i] == strings[i]@,
{
}

} // verus!
