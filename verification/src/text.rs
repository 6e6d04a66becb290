//! Reading tokens character by character: prefixes and suffixes, fields cut at
//! a separator, and decimal numerals.
//!
//! Every function here is stated over the characters of a string (its view),
//! never over its bytes.

use vstd::prelude::*;
use vstd::string::*;

verus! {

/// `text` begins with `prefix`.
pub open spec fn starts_with(text: Seq<char>, prefix: Seq<char>) -> bool {
    prefix.len() <= text.len() && text.subrange(0, prefix.len() as int) == prefix
}

/// `text` ends with `suffix`.
pub open spec fn ends_with(text: Seq<char>, suffix: Seq<char>) -> bool {
    suffix.len() <= text.len() && text.subrange(text.len() - suffix.len(), text.len() as int)
        == suffix
}

/// The index of the first `sep` in `text`, or `text.len()` where there is none.
pub open spec fn first_index(text: Seq<char>, sep: char) -> int
    decreases text.len(),
{
    if text.len() == 0 || text[0] == sep {
        0
    } else {
        1 + first_index(text.drop_first(), sep)
    }
}

/// The fields of `text` when it is cut at every `sep`. There is always at least
/// one field; an empty text has one empty field.
pub open spec fn fields(text: Seq<char>, sep: char) -> Seq<Seq<char>>
    decreases text.len(),
{
    let cut = first_index(text, sep);
    if 0 <= cut < text.len() {
        seq![text.take(cut)] + fields(text.skip(cut + 1), sep)
    } else {
        seq![text]
    }
}

/// The fields put together again, with `sep` between neighbours.
pub open spec fn joined(parts: Seq<Seq<char>>, sep: char) -> Seq<char>
    decreases parts.len(),
{
    if parts.len() == 0 {
        Seq::empty()
    } else if parts.len() == 1 {
        parts[0]
    } else {
        parts[0] + seq![sep] + joined(parts.drop_first(), sep)
    }
}

/// `first_index` stays within the text, points at a separator when it is
/// inside, and passes over none.
pub proof fn lemma_first_index(text: Seq<char>, sep: char)
    ensures
        0 <= first_index(text, sep) <= text.len(),
        first_index(text, sep) < text.len() ==> text[first_index(text, sep)] == sep,
        forall|j: int| 0 <= j < first_index(text, sep) ==> text[j] != sep,
    decreases text.len(),
{
    if text.len() == 0 || text[0] == sep {
    } else {
        let rest = text.drop_first();
        lemma_first_index(rest, sep);
        assert forall|j: int| 0 <= j < first_index(text, sep) implies text[j] != sep by {
            if j > 0 {
                assert(text[j] == rest[j - 1]);
            }
        }
    }
}

/// A position with no separator before it, which is the end of the text or
/// holds a separator, is the first index.
pub proof fn lemma_first_index_is(text: Seq<char>, sep: char, at: int)
    requires
        0 <= at <= text.len(),
        forall|j: int| 0 <= j < at ==> text[j] != sep,
        at < text.len() ==> text[at] == sep,
    ensures
        first_index(text, sep) == at,
{
    lemma_first_index(text, sep);
    let found = first_index(text, sep);
    if found < at {
        assert(text[found] == sep);
    } else if found > at {
        assert(text[at] != sep);
    }
}

/// Cutting loses nothing: the fields joined by the separator are the text, and
/// no field holds the separator.
pub proof fn law_fields_join(text: Seq<char>, sep: char)
    ensures
        fields(text, sep).len() >= 1,
        joined(fields(text, sep), sep) == text,
        forall|i: int, j: int|
            0 <= i < fields(text, sep).len() && 0 <= j < fields(text, sep)[i].len()
                ==> fields(text, sep)[i][j] != sep,
    decreases text.len(),
{
    lemma_first_index(text, sep);
    let cut = first_index(text, sep);
    let all = fields(text, sep);
    if cut < text.len() {
        let rest = text.skip(cut + 1);
        let tail = fields(rest, sep);
        law_fields_join(rest, sep);
        assert(all == seq![text.take(cut)] + tail);
        assert(all.drop_first() =~= tail);
        assert(joined(all, sep) == text.take(cut) + seq![sep] + joined(tail, sep));
        assert(text.take(cut) + seq![sep] + rest =~= text);
        assert forall|i: int, j: int| 0 <= i < all.len() && 0 <= j < all[i].len() implies all[i][j]
            != sep by {
            if i > 0 {
                assert(all[i] == tail[i - 1]);
            }
        }
    }
}

/// Cutting is the inverse of joining: parts that hold no separator, joined
/// and cut again, are the same parts.
pub proof fn law_fields_of_joined(parts: Seq<Seq<char>>, sep: char)
    requires
        parts.len() >= 1,
        forall|i: int, j: int|
            0 <= i < parts.len() && 0 <= j < parts[i].len() ==> parts[i][j] != sep,
    ensures
        fields(joined(parts, sep), sep) == parts,
    decreases parts.len(),
{
    let text = joined(parts, sep);
    let first = parts[0];
    if parts.len() == 1 {
        lemma_first_index_is(text, sep, text.len() as int);
        assert(fields(text, sep) =~= parts);
    } else {
        let rest = parts.drop_first();
        assert forall|i: int, j: int| 0 <= i < rest.len() && 0 <= j < rest[i].len() implies rest[i][j]
            != sep by {
            assert(rest[i] == parts[i + 1]);
        }
        law_fields_of_joined(rest, sep);
        assert(text == first + seq![sep] + joined(rest, sep));
        assert forall|j: int| 0 <= j < first.len() implies text[j] != sep by {
            assert(text[j] == first[j]);
        }
        assert(text[first.len() as int] == sep);
        lemma_first_index_is(text, sep, first.len() as int);
        assert(text.take(first.len() as int) =~= first);
        assert(text.skip(first.len() as int + 1) =~= joined(rest, sep));
        assert(fields(text, sep) =~= parts);
    }
}

/// A decimal digit.
pub open spec fn is_digit(c: char) -> bool {
    '0' <= c && c <= '9'
}

/// The value of a decimal digit.
pub open spec fn digit_value(c: char) -> int {
    c as int - 48
}

/// The character that writes the digit `d`.
pub open spec fn digit_char(d: int) -> char {
    (d + 48) as char
}

/// Every character of `s` is a decimal digit.
pub open spec fn all_digits(s: Seq<char>) -> bool {
    forall|i: int| 0 <= i < s.len() ==> is_digit(#[trigger] s[i])
}

/// The value of a run of digits, most significant first.
pub open spec fn digits_value(s: Seq<char>) -> int
    decreases s.len(),
{
    if s.len() == 0 {
        0
    } else {
        10 * digits_value(s.drop_last()) + digit_value(s.last())
    }
}

/// The integer that a decimal numeral denotes: an optional `+` (and, where
/// `signed`, an optional `-` instead), then one or more digits and nothing
/// else. Leading zeros are accepted. `None` where `s` is no such numeral.
pub open spec fn integer(s: Seq<char>, signed: bool) -> Option<int> {
    let negative = signed && s.len() > 0 && s[0] == '-';
    let body = if s.len() > 0 && (s[0] == '+' || negative) {
        s.skip(1)
    } else {
        s
    };
    if body.len() > 0 && all_digits(body) {
        Some(
            if negative {
                -digits_value(body)
            } else {
                digits_value(body)
            },
        )
    } else {
        None
    }
}

/// The numeral read as an unsigned 32-bit number; `None` where it is no
/// numeral, carries a `-`, or does not fit.
pub open spec fn unsigned32(s: Seq<char>) -> Option<u32> {
    match integer(s, false) {
        Some(v) => if v <= u32::MAX {
            Some(v as u32)
        } else {
            None
        },
        None => None,
    }
}

/// The numeral read as a signed 64-bit number; `None` where it is no numeral
/// or does not fit.
pub open spec fn signed64(s: Seq<char>) -> Option<i64> {
    match integer(s, true) {
        Some(v) => if i64::MIN <= v <= i64::MAX {
            Some(v as i64)
        } else {
            None
        },
        None => None,
    }
}

/// The digits of `n`, most significant first, without leading zeros.
pub open spec fn digits_of(n: nat) -> Seq<char>
    decreases n,
{
    if n < 10 {
        seq![digit_char(n as int)]
    } else {
        digits_of(n / 10).push(digit_char((n % 10) as int))
    }
}

/// The decimal numeral of `n`: a `-` for a negative number, then its digits.
pub open spec fn decimal(n: int) -> Seq<char> {
    if n < 0 {
        seq!['-'] + digits_of((-n) as nat)
    } else {
        digits_of(n as nat)
    }
}

/// The digits of a number are digits, there is at least one, and they denote
/// the number.
pub proof fn lemma_digits_of(n: nat)
    ensures
        digits_of(n).len() >= 1,
        all_digits(digits_of(n)),
        digits_value(digits_of(n)) == n,
    decreases n,
{
    if n < 10 {
        let s = digits_of(n);
        assert(s.drop_last() =~= Seq::<char>::empty());
        assert(digits_value(s.drop_last()) == 0);
    } else {
        lemma_digits_of(n / 10);
        let head = digits_of(n / 10);
        let s = digits_of(n);
        assert(s.drop_last() =~= head);
        assert forall|i: int| 0 <= i < s.len() implies is_digit(#[trigger] s[i]) by {
            if i < head.len() {
                assert(s[i] == head[i]);
            }
        }
    }
}

/// A numeral written with `decimal` reads back as the number it was written
/// from.
pub proof fn law_decimal_reads_back(n: int)
    ensures
        integer(decimal(n), true) == Some(n),
        n >= 0 ==> integer(decimal(n), false) == Some(n),
{
    if n < 0 {
        let m = (-n) as nat;
        lemma_digits_of(m);
        let s = decimal(n);
        assert(s[0] == '-');
        assert(s.skip(1) =~= digits_of(m));
    } else {
        lemma_digits_of(n as nat);
        let s = decimal(n);
        assert(is_digit(s[0]));
    }
}

/// With more digits behind it a run of digits is worth no less.
proof fn lemma_digits_value_grows(s: Seq<char>, k: int)
    requires
        all_digits(s),
        0 <= k <= s.len(),
    ensures
        0 <= digits_value(s.take(k)) <= digits_value(s),
    decreases s.len() - k,
{
    if k == s.len() {
        assert(s.take(k) =~= s);
        lemma_digits_value_nonnegative(s);
    } else {
        lemma_digits_value_grows(s, k + 1);
        let longer = s.take(k + 1);
        assert(longer.drop_last() =~= s.take(k));
        assert(is_digit(s[k]));
        assert(longer.last() == s[k]);
        lemma_digits_value_nonnegative(s.take(k));
    }
}

/// A run of digits is worth no less than nothing.
proof fn lemma_digits_value_nonnegative(s: Seq<char>)
    requires
        all_digits(s),
    ensures
        0 <= digits_value(s),
    decreases s.len(),
{
    if s.len() > 0 {
        let head = s.drop_last();
        assert forall|i: int| 0 <= i < head.len() implies is_digit(#[trigger] head[i]) by {
            assert(head[i] == s[i]);
        }
        lemma_digits_value_nonnegative(head);
        assert(is_digit(s[s.len() - 1]));
    }
}

/// The characters of a string, in order.
pub fn chars_of(text: &str) -> (chars: Vec<char>)
    ensures
        chars@ == text@,
{
    let mut chars: Vec<char> = Vec::new();
    for c in it: text.chars()
        invariant
            chars@ == it.seq().take(it.index() as int),
    {
        chars.push(c);
    }
    chars
}

/// Whether two strings hold the same characters.
pub fn same_text(a: &str, b: &str) -> (same: bool)
    ensures
        same == (a@ == b@),
{
    let left = chars_of(a);
    let right = chars_of(b);
    if left.len() != right.len() {
        return false;
    }
    let mut at: usize = 0;
    while at < left.len()
        invariant
            left@ == a@,
            right@ == b@,
            left.len() == right.len(),
            at <= left.len(),
            forall|j: int| 0 <= j < at ==> a@[j] == b@[j],
        decreases left.len() - at,
    {
        if left[at] != right[at] {
            return false;
        }
        at = at + 1;
    }
    assert(a@ =~= b@);
    true
}

/// What follows `prefix` in `text`, or `None` where `text` does not begin
/// with it.
pub fn strip_prefix<'a>(text: &'a str, prefix: &str) -> (rest: Option<&'a str>)
    ensures
        match rest {
            Some(r) => starts_with(text@, prefix@) && r@ == text@.skip(prefix@.len() as int),
            None => !starts_with(text@, prefix@),
        },
{
    let whole = chars_of(text);
    let head = chars_of(prefix);
    if head.len() > whole.len() {
        return None;
    }
    let mut at: usize = 0;
    while at < head.len()
        invariant
            whole@ == text@,
            head@ == prefix@,
            head.len() <= whole.len(),
            at <= head.len(),
            forall|j: int| 0 <= j < at ==> text@[j] == prefix@[j],
        decreases head.len() - at,
    {
        if whole[at] != head[at] {
            assert(text@.subrange(0, prefix@.len() as int)[at as int] != prefix@[at as int]);
            return None;
        }
        at = at + 1;
    }
    assert(text@.subrange(0, prefix@.len() as int) =~= prefix@);
    let rest = text.substring_char(head.len(), whole.len());
    assert(text@.subrange(prefix@.len() as int, text@.len() as int) =~= text@.skip(
        prefix@.len() as int,
    ));
    Some(rest)
}

/// What stands before `suffix` in `text`, or `None` where `text` does not end
/// with it.
pub fn strip_suffix<'a>(text: &'a str, suffix: &str) -> (rest: Option<&'a str>)
    ensures
        match rest {
            Some(r) => ends_with(text@, suffix@) && r@ == text@.take(
                text@.len() - suffix@.len(),
            ),
            None => !ends_with(text@, suffix@),
        },
{
    let whole = chars_of(text);
    let tail = chars_of(suffix);
    if tail.len() > whole.len() {
        return None;
    }
    let from: usize = whole.len() - tail.len();
    let mut at: usize = 0;
    while at < tail.len()
        invariant
            whole@ == text@,
            tail@ == suffix@,
            tail.len() <= whole.len(),
            from == whole.len() - tail.len(),
            at <= tail.len(),
            forall|j: int| 0 <= j < at ==> text@[from + j] == suffix@[j],
        decreases tail.len() - at,
    {
        if whole[from + at] != tail[at] {
            assert(text@.subrange(from as int, text@.len() as int)[at as int] != suffix@[at as int]);
            return None;
        }
        at = at + 1;
    }
    assert(text@.subrange(from as int, text@.len() as int) =~= suffix@);
    let rest = text.substring_char(0, from);
    assert(text@.subrange(0, from as int) =~= text@.take(from as int));
    Some(rest)
}

/// Cuts `text` at every `sep`.
pub fn split<'a>(text: &'a str, sep: char) -> (parts: Vec<&'a str>)
    ensures
        parts.deep_view() == fields(text@, sep),
        parts.len() >= 1,
{
    let chars = chars_of(text);
    let n: usize = chars.len();
    let mut parts: Vec<&'a str> = Vec::new();
    let mut start: usize = 0;
    let mut at: usize = 0;
    assert(text@.skip(0) =~= text@);
    assert(parts.deep_view() + fields(text@, sep) =~= fields(text@, sep));
    while at < n
        invariant
            chars@ == text@,
            n == chars.len(),
            start <= at <= n,
            forall|j: int| start <= j < at ==> text@[j] != sep,
            fields(text@, sep) == parts.deep_view() + fields(text@.skip(start as int), sep),
        decreases n - at,
    {
        if chars[at] == sep {
            let piece = text.substring_char(start, at);
            let ghost before = parts.deep_view();
            proof {
                let rest = text@.skip(start as int);
                lemma_first_index_is(rest, sep, at - start);
                assert(rest.take(at - start) =~= text@.subrange(start as int, at as int));
                assert(rest.skip(at - start + 1) =~= text@.skip(at + 1));
            }
            parts.push(piece);
            assert(parts.deep_view() =~= before.push(piece@));
            assert(before.push(piece@) + fields(text@.skip(at + 1), sep) =~= before + (seq![
                piece@,
            ] + fields(text@.skip(at + 1), sep)));
            start = at + 1;
        }
        at = at + 1;
    }
    let piece = text.substring_char(start, n);
    let ghost before = parts.deep_view();
    proof {
        let rest = text@.skip(start as int);
        lemma_first_index_is(rest, sep, n - start);
        assert(rest =~= text@.subrange(start as int, n as int));
    }
    parts.push(piece);
    assert(parts.deep_view() =~= before.push(piece@));
    assert(before.push(piece@) =~= before + seq![piece@]);
    parts
}

/// Reads the digits of `chars` from `from` to the end. `Some` of their value
/// where there is at least one character, all are digits, and the value is no
/// more than `limit`.
fn read_digits(chars: &Vec<char>, from: usize, limit: u128) -> (value: Option<u128>)
    requires
        from <= chars.len(),
        limit <= 0x8000_0000_0000_0000,
    ensures
        match value {
            Some(v) => {
                &&& from < chars.len()
                &&& all_digits(chars@.skip(from as int))
                &&& digits_value(chars@.skip(from as int)) == v
                &&& v <= limit
            },
            None => from == chars.len() || !all_digits(chars@.skip(from as int)) || digits_value(
                chars@.skip(from as int),
            ) > limit,
        },
{
    let ghost body = chars@.skip(from as int);
    if from == chars.len() {
        return None;
    }
    let mut total: u128 = 0;
    let mut at: usize = from;
    while at < chars.len()
        invariant
            from <= at <= chars.len(),
            body == chars@.skip(from as int),
            all_digits(body.take(at - from)),
            digits_value(body.take(at - from)) == total,
            total <= limit,
            limit <= 0x8000_0000_0000_0000,
        decreases chars.len() - at,
    {
        let c: char = chars[at];
        assert(body[at - from] == c);
        if c < '0' || c > '9' {
            assert(!is_digit(body[at - from]));
            return None;
        }
        let digit: u128 = (c as u32 - 48) as u128;
        let ghost longer = body.take(at - from + 1);
        proof {
            assert(longer.drop_last() =~= body.take(at - from));
            assert(longer.last() == c);
            assert forall|i: int| 0 <= i < longer.len() implies is_digit(#[trigger] longer[i]) by {
                if i < at - from {
                    assert(longer[i] == body.take(at - from)[i]);
                }
            }
        }
        let next: u128 = total * 10 + digit;
        if next > limit {
            proof {
                if all_digits(body) {
                    lemma_digits_value_grows(body, at - from + 1);
                }
            }
            return None;
        }
        total = next;
        at = at + 1;
    }
    assert(body.take(at - from) =~= body);
    Some(total)
}

/// Reads a decimal numeral as an unsigned 32-bit number.
pub fn parse_u32(text: &str) -> (value: Option<u32>)
    ensures
        value == unsigned32(text@),
{
    let chars = chars_of(text);
    let from: usize = if chars.len() > 0 && chars[0] == '+' {
        1
    } else {
        0
    };
    proof {
        if from == 0 {
            assert(chars@.skip(0) =~= chars@);
        }
    }
    match read_digits(&chars, from, 0xffff_ffff) {
        Some(v) => Some(v as u32),
        None => None,
    }
}

/// Reads a decimal numeral as a signed 64-bit number.
pub fn parse_i64(text: &str) -> (value: Option<i64>)
    ensures
        value == signed64(text@),
{
    let chars = chars_of(text);
    let negative = chars.len() > 0 && chars[0] == '-';
    let from: usize = if chars.len() > 0 && (chars[0] == '+' || negative) {
        1
    } else {
        0
    };
    proof {
        if from == 0 {
            assert(chars@.skip(0) =~= chars@);
        }
    }
    if negative {
        match read_digits(&chars, from, 0x8000_0000_0000_0000) {
            Some(v) => Some((0 - (v as i128)) as i64),
            None => None,
        }
    } else {
        match read_digits(&chars, from, 0x7fff_ffff_ffff_ffff) {
            Some(v) => Some(v as i64),
            None => None,
        }
    }
}

/// The one-character string that writes a digit.
fn digit_text(d: u8) -> (text: &'static str)
    requires
        d < 10,
    ensures
        text@ == seq![digit_char(d as int)],
{
    proof {
        reveal_strlit("0");
        reveal_strlit("1");
        reveal_strlit("2");
        reveal_strlit("3");
        reveal_strlit("4");
        reveal_strlit("5");
        reveal_strlit("6");
        reveal_strlit("7");
        reveal_strlit("8");
        reveal_strlit("9");
    }
    let text = if d == 0 {
        "0"
    } else if d == 1 {
        "1"
    } else if d == 2 {
        "2"
    } else if d == 3 {
        "3"
    } else if d == 4 {
        "4"
    } else if d == 5 {
        "5"
    } else if d == 6 {
        "6"
    } else if d == 7 {
        "7"
    } else if d == 8 {
        "8"
    } else {
        "9"
    };
    assert(text@ =~= seq![digit_char(d as int)]);
    text
}

/// Appends the digits of `n` to `out`.
fn write_digits(out: &mut String, n: u128)
    ensures
        final(out)@ == old(out)@ + digits_of(n as nat),
    decreases n,
{
    if n >= 10 {
        write_digits(out, n / 10);
    }
    let ghost before = out@;
    out.append(digit_text((n % 10) as u8));
    proof {
        if n >= 10 {
            assert(before + seq![digit_char((n % 10) as int)] =~= old(out)@ + digits_of(
                (n / 10) as nat,
            ).push(digit_char((n % 10) as int)));
        }
    }
}

/// Writes `n` as a decimal numeral.
pub fn format_integer(n: i128) -> (text: String)
    ensures
        text@ == decimal(n as int),
{
    let mut text = String::new();
    if n < 0 {
        let magnitude: u128 = ((0 - (n + 1)) as u128) + 1;
        text.append("-");
        proof {
            reveal_strlit("-");
            assert(text@ =~= seq!['-']);
        }
        write_digits(&mut text, magnitude);
    } else {
        write_digits(&mut text, n as u128);
        assert(Seq::<char>::empty() + digits_of(n as nat) =~= digits_of(n as nat));
    }
    text
}

} // verus!
