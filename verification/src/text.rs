//! Text as sequences of characters: decimal numbers, joining, splitting and
//! searching, with the executable functions that compute them.

use vstd::prelude::*;

verus! {

/// The standard library's `String::push`.
///
/// Trusted: the string afterwards is the string before with the character
/// `c` at its end, as the documentation of `push` says.
pub assume_specification[ String::push ](s: &mut String, c: char)
    ensures
        final(s)@ == old(s)@.push(c),
;

/// The characters of a string, one by one.
pub fn chars_of(s: &str) -> (v: Vec<char>)
    ensures
        v@ == s@,
{
    let mut v: Vec<char> = Vec::new();
    for c in it: s.chars()
        invariant
            it.seq() == s@,
            v@ == s@.take(it.index() as int),
    {
        v.push(c);
    }
    v
}

/// The string made of a slice of characters.
pub fn string_of(v: &Vec<char>, from: usize, to: usize) -> (s: String)
    requires
        from <= to <= v.len(),
    ensures
        s@ == v@.subrange(from as int, to as int),
{
    let mut s = String::new();
    let mut i: usize = from;
    while i < to
        invariant
            from <= i <= to <= v.len(),
            s@ == v@.subrange(from as int, i as int),
        decreases to - i,
    {
        s.push(v[i]);
        i = i + 1;
    }
    s
}

// ---------------------------------------------------------------------------
// Decimal numbers

/// The character of a decimal digit.
pub open spec fn digit_char(d: int) -> char
    recommends
        0 <= d <= 9,
{
    ((48 + d) as u8) as char
}

/// Whether `c` is one of the digits `0` to `9`.
pub open spec fn is_digit(c: char) -> bool {
    '0' <= c <= '9'
}

/// A natural number in decimal, without leading zeros.
pub open spec fn decimal_nat(n: nat) -> Seq<char>
    decreases n,
{
    if n < 10 {
        seq![digit_char(n as int)]
    } else {
        decimal_nat(n / 10).push(digit_char((n % 10) as int))
    }
}

/// An integer in decimal, with `-` before a negative one.
pub open spec fn decimal(n: int) -> Seq<char> {
    if n < 0 {
        seq!['-'] + decimal_nat((-n) as nat)
    } else {
        decimal_nat(n as nat)
    }
}

/// A natural number in decimal, with a zero in front of a single digit.
pub open spec fn two_digits(n: nat) -> Seq<char> {
    if n < 10 {
        seq!['0', digit_char(n as int)]
    } else {
        decimal_nat(n)
    }
}

fn digit(d: u64) -> (c: char)
    requires
        d < 10,
    ensures
        c == digit_char(d as int),
        is_digit(c),
{
    let v: u8 = 48u8 + (d as u8);
    v as char
}

/// Appends a natural number in decimal.
pub fn push_decimal_nat(s: &mut String, n: u64)
    ensures
        final(s)@ == old(s)@ + decimal_nat(n as nat),
    decreases n,
{
    if n >= 10 {
        push_decimal_nat(s, n / 10);
    }
    s.push(digit(n % 10));
    assert(s@ =~= old(s)@ + decimal_nat(n as nat));
}

/// Appends an integer in decimal.
pub fn push_decimal(s: &mut String, n: i64)
    ensures
        final(s)@ == old(s)@ + decimal(n as int),
{
    if n < 0 {
        s.push('-');
        let magnitude: u64 = (-(n as i128)) as u64;
        push_decimal_nat(s, magnitude);
        assert(s@ =~= old(s)@ + decimal(n as int));
    } else {
        push_decimal_nat(s, n as u64);
    }
}

/// Appends a natural number in decimal, at least two digits wide.
pub fn push_two_digits(s: &mut String, n: u32)
    ensures
        final(s)@ == old(s)@ + two_digits(n as nat),
{
    if n < 10 {
        s.push('0');
        s.push(digit(n as u64));
        assert(s@ =~= old(s)@ + two_digits(n as nat));
    } else {
        push_decimal_nat(s, n as u64);
    }
}

// ---------------------------------------------------------------------------
// Reading decimal numbers

/// Whether `s` holds digits only.
pub open spec fn all_digits(s: Seq<char>) -> bool {
    forall|i: int| 0 <= i < s.len() ==> is_digit(#[trigger] s[i])
}

/// The number that a run of digits writes; leading zeros count for nothing.
pub open spec fn digits_value(s: Seq<char>) -> nat
    decreases s.len(),
{
    if s.len() == 0 {
        0
    } else {
        (digits_value(s.drop_last()) * 10 + (s.last() as int - '0' as int)) as nat
    }
}

/// The digits of a written integer: what follows one leading `+` or `-`.
pub open spec fn unsigned_part(s: Seq<char>) -> Seq<char> {
    if s.len() > 0 && (s[0] == '-' || s[0] == '+') {
        s.skip(1)
    } else {
        s
    }
}

/// The 64-bit integer that a text writes in decimal: an optional sign, then
/// one digit or more and nothing else, the value within the range of `i64`.
pub open spec fn parse_decimal(s: Seq<char>) -> Option<int> {
    let body = unsigned_part(s);
    let magnitude = digits_value(body) as int;
    let value = if s.len() > 0 && s[0] == '-' {
        -magnitude
    } else {
        magnitude
    };
    if body.len() > 0 && all_digits(body) && i64::MIN <= value <= i64::MAX {
        Some(value)
    } else {
        None
    }
}

/// A natural number in decimal is one digit or more and nothing else, and
/// is worth the number.
pub proof fn lemma_decimal_nat(n: nat)
    ensures
        decimal_nat(n).len() > 0,
        all_digits(decimal_nat(n)),
        digits_value(decimal_nat(n)) == n,
    decreases n,
{
    let written = decimal_nat(n);
    if n < 10 {
        assert(written.drop_last() =~= Seq::<char>::empty());
        assert(digits_value(written.drop_last()) == 0);
        assert(written.last() == digit_char(n as int));
    } else {
        lemma_decimal_nat(n / 10);
        assert(written.drop_last() =~= decimal_nat(n / 10));
        assert(written.last() == digit_char((n % 10) as int));
        assert forall|i: int| 0 <= i < written.len() implies is_digit(#[trigger] written[i]) by {
            if i < written.len() - 1 {
                assert(written[i] == decimal_nat(n / 10)[i]);
            }
        }
    }
}

/// An integer of 64 bits that is written in decimal is read as itself.
pub proof fn lemma_parse_decimal(n: int)
    requires
        i64::MIN <= n <= i64::MAX,
    ensures
        parse_decimal(decimal(n)) == Some(n),
{
    if n < 0 {
        lemma_decimal_nat((-n) as nat);
        assert(decimal(n).skip(1) =~= decimal_nat((-n) as nat));
    } else {
        lemma_decimal_nat(n as nat);
        assert(is_digit(decimal(n)[0]));
    }
}

/// An integer in decimal holds digits and at most a sign, so none of the
/// characters that part the tokens and lines of a file.
pub proof fn lemma_decimal_chars(n: int, c: char)
    requires
        !is_digit(c),
        c != '-',
    ensures
        free_of(decimal(n), c),
{
    if n < 0 {
        lemma_decimal_nat((-n) as nat);
        assert forall|i: int| 0 <= i < decimal(n).len() implies decimal(n)[i] != c by {
            if i > 0 {
                assert(decimal(n)[i] == decimal_nat((-n) as nat)[i - 1]);
                assert(is_digit(decimal_nat((-n) as nat)[i - 1]));
            }
        }
    } else {
        lemma_decimal_nat(n as nat);
        assert forall|i: int| 0 <= i < decimal(n).len() implies decimal(n)[i] != c by {
            assert(is_digit(decimal_nat(n as nat)[i]));
        }
    }
}

/// A run of digits is worth at least as much as any of its beginnings.
pub proof fn lemma_digits_value_grows(s: Seq<char>, k: int)
    requires
        all_digits(s),
        0 <= k <= s.len(),
    ensures
        digits_value(s.take(k)) <= digits_value(s),
    decreases s.len(),
{
    if k < s.len() {
        lemma_digits_value_grows(s.drop_last(), k);
        assert(s.drop_last().take(k) =~= s.take(k));
        assert(is_digit(s[s.len() - 1]));
    } else {
        assert(s.take(k) =~= s);
    }
}

/// Reads a 64-bit integer written in decimal.
pub fn parse_i64(v: &Vec<char>, from: usize, to: usize) -> (value: Option<i64>)
    requires
        from <= to <= v.len(),
    ensures
        match value {
            Some(n) => parse_decimal(v@.subrange(from as int, to as int)) == Some(n as int),
            None => parse_decimal(v@.subrange(from as int, to as int)) is None,
        },
{
    let ghost s = v@.subrange(from as int, to as int);
    if from == to {
        return None;
    }
    let negative: bool = v[from] == '-';
    let start: usize = if v[from] == '-' || v[from] == '+' {
        from + 1
    } else {
        from
    };
    let ghost body = unsigned_part(s);
    assert(s[0] == v@[from as int]);
    assert(body =~= v@.subrange(start as int, to as int));
    if start == to {
        return None;
    }
    let limit: u128 = 9223372036854775808u128;
    let mut acc: u128 = 0;
    let mut i: usize = start;
    while i < to
        invariant
            start <= i <= to <= v.len(),
            start < to,
            s == v@.subrange(from as int, to as int),
            body == unsigned_part(s),
            body == v@.subrange(start as int, to as int),
            all_digits(body.take(i - start)),
            acc == digits_value(body.take(i - start)),
            acc <= limit,
            limit == 9223372036854775808u128,
        decreases to - i,
    {
        let c: char = v[i];
        if !('0' <= c && c <= '9') {
            assert(!is_digit(body[i - start]));
            return None;
        }
        let d: u128 = ((c as u32) - ('0' as u32)) as u128;
        let ghost before = body.take(i - start);
        let ghost after = body.take(i + 1 - start);
        assert(after.drop_last() =~= before);
        assert(after.last() == c);
        assert(all_digits(after)) by {
            assert forall|j: int| 0 <= j < after.len() implies is_digit(#[trigger] after[j]) by {
                if j < before.len() {
                    assert(after[j] == before[j]);
                }
            }
        }
        acc = acc * 10 + d;
        if acc > limit {
            proof {
                if all_digits(body) {
                    lemma_digits_value_grows(body, i + 1 - start);
                }
            }
            return None;
        }
        i = i + 1;
    }
    assert(body.take(to - start) =~= body);
    if negative {
        let n: i128 = -(acc as i128);
        Some(n as i64)
    } else if acc == limit {
        None
    } else {
        Some(acc as i64)
    }
}

// ---------------------------------------------------------------------------
// Splitting and joining

/// The place of the first `sep` in `s`, or the length of `s` if it has none.
pub open spec fn first_index_of(s: Seq<char>, sep: char) -> int
    decreases s.len(),
{
    if s.len() == 0 {
        0
    } else if s[0] == sep {
        0
    } else {
        1 + first_index_of(s.skip(1), sep)
    }
}

/// The place that `first_index_of` names is the first that holds `sep`, if
/// any does.
pub proof fn lemma_first_index_of(s: Seq<char>, sep: char)
    ensures
        0 <= first_index_of(s, sep) <= s.len(),
        forall|i: int| 0 <= i < first_index_of(s, sep) ==> s[i] != sep,
        first_index_of(s, sep) < s.len() ==> s[first_index_of(s, sep)] == sep,
    decreases s.len(),
{
    if s.len() > 0 && s[0] != sep {
        lemma_first_index_of(s.skip(1), sep);
        assert forall|i: int| 0 <= i < first_index_of(s, sep) implies s[i] != sep by {
            if i > 0 {
                assert(s[i] == s.skip(1)[i - 1]);
            }
        }
    }
}

/// The pieces of `s` between the occurrences of `sep`: one more piece than
/// there are separators, empty pieces included.
pub open spec fn split(s: Seq<char>, sep: char) -> Seq<Seq<char>>
    decreases s.len(),
{
    let i = first_index_of(s, sep);
    if 0 <= i < s.len() {
        seq![s.take(i)] + split(s.skip(i + 1), sep)
    } else {
        seq![s]
    }
}

/// The pieces joined again, with `sep` between neighbours.
pub open spec fn join(parts: Seq<Seq<char>>, sep: Seq<char>) -> Seq<char>
    decreases parts.len(),
{
    if parts.len() == 0 {
        Seq::empty()
    } else if parts.len() == 1 {
        parts[0]
    } else {
        join(parts.drop_last(), sep) + sep + parts.last()
    }
}

/// Whether the character `c` occurs nowhere in `s`.
pub open spec fn free_of(s: Seq<char>, c: char) -> bool {
    forall|i: int| 0 <= i < s.len() ==> s[i] != c
}

/// The place found by a search from the front is the one `first_index_of`
/// names.
pub proof fn lemma_first_index_found(s: Seq<char>, sep: char, at: int)
    requires
        0 <= at <= s.len(),
        forall|i: int| 0 <= i < at ==> s[i] != sep,
        at < s.len() ==> s[at] == sep,
    ensures
        first_index_of(s, sep) == at,
{
    lemma_first_index_of(s, sep);
}

/// A text after which a separator and a piece without separators are
/// written splits into its own pieces and that piece.
pub proof fn lemma_split_push(a: Seq<char>, b: Seq<char>, sep: char)
    requires
        free_of(b, sep),
    ensures
        split(a + seq![sep] + b, sep) == split(a, sep).push(b),
    decreases a.len(),
{
    let s = a + seq![sep] + b;
    lemma_first_index_of(a, sep);
    let i = first_index_of(a, sep);
    lemma_first_index_found(b, sep, b.len() as int);
    if i < a.len() {
        lemma_first_index_found(s, sep, i);
        assert(s.take(i) =~= a.take(i));
        assert(s.skip(i + 1) =~= a.skip(i + 1) + seq![sep] + b);
        lemma_split_push(a.skip(i + 1), b, sep);
        assert(split(s, sep) =~= split(a, sep).push(b));
    } else {
        lemma_first_index_found(s, sep, a.len() as int);
        assert(s.take(a.len() as int) =~= a);
        assert(s.skip(a.len() as int + 1) =~= b);
        assert(split(b, sep) =~= seq![b]);
        assert(split(a, sep) =~= seq![a]);
        assert(split(s, sep) =~= seq![a] + seq![b]);
    }
}

/// Pieces without separators that are joined and split again are what they
/// were.
pub proof fn lemma_split_join(parts: Seq<Seq<char>>, sep: char)
    requires
        parts.len() > 0,
        forall|i: int| 0 <= i < parts.len() ==> free_of(#[trigger] parts[i], sep),
    ensures
        split(join(parts, seq![sep]), sep) == parts,
    decreases parts.len(),
{
    if parts.len() == 1 {
        lemma_first_index_found(parts[0], sep, parts[0].len() as int);
        assert(split(parts[0], sep) =~= parts);
    } else {
        let before = parts.drop_last();
        assert forall|i: int| 0 <= i < before.len() implies free_of(#[trigger] before[i], sep) by {
            assert(before[i] == parts[i]);
        }
        lemma_split_join(before, sep);
        lemma_split_push(join(before, seq![sep]), parts.last(), sep);
        assert(before.push(parts.last()) =~= parts);
    }
}

/// A joined text begins as its first piece does, and holds no character
/// that neither its pieces nor the separator hold.
pub proof fn lemma_join_chars(parts: Seq<Seq<char>>, sep: Seq<char>, c: char)
    requires
        parts.len() > 0,
    ensures
        join(parts, sep).len() >= parts[0].len(),
        parts[0].len() > 0 ==> join(parts, sep)[0] == parts[0][0],
        free_of(sep, c) && (forall|i: int| 0 <= i < parts.len() ==> free_of(#[trigger] parts[i], c))
            ==> free_of(join(parts, sep), c),
    decreases parts.len(),
{
    if parts.len() > 1 {
        let before = parts.drop_last();
        lemma_join_chars(before, sep, c);
        assert(before[0] == parts[0]);
        if free_of(sep, c) && (forall|i: int|
            0 <= i < parts.len() ==> free_of(#[trigger] parts[i], c)) {
            assert forall|i: int| 0 <= i < before.len() implies free_of(#[trigger] before[i], c) by {
                assert(before[i] == parts[i]);
            }
            assert(free_of(parts[parts.len() - 1], c));
        }
    }
}

/// The views of the strings of a vector.
pub open spec fn texts(v: Seq<String>) -> Seq<Seq<char>> {
    v.map_values(|s: String| s@)
}

/// Splits the characters `v[from..to]` at each `sep`.
pub fn split_chars(v: &Vec<char>, from: usize, to: usize, sep: char) -> (pieces: Vec<(usize, usize)>)
    requires
        from <= to <= v.len(),
    ensures
        pieces@.len() == split(v@.subrange(from as int, to as int), sep).len(),
        forall|k: int|
            0 <= k < pieces@.len() ==> from <= (#[trigger] pieces@[k]).0 <= pieces@[k].1 <= to
                && v@.subrange(pieces@[k].0 as int, pieces@[k].1 as int) == split(
                v@.subrange(from as int, to as int),
                sep,
            )[k],
{
    let ghost whole = v@.subrange(from as int, to as int);
    let mut pieces: Vec<(usize, usize)> = Vec::new();
    let mut start: usize = from;
    let mut i: usize = from;
    while i < to
        invariant
            from <= start <= i <= to <= v.len(),
            whole == v@.subrange(from as int, to as int),
            forall|j: int| start <= j < i ==> v@[j] != sep,
            split(whole, sep) == Seq::new(
                pieces@.len(),
                |k: int| v@.subrange(pieces@[k].0 as int, pieces@[k].1 as int),
            ) + split(v@.subrange(start as int, to as int), sep),
            forall|k: int|
                0 <= k < pieces@.len() ==> from <= (#[trigger] pieces@[k]).0 <= pieces@[k].1 <= to,
        decreases to - i,
    {
        if v[i] == sep {
            proof {
                let rest = v@.subrange(start as int, to as int);
                lemma_first_index_of(rest, sep);
                let f = first_index_of(rest, sep);
                assert(rest[i - start] == sep);
                assert(f == i - start) by {
                    if f < i - start {
                        assert(rest[f] == v@[start + f]);
                    }
                }
                assert(rest.take(f) =~= v@.subrange(start as int, i as int));
                assert(rest.skip(f + 1) =~= v@.subrange(i + 1, to as int));
                let old_done = Seq::new(
                    pieces@.len(),
                    |k: int| v@.subrange(pieces@[k].0 as int, pieces@[k].1 as int),
                );
                let new_pieces = pieces@.push((start, i));
                let new_done = Seq::new(
                    new_pieces.len(),
                    |k: int| v@.subrange(new_pieces[k].0 as int, new_pieces[k].1 as int),
                );
                assert(new_done =~= old_done + seq![v@.subrange(start as int, i as int)]);
                assert(split(whole, sep) =~= new_done + split(v@.subrange(i + 1, to as int), sep));
            }
            pieces.push((start, i));
            start = i + 1;
        }
        i = i + 1;
    }
    proof {
        let rest = v@.subrange(start as int, to as int);
        lemma_first_index_of(rest, sep);
        let f = first_index_of(rest, sep);
        assert(f == rest.len()) by {
            if f < rest.len() {
                assert(rest[f] == v@[start + f]);
            }
        }
        let old_done = Seq::new(
            pieces@.len(),
            |k: int| v@.subrange(pieces@[k].0 as int, pieces@[k].1 as int),
        );
        let new_pieces = pieces@.push((start, to));
        let new_done = Seq::new(
            new_pieces.len(),
            |k: int| v@.subrange(new_pieces[k].0 as int, new_pieces[k].1 as int),
        );
        assert(new_done =~= old_done + seq![rest]);
        assert(split(whole, sep) =~= new_done);
    }
    pieces.push((start, to));
    pieces
}

// ---------------------------------------------------------------------------
// Searching

/// Whether `pattern` occurs in `text` at place `at`.
pub open spec fn occurs_at(text: Seq<char>, pattern: Seq<char>, at: int) -> bool {
    0 <= at && at + pattern.len() <= text.len() && text.subrange(at, at + pattern.len())
        == pattern
}

/// Whether `pattern` occurs somewhere in `text`.
pub open spec fn has_substring(text: Seq<char>, pattern: Seq<char>) -> bool {
    exists|at: int| occurs_at(text, pattern, at)
}

fn matches_at(text: &Vec<char>, pattern: &Vec<char>, at: usize) -> (found: bool)
    requires
        at + pattern.len() <= text.len(),
    ensures
        found == occurs_at(text@, pattern@, at as int),
{
    let mut k: usize = 0;
    while k < pattern.len()
        invariant
            k <= pattern.len(),
            at + pattern.len() <= text.len(),
            forall|j: int| 0 <= j < k ==> text@[at + j] == pattern@[j],
        decreases pattern.len() - k,
    {
        if text[at + k] != pattern[k] {
            assert(text@.subrange(at as int, at + pattern.len())[k as int] != pattern@[k as int]);
            return false;
        }
        k = k + 1;
    }
    assert(text@.subrange(at as int, at + pattern.len()) =~= pattern@);
    true
}

/// Searches `text` for `pattern`.
pub fn contains(text: &str, pattern: &str) -> (found: bool)
    ensures
        found == has_substring(text@, pattern@),
{
    let hay = chars_of(text);
    let needle = chars_of(pattern);
    if needle.len() == 0 {
        assert(occurs_at(text@, pattern@, 0)) by {
            assert(text@.subrange(0, 0) =~= pattern@);
        }
        return true;
    }
    if needle.len() > hay.len() {
        return false;
    }
    let last: usize = hay.len() - needle.len();
    let mut at: usize = 0;
    while at <= last
        invariant
            at <= last + 1,
            last == hay.len() - needle.len(),
            0 < needle.len() <= hay.len(),
            hay@ == text@,
            needle@ == pattern@,
            forall|j: int| 0 <= j < at ==> !occurs_at(text@, pattern@, j),
        decreases last + 1 - at,
    {
        if matches_at(&hay, &needle, at) {
            return true;
        }
        at = at + 1;
    }
    false
}

} // verus!
