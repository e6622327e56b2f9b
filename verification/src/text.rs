//! Character-level helpers shared by the parsers and formatters: splitting,
//! trimming, and reading and writing decimal numbers the way Rust's `str`
//! methods and `Display` do.

use vstd::prelude::*;

verus! {

// ---------------------------------------------------------------------------
// Specifications
// ---------------------------------------------------------------------------

/// `char::is_whitespace`: the characters Unicode gives the `White_Space`
/// property.
pub open spec fn is_whitespace(c: char) -> bool {
    let u = c as u32;
    ||| 0x09 <= u <= 0x0d
    ||| u == 0x20
    ||| u == 0x85
    ||| u == 0xa0
    ||| u == 0x1680
    ||| 0x2000 <= u <= 0x200a
    ||| u == 0x2028
    ||| u == 0x2029
    ||| u == 0x202f
    ||| u == 0x205f
    ||| u == 0x3000
}

/// `s` without its leading whitespace.
pub open spec fn trim_start(s: Seq<char>) -> Seq<char>
    decreases s.len(),
{
    if s.len() > 0 && is_whitespace(s[0]) {
        trim_start(s.drop_first())
    } else {
        s
    }
}

/// `s` without its trailing whitespace.
pub open spec fn trim_end(s: Seq<char>) -> Seq<char>
    decreases s.len(),
{
    if s.len() > 0 && is_whitespace(s.last()) {
        trim_end(s.drop_last())
    } else {
        s
    }
}

/// `str::trim`.
pub open spec fn trim(s: Seq<char>) -> Seq<char> {
    trim_end(trim_start(s))
}

/// The first position at or after `i` that holds `c`, or the length of `s`
/// when there is none.
pub open spec fn index_of<A>(s: Seq<A>, c: A, i: int) -> int
    decreases s.len() - i,
{
    if i >= s.len() || s[i] == c {
        i
    } else {
        index_of(s, c, i + 1)
    }
}

/// The pieces of `s` from position `i` on, cut at every `c`: `str::split`.
pub open spec fn split_from(s: Seq<char>, c: char, i: int) -> Seq<Seq<char>>
    decreases s.len() - i,
{
    let e = index_of(s, c, i);
    if i < 0 || i > s.len() {
        Seq::empty()
    } else if e < s.len() {
        proof {
            lemma_index_of_bounds(s, c, i);
        }
        seq![s.subrange(i, e)] + split_from(s, c, e + 1)
    } else {
        seq![s.subrange(i, s.len() as int)]
    }
}

/// `index_of` never moves backwards, and stops at the end of `s`.
pub proof fn lemma_index_of_bounds<A>(s: Seq<A>, c: A, i: int)
    requires
        0 <= i <= s.len(),
    ensures
        i <= index_of(s, c, i) <= s.len(),
        index_of(s, c, i) < s.len() ==> s[index_of(s, c, i)] == c,
        forall|j: int| i <= j < index_of(s, c, i) ==> s[j] != c,
    decreases s.len() - i,
{
    if i < s.len() && s[i] != c {
        lemma_index_of_bounds(s, c, i + 1);
    }
}

/// `s.split(c)`, as a sequence of pieces.
pub open spec fn split(s: Seq<char>, c: char) -> Seq<Seq<char>> {
    split_from(s, c, 0)
}

pub open spec fn is_digit(c: char) -> bool {
    '0' as u32 <= c as u32 <= '9' as u32
}

pub open spec fn all_digits(s: Seq<char>) -> bool {
    forall|i: int| 0 <= i < s.len() ==> is_digit(#[trigger] s[i])
}

pub open spec fn digit_value(c: char) -> nat {
    (c as u32 - '0' as u32) as nat
}

/// The number the decimal digits `s` spell.
pub open spec fn decimal_value(s: Seq<char>) -> nat
    decreases s.len(),
{
    if s.len() == 0 {
        0
    } else {
        decimal_value(s.drop_last()) * 10 + digit_value(s.last())
    }
}

/// The digits of an unsigned number, after an optional `+`.
pub open spec fn unsigned_digits(s: Seq<char>) -> Seq<char> {
    if s.len() > 0 && s[0] == '+' {
        s.drop_first()
    } else {
        s
    }
}

/// `str::parse` for an unsigned integer type whose largest value is `max`:
/// an optional `+`, then at least one decimal digit, and nothing else.
pub open spec fn parse_unsigned(s: Seq<char>, max: nat) -> Option<nat> {
    let d = unsigned_digits(s);
    if d.len() > 0 && all_digits(d) && decimal_value(d) <= max {
        Some(decimal_value(d))
    } else {
        None
    }
}

/// `str::parse` for a signed integer type ranging over `-(max + 1) ..= max`.
pub open spec fn parse_signed(s: Seq<char>, max: nat) -> Option<int> {
    if s.len() > 0 && s[0] == '-' {
        let d = s.drop_first();
        if d.len() > 0 && all_digits(d) && decimal_value(d) <= max + 1 {
            Some(-(decimal_value(d) as int))
        } else {
            None
        }
    } else {
        match parse_unsigned(s, max) {
            Some(v) => Some(v as int),
            None => None,
        }
    }
}

/// The character for the decimal digit `d`.
pub open spec fn digit_char(d: nat) -> char {
    ('0' as u32 + d) as char
}

/// How `Display` writes the natural number `n`.
pub open spec fn decimal_digits(n: nat) -> Seq<char>
    decreases n,
{
    if n < 10 {
        seq![digit_char(n)]
    } else {
        decimal_digits(n / 10).push(digit_char(n % 10))
    }
}

/// How `Display` writes the integer `n`.
pub open spec fn signed_decimal(n: int) -> Seq<char> {
    if n < 0 {
        seq!['-'] + decimal_digits((-n) as nat)
    } else {
        decimal_digits(n as nat)
    }
}

// ---------------------------------------------------------------------------
// Lemmas
// ---------------------------------------------------------------------------

pub proof fn lemma_decimal_digits(n: nat)
    ensures
        decimal_digits(n).len() > 0,
        all_digits(decimal_digits(n)),
        decimal_value(decimal_digits(n)) == n,
    decreases n,
{
    lemma_digit_char(n % 10);
    if n < 10 {
        let d = decimal_digits(n);
        assert(d.drop_last() =~= Seq::<char>::empty());
        assert(decimal_value(Seq::<char>::empty()) == 0);
        assert(decimal_value(d) == n);
    } else {
        lemma_decimal_digits(n / 10);
        let d = decimal_digits(n);
        assert(d.drop_last() =~= decimal_digits(n / 10));
        assert(d.last() == digit_char(n % 10));
        assert(decimal_value(d) == (n / 10) * 10 + n % 10);
        assert(all_digits(d)) by {
            assert forall|j: int| 0 <= j < d.len() implies is_digit(#[trigger] d[j]) by {
                if j < d.len() - 1 {
                    assert(d[j] == decimal_digits(n / 10)[j]);
                }
            }
        }
    }
}

proof fn lemma_digit_char(d: nat)
    requires
        d < 10,
    ensures
        is_digit(digit_char(d)),
        digit_value(digit_char(d)) == d,
{
    assert(('0' as u32 + d) as char as u32 == '0' as u32 + d);
}

pub proof fn lemma_parse_unsigned_decimal(n: nat, max: nat)
    requires
        n <= max,
    ensures
        parse_unsigned(decimal_digits(n), max) == Some(n),
{
    lemma_decimal_digits(n);
    assert(is_digit(decimal_digits(n)[0]));
}

pub proof fn lemma_parse_signed_decimal(n: int, max: nat)
    requires
        -(max + 1) <= n <= max,
    ensures
        parse_signed(signed_decimal(n), max) == Some(n),
{
    if n < 0 {
        let m = (-n) as nat;
        lemma_decimal_digits(m);
        let s = signed_decimal(n);
        assert(s.drop_first() =~= decimal_digits(m));
    } else {
        lemma_parse_unsigned_decimal(n as nat, max);
        lemma_decimal_digits(n as nat);
        assert(is_digit(decimal_digits(n as nat)[0]));
    }
}

/// `index_of` stops at the first `c` at or after `i`.
pub proof fn lemma_index_of_at<A>(s: Seq<A>, c: A, i: int, j: int)
    requires
        0 <= i <= j <= s.len(),
        forall|k: int| i <= k < j ==> s[k] != c,
        j == s.len() || s[j] == c,
    ensures
        index_of(s, c, i) == j,
    decreases j - i,
{
    if i < j {
        lemma_index_of_at(s, c, i + 1, j);
    }
}

/// Searching the tail of `p + q` is searching `q`.
proof fn lemma_index_of_shift(p: Seq<char>, q: Seq<char>, c: char, j: int)
    requires
        0 <= j <= q.len(),
    ensures
        index_of(p + q, c, p.len() + j) == p.len() + index_of(q, c, j),
    decreases q.len() - j,
{
    if j < q.len() {
        assert((p + q)[p.len() + j] == q[j]);
        if q[j] != c {
            lemma_index_of_shift(p, q, c, j + 1);
        }
    }
}

/// Splitting the tail of `p + q` is splitting `q`.
proof fn lemma_split_from_shift(p: Seq<char>, q: Seq<char>, c: char, j: int)
    requires
        0 <= j <= q.len(),
    ensures
        split_from(p + q, c, p.len() + j) == split_from(q, c, j),
    decreases q.len() - j,
{
    let s = p + q;
    lemma_index_of_shift(p, q, c, j);
    lemma_index_of_bounds(q, c, j);
    let e = index_of(q, c, j);
    if e < q.len() {
        lemma_split_from_shift(p, q, c, e + 1);
        assert(s.subrange(p.len() + j, p.len() + e) =~= q.subrange(j, e));
    } else {
        assert(s.subrange(p.len() + j, s.len() as int) =~= q.subrange(j, q.len() as int));
    }
}

/// Splitting `a`, a separator, and `rest`, where `a` holds no separator,
/// gives `a` followed by the pieces of `rest`.
pub proof fn lemma_split_first(a: Seq<char>, c: char, rest: Seq<char>)
    requires
        !a.contains(c),
    ensures
        split(a + seq![c] + rest, c) == seq![a] + split(rest, c),
{
    let s = a + seq![c] + rest;
    assert forall|k: int| 0 <= k < a.len() implies s[k] != c by {
        assert(s[k] == a[k]);
    }
    lemma_index_of_at(s, c, 0, a.len() as int);
    assert(s.subrange(0, a.len() as int) =~= a);
    assert(s =~= (a + seq![c]) + rest);
    lemma_split_from_shift(a + seq![c], rest, c, 0);
}

/// A piece with no separator in it splits into itself.
pub proof fn lemma_split_whole(s: Seq<char>, c: char)
    requires
        !s.contains(c),
    ensures
        split(s, c) == seq![s],
{
    assert forall|k: int| 0 <= k < s.len() implies s[k] != c by {
        if s[k] == c {
            assert(s.contains(c));
        }
    }
    lemma_index_of_at(s, c, 0, s.len() as int);
    assert(s.subrange(0, s.len() as int) =~= s);
}

/// Trimming leaves alone a sequence that neither starts nor ends with
/// whitespace.
pub proof fn lemma_trim_unchanged(s: Seq<char>)
    requires
        s.len() > 0 ==> !is_whitespace(s[0]) && !is_whitespace(s.last()),
    ensures
        trim(s) == s,
{
}

/// Decimal digits are neither separators nor whitespace.
pub proof fn lemma_digits_plain(s: Seq<char>, c: char)
    requires
        all_digits(s),
        !is_digit(c),
    ensures
        !s.contains(c),
        s.len() > 0 ==> !is_whitespace(s[0]) && !is_whitespace(s.last()),
{
    if s.contains(c) {
        let k = choose|k: int| 0 <= k < s.len() && s[k] == c;
        assert(is_digit(s[k]));
    }
    if s.len() > 0 {
        assert(is_digit(s[0]));
        assert(is_digit(s[s.len() - 1]));
    }
}

// ---------------------------------------------------------------------------
// Executable helpers
// ---------------------------------------------------------------------------

/// Appends one character to a `String`.
///
/// Calls `String::push`; the contract claims what its documentation says: the
/// character is appended at the end and nothing else changes.
#[verifier::external_body]
pub(crate) fn push_char(s: &mut String, c: char)
    ensures
        final(s)@ == old(s)@.push(c),
{
    s.push(c);
}

/// The characters of `s`, in order.
pub(crate) fn chars_of(s: &str) -> (v: Vec<char>)
    ensures
        v@ == s@,
{
    let n = s.unicode_len();
    let mut v: Vec<char> = Vec::new();
    let mut i: usize = 0;
    while i < n
        invariant
            i <= n,
            n == s@.len(),
            v@ == s@.subrange(0, i as int),
        decreases n - i,
    {
        v.push(s.get_char(i));
        i += 1;
    }
    v
}

/// Whether `s[start..end]` equals `t`.
pub(crate) fn range_equals(s: &[char], start: usize, end: usize, t: &[char]) -> (r: bool)
    requires
        start <= end <= s@.len(),
    ensures
        r == (s@.subrange(start as int, end as int) == t@),
{
    if end - start != t.len() {
        return false;
    }
    let mut i: usize = 0;
    while i < t.len()
        invariant
            i <= t.len(),
            end - start == t.len(),
            start <= end <= s@.len(),
            forall|j: int| 0 <= j < i ==> s@[start + j] == t@[j],
        decreases t.len() - i,
    {
        if s[start + i] != t[i] {
            assert(s@.subrange(start as int, end as int)[i as int] != t@[i as int]);
            return false;
        }
        i += 1;
    }
    assert(s@.subrange(start as int, end as int) =~= t@);
    true
}

pub(crate) fn char_is_whitespace(c: char) -> (r: bool)
    ensures
        r == is_whitespace(c),
{
    let u = c as u32;
    (0x09 <= u && u <= 0x0d) || u == 0x20 || u == 0x85 || u == 0xa0 || u == 0x1680 || (0x2000
        <= u && u <= 0x200a) || u == 0x2028 || u == 0x2029 || u == 0x202f || u == 0x205f || u
        == 0x3000
}

/// The first position at or after `start` that holds `c`, or `s.len()`.
pub(crate) fn find_char(s: &[char], c: char, start: usize) -> (e: usize)
    requires
        start <= s@.len(),
    ensures
        e as int == index_of(s@, c, start as int),
        start <= e <= s@.len(),
{
    let mut i = start;
    while i < s.len() && s[i] != c
        invariant
            start <= i <= s@.len(),
            index_of(s@, c, start as int) == index_of(s@, c, i as int),
        decreases s.len() - i,
    {
        i += 1;
    }
    i
}

/// The first position in `s[start..end]` that holds `c`, counted from
/// `start`, or the length of the range when there is none.
pub(crate) fn find_char_in(s: &[char], c: char, start: usize, end: usize) -> (e: usize)
    requires
        start <= end <= s@.len(),
    ensures
        start <= e <= end,
        (e - start) as int == index_of(s@.subrange(start as int, end as int), c, 0),
{
    let ghost line = s@.subrange(start as int, end as int);
    let mut i = start;
    while i < end && s[i] != c
        invariant
            start <= i <= end <= s@.len(),
            line == s@.subrange(start as int, end as int),
            index_of(line, c, 0) == index_of(line, c, i - start),
        decreases end - i,
    {
        assert(line[i - start] == s@[i as int]);
        i += 1;
    }
    proof {
        if i < end {
            assert(line[i - start] == s@[i as int]);
        }
    }
    i
}

/// The bounds of `s[start..end]` with its surrounding whitespace trimmed.
pub(crate) fn trimmed(s: &[char], start: usize, end: usize) -> (r: (usize, usize))
    requires
        start <= end <= s@.len(),
    ensures
        start <= r.0 <= r.1 <= end,
        s@.subrange(r.0 as int, r.1 as int) == trim(s@.subrange(start as int, end as int)),
{
    let mut a = start;
    while a < end && char_is_whitespace(s[a])
        invariant
            start <= a <= end <= s@.len(),
            trim_start(s@.subrange(start as int, end as int)) == trim_start(
                s@.subrange(a as int, end as int),
            ),
        decreases end - a,
    {
        assert(s@.subrange(a as int, end as int).drop_first() =~= s@.subrange(
            a + 1,
            end as int,
        ));
        a += 1;
    }
    let mut b = end;
    while b > a && char_is_whitespace(s[b - 1])
        invariant
            start <= a <= b <= end <= s@.len(),
            trim_start(s@.subrange(start as int, end as int)) == s@.subrange(
                a as int,
                end as int,
            ),
            trim_end(s@.subrange(a as int, end as int)) == trim_end(
                s@.subrange(a as int, b as int),
            ),
        decreases b - a,
    {
        assert(s@.subrange(a as int, b as int).drop_last() =~= s@.subrange(
            a as int,
            b - 1,
        ));
        b -= 1;
    }
    (a, b)
}

/// The value of the decimal digits `s[start..end]` when they are all digits
/// and their value is at most `limit`.
fn digits_value(s: &[char], start: usize, end: usize, limit: u64) -> (r: Option<u64>)
    requires
        start <= end <= s@.len(),
        limit < 0x1_0000_0000,
    ensures
        ({
            let d = s@.subrange(start as int, end as int);
            match r {
                Some(v) => all_digits(d) && decimal_value(d) == v && v <= limit,
                None => !(all_digits(d) && decimal_value(d) <= limit),
            }
        }),
{
    let mut acc: u64 = 0;
    let mut i = start;
    while i < end
        invariant
            start <= i <= end <= s@.len(),
            limit < 0x1_0000_0000,
            all_digits(s@.subrange(start as int, i as int)),
            decimal_value(s@.subrange(start as int, i as int)) == acc,
            acc <= limit,
        decreases end - i,
    {
        let c = s[i];
        let prefix = Ghost(s@.subrange(start as int, i as int));
        let next = Ghost(s@.subrange(start as int, i + 1));
        assert(next@.drop_last() =~= prefix@);
        let u = c as u32;
        if !(48 <= u && u <= 57) {
            assert(s@.subrange(start as int, end as int)[i - start] == c);
            assert(!is_digit(c));
            return None;
        }
        let d = (u - 48) as u64;
        let value = acc * 10 + d;
        assert(all_digits(next@)) by {
            assert forall|j: int| 0 <= j < next@.len() implies is_digit(#[trigger] next@[j]) by {
                if j < prefix@.len() {
                    assert(next@[j] == prefix@[j]);
                }
            }
        }
        if value > limit {
            proof {
                lemma_digits_only_grow(s@.subrange(start as int, end as int), (i + 1 - start) as int);
                assert(s@.subrange(start as int, end as int).subrange(0, (i + 1 - start) as int)
                    =~= next@);
            }
            return None;
        }
        acc = value;
        i += 1;
    }
    Some(acc)
}

/// Digits appended to a prefix never make its value smaller.
proof fn lemma_digits_only_grow(s: Seq<char>, k: int)
    requires
        0 <= k <= s.len(),
    ensures
        all_digits(s) ==> decimal_value(s.subrange(0, k)) <= decimal_value(s),
    decreases s.len() - k,
{
    if k < s.len() && all_digits(s) {
        lemma_digits_only_grow(s, k + 1);
        let next = s.subrange(0, k + 1);
        assert(next.drop_last() =~= s.subrange(0, k));
    } else if k == s.len() {
        assert(s.subrange(0, k) =~= s);
    }
}

/// `s[start..end].parse()` for an unsigned type whose largest value is `max`.
pub(crate) fn parse_unsigned_range(s: &[char], start: usize, end: usize, max: u64) -> (r: Option<
    u64,
>)
    requires
        start <= end <= s@.len(),
        max < 0x1_0000_0000,
    ensures
        match r {
            Some(v) => parse_unsigned(s@.subrange(start as int, end as int), max as nat) == Some(
                v as nat,
            ),
            None => parse_unsigned(s@.subrange(start as int, end as int), max as nat) is None,
        },
{
    let ghost whole = s@.subrange(start as int, end as int);
    let mut from = start;
    if start < end && s[start] == '+' {
        from = start + 1;
        assert(whole.drop_first() =~= s@.subrange(from as int, end as int));
    }
    if from == end {
        return None;
    }
    digits_value(s, from, end, max)
}

/// `s[start..end].parse()` for a signed type ranging over
/// `-(max + 1) ..= max`.
pub(crate) fn parse_signed_range(s: &[char], start: usize, end: usize, max: u64) -> (r: Option<
    i64,
>)
    requires
        start <= end <= s@.len(),
        max < 0x8000_0000,
    ensures
        match r {
            Some(v) => parse_signed(s@.subrange(start as int, end as int), max as nat) == Some(
                v as int,
            ),
            None => parse_signed(s@.subrange(start as int, end as int), max as nat) is None,
        },
{
    let ghost whole = s@.subrange(start as int, end as int);
    if start < end && s[start] == '-' {
        assert(whole.drop_first() =~= s@.subrange(start + 1, end as int));
        if start + 1 == end {
            return None;
        }
        match digits_value(s, start + 1, end, max + 1) {
            Some(v) => Some(-(v as i64)),
            None => None,
        }
    } else {
        match parse_unsigned_range(s, start, end, max) {
            Some(v) => Some(v as i64),
            None => None,
        }
    }
}

/// The character for the decimal digit `d`.
fn digit_to_char(d: u64) -> (c: char)
    requires
        d < 10,
    ensures
        c == digit_char(d as nat),
{
    match d {
        0 => '0',
        1 => '1',
        2 => '2',
        3 => '3',
        4 => '4',
        5 => '5',
        6 => '6',
        7 => '7',
        8 => '8',
        _ => '9',
    }
}

/// Appends the decimal digits of `n`, as `Display` writes them.
pub(crate) fn push_decimal(s: &mut String, n: u64)
    ensures
        final(s)@ == old(s)@ + decimal_digits(n as nat),
    decreases n,
{
    if n >= 10 {
        push_decimal(s, n / 10);
    }
    push_char(s, digit_to_char(n % 10));
    proof {
        if n >= 10 {
            assert(decimal_digits(n as nat) == decimal_digits((n / 10) as nat).push(
                digit_char((n % 10) as nat),
            ));
        }
    }
    assert(final(s)@ =~= old(s)@ + decimal_digits(n as nat));
}

/// Appends `n` written as `Display` writes it.
pub(crate) fn push_signed_decimal(s: &mut String, n: i64)
    ensures
        final(s)@ == old(s)@ + signed_decimal(n as int),
{
    if n < 0 {
        push_char(s, '-');
        let magnitude: u64 = if n == i64::MIN {
            0x8000_0000_0000_0000u64
        } else {
            (-n) as u64
        };
        push_decimal(s, magnitude);
        assert(final(s)@ =~= old(s)@ + signed_decimal(n as int));
    } else {
        push_decimal(s, n as u64);
    }
}

/// Appends a string slice.
pub(crate) fn push_str(s: &mut String, t: &str)
    ensures
        final(s)@ == old(s)@ + t@,
{
    s.append(t);
}

} // verus!
