//! Character-level text handling shared by the whole system: building
//! strings, decimal formatting and parsing of integers, comma-separated
//! lists and whitespace trimming.
use vstd::prelude::*;

verus! {

// ---------------------------------------------------------------------
// Specifications
// ---------------------------------------------------------------------
/// ASCII lower-casing of one character: `A`..=`Z` map to `a`..=`z`, every
/// other character is left alone.
pub open spec fn ascii_lower(c: char) -> char {
    if 'A' <= c && c <= 'Z' {
        ((c as u32) + 32) as char
    } else {
        c
    }
}

/// The ASCII upper case of a character.
pub open spec fn ascii_upper(c: char) -> char {
    if 'a' <= c && c <= 'z' {
        ((c as u32) - 32) as char
    } else {
        c
    }
}

/// A text with its ASCII letters in upper case.
pub open spec fn ascii_uppercase(s: Seq<char>) -> Seq<char> {
    s.map_values(|c: char| ascii_upper(c))
}

/// Two texts are equal when ASCII letters are compared without case.
pub open spec fn eq_ignore_ascii_case(a: Seq<char>, b: Seq<char>) -> bool {
    &&& a.len() == b.len()
    &&& forall|i: int| 0 <= i < a.len() ==> ascii_lower(#[trigger] a[i]) == ascii_lower(b[i])
}

pub open spec fn is_digit(c: char) -> bool {
    '0' <= c && c <= '9'
}

pub open spec fn all_digits(s: Seq<char>) -> bool {
    forall|i: int| 0 <= i < s.len() ==> is_digit(#[trigger] s[i])
}

pub open spec fn digit_value(c: char) -> nat {
    ((c as u32) - 48) as nat
}

pub open spec fn digit_char(d: nat) -> char {
    ((d + 48) as u32) as char
}

/// The number that a string of decimal digits denotes.
pub open spec fn digits_value(s: Seq<char>) -> nat
    decreases s.len(),
{
    if s.len() == 0 {
        0
    } else {
        digits_value(s.drop_last()) * 10 + digit_value(s.last())
    }
}

/// The shortest decimal text of a natural number.
pub open spec fn nat_text(n: nat) -> Seq<char>
    decreases n,
{
    if n < 10 {
        seq![digit_char(n)]
    } else {
        nat_text(n / 10).push(digit_char(n % 10))
    }
}

/// Decimal text of an integer, with a leading `-` when negative.
pub open spec fn int_text(v: int) -> Seq<char> {
    if v < 0 {
        seq!['-'] + nat_text((-v) as nat)
    } else {
        nat_text(v as nat)
    }
}

/// How an optional number is shown in debugging output: `Some(12)` or `None`.
pub open spec fn option_text(v: Option<int>) -> Seq<char> {
    match v {
        Some(x) => "Some("@ + int_text(x) + ")"@,
        None => "None"@,
    }
}

/// The sign and the digit part of an integer literal; a sign is one leading
/// `+`, or one leading `-` where negative numbers are accepted.
pub open spec fn sign_split(s: Seq<char>, signed: bool) -> (bool, Seq<char>) {
    if s.len() > 0 && s[0] == '+' {
        (false, s.drop_first())
    } else if signed && s.len() > 0 && s[0] == '-' {
        (true, s.drop_first())
    } else {
        (false, s)
    }
}

/// What parsing a decimal integer gives: an optional sign, then at least one
/// digit and nothing else, and a value from `-neg_max` to `pos_max`.
pub open spec fn parse_int(s: Seq<char>, signed: bool, pos_max: int, neg_max: int) -> Option<int> {
    let (neg, body) = sign_split(s, signed);
    if body.len() == 0 || !all_digits(body) {
        None
    } else if neg {
        if digits_value(body) <= neg_max {
            Some(-digits_value(body))
        } else {
            None
        }
    } else {
        if digits_value(body) <= pos_max {
            Some(digits_value(body) as int)
        } else {
            None
        }
    }
}

pub open spec fn parse_u32(s: Seq<char>) -> Option<int> {
    parse_int(s, false, u32::MAX as int, 0)
}

pub open spec fn parse_u64(s: Seq<char>) -> Option<int> {
    parse_int(s, false, u64::MAX as int, 0)
}

pub open spec fn parse_u128(s: Seq<char>) -> Option<int> {
    parse_int(s, false, u128::MAX as int, 0)
}

pub open spec fn parse_i32(s: Seq<char>) -> Option<int> {
    parse_int(s, true, i32::MAX as int, 0x8000_0000)
}

pub open spec fn parse_i64(s: Seq<char>) -> Option<int> {
    parse_int(s, true, i64::MAX as int, 0x8000_0000_0000_0000)
}

/// The pieces between the occurrences of `sep`; there is always at least one.
pub open spec fn split_on(s: Seq<char>, sep: char) -> Seq<Seq<char>>
    decreases s.len(),
{
    if s.len() == 0 {
        seq![Seq::<char>::empty()]
    } else {
        let prev = split_on(s.drop_last(), sep);
        if s.last() == sep {
            prev.push(Seq::<char>::empty())
        } else {
            prev.update(prev.len() - 1, prev.last().push(s.last()))
        }
    }
}

/// Characters with the Unicode `White_Space` property.
pub open spec fn is_whitespace(c: char) -> bool {
    ||| ('\u{9}' <= c && c <= '\u{d}')
    ||| c == ' '
    ||| c == '\u{85}'
    ||| c == '\u{a0}'
    ||| c == '\u{1680}'
    ||| ('\u{2000}' <= c && c <= '\u{200a}')
    ||| c == '\u{2028}'
    ||| c == '\u{2029}'
    ||| c == '\u{202f}'
    ||| c == '\u{205f}'
    ||| c == '\u{3000}'
}

pub open spec fn trim_start(s: Seq<char>) -> Seq<char>
    decreases s.len(),
{
    if s.len() > 0 && is_whitespace(s[0]) {
        trim_start(s.drop_first())
    } else {
        s
    }
}

pub open spec fn trim_end(s: Seq<char>) -> Seq<char>
    decreases s.len(),
{
    if s.len() > 0 && is_whitespace(s.last()) {
        trim_end(s.drop_last())
    } else {
        s
    }
}

/// The text without leading and trailing whitespace.
pub open spec fn trim(s: Seq<char>) -> Seq<char> {
    trim_end(trim_start(s))
}

/// The text without the trailing characters equal to `c`.
pub open spec fn trim_end_char(s: Seq<char>, c: char) -> Seq<char>
    decreases s.len(),
{
    if s.len() > 0 && s.last() == c {
        trim_end_char(s.drop_last(), c)
    } else {
        s
    }
}

/// The entries of a comma-separated list, each with surrounding whitespace removed.
pub open spec fn comma_list(s: Seq<char>) -> Seq<Seq<char>> {
    split_on(s, ',').map_values(|p: Seq<char>| trim(p))
}

/// The numbers of a comma-separated list, skipping the entries that are not
/// 64-bit integers.
pub open spec fn parsed_i64_list(pieces: Seq<Seq<char>>) -> Seq<i64>
    decreases pieces.len(),
{
    if pieces.len() == 0 {
        Seq::empty()
    } else {
        let rest = parsed_i64_list(pieces.drop_last());
        match parse_i64(pieces.last()) {
            Some(v) => rest.push(v as i64),
            None => rest,
        }
    }
}

/// Decimal texts of the numbers joined by commas.
pub open spec fn join_ints(v: Seq<i64>) -> Seq<char>
    decreases v.len(),
{
    if v.len() == 0 {
        Seq::empty()
    } else if v.len() == 1 {
        int_text(v[0] as int)
    } else {
        join_ints(v.drop_last()) + seq![','] + int_text(v.last() as int)
    }
}

// ---------------------------------------------------------------------
// std operations that vstd leaves without a contract
// ---------------------------------------------------------------------
/// `String::push`: the string gains the character at its end.
#[verifier::external_body]
pub(crate) fn push_char(s: &mut String, c: char)
    ensures
        final(s)@ == old(s)@.push(c),
{
    s.push(c);
}

/// `String::pop`: the last character is removed and handed back, or nothing
/// happens to an empty string.
#[verifier::external_body]
pub(crate) fn pop_char(s: &mut String) -> (r: Option<char>)
    ensures
        old(s)@.len() == 0 ==> r is None && final(s)@ == old(s)@,
        old(s)@.len() > 0 ==> r == Some(old(s)@.last()) && final(s)@ == old(s)@.drop_last(),
{
    s.pop()
}

// ---------------------------------------------------------------------
// Building strings
// ---------------------------------------------------------------------
/// An owned copy of a text.
pub fn owned(s: &str) -> (r: String)
    ensures
        r@ == s@,
{
    s.to_owned()
}

/// Whether two texts are equal.
pub fn text_eq(a: &str, b: &str) -> (r: bool)
    ensures
        r == (a@ == b@),
{
    let x = owned(a);
    let y = owned(b);
    x == y
}

/// The characters of a text.
pub fn chars_of(s: &str) -> (v: Vec<char>)
    ensures
        v@ == s@,
{
    let mut v: Vec<char> = Vec::new();
    for c in it: s.chars()
        invariant
            it.seq() == s@,
            v@ == s@.take(it.index()),
    {
        proof {
            assert(s@.take(it.index() + 1) == v@.push(c));
        }
        v.push(c);
    }
    assert(v@ == s@.take(s@.len() as int));
    v
}

/// Appends the characters `v[lo..hi]` to `s`.
pub fn push_range(s: &mut String, v: &Vec<char>, lo: usize, hi: usize)
    requires
        lo <= hi <= v@.len(),
    ensures
        final(s)@ == old(s)@ + v@.subrange(lo as int, hi as int),
{
    let mut i = lo;
    while i < hi
        invariant
            lo <= i <= hi <= v@.len(),
            s@ == old(s)@ + v@.subrange(lo as int, i as int),
        decreases hi - i,
    {
        push_char(s, v[i]);
        proof {
            assert(v@.subrange(lo as int, i + 1) == v@.subrange(lo as int, i as int).push(v@[i as int]));
        }
        i = i + 1;
    }
}

/// The string made of the characters `v[lo..hi]`.
pub fn string_of_range(v: &Vec<char>, lo: usize, hi: usize) -> (r: String)
    requires
        lo <= hi <= v@.len(),
    ensures
        r@ == v@.subrange(lo as int, hi as int),
{
    let mut s = String::new();
    push_range(&mut s, v, lo, hi);
    s
}

/// Appends a text to a string.
pub fn push_str(s: &mut String, t: &str)
    ensures
        final(s)@ == old(s)@ + t@,
{
    let v = chars_of(t);
    push_range(s, &v, 0, v.len());
    assert(v@.subrange(0, v@.len() as int) == v@);
}

/// ASCII lower-casing of one character.
pub fn to_ascii_lower(c: char) -> (r: char)
    ensures
        r == ascii_lower(c),
{
    if 'A' <= c && c <= 'Z' {
        let b: u8 = ((c as u32) + 32) as u8;
        b as char
    } else {
        c
    }
}

/// `a` and `b` are equal when ASCII letters are compared without case.
pub fn equal_ignore_ascii_case(a: &str, b: &str) -> (r: bool)
    ensures
        r == eq_ignore_ascii_case(a@, b@),
{
    let x = chars_of(a);
    let y = chars_of(b);
    if x.len() != y.len() {
        return false;
    }
    let mut i: usize = 0;
    while i < x.len()
        invariant
            x@ == a@,
            y@ == b@,
            x@.len() == y@.len(),
            i <= x@.len(),
            forall|j: int| 0 <= j < i ==> ascii_lower(#[trigger] x@[j]) == ascii_lower(y@[j]),
        decreases x@.len() - i,
    {
        if to_ascii_lower(x[i]) != to_ascii_lower(y[i]) {
            return false;
        }
        i = i + 1;
    }
    true
}

// ---------------------------------------------------------------------
// Decimal formatting
// ---------------------------------------------------------------------
fn digit_to_char(d: u64) -> (c: char)
    requires
        d < 10,
    ensures
        c == digit_char(d as nat),
{
    let b: u8 = (d + 48) as u8;
    b as char
}

/// Appends the decimal text of `v`.
pub fn push_u64(s: &mut String, v: u64)
    ensures
        final(s)@ == old(s)@ + nat_text(v as nat),
    decreases v,
{
    if v >= 10 {
        push_u64(s, v / 10);
    }
    push_char(s, digit_to_char(v % 10));
    proof {
        reveal_with_fuel(nat_text, 2);
    }
}

/// Appends the decimal text of `v`, with a leading `-` when negative.
pub fn push_i64(s: &mut String, v: i64)
    ensures
        final(s)@ == old(s)@ + int_text(v as int),
{
    if v < 0 {
        push_char(s, '-');
        let m: u64 = if v == i64::MIN {
            0x8000_0000_0000_0000u64
        } else {
            (-v) as u64
        };
        push_u64(s, m);
        assert(old(s)@ + int_text(v as int) == old(s)@.push('-') + nat_text(m as nat));
    } else {
        push_u64(s, v as u64);
    }
}

/// The decimal text of `v`.
pub fn u64_to_text(v: u64) -> (r: String)
    ensures
        r@ == nat_text(v as nat),
{
    let mut s = String::new();
    push_u64(&mut s, v);
    s
}

/// The decimal text of `v`, with a leading `-` when negative.
pub fn i64_to_text(v: i64) -> (r: String)
    ensures
        r@ == int_text(v as int),
{
    let mut s = String::new();
    push_i64(&mut s, v);
    s
}

/// Appends `Some(v)` or `None`, as debugging output shows an optional number.
pub fn push_option_u64(s: &mut String, v: Option<u64>)
    ensures
        final(s)@ == old(s)@ + option_text(
            match v {
                Some(x) => Some(x as int),
                None => None,
            },
        ),
{
    match v {
        Some(x) => {
            push_str(s, "Some(");
            push_u64(s, x);
            push_str(s, ")");
        },
        None => {
            push_str(s, "None");
        },
    }
}

/// The numbers joined by commas.
pub fn join_i64(v: &Vec<i64>) -> (r: String)
    ensures
        r@ == join_ints(v@),
{
    let mut s = String::new();
    let mut i: usize = 0;
    while i < v.len()
        invariant
            i <= v@.len(),
            s@ == join_ints(v@.take(i as int)),
        decreases v@.len() - i,
    {
        if i > 0 {
            push_char(&mut s, ',');
        }
        push_i64(&mut s, v[i]);
        proof {
            let t = v@.take(i + 1);
            assert(t.drop_last() == v@.take(i as int));
            if i > 0 {
                assert(s@ == join_ints(t.drop_last()) + seq![','] + int_text(t.last() as int));
            } else {
                assert(s@ == int_text(t[0] as int));
            }
        }
        i = i + 1;
    }
    assert(v@.take(v@.len() as int) == v@);
    s
}

// ---------------------------------------------------------------------
// Decimal parsing
// ---------------------------------------------------------------------
proof fn lemma_digits_value_push(s: Seq<char>, c: char)
    ensures
        digits_value(s.push(c)) == digits_value(s) * 10 + digit_value(c),
{
    assert(s.push(c).drop_last() == s);
}

/// Parses `v[lo..hi]` as an optionally signed decimal integer whose
/// magnitude is at most `pos_max` (or `neg_max` when negative); gives the
/// sign and the magnitude.
fn parse_int_range(v: &Vec<char>, signed: bool, pos_max: u128, neg_max: u128) -> (r: Option<(bool, u128)>)
    ensures
        match parse_int(v@, signed, pos_max as int, neg_max as int) {
            Some(x) => r matches Some((neg, m)) && x == (if neg { -(m as int) } else { m as int }),
            None => r is None,
        },
{
    let n = v.len();
    let mut start: usize = 0;
    let mut neg = false;
    if n > 0 && v[0] == '+' {
        start = 1;
    } else if signed && n > 0 && v[0] == '-' {
        start = 1;
        neg = true;
    }
    let ghost body = sign_split(v@, signed).1;
    assert(body == v@.subrange(start as int, n as int));
    assert(neg == sign_split(v@, signed).0);
    if start == n {
        return None;
    }
    let max: u128 = if neg { neg_max } else { pos_max };
    let mut value: u128 = 0;
    let mut over = false;
    let mut i = start;
    while i < n
        invariant
            start <= i <= n == v@.len(),
            body == v@.subrange(start as int, n as int),
            body == sign_split(v@, signed).1,
            neg == sign_split(v@, signed).0,
            max == (if neg { neg_max } else { pos_max }),
            all_digits(v@.subrange(start as int, i as int)),
            over ==> digits_value(v@.subrange(start as int, i as int)) > max,
            !over ==> value == digits_value(v@.subrange(start as int, i as int)) && value <= max,
        decreases n - i,
    {
        let c = v[i];
        if !('0' <= c && c <= '9') {
            assert(body[i - start] == c);
            assert(!is_digit(body[i - start]));
            assert(!all_digits(body));
            return None;
        }
        let d: u128 = ((c as u32) - 48) as u128;
        let ghost prefix = v@.subrange(start as int, i as int);
        proof {
            assert(v@.subrange(start as int, i + 1) == prefix.push(c));
            lemma_digits_value_push(prefix, c);
        }
        if !over {
            if d > max || value > (max - d) / 10 {
                over = true;
                proof {
                    if d <= max {
                        assert(value * 10 + d > max) by (nonlinear_arith)
                            requires
                                value > (max - d) / 10,
                                d <= max,
                        ;
                    }
                }
            } else {
                proof {
                    assert(value * 10 + d <= max) by (nonlinear_arith)
                        requires
                            value <= (max - d) / 10,
                            d <= max,
                    ;
                }
                value = value * 10 + d;
            }
        } else {
            proof {
                assert(digits_value(prefix) * 10 + d > max) by (nonlinear_arith)
                    requires
                        digits_value(prefix) > max,
                ;
            }
        }
        i = i + 1;
    }
    if over {
        None
    } else {
        Some((neg, value))
    }
}

/// Parses a text as a `u32`, with the rules of `str::parse`.
pub fn text_to_u32(s: &str) -> (r: Option<u32>)
    ensures
        match parse_u32(s@) {
            Some(x) => r == Some(x as u32),
            None => r is None,
        },
{
    let v = chars_of(s);
    match parse_int_range(&v, false, 0xffff_ffff, 0) {
        Some((_, m)) => Some(m as u32),
        None => None,
    }
}

/// Parses a text as a `u64`, with the rules of `str::parse`.
pub fn text_to_u64(s: &str) -> (r: Option<u64>)
    ensures
        match parse_u64(s@) {
            Some(x) => r == Some(x as u64),
            None => r is None,
        },
{
    let v = chars_of(s);
    match parse_int_range(&v, false, 0xffff_ffff_ffff_ffff, 0) {
        Some((_, m)) => Some(m as u64),
        None => None,
    }
}

/// Parses a text as a `u128`, with the rules of `str::parse`.
pub fn text_to_u128(s: &str) -> (r: Option<u128>)
    ensures
        match parse_u128(s@) {
            Some(x) => r == Some(x as u128),
            None => r is None,
        },
{
    let v = chars_of(s);
    match parse_int_range(&v, false, u128::MAX, 0) {
        Some((_, m)) => Some(m),
        None => None,
    }
}

/// Parses `v` as an `i64`, with the rules of `str::parse`.
pub fn chars_to_i64(v: &Vec<char>) -> (r: Option<i64>)
    ensures
        match parse_i64(v@) {
            Some(x) => r == Some(x as i64),
            None => r is None,
        },
{
    match parse_int_range(v, true, 0x7fff_ffff_ffff_ffff, 0x8000_0000_0000_0000) {
        Some((neg, m)) => {
            if neg {
                if m == 0x8000_0000_0000_0000 {
                    Some(i64::MIN)
                } else {
                    Some(-(m as i64))
                }
            } else {
                Some(m as i64)
            }
        },
        None => None,
    }
}

/// Parses a text as an `i64`, with the rules of `str::parse`.
pub fn text_to_i64(s: &str) -> (r: Option<i64>)
    ensures
        match parse_i64(s@) {
            Some(x) => r == Some(x as i64),
            None => r is None,
        },
{
    let v = chars_of(s);
    chars_to_i64(&v)
}

/// Parses a text as an `i32`, with the rules of `str::parse`.
pub fn text_to_i32(s: &str) -> (r: Option<i32>)
    ensures
        match parse_i32(s@) {
            Some(x) => r == Some(x as i32),
            None => r is None,
        },
{
    let v = chars_of(s);
    match parse_int_range(&v, true, 0x7fff_ffff, 0x8000_0000) {
        Some((neg, m)) => {
            if neg {
                if m == 0x8000_0000 {
                    Some(i32::MIN)
                } else {
                    Some(-(m as i32))
                }
            } else {
                Some(m as i32)
            }
        },
        None => None,
    }
}


// ---------------------------------------------------------------------
// Lists and trimming
// ---------------------------------------------------------------------
pub open spec fn views(r: Seq<Vec<char>>) -> Seq<Seq<char>> {
    r.map_values(|p: Vec<char>| p@)
}

pub proof fn lemma_split_nonempty(s: Seq<char>, sep: char)
    ensures
        split_on(s, sep).len() >= 1,
    decreases s.len(),
{
    if s.len() > 0 {
        lemma_split_nonempty(s.drop_last(), sep);
    }
}

/// The pieces of `v` between the occurrences of `sep`.
pub fn split_chars(v: &Vec<char>, sep: char) -> (r: Vec<Vec<char>>)
    ensures
        views(r@) == split_on(v@, sep),
{
    let mut pieces: Vec<Vec<char>> = Vec::new();
    let mut cur: Vec<char> = Vec::new();
    let mut i: usize = 0;
    while i < v.len()
        invariant
            i <= v@.len(),
            views(pieces@).push(cur@) == split_on(v@.take(i as int), sep),
        decreases v@.len() - i,
    {
        let c = v[i];
        let ghost t = v@.take(i + 1);
        proof {
            assert(t.drop_last() == v@.take(i as int));
            assert(t.last() == c);
        }
        if c == sep {
            let ghost old_pieces = pieces@;
            let ghost old_cur = cur@;
            pieces.push(cur);
            cur = Vec::new();
            proof {
                assert(views(pieces@) == views(old_pieces).push(old_cur));
                assert(views(pieces@).push(cur@) == views(old_pieces).push(old_cur).push(Seq::<char>::empty()));
            }
        } else {
            let ghost old_cur = cur@;
            cur.push(c);
            proof {
                let prev = views(pieces@).push(old_cur);
                assert(views(pieces@).push(cur@) == prev.update(prev.len() - 1, prev.last().push(c)));
            }
        }
        i = i + 1;
    }
    let ghost old_pieces = pieces@;
    let ghost last = cur@;
    pieces.push(cur);
    proof {
        assert(v@.take(v@.len() as int) == v@);
        assert(views(pieces@) == views(old_pieces).push(last));
    }
    pieces
}

pub fn is_whitespace_char(c: char) -> (r: bool)
    ensures
        r == is_whitespace(c),
{
    ('\u{9}' <= c && c <= '\u{d}') || c == ' ' || c == '\u{85}' || c == '\u{a0}' || c == '\u{1680}'
        || ('\u{2000}' <= c && c <= '\u{200a}') || c == '\u{2028}' || c == '\u{2029}' || c
        == '\u{202f}' || c == '\u{205f}' || c == '\u{3000}'
}

proof fn lemma_trim_start_skip(s: Seq<char>, k: int)
    requires
        0 <= k <= s.len(),
        forall|j: int| 0 <= j < k ==> is_whitespace(#[trigger] s[j]),
    ensures
        trim_start(s) == trim_start(s.subrange(k, s.len() as int)),
    decreases k,
{
    if k > 0 {
        let t = s.drop_first();
        assert(s.subrange(k, s.len() as int) == t.subrange(k - 1, t.len() as int));
        assert forall|j: int| 0 <= j < k - 1 implies is_whitespace(#[trigger] t[j]) by {
            assert(t[j] == s[j + 1]);
        }
        lemma_trim_start_skip(t, k - 1);
    } else {
        assert(s.subrange(0, s.len() as int) == s);
    }
}

proof fn lemma_trim_end_skip(s: Seq<char>, k: int)
    requires
        0 <= k <= s.len(),
        forall|j: int| k <= j < s.len() ==> is_whitespace(#[trigger] s[j]),
    ensures
        trim_end(s) == trim_end(s.subrange(0, k)),
    decreases s.len() - k,
{
    if k < s.len() {
        let t = s.drop_last();
        assert(s.subrange(0, k) == t.subrange(0, k));
        assert forall|j: int| k <= j < t.len() implies is_whitespace(#[trigger] t[j]) by {
            assert(t[j] == s[j]);
        }
        lemma_trim_end_skip(t, k);
    } else {
        assert(s.subrange(0, k) == s);
    }
}

/// The bounds of `v[lo..hi]` with leading and trailing whitespace removed.
pub fn trim_bounds(v: &Vec<char>, lo: usize, hi: usize) -> (r: (usize, usize))
    requires
        lo <= hi <= v@.len(),
    ensures
        lo <= r.0 <= r.1 <= hi,
        v@.subrange(r.0 as int, r.1 as int) == trim(v@.subrange(lo as int, hi as int)),
{
    let ghost s = v@.subrange(lo as int, hi as int);
    let mut a = lo;
    while a < hi && is_whitespace_char(v[a])
        invariant
            lo <= a <= hi <= v@.len(),
            s == v@.subrange(lo as int, hi as int),
            forall|j: int| lo <= j < a ==> is_whitespace(#[trigger] v@[j]),
        decreases hi - a,
    {
        a = a + 1;
    }
    let ghost t = v@.subrange(a as int, hi as int);
    proof {
        assert forall|j: int| 0 <= j < a - lo implies is_whitespace(#[trigger] s[j]) by {
            assert(s[j] == v@[lo + j]);
        }
        lemma_trim_start_skip(s, a - lo);
        assert(s.subrange(a - lo, s.len() as int) == t);
        if t.len() > 0 {
            assert(t[0] == v@[a as int]);
        }
        assert(trim_start(t) == t);
    }
    let mut b = hi;
    while b > a && is_whitespace_char(v[b - 1])
        invariant
            lo <= a <= b <= hi <= v@.len(),
            t == v@.subrange(a as int, hi as int),
            forall|j: int| b <= j < hi ==> is_whitespace(#[trigger] v@[j]),
        decreases b - a,
    {
        b = b - 1;
    }
    proof {
        assert forall|j: int| b - a <= j < t.len() implies is_whitespace(#[trigger] t[j]) by {
            assert(t[j] == v@[a + j]);
        }
        lemma_trim_end_skip(t, b - a);
        let u = t.subrange(0, b - a);
        assert(u == v@.subrange(a as int, b as int));
        if u.len() > 0 {
            assert(u.last() == v@[b - 1]);
        }
        assert(trim_end(u) == u);
    }
    (a, b)
}

/// A text without leading and trailing whitespace.
pub fn trim_text(s: &str) -> (r: String)
    ensures
        r@ == trim(s@),
{
    let v = chars_of(s);
    let (a, b) = trim_bounds(&v, 0, v.len());
    assert(v@.subrange(0, v@.len() as int) == v@);
    string_of_range(&v, a, b)
}

/// A text without its trailing characters equal to `c`.
pub fn trim_end_matching(s: &str, c: char) -> (r: String)
    ensures
        r@ == trim_end_char(s@, c),
{
    let v = chars_of(s);
    let mut b: usize = v.len();
    assert(v@.subrange(0, b as int) == s@);
    while b > 0 && v[b - 1] == c
        invariant
            b <= v@.len(),
            v@ == s@,
            trim_end_char(v@.subrange(0, b as int), c) == trim_end_char(s@, c),
        decreases b,
    {
        assert(v@.subrange(0, b as int).drop_last() == v@.subrange(0, b - 1));
        b = b - 1;
    }
    assert(v@.subrange(0, v@.len() as int) == v@);
    string_of_range(&v, 0, b)
}

/// Whether `item` is one of the entries of the comma-separated `list`,
/// each entry taken without surrounding whitespace.
pub fn comma_list_contains(list: &str, item: &str) -> (r: bool)
    ensures
        r == comma_list(list@).contains(item@),
{
    let v = chars_of(list);
    let w = chars_of(item);
    let pieces = split_chars(&v, ',');
    let ghost entries = comma_list(list@);
    assert(entries.len() == pieces@.len());
    let mut i: usize = 0;
    while i < pieces.len()
        invariant
            i <= pieces@.len(),
            w@ == item@,
            entries == comma_list(list@),
            views(pieces@) == split_on(list@, ','),
            entries.len() == pieces@.len(),
            forall|j: int| 0 <= j < i ==> entries[j] != item@,
        decreases pieces@.len() - i,
    {
        let p = &pieces[i];
        let (a, b) = trim_bounds(p, 0, p.len());
        proof {
            assert(p@.subrange(0, p@.len() as int) == p@);
            assert(views(pieces@)[i as int] == p@);
            assert(entries[i as int] == trim(p@));
        }
        if b - a == w.len() {
            let mut k: usize = 0;
            while k < w.len() && p[a + k] == w[k]
                invariant
                    a <= b <= p@.len(),
                    b - a == w@.len(),
                    k <= w@.len(),
                    forall|m: int| 0 <= m < k ==> p@[a + m] == w@[m],
                decreases w@.len() - k,
            {
                k = k + 1;
            }
            if k == w.len() {
                proof {
                    assert(p@.subrange(a as int, b as int) == w@);
                    assert(entries[i as int] == item@);
                }
                return true;
            }
            proof {
                assert(p@.subrange(a as int, b as int)[k as int] != w@[k as int]);
                assert(entries[i as int] != item@);
            }
        } else {
            assert(entries[i as int].len() != item@.len());
        }
        i = i + 1;
    }
    false
}

/// The 64-bit integers of a comma-separated list; entries that are not
/// integers are skipped.
pub fn parse_i64_list(s: &str) -> (r: Vec<i64>)
    ensures
        r@ == parsed_i64_list(split_on(s@, ',')),
{
    let v = chars_of(s);
    let pieces = split_chars(&v, ',');
    let ghost all = views(pieces@);
    let mut out: Vec<i64> = Vec::new();
    let mut i: usize = 0;
    while i < pieces.len()
        invariant
            i <= pieces@.len(),
            all == views(pieces@),
            all == split_on(s@, ','),
            out@ == parsed_i64_list(all.take(i as int)),
        decreases pieces@.len() - i,
    {
        let x = chars_to_i64(&pieces[i]);
        proof {
            let t = all.take(i + 1);
            assert(t.drop_last() == all.take(i as int));
            assert(t.last() == pieces@[i as int]@);
        }
        match x {
            Some(val) => {
                out.push(val);
            },
            None => {},
        }
        i = i + 1;
    }
    assert(all.take(all.len() as int) == all);
    out
}


/// Every entry of a list is a 64-bit integer.
pub open spec fn all_i64(pieces: Seq<Seq<char>>) -> bool {
    forall|i: int| 0 <= i < pieces.len() ==> (#[trigger] parse_i64(pieces[i])) is Some
}

/// The 64-bit integers of a comma-separated list, or `None` if an entry is
/// not one.
pub fn parse_i64_list_strict(s: &str) -> (r: Option<Vec<i64>>)
    ensures
        r is Some <==> all_i64(split_on(s@, ',')),
        r matches Some(v) ==> v@ == parsed_i64_list(split_on(s@, ',')) && v@.len() == split_on(s@, ',').len(),
{
    let v = chars_of(s);
    let pieces = split_chars(&v, ',');
    let ghost all = views(pieces@);
    let mut out: Vec<i64> = Vec::new();
    let mut i: usize = 0;
    while i < pieces.len()
        invariant
            i <= pieces@.len(),
            all == views(pieces@),
            all == split_on(s@, ','),
            out@ == parsed_i64_list(all.take(i as int)),
            out@.len() == i,
            all_i64(all.take(i as int)),
        decreases pieces@.len() - i,
    {
        let x = chars_to_i64(&pieces[i]);
        proof {
            let t = all.take(i + 1);
            assert(t.drop_last() == all.take(i as int));
            assert(t.last() == pieces@[i as int]@);
        }
        match x {
            Some(val) => {
                out.push(val);
                proof {
                    let t = all.take(i + 1);
                    assert forall|j: int| 0 <= j < t.len() implies (#[trigger] parse_i64(t[j])) is Some by {
                        if j < i {
                            assert(t[j] == all.take(i as int)[j]);
                        }
                    }
                }
            },
            None => {
                proof {
                    assert(parse_i64(all[i as int]) is None);
                }
                return None;
            },
        }
        i = i + 1;
    }
    assert(all.take(all.len() as int) == all);
    Some(out)
}

// ---------------------------------------------------------------------
// Round trips
// ---------------------------------------------------------------------
proof fn lemma_digit(d: nat)
    requires
        d < 10,
    ensures
        digit_value(digit_char(d)) == d,
        is_digit(digit_char(d)),
{
    assert(((d + 48) as u32) as char as u32 == d + 48);
}

proof fn lemma_nat_text(n: nat)
    ensures
        nat_text(n).len() >= 1,
        all_digits(nat_text(n)),
        digits_value(nat_text(n)) == n,
    decreases n,
{
    if n < 10 {
        lemma_digit(n);
        let t = seq![digit_char(n)];
        assert(t.drop_last().len() == 0);
        assert(digits_value(t.drop_last()) == 0);
        assert(t.last() == digit_char(n));
        assert(digits_value(t) == digits_value(t.drop_last()) * 10 + digit_value(t.last()));
    } else {
        lemma_nat_text(n / 10);
        lemma_digit(n % 10);
        let p = nat_text(n / 10);
        let t = p.push(digit_char(n % 10));
        assert(t.drop_last() == p);
        assert(digits_value(t) == digits_value(p) * 10 + digit_value(t.last()));
        assert((n / 10) * 10 + n % 10 == n);
        assert forall|i: int| 0 <= i < t.len() implies is_digit(#[trigger] t[i]) by {
            if i < p.len() {
                assert(t[i] == p[i]);
            }
        }
    }
}

/// The decimal text of a 64-bit integer parses back to it.
pub proof fn lemma_int_text_round_trip(v: i64)
    ensures
        parse_i64(int_text(v as int)) == Some(v as int),
{
    if v < 0 {
        let m = (-(v as int)) as nat;
        lemma_nat_text(m);
        let t = seq!['-'] + nat_text(m);
        assert(t[0] == '-');
        assert(t.drop_first() == nat_text(m));
    } else {
        lemma_nat_text(v as nat);
        assert(is_digit(nat_text(v as nat)[0]));
    }
}

/// Splitting text that holds no separator after a prefix only lengthens
/// the prefix's last piece.
proof fn lemma_split_append(p: Seq<char>, t: Seq<char>, sep: char)
    requires
        !t.contains(sep),
    ensures
        split_on(p + t, sep) == split_on(p, sep).update(
            split_on(p, sep).len() - 1,
            split_on(p, sep).last() + t,
        ),
    decreases t.len(),
{
    lemma_split_nonempty(p, sep);
    if t.len() == 0 {
        assert(p + t == p);
        assert(split_on(p, sep).last() + t == split_on(p, sep).last());
        assert(split_on(p, sep).update(split_on(p, sep).len() - 1, split_on(p, sep).last()) == split_on(p, sep));
    } else {
        let t2 = t.drop_last();
        assert(!t2.contains(sep)) by {
            if t2.contains(sep) {
                let j = choose|j: int| 0 <= j < t2.len() && t2[j] == sep;
                assert(t[j] == sep);
            }
        }
        lemma_split_append(p, t2, sep);
        assert((p + t).drop_last() == p + t2);
        assert((p + t).last() == t.last());
        assert(t.last() != sep) by {
            assert(t[t.len() - 1] == t.last());
        }
        lemma_split_nonempty(p + t2, sep);
        let sp = split_on(p, sep);
        let prev = split_on(p + t2, sep);
        assert(prev == sp.update(sp.len() - 1, sp.last() + t2));
        assert(prev.len() == sp.len());
        assert(prev.last() == sp.last() + t2);
        assert(split_on(p + t, sep) == prev.update(prev.len() - 1, prev.last().push(t.last())));
        assert((sp.last() + t2).push(t.last()) == sp.last() + t);
    }
}

proof fn lemma_int_text_no_comma(v: int)
    ensures
        !int_text(v).contains(','),
{
    let n: nat = if v < 0 { (-v) as nat } else { v as nat };
    lemma_nat_text(n);
    if int_text(v).contains(',') {
        let j = choose|j: int| 0 <= j < int_text(v).len() && int_text(v)[j] == ',';
        if v < 0 {
            if j > 0 {
                assert(int_text(v)[j] == nat_text(n)[j - 1]);
                assert(is_digit(nat_text(n)[j - 1]));
            }
        } else {
            assert(is_digit(nat_text(n)[j]));
        }
    }
}

proof fn lemma_split_join(v: Seq<i64>)
    requires
        v.len() >= 1,
    ensures
        split_on(join_ints(v), ',') == v.map_values(|x: i64| int_text(x as int)),
    decreases v.len(),
{
    let e = Seq::<char>::empty();
    if v.len() == 1 {
        lemma_int_text_no_comma(v[0] as int);
        lemma_split_append(e, int_text(v[0] as int), ',');
        assert(e + int_text(v[0] as int) == int_text(v[0] as int));
        assert(split_on(e, ',') == seq![e]);
        assert(e + int_text(v[0] as int) == int_text(v[0] as int));
    } else {
        let p = join_ints(v.drop_last());
        let last = int_text(v.last() as int);
        lemma_split_join(v.drop_last());
        lemma_int_text_no_comma(v.last() as int);
        let pc = p + seq![','];
        assert(pc.drop_last() == p);
        assert(split_on(pc, ',') == split_on(p, ',').push(e));
        lemma_split_append(pc, last, ',');
        assert(join_ints(v) == pc + last);
        assert(e + last == last);
        assert(v.map_values(|x: i64| int_text(x as int)) == v.drop_last().map_values(|x: i64| int_text(x as int)).push(
            last,
        ));
    }
}

/// Every entry of a joined non-empty list of numbers is a number.
pub proof fn lemma_join_all_i64(v: Seq<i64>)
    requires
        v.len() >= 1,
    ensures
        all_i64(split_on(join_ints(v), ',')),
{
    lemma_split_join(v);
    let pieces = v.map_values(|x: i64| int_text(x as int));
    assert forall|i: int| 0 <= i < pieces.len() implies (#[trigger] parse_i64(pieces[i])) is Some by {
        lemma_int_text_round_trip(v[i]);
    }
}

proof fn lemma_parsed_texts(v: Seq<i64>)
    ensures
        parsed_i64_list(v.map_values(|x: i64| int_text(x as int))) == v,
    decreases v.len(),
{
    if v.len() > 0 {
        let pieces = v.map_values(|x: i64| int_text(x as int));
        lemma_parsed_texts(v.drop_last());
        assert(pieces.drop_last() == v.drop_last().map_values(|x: i64| int_text(x as int)));
        lemma_int_text_round_trip(v.last());
        assert(v.drop_last().push(v.last()) == v);
    }
}

/// A list of 64-bit integers joined by commas parses back to the same list.
pub proof fn lemma_join_parse_round_trip(v: Seq<i64>)
    ensures
        parsed_i64_list(split_on(join_ints(v), ',')) == v,
{
    if v.len() == 0 {
        let e = Seq::<char>::empty();
        assert(join_ints(v) == e);
        assert(split_on(e, ',') == seq![e]);
        assert(parse_i64(e) is None);
        assert(seq![e].drop_last() == Seq::<Seq<char>>::empty());
        assert(parsed_i64_list(seq![e]) == parsed_i64_list(Seq::<Seq<char>>::empty()));
        assert(v == Seq::<i64>::empty());
    } else {
        lemma_split_join(v);
        lemma_parsed_texts(v);
    }
}

} // verus!
