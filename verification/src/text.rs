//! Character-level string helpers used by the classification rules.
use vstd::prelude::*;

verus! {

/// `n` occurs in `h` starting at position `i`.
pub open spec fn occurs_at(h: Seq<char>, n: Seq<char>, i: int) -> bool {
    &&& 0 <= i
    &&& i + n.len() <= h.len()
    &&& h.subrange(i, i + n.len()) == n
}

/// `n` is a substring of `h`.
pub open spec fn seq_contains(h: Seq<char>, n: Seq<char>) -> bool {
    exists|i: int| occurs_at(h, n, i)
}

/// `h` ends with `n`.
pub open spec fn seq_ends_with(h: Seq<char>, n: Seq<char>) -> bool {
    n.len() <= h.len() && occurs_at(h, n, h.len() - n.len())
}

/// `h` starts with `n`.
pub open spec fn seq_starts_with(h: Seq<char>, n: Seq<char>) -> bool {
    n.len() <= h.len() && occurs_at(h, n, 0)
}

/// The characters of a string, in order.
pub fn to_chars(s: &str) -> (v: Vec<char>)
    ensures
        v@ == s@,
{
    let mut v: Vec<char> = Vec::new();
    for c in it: s.chars()
        invariant
            v@ == it.seq().take(it.index() as int),
            it.seq() == s@,
    {
        v.push(c);
    }
    assert(v@ =~= s@);
    v
}

/// Whether `n` occurs in `h` at position `i`.
pub fn chars_match_at(h: &Vec<char>, n: &Vec<char>, i: usize) -> (r: bool)
    requires
        i + n.len() <= h.len(),
    ensures
        r == occurs_at(h@, n@, i as int),
{
    let mut j: usize = 0;
    while j < n.len()
        invariant
            j <= n.len(),
            i + n.len() <= h.len(),
            forall|k: int| 0 <= k < j ==> h@[i + k] == n@[k],
        decreases n.len() - j,
    {
        if h[i + j] != n[j] {
            assert(h@.subrange(i as int, i + n.len())[j as int] != n@[j as int]);
            return false;
        }
        j += 1;
    }
    assert(h@.subrange(i as int, i + n.len()) =~= n@);
    true
}

/// Whether `n` is a substring of `h`.
pub fn chars_contain(h: &Vec<char>, n: &Vec<char>) -> (r: bool)
    ensures
        r == seq_contains(h@, n@),
{
    if n.len() > h.len() {
        return false;
    }
    let last = h.len() - n.len();
    let mut i: usize = 0;
    loop
        invariant
            last == h.len() - n.len(),
            i <= last,
            forall|k: int| 0 <= k < i ==> !occurs_at(h@, n@, k),
        decreases last - i,
    {
        if chars_match_at(h, n, i) {
            return true;
        }
        if i == last {
            assert forall|k: int| !occurs_at(h@, n@, k) by {
                if 0 <= k && k + n@.len() <= h@.len() {
                    assert(k <= i);
                }
            }
            return false;
        }
        i += 1;
    }
}

/// Whether the string `h` contains the string `n`.
pub fn contains(h: &str, n: &str) -> (r: bool)
    ensures
        r == seq_contains(h@, n@),
{
    let hv = to_chars(h);
    let nv = to_chars(n);
    chars_contain(&hv, &nv)
}

/// Whether the string `h` ends with the string `n`.
pub fn ends_with(h: &str, n: &str) -> (r: bool)
    ensures
        r == seq_ends_with(h@, n@),
{
    let hv = to_chars(h);
    let nv = to_chars(n);
    if nv.len() > hv.len() {
        return false;
    }
    chars_match_at(&hv, &nv, hv.len() - nv.len())
}

/// Whether the string `h` starts with the string `n`.
pub fn starts_with(h: &str, n: &str) -> (r: bool)
    ensures
        r == seq_starts_with(h@, n@),
{
    let hv = to_chars(h);
    let nv = to_chars(n);
    if nv.len() > hv.len() {
        return false;
    }
    chars_match_at(&hv, &nv, 0)
}

/// Whether two strings hold the same characters.
pub fn str_eq(a: &str, b: &str) -> (r: bool)
    ensures
        r == (a@ == b@),
{
    let av = to_chars(a);
    let bv = to_chars(b);
    if av.len() != bv.len() {
        return false;
    }
    let r = chars_match_at(&av, &bv, 0);
    proof {
        if r {
            assert(av@.subrange(0, av@.len() as int) =~= av@);
        } else if av@ == bv@ {
            assert(av@.subrange(0, bv@.len() as int) =~= bv@);
        }
    }
    r
}

/// Lexicographic order of character sequences by code point (the order of
/// Rust's `String` comparison, since UTF-8 preserves code point order).
pub open spec fn seq_lt(a: Seq<char>, b: Seq<char>) -> bool
    decreases a.len(),
{
    if a.len() == 0 {
        b.len() > 0
    } else if b.len() == 0 {
        false
    } else if a[0] != b[0] {
        (a[0] as int) < (b[0] as int)
    } else {
        seq_lt(a.drop_first(), b.drop_first())
    }
}

/// `seq_lt` is irreflexive.
pub proof fn lemma_seq_lt_irreflexive(a: Seq<char>)
    ensures
        !seq_lt(a, a),
    decreases a.len(),
{
    if a.len() > 0 {
        lemma_seq_lt_irreflexive(a.drop_first());
    }
}

/// Two different sequences are ordered one way or the other, never both.
pub proof fn lemma_seq_lt_total(a: Seq<char>, b: Seq<char>)
    ensures
        a != b ==> (seq_lt(a, b) || seq_lt(b, a)),
        !(seq_lt(a, b) && seq_lt(b, a)),
    decreases a.len(),
{
    if a.len() > 0 && b.len() > 0 {
        if a[0] == b[0] {
            lemma_seq_lt_total(a.drop_first(), b.drop_first());
            if a != b {
                assert(a.drop_first() != b.drop_first()) by {
                    if a.drop_first() == b.drop_first() {
                        assert(a =~= seq![a[0]] + a.drop_first());
                        assert(b =~= seq![b[0]] + b.drop_first());
                    }
                }
            }
        } else {
            assert((a[0] as int) != (b[0] as int));
        }
    } else if a.len() == 0 && b.len() == 0 {
        assert(a =~= b);
    }
}

/// `seq_lt` is transitive.
pub proof fn lemma_seq_lt_transitive(a: Seq<char>, b: Seq<char>, c: Seq<char>)
    requires
        seq_lt(a, b),
        seq_lt(b, c),
    ensures
        seq_lt(a, c),
    decreases a.len(),
{
    if a.len() > 0 && b.len() > 0 && c.len() > 0 {
        if a[0] == b[0] && b[0] == c[0] {
            lemma_seq_lt_transitive(a.drop_first(), b.drop_first(), c.drop_first());
        }
    }
}

/// Whether `a` comes strictly before `b` in code point order.
pub fn str_less(a: &str, b: &str) -> (r: bool)
    ensures
        r == seq_lt(a@, b@),
{
    let av = to_chars(a);
    let bv = to_chars(b);
    let mut i: usize = 0;
    assert(av@.skip(0) =~= av@);
    assert(bv@.skip(0) =~= bv@);
    loop
        invariant
            av@ == a@,
            bv@ == b@,
            i <= av.len(),
            i <= bv.len(),
            seq_lt(av@, bv@) == seq_lt(av@.skip(i as int), bv@.skip(i as int)),
        decreases av.len() - i,
    {
        assert(av@.skip(i as int).len() == av.len() - i);
        assert(bv@.skip(i as int).len() == bv.len() - i);
        if i == av.len() {
            assert(seq_lt(av@.skip(i as int), bv@.skip(i as int)) == (bv@.skip(i as int).len()
                > 0));
            return i < bv.len();
        }
        if i == bv.len() {
            assert(!seq_lt(av@.skip(i as int), bv@.skip(i as int)));
            return false;
        }
        let (x, y) = (av[i], bv[i]);
        assert(av@.skip(i as int)[0] == x);
        assert(bv@.skip(i as int)[0] == y);
        if x != y {
            return x < y;
        }
        assert(av@.skip(i as int).drop_first() =~= av@.skip(i + 1));
        assert(bv@.skip(i as int).drop_first() =~= bv@.skip(i + 1));
        i += 1;
    }
}

/// Characters with the Unicode `White_Space` property (`char::is_whitespace`).
pub open spec fn is_white(c: char) -> bool {
    ||| '\u{9}' <= c <= '\u{d}'
    ||| c == ' '
    ||| c == '\u{85}'
    ||| c == '\u{a0}'
    ||| c == '\u{1680}'
    ||| '\u{2000}' <= c <= '\u{200a}'
    ||| c == '\u{2028}'
    ||| c == '\u{2029}'
    ||| c == '\u{202f}'
    ||| c == '\u{205f}'
    ||| c == '\u{3000}'
}

/// Whether a character is white space (Unicode `White_Space`).
pub fn char_is_white(c: char) -> (r: bool)
    ensures
        r == is_white(c),
{
    ('\u{9}' <= c && c <= '\u{d}') || c == ' ' || c == '\u{85}' || c == '\u{a0}' || c == '\u{1680}'
        || ('\u{2000}' <= c && c <= '\u{200a}') || c == '\u{2028}' || c == '\u{2029}' || c
        == '\u{202f}' || c == '\u{205f}' || c == '\u{3000}'
}

/// `s` without leading and trailing white space, as `str::trim`:
/// the part between the first and after the last non-white character.
#[verifier::opaque]
pub open spec fn trimmed(s: Seq<char>) -> Seq<char> {
    if forall|i: int| 0 <= i < s.len() ==> is_white(#[trigger] s[i]) {
        seq![]
    } else {
        let a = choose|a: int|
            0 <= a < s.len() && !is_white(s[a]) && forall|i: int| 0 <= i < a ==> is_white(#[trigger] s[i]);
        let b = choose|b: int|
            0 <= b < s.len() && !is_white(s[b]) && forall|i: int| b < i < s.len() ==> is_white(#[trigger] s[i]);
        s.subrange(a, b + 1)
    }
}

/// The characters of `s` without leading and trailing white space.
pub fn trim_chars(s: &Vec<char>) -> (r: Vec<char>)
    ensures
        r@ == trimmed(s@),
{
    reveal(trimmed);
    let mut a: usize = 0;
    while a < s.len() && char_is_white(s[a])
        invariant
            a <= s.len(),
            forall|i: int| 0 <= i < a ==> is_white(#[trigger] s@[i]),
        decreases s.len() - a,
    {
        a += 1;
    }
    if a == s.len() {
        return Vec::new();
    }
    let mut b: usize = s.len() - 1;
    while char_is_white(s[b])
        invariant
            a <= b < s.len(),
            !is_white(s@[a as int]),
            forall|i: int| b < i < s.len() ==> is_white(#[trigger] s@[i]),
        decreases b,
    {
        b -= 1;
    }
    let ghost aa = choose|x: int|
        0 <= x < s@.len() && !is_white(s@[x]) && forall|i: int| 0 <= i < x ==> is_white(#[trigger] s@[i]);
    let ghost bb = choose|x: int|
        0 <= x < s@.len() && !is_white(s@[x]) && forall|i: int| x < i < s@.len() ==> is_white(#[trigger] s@[i]);
    proof {
        assert(0 <= a < s@.len() && !is_white(s@[a as int]) && forall|i: int| 0 <= i < a ==> is_white(#[trigger] s@[i]));
        assert(0 <= b < s@.len() && !is_white(s@[b as int]) && forall|i: int| b < i < s@.len() ==> is_white(#[trigger] s@[i]));
        if aa < a {
            assert(is_white(s@[aa]));
        }
        if a < aa {
            assert(is_white(s@[a as int]));
        }
        if bb < b {
            assert(is_white(s@[b as int]));
        }
        if b < bb {
            assert(is_white(s@[bb]));
        }
    }
    let mut r: Vec<char> = Vec::new();
    let mut i: usize = a;
    while i <= b
        invariant
            a <= i <= b + 1,
            b < s.len(),
            r@ == s@.subrange(a as int, i as int),
        decreases b + 1 - i,
    {
        r.push(s[i]);
        assert(r@ =~= s@.subrange(a as int, i + 1));
        i += 1;
    }
    r
}

/// Value of a decimal digit character.
pub open spec fn digit_value(c: char) -> int {
    (c as int) - ('0' as int)
}

/// A decimal digit character.
pub open spec fn is_digit(c: char) -> bool {
    '0' <= c <= '9'
}

/// Value of a sequence of decimal digits.
pub open spec fn decimal_value(s: Seq<char>) -> int
    decreases s.len(),
{
    if s.len() == 0 {
        0
    } else {
        decimal_value(s.drop_last()) * 10 + digit_value(s.last())
    }
}

/// The digits part of a number: without one leading `+`.
pub open spec fn unsigned_body(s: Seq<char>) -> Seq<char> {
    if s.len() > 0 && s[0] == '+' {
        s.drop_first()
    } else {
        s
    }
}

/// Every character is a decimal digit.
pub open spec fn all_digits(s: Seq<char>) -> bool {
    forall|i: int| 0 <= i < s.len() ==> is_digit(#[trigger] s[i])
}

/// What `str::parse::<u32>` gives: an optional `+` followed by one or more
/// decimal digits whose value fits in `u32`; anything else is an error.
pub open spec fn parse_u32_of(s: Seq<char>) -> Option<int> {
    let body = unsigned_body(s);
    if body.len() > 0 && all_digits(body) && decimal_value(body) <= u32::MAX {
        Some(decimal_value(body))
    } else {
        None
    }
}

/// The value of digits grows with each digit added.
proof fn lemma_decimal_prefix(s: Seq<char>, i: int)
    requires
        0 <= i <= s.len(),
        forall|k: int| 0 <= k < s.len() ==> is_digit(#[trigger] s[k]),
    ensures
        0 <= decimal_value(s.take(i)) <= decimal_value(s),
    decreases s.len() - i,
{
    if i < s.len() {
        lemma_decimal_prefix(s, i + 1);
        assert(s.take(i + 1).drop_last() =~= s.take(i));
        assert(s.take(i + 1).last() == s[i]);
    } else {
        assert(s.take(i) =~= s);
        lemma_decimal_nonneg(s);
    }
}

/// The value of digits is not negative.
proof fn lemma_decimal_nonneg(s: Seq<char>)
    requires
        forall|k: int| 0 <= k < s.len() ==> is_digit(#[trigger] s[k]),
    ensures
        decimal_value(s) >= 0,
    decreases s.len(),
{
    if s.len() > 0 {
        assert(is_digit(s[s.len() - 1]));
        lemma_decimal_nonneg(s.drop_last());
    }
}

/// Parses characters as `str::parse::<u32>` does.
pub fn parse_u32_chars(s: &Vec<char>) -> (r: Option<u32>)
    ensures
        match r {
            Some(v) => parse_u32_of(s@) == Some(v as int),
            None => parse_u32_of(s@) is None,
        },
{
    let start: usize = if s.len() > 0 && s[0] == '+' {
        1
    } else {
        0
    };
    let ghost body = unsigned_body(s@);
    assert(body =~= s@.skip(start as int));
    if start == s.len() {
        return None;
    }
    let mut acc: u64 = 0;
    let mut i: usize = start;
    while i < s.len()
        invariant
            start <= i <= s.len(),
            start < s.len(),
            body == s@.skip(start as int),
            body == unsigned_body(s@),
            forall|k: int| start <= k < i ==> is_digit(#[trigger] s@[k]),
            acc == decimal_value(body.take(i - start)),
            acc <= u32::MAX,
        decreases s.len() - i,
    {
        let c = s[i];
        if !('0' <= c && c <= '9') {
            proof {
                assert(!is_digit(body[i - start]));
                assert(!all_digits(body));
            }
            return None;
        }
        let d = (c as u32 - '0' as u32) as u64;
        assert(body.take(i + 1 - start).drop_last() =~= body.take(i - start));
        assert(body.take(i + 1 - start).last() == c);
        acc = acc * 10 + d;
        if acc > 0xffff_ffff {
            proof {
                if all_digits(body) {
                    lemma_decimal_prefix(body, i + 1 - start);
                    assert(decimal_value(body) > u32::MAX);
                }
            }
            return None;
        }
        i += 1;
    }
    assert(body.take(s.len() - start) =~= body);
    Some(acc as u32)
}

/// Parses a string as `str::parse::<u32>` does.
pub fn parse_u32(s: &str) -> (r: Option<u32>)
    ensures
        match r {
            Some(v) => parse_u32_of(s@) == Some(v as int),
            None => parse_u32_of(s@) is None,
        },
{
    let v = to_chars(s);
    parse_u32_chars(&v)
}

/// Decimal digits of a number, most significant first.
pub open spec fn decimal_digits(n: nat) -> Seq<char>
    decreases n,
{
    if n < 10 {
        seq![digit_char(n)]
    } else {
        decimal_digits(n / 10).push(digit_char(n % 10))
    }
}

/// The character of a decimal digit.
pub open spec fn digit_char(d: nat) -> char {
    if d == 0 { '0' } else if d == 1 { '1' } else if d == 2 { '2' } else if d == 3 { '3' }
    else if d == 4 { '4' } else if d == 5 { '5' } else if d == 6 { '6' } else if d == 7 { '7' }
    else if d == 8 { '8' } else { '9' }
}

fn digit_to_char(d: u64) -> (c: char)
    requires
        d < 10,
    ensures
        c == digit_char(d as nat),
{
    if d == 0 { '0' } else if d == 1 { '1' } else if d == 2 { '2' } else if d == 3 { '3' }
    else if d == 4 { '4' } else if d == 5 { '5' } else if d == 6 { '6' } else if d == 7 { '7' }
    else if d == 8 { '8' } else { '9' }
}

/// The decimal representation of a number (as `u64::to_string`).
pub fn u64_to_decimal(n: u64) -> (r: String)
    ensures
        r@ == decimal_digits(n as nat),
    decreases n,
{
    if n < 10 {
        let mut r = String::new();
        push_char(&mut r, digit_to_char(n));
        assert(r@ =~= seq![digit_char(n as nat)]);
        r
    } else {
        let mut r = u64_to_decimal(n / 10);
        push_char(&mut r, digit_to_char(n % 10));
        r
    }
}

/// What `str::to_lowercase` returns for a string (Unicode lowercase mapping).
pub uninterp spec fn lowercase_of(s: Seq<char>) -> Seq<char>;

/// Calls `str::to_lowercase`; the result is named by `lowercase_of`,
/// a function of the characters of `s` alone.
#[verifier::external_body]
pub fn to_lowercase(s: &str) -> (r: String)
    ensures
        r@ == lowercase_of(s@),
{
    s.to_lowercase()
}

/// Calls `String::push`: appends one character.
#[verifier::external_body]
pub fn push_char(s: &mut String, c: char)
    ensures
        final(s)@ == old(s)@.push(c),
{
    s.push(c)
}

/// A string made of the given characters.
pub fn string_from_chars(v: &[char]) -> (r: String)
    ensures
        r@ == v@,
{
    let mut r = String::new();
    let mut i: usize = 0;
    while i < v.len()
        invariant
            i <= v.len(),
            r@ == v@.take(i as int),
        decreases v.len() - i,
    {
        push_char(&mut r, v[i]);
        assert(v@.take(i + 1) =~= v@.take(i as int).push(v@[i as int]));
        i += 1;
    }
    assert(v@.take(v.len() as int) =~= v@);
    r
}

} // verus!
