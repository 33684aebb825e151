//! Byte-level text helpers shared by the request parser and the response
//! writer: ASCII literals, Unicode whitespace in UTF-8, trimming, prefixes and decimals.
use vstd::prelude::*;
use vstd::slice::{slice_subrange, slice_to_vec};

verus! {

/// The bytes of an ASCII string.
pub open spec fn ascii(s: Seq<char>) -> Seq<u8> {
    s.map_values(|c: char| c as u8)
}

/// A three-byte UTF-8 form of a Unicode White_Space character: U+1680,
/// U+2000 to U+200A, U+2028, U+2029, U+202F, U+205F or U+3000.
pub open spec fn is_wide_space(a: u8, b: u8, c: u8) -> bool {
    (a == 0xE1 && b == 0x9A && c == 0x80) || (a == 0xE2 && b == 0x80 && ((0x80 <= c && c <= 0x8A)
        || c == 0xA8 || c == 0xA9 || c == 0xAF)) || (a == 0xE2 && b == 0x81 && c == 0x9F) || (a
        == 0xE3 && b == 0x80 && c == 0x80)
}

/// The length of the UTF-8 form of a whitespace character that starts at
/// position `i` of `s`, or 0 when none does. Whitespace is Unicode
/// White_Space, the set that `char::is_whitespace` tests: U+0009 to U+000D
/// and U+0020 (one byte), U+0085 and U+00A0 (two bytes), and those of
/// `is_wide_space` (three bytes).
pub open spec fn space_at(s: Seq<u8>, i: int) -> nat {
    if i < 0 || i >= s.len() {
        0
    } else if s[i] == 32 || (9 <= s[i] && s[i] <= 13) {
        1
    } else if i + 2 <= s.len() && s[i] == 0xC2 && (s[i + 1] == 0x85 || s[i + 1] == 0xA0) {
        2
    } else if i + 3 <= s.len() && is_wide_space(s[i], s[i + 1], s[i + 2]) {
        3
    } else {
        0
    }
}

/// The length of the UTF-8 form of a whitespace character that ends just
/// before position `j` of `s`, or 0 when none does.
pub open spec fn space_before(s: Seq<u8>, j: int) -> nat {
    if j >= 1 && space_at(s, j - 1) == 1 {
        1
    } else if j >= 2 && space_at(s, j - 2) == 2 {
        2
    } else if j >= 3 && space_at(s, j - 3) == 3 {
        3
    } else {
        0
    }
}

/// The first position at or after `i` where no whitespace character starts.
pub open spec fn trim_lo(s: Seq<u8>, i: int) -> int
    decreases s.len() - i,
{
    if space_at(s, i) > 0 {
        trim_lo(s, i + space_at(s, i))
    } else {
        i
    }
}

/// The last position at or before `j`, and not before `lo`, where no
/// whitespace character ends.
pub open spec fn trim_hi(s: Seq<u8>, lo: int, j: int) -> int
    decreases j - lo,
{
    if space_before(s, j) > 0 && j - space_before(s, j) >= lo {
        trim_hi(s, lo, j - space_before(s, j))
    } else {
        j
    }
}

/// `s` without leading and trailing whitespace characters, as `str::trim`
/// gives it.
pub open spec fn trim(s: Seq<u8>) -> Seq<u8> {
    let lo = trim_lo(s, 0);
    s.subrange(lo, trim_hi(s, lo, s.len() as int))
}

pub open spec fn is_digit_spec(b: u8) -> bool {
    48 <= b && b <= 57
}

/// `s` begins with `p`.
pub open spec fn has_prefix(s: Seq<u8>, p: Seq<u8>) -> bool {
    p.len() <= s.len() && s.subrange(0, p.len() as int) == p
}

/// The decimal digits of `n`, most significant first, without leading zeros.
pub open spec fn decimal(n: nat) -> Seq<u8>
    decreases n,
{
    if n < 10 {
        seq![(48 + n) as u8]
    } else {
        decimal(n / 10).push((48 + n % 10) as u8)
    }
}

/// The number that a sequence of decimal digits denotes.
pub open spec fn digits_value(s: Seq<u8>) -> nat
    decreases s.len(),
{
    if s.len() == 0 {
        0
    } else {
        digits_value(s.drop_last()) * 10 + (s.last() - 48) as nat
    }
}

/// `s` without one leading `+`, if it has one.
pub open spec fn unsigned_part(s: Seq<u8>) -> Seq<u8> {
    if s.len() > 0 && s[0] == 43 {
        s.drop_first()
    } else {
        s
    }
}

pub open spec fn all_digits(d: Seq<u8>) -> bool {
    forall|i: int| 0 <= i < d.len() ==> is_digit_spec(#[trigger] d[i])
}

/// The unsigned machine integer that `s` spells: an optional `+`, then one
/// or more decimal digits whose value fits in a `usize`.
pub open spec fn usize_of(s: Seq<u8>) -> Option<nat> {
    let d = unsigned_part(s);
    if d.len() > 0 && all_digits(d) && digits_value(d) <= usize::MAX {
        Some(digits_value(d))
    } else {
        None
    }
}

/// The length of the whitespace character that starts at position `i`.
pub fn space_len(s: &[u8], i: usize) -> (r: usize)
    ensures
        r == space_at(s@, i as int),
        r <= 3,
{
    let n = s.len();
    if i >= n {
        return 0;
    }
    let a = s[i];
    if a == 32 || (9 <= a && a <= 13) {
        1
    } else if n - i >= 2 && a == 0xC2 && (s[i + 1] == 0x85 || s[i + 1] == 0xA0) {
        2
    } else if n - i >= 3 && ((a == 0xE1 && s[i + 1] == 0x9A && s[i + 2] == 0x80) || (a == 0xE2
        && s[i + 1] == 0x80 && ((0x80 <= s[i + 2] && s[i + 2] <= 0x8A) || s[i + 2] == 0xA8 || s[i
        + 2] == 0xA9 || s[i + 2] == 0xAF)) || (a == 0xE2 && s[i + 1] == 0x81 && s[i + 2] == 0x9F)
        || (a == 0xE3 && s[i + 1] == 0x80 && s[i + 2] == 0x80)) {
        3
    } else {
        0
    }
}

/// The length of the whitespace character that ends just before `j`.
pub fn space_len_before(s: &[u8], j: usize) -> (r: usize)
    ensures
        r == space_before(s@, j as int),
        r <= 3,
{
    if j >= 1 && space_len(s, j - 1) == 1 {
        1
    } else if j >= 2 && space_len(s, j - 2) == 2 {
        2
    } else if j >= 3 && space_len(s, j - 3) == 3 {
        3
    } else {
        0
    }
}

/// Appends the bytes of an ASCII string literal.
pub fn append_str(out: &mut Vec<u8>, s: &str)
    requires
        s.is_ascii(),
    ensures
        final(out)@ == old(out)@ + ascii(s@),
{
    broadcast use vstd::string::is_ascii_spec_bytes;

    let b = s.as_bytes();
    out.extend_from_slice(b);
    assert(b@ =~= ascii(s@));
}

/// The bytes of an ASCII string literal, as a vector.
pub fn str_bytes(s: &str) -> (r: Vec<u8>)
    requires
        s.is_ascii(),
    ensures
        r@ == ascii(s@),
{
    let mut r: Vec<u8> = Vec::new();
    append_str(&mut r, s);
    assert(r@ =~= ascii(s@));
    r
}

pub fn starts_with(s: &[u8], p: &[u8]) -> (r: bool)
    ensures
        r == has_prefix(s@, p@),
{
    if p.len() > s.len() {
        return false;
    }
    let mut i: usize = 0;
    while i < p.len()
        invariant
            p.len() <= s.len(),
            i <= p.len(),
            forall|k: int| 0 <= k < i ==> s@[k] == p@[k],
        decreases p.len() - i,
    {
        if s[i] != p[i] {
            assert(s@.subrange(0, p@.len() as int)[i as int] != p@[i as int]);
            return false;
        }
        i = i + 1;
    }
    assert(s@.subrange(0, p@.len() as int) =~= p@);
    true
}

/// `s` with leading and trailing whitespace characters removed.
pub fn trimmed(s: &[u8]) -> (r: Vec<u8>)
    ensures
        r@ == trim(s@),
{
    let n = s.len();
    let mut lo: usize = 0;
    loop
        invariant
            lo <= n == s@.len(),
            trim_lo(s@, 0) == trim_lo(s@, lo as int),
        ensures
            lo <= n,
            lo == trim_lo(s@, 0),
        decreases n - lo,
    {
        let k = space_len(s, lo);
        if k == 0 {
            assert(trim_lo(s@, lo as int) == lo);
            break;
        }
        lo = lo + k;
    }
    let mut hi: usize = n;
    loop
        invariant
            lo <= hi <= n == s@.len(),
            lo == trim_lo(s@, 0),
            trim_hi(s@, lo as int, n as int) == trim_hi(s@, lo as int, hi as int),
        ensures
            lo <= hi <= n,
            hi == trim_hi(s@, lo as int, n as int),
        decreases hi - lo,
    {
        let k = space_len_before(s, hi);
        if k == 0 || hi - lo < k {
            assert(trim_hi(s@, lo as int, hi as int) == hi);
            break;
        }
        hi = hi - k;
    }
    slice_to_vec(slice_subrange(s, lo, hi))
}

/// Appends the decimal digits of `n`.
pub fn append_decimal(out: &mut Vec<u8>, n: usize)
    ensures
        final(out)@ == old(out)@ + decimal(n as nat),
    decreases n,
{
    if n < 10 {
        out.push(48 + n as u8);
        assert(decimal(n as nat) =~= seq![(48 + n) as u8]);
    } else {
        append_decimal(out, n / 10);
        out.push(48 + (n % 10) as u8);
        assert(decimal(n as nat) == decimal((n / 10) as nat).push((48 + n % 10) as u8));
    }
}

proof fn lemma_digits_value_push(s: Seq<u8>, d: u8)
    ensures
        digits_value(s.push(d)) == digits_value(s) * 10 + (d - 48) as nat,
{
    assert(s.push(d).drop_last() =~= s);
}

/// Reads an unsigned decimal number, as `usize::from_str` does: an optional
/// `+`, then at least one digit, with no overflow.
pub fn parse_usize(s: &[u8]) -> (r: Option<usize>)
    ensures
        r matches Some(v) ==> usize_of(s@) == Some(v as nat),
        r is None ==> usize_of(s@) is None,
{
    let start: usize = if s.len() > 0 && s[0] == 43 {
        1
    } else {
        0
    };
    let ghost d = s@.subrange(start as int, s@.len() as int);
    proof {
        if s@.len() > 0 && s@[0] == 43 {
            assert(d =~= s@.drop_first());
        } else {
            assert(d =~= s@);
        }
    }
    if start == s.len() {
        return None;
    }
    let mut i: usize = start;
    let mut v: usize = 0;
    while i < s.len()
        invariant
            start <= i <= s@.len(),
            d == s@.subrange(start as int, s@.len() as int),
            d == unsigned_part(s@),
            forall|k: int| start <= k < i ==> is_digit_spec(#[trigger] s@[k]),
            v as nat == digits_value(s@.subrange(start as int, i as int)),
        decreases s.len() - i,
    {
        let b = s[i];
        let ghost pre = s@.subrange(start as int, i as int);
        assert(s@.subrange(start as int, i + 1) =~= pre.push(b));
        proof {
            lemma_digits_value_push(pre, b);
        }
        if b < 48 || b > 57 {
            assert(d[i - start] == b);
            assert(!is_digit_spec(d[i - start]));
            return None;
        }
        if v > (usize::MAX - (b - 48) as usize) / 10 {
            proof {
                let dig = (b - 48) as usize;
                assert(v * 10 + dig > usize::MAX) by (nonlinear_arith)
                    requires
                        v > (usize::MAX - dig) / 10,
                        dig <= 9,
                ;
                assert(d.subrange(0, i + 1 - start) =~= s@.subrange(start as int, i + 1));
                lemma_digits_value_prefix(d, i + 1 - start);
            }
            return None;
        }
        v = v * 10 + (b - 48) as usize;
        i = i + 1;
    }
    assert(s@.subrange(start as int, i as int) =~= d);
    Some(v)
}

/// The value of a digit string is at least that of any of its prefixes.
proof fn lemma_digits_value_prefix(s: Seq<u8>, k: int)
    requires
        0 <= k <= s.len(),
    ensures
        digits_value(s) >= digits_value(s.subrange(0, k)),
    decreases s.len() - k,
{
    if k < s.len() {
        let t = s.subrange(0, k + 1);
        assert(t.drop_last() =~= s.subrange(0, k));
        lemma_digits_value_prefix(s, k + 1);
        assert(digits_value(t) >= digits_value(s.subrange(0, k)) * 10);
    } else {
        assert(s.subrange(0, k) =~= s);
    }
}

pub fn bytes_eq(a: &[u8], b: &[u8]) -> (r: bool)
    ensures
        r == (a@ == b@),
{
    if a.len() != b.len() {
        return false;
    }
    let r = starts_with(a, b);
    assert(a@.subrange(0, b@.len() as int) =~= a@);
    r
}

} // verus!
