//! Character-level helpers shared by the configuration codec, the
//! environment-variable builder and the log-line parser: prefix tests,
//! character search, and decimal rendering/parsing of port numbers.

use vstd::prelude::*;

verus! {

/// True when `p` occurs in `s` starting exactly at position `pos`.
pub open spec fn prefix_at(s: Seq<char>, pos: int, p: Seq<char>) -> bool {
    &&& 0 <= pos
    &&& pos + p.len() <= s.len()
    &&& s.subrange(pos, pos + p.len() as int) == p
}

/// Index of the first occurrence of `c` in `s` at or after `pos`;
/// `s.len()` when there is none.
pub open spec fn find_from(s: Seq<char>, pos: int, c: char) -> int
    decreases s.len() - pos,
{
    if pos < 0 || pos >= s.len() {
        s.len() as int
    } else if s[pos] == c {
        pos
    } else {
        find_from(s, pos + 1, c)
    }
}

/// `find_from` returns the least position of `c` at or after `pos`,
/// or the length of `s` when `c` does not occur there.
pub proof fn lemma_find_from(s: Seq<char>, pos: int, c: char)
    requires
        0 <= pos <= s.len(),
    ensures
        pos <= find_from(s, pos, c) <= s.len(),
        find_from(s, pos, c) < s.len() ==> s[find_from(s, pos, c)] == c,
        forall|j: int| pos <= j < find_from(s, pos, c) ==> s[j] != c,
    decreases s.len() - pos,
{
    if pos < s.len() && s[pos] != c {
        lemma_find_from(s, pos + 1, c);
    }
}

/// First position of `c` in `s` at or after `pos` (the length when absent).
pub fn find_char(s: &str, pos: usize, c: char) -> (r: usize)
    requires
        pos <= s@.len(),
    ensures
        r == find_from(s@, pos as int, c),
{
    let n: usize = s.unicode_len();
    let mut i: usize = pos;
    while i < n
        invariant
            pos <= i <= n,
            n == s@.len(),
            forall|j: int| pos <= j < i ==> s@[j] != c,
        decreases n - i,
    {
        if s.get_char(i) == c {
            proof {
                lemma_find_from(s@, pos as int, c);
            }
            return i;
        }
        i += 1;
    }
    proof {
        lemma_find_from(s@, pos as int, c);
    }
    n
}

/// Character-for-character equality of two string slices.
pub fn str_eq(a: &str, b: &str) -> (r: bool)
    ensures
        r == (a@ == b@),
{
    let n: usize = a.unicode_len();
    if n != b.unicode_len() {
        return false;
    }
    let mut i: usize = 0;
    while i < n
        invariant
            0 <= i <= n,
            n == a@.len() && n == b@.len(),
            forall|j: int| 0 <= j < i ==> a@[j] == b@[j],
        decreases n - i,
    {
        if a.get_char(i) != b.get_char(i) {
            return false;
        }
        i += 1;
    }
    proof {
        assert(a@ =~= b@);
    }
    true
}

/// Whether `p` occurs in `s` starting at position `pos`.
pub fn has_prefix_at(s: &str, pos: usize, p: &str) -> (r: bool)
    requires
        pos <= s@.len(),
    ensures
        r == prefix_at(s@, pos as int, p@),
{
    let m: usize = p.unicode_len();
    let n: usize = s.unicode_len();
    if m > n - pos {
        return false;
    }
    let mut i: usize = 0;
    while i < m
        invariant
            0 <= i <= m,
            m == p@.len(),
            n == s@.len(),
            pos + m <= n,
            forall|j: int| 0 <= j < i ==> s@[pos + j] == p@[j],
        decreases m - i,
    {
        if s.get_char(pos + i) != p.get_char(i) {
            return false;
        }
        i += 1;
    }
    proof {
        assert(s@.subrange(pos as int, pos + p@.len() as int) =~= p@);
    }
    true
}

/// The character for the decimal digit `d`.
pub open spec fn digit_char(d: int) -> char {
    "0123456789"@[d]
}

/// True for the ten decimal digit characters.
pub open spec fn is_digit(c: char) -> bool {
    48 <= c as u32 <= 57
}

/// The numeric value of a digit character.
pub open spec fn digit_val(c: char) -> int {
    c as u32 - 48
}

/// The canonical decimal rendering of a non-negative number.
pub open spec fn dec_spec(n: int) -> Seq<char>
    decreases n,
{
    if n < 10 {
        seq![digit_char(n)]
    } else {
        dec_spec(n / 10) + seq![digit_char(n % 10)]
    }
}

/// Each digit character carries its digit's value and is a digit character.
pub proof fn lemma_digit_char(d: int)
    requires
        0 <= d < 10,
    ensures
        is_digit(digit_char(d)),
        digit_val(digit_char(d)) == d,
{
    reveal_strlit("0123456789");
    if d == 0 {
        assert(digit_char(0) == '0');
    } else if d == 1 {
        assert(digit_char(1) == '1');
    } else if d == 2 {
        assert(digit_char(2) == '2');
    } else if d == 3 {
        assert(digit_char(3) == '3');
    } else if d == 4 {
        assert(digit_char(4) == '4');
    } else if d == 5 {
        assert(digit_char(5) == '5');
    } else if d == 6 {
        assert(digit_char(6) == '6');
    } else if d == 7 {
        assert(digit_char(7) == '7');
    } else if d == 8 {
        assert(digit_char(8) == '8');
    } else {
        assert(digit_char(9) == '9');
    }
}

/// The numeric value of a digit sequence, most significant digit first.
pub open spec fn dec_val(v: Seq<char>) -> int
    decreases v.len(),
{
    if v.len() == 0 {
        0
    } else {
        dec_val(v.drop_last()) * 10 + digit_val(v.last())
    }
}

/// A canonical decimal rendering: non-empty, all digits, no leading zero.
pub open spec fn is_canon_dec(v: Seq<char>) -> bool {
    &&& v.len() >= 1
    &&& forall|i: int| 0 <= i < v.len() ==> is_digit(#[trigger] v[i])
    &&& v.len() > 1 ==> v[0] != digit_char(0)
}

/// What a decimal port field denotes: `Some` exactly on canonical
/// renderings of values that fit in a `u16`.
pub open spec fn parse_u16_spec(v: Seq<char>) -> Option<u16> {
    if is_canon_dec(v) && dec_val(v) <= 0xffff {
        Some(dec_val(v) as u16)
    } else {
        None
    }
}

/// A sequence of digits denotes a non-negative value.
pub proof fn lemma_dec_val_nonneg(v: Seq<char>)
    requires
        forall|i: int| 0 <= i < v.len() ==> is_digit(#[trigger] v[i]),
    ensures
        dec_val(v) >= 0,
    decreases v.len(),
{
    if v.len() > 0 {
        lemma_dec_val_nonneg(v.drop_last());
    }
}

/// Extending a digit prefix by one character multiplies its value by ten
/// and adds the digit.
pub proof fn lemma_dec_val_step(v: Seq<char>, i: int)
    requires
        0 <= i < v.len(),
    ensures
        dec_val(v.subrange(0, i + 1)) == dec_val(v.subrange(0, i)) * 10 + digit_val(v[i]),
{
    let w = v.subrange(0, i + 1);
    assert(w.drop_last() =~= v.subrange(0, i));
    assert(w.last() == v[i]);
}

/// The canonical rendering of `n` is canonical and denotes `n`.
pub proof fn lemma_dec_roundtrip(n: int)
    requires
        0 <= n,
    ensures
        is_canon_dec(dec_spec(n)),
        dec_val(dec_spec(n)) == n,
    decreases n,
{
    if n < 10 {
        lemma_digit_char(n);
        let w = dec_spec(n);
        assert(w =~= seq![digit_char(n)]);
        assert(w.drop_last() =~= Seq::<char>::empty());
        assert(dec_val(w.drop_last()) == 0);
        assert(w.last() == digit_char(n));
        assert(dec_val(w) == digit_val(digit_char(n)));
    } else {
        lemma_dec_roundtrip(n / 10);
        lemma_digit_char(n % 10);
        let a = dec_spec(n / 10);
        let w = a + seq![digit_char(n % 10)];
        assert(w.drop_last() =~= a);
        assert(dec_val(w) == dec_val(a) * 10 + digit_val(digit_char(n % 10)));
        assert(dec_val(w) == (n / 10) * 10 + n % 10);
        assert((n / 10) * 10 + n % 10 == n) by (nonlinear_arith);
        // no leading zero: the first character of `a` is kept
        assert(w[0] == a[0]);
        if a.len() == 1 {
            lemma_digit_char(0);
            assert(a.drop_last() =~= Seq::<char>::empty());
            assert(dec_val(a.drop_last()) == 0);
            assert(a.last() == a[0]);
            assert(digit_val(a[0]) == dec_val(a));
            assert(a[0] != digit_char(0));
        }
    }
}

/// Render a number as its canonical decimal string.
pub fn u16_to_dec(n: u16) -> (r: String)
    ensures
        r@ == dec_spec(n as int),
    decreases n,
{
    let digits: &str = "0123456789";
    proof {
        reveal_strlit("0123456789");
    }
    if n < 10 {
        let d: &str = digits.substring_char(n as usize, n as usize + 1);
        proof {
            assert(d@ =~= seq![digit_char(n as int)]);
        }
        d.to_owned()
    } else {
        let mut prefix: String = u16_to_dec(n / 10);
        let m: usize = (n % 10) as usize;
        let d: &str = digits.substring_char(m, m + 1);
        proof {
            assert(d@ =~= seq![digit_char((n % 10) as int)]);
        }
        prefix.append(d);
        prefix
    }
}

/// Parse a decimal string, accepting exactly the canonical renderings of
/// values that fit in a `u16`.
pub fn parse_u16(v: &str) -> (r: Option<u16>)
    ensures
        r == parse_u16_spec(v@),
{
    let n: usize = v.unicode_len();
    if n == 0 {
        return None;
    }
    let first: char = v.get_char(0);
    if n > 1 && first == '0' {
        proof {
            reveal_strlit("0123456789");
            assert(digit_char(0) == '0');
        }
        return None;
    }
    let mut acc: u32 = 0;
    let mut i: usize = 0;
    while i < n
        invariant
            0 <= i <= n,
            n == v@.len(),
            n >= 1,
            forall|j: int| 0 <= j < i ==> is_digit(#[trigger] v@[j]),
            acc == dec_val(v@.subrange(0, i as int)),
            acc <= 0xffff,
        decreases n - i,
    {
        let c: char = v.get_char(i);
        let code: u32 = c as u32;
        if code < 48 || code > 57 {
            return None;
        }
        let d: u32 = code - 48;
        proof {
            lemma_dec_val_step(v@, i as int);
        }
        let next: u32 = acc * 10 + d;
        if next > 0xffff {
            proof {
                if forall|j: int| 0 <= j < v@.len() ==> is_digit(#[trigger] v@[j]) {
                    lemma_too_large(v@, i as int + 1);
                }
            }
            return None;
        }
        acc = next;
        i += 1;
    }
    proof {
        assert(v@.subrange(0, n as int) =~= v@);
        reveal_strlit("0123456789");
        assert(digit_char(0) == '0');
    }
    Some(acc as u16)
}

/// Once a digit prefix exceeds the `u16` range, so does the whole digit
/// sequence.
proof fn lemma_too_large(v: Seq<char>, i: int)
    requires
        0 < i <= v.len(),
        forall|j: int| 0 <= j < v.len() ==> is_digit(#[trigger] v[j]),
        dec_val(v.subrange(0, i)) > 0xffff,
    ensures
        dec_val(v) > 0xffff,
    decreases v.len() - i,
{
    if i == v.len() {
        assert(v.subrange(0, i) =~= v);
    } else {
        lemma_dec_val_step(v, i);
        assert(is_digit(v[i]));
        lemma_too_large(v, i + 1);
    }
}

} // verus!
