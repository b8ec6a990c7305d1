//! Character-level text utilities shared by the emitters: string equality,
//! single-character appends and number formatting.

use vstd::prelude::*;

verus! {

/// The character for digit `d` (0..16); letters are upper or lower case.
pub open spec fn digit_char(d: nat, upper: bool) -> char {
    if d < 10 {
        (48 + d) as char
    } else if upper {
        (55 + d) as char
    } else {
        (87 + d) as char
    }
}

/// The digits of `n` in `base` (2..=16), most significant first, without
/// leading zeros (`0` is a single `'0'`).
pub open spec fn digits(n: nat, base: nat, upper: bool) -> Seq<char>
    decreases n,
{
    if base < 2 || n < base {
        seq![digit_char(n, upper)]
    } else {
        proof {
            assert(n / base < n) by (nonlinear_arith)
                requires
                    base >= 2,
                    n >= base,
            ;
        }
        digits(n / base, base, upper).push(digit_char(n % base, upper))
    }
}

/// `s` left-padded with `'0'` to at least `width` characters.
pub open spec fn zero_pad(s: Seq<char>, width: nat) -> Seq<char> {
    if s.len() >= width {
        s
    } else {
        Seq::new((width - s.len()) as nat, |i: int| '0') + s
    }
}

/// Decimal rendering of `n`, as `{}` prints it.
pub open spec fn dec(n: nat) -> Seq<char> {
    digits(n, 10, false)
}

/// Lower-case hexadecimal rendering of `n`, as `{:x}` prints it.
pub open spec fn hex_lower(n: nat) -> Seq<char> {
    digits(n, 16, false)
}

/// Upper-case hexadecimal rendering padded to `width`, as `{:0W X}` prints it.
pub open spec fn hex_upper_padded(n: nat, width: nat) -> Seq<char> {
    zero_pad(digits(n, 16, true), width)
}

/// Appends one character to a string.
#[verifier::external_body]
pub(crate) fn push_char(s: &mut String, c: char)
    ensures
        final(s)@ == old(s)@.push(c),
{
    s.push(c);
}

/// The characters of `s`, in order.
pub fn to_chars(s: &str) -> (v: Vec<char>)
    ensures
        v@ == s@,
{
    broadcast use vstd::string::axiom_spec_iter;
    let mut v: Vec<char> = Vec::new();
    for c in it: s.chars()
        invariant
            v@ == it.seq().take(it.index() as int),
    {
        v.push(c);
    }
    v
}

/// Returns whether two strings hold the same characters.
pub fn str_eq(a: &str, b: &str) -> (r: bool)
    ensures
        r == (a@ == b@),
{
    let n = a.unicode_len();
    let m = b.unicode_len();
    if n != m {
        return false;
    }
    let mut i: usize = 0;
    while i < n
        invariant
            n == a@.len(),
            m == b@.len(),
            n == m,
            i <= n,
            forall|k: int| 0 <= k < i ==> a@[k] == b@[k],
        decreases n - i,
    {
        if a.get_char(i) != b.get_char(i) {
            return false;
        }
        i = i + 1;
    }
    assert(a@ =~= b@);
    true
}

/// The character for digit `d`.
pub fn digit_to_char(d: u64, upper: bool) -> (c: char)
    requires
        d < 16,
    ensures
        c == digit_char(d as nat, upper),
{
    let b: u8 = d as u8;
    if d < 10 {
        (48u8 + b) as char
    } else if upper {
        (55u8 + b) as char
    } else {
        (87u8 + b) as char
    }
}

/// The digits of `n` in `base`, most significant first.
pub fn digits_of(n: u64, base: u64, upper: bool) -> (v: Vec<char>)
    requires
        2 <= base <= 16,
    ensures
        v@ == digits(n as nat, base as nat, upper),
    decreases n,
{
    if n < base {
        let mut v = Vec::new();
        v.push(digit_to_char(n, upper));
        v
    } else {
        assert(n / base < n) by (nonlinear_arith)
            requires
                base >= 2,
                n >= base,
        ;
        let mut v = digits_of(n / base, base, upper);
        v.push(digit_to_char(n % base, upper));
        v
    }
}

/// Appends the characters of `v` to `s`.
pub fn push_chars(s: &mut String, v: &Vec<char>)
    ensures
        final(s)@ == old(s)@ + v@,
{
    let mut i: usize = 0;
    while i < v.len()
        invariant
            i <= v@.len(),
            s@ == old(s)@ + v@.subrange(0, i as int),
        decreases v@.len() - i,
    {
        push_char(s, v[i]);
        assert(v@.subrange(0, i + 1) =~= v@.subrange(0, i as int).push(v@[i as int]));
        i = i + 1;
    }
    assert(v@.subrange(0, v@.len() as int) =~= v@);
}

/// Appends `n` in decimal.
pub fn push_dec(s: &mut String, n: u64)
    ensures
        final(s)@ == old(s)@ + dec(n as nat),
{
    let v = digits_of(n, 10, false);
    push_chars(s, &v);
}

/// Appends `n` in lower-case hexadecimal.
pub fn push_hex_lower(s: &mut String, n: u64)
    ensures
        final(s)@ == old(s)@ + hex_lower(n as nat),
{
    let v = digits_of(n, 16, false);
    push_chars(s, &v);
}

/// Appends `n` in upper-case hexadecimal, zero-padded to `width`.
pub fn push_hex_upper_padded(s: &mut String, n: u64, width: usize)
    ensures
        final(s)@ == old(s)@ + hex_upper_padded(n as nat, width as nat),
{
    let v = digits_of(n, 16, true);
    let ghost d = v@;
    if v.len() < width {
        let pad = width - v.len();
        let mut i: usize = 0;
        while i < pad
            invariant
                i <= pad,
                s@ == old(s)@ + Seq::new(i as nat, |k: int| '0'),
            decreases pad - i,
        {
            push_char(s, '0');
            assert(Seq::new((i + 1) as nat, |k: int| '0') =~= Seq::new(i as nat, |k: int| '0').push('0'));
            i = i + 1;
        }
    }
    push_chars(s, &v);
    assert(s@ =~= old(s)@ + hex_upper_padded(n as nat, width as nat));
}

/// `str::to_lowercase`: the Unicode lower-case mapping of `s`.
pub uninterp spec fn lowercase_of(s: Seq<char>) -> Seq<char>;

/// `str::to_lowercase` on `s`.
#[verifier::external_body]
pub(crate) fn to_lowercase(s: &str) -> (r: String)
    ensures
        r@ == lowercase_of(s@),
{
    s.to_lowercase()
}

/// `p` is a prefix of `s`.
pub open spec fn starts_with(s: Seq<char>, p: Seq<char>) -> bool {
    p.len() <= s.len() && s.subrange(0, p.len() as int) == p
}

/// `p` occurs in `s`.
pub open spec fn contains_text(s: Seq<char>, p: Seq<char>) -> bool {
    exists|i: int| 0 <= i && i + p.len() <= s.len() && #[trigger] s.subrange(i, i + p.len()) == p
}

/// Whether `p` is a prefix of `v`.
pub fn chars_start_with(v: &Vec<char>, p: &str) -> (r: bool)
    ensures
        r == starts_with(v@, p@),
{
    let m = p.unicode_len();
    if m > v.len() {
        return false;
    }
    let mut i: usize = 0;
    while i < m
        invariant
            m == p@.len(),
            m <= v@.len(),
            i <= m,
            forall|k: int| 0 <= k < i ==> v@[k] == p@[k],
        decreases m - i,
    {
        if v[i] != p.get_char(i) {
            assert(v@.subrange(0, m as int)[i as int] != p@[i as int]);
            return false;
        }
        i = i + 1;
    }
    assert(v@.subrange(0, m as int) =~= p@);
    true
}

/// Whether `p` occurs in `v`.
pub fn chars_contain_text(v: &Vec<char>, p: &str) -> (r: bool)
    ensures
        r == contains_text(v@, p@),
{
    let pc = to_chars(p);
    let m = pc.len();
    let n = v.len();
    if m > n {
        return false;
    }
    let mut i: usize = 0;
    while i <= n - m
        invariant
            m == p@.len(),
            pc@ == p@,
            n == v@.len(),
            m <= n,
            i <= n - m + 1,
            forall|k: int| 0 <= k < i ==> #[trigger] v@.subrange(k, k + m) != p@,
        decreases n - m + 1 - i,
    {
        let mut j: usize = 0;
        while j < m && v[i + j] == pc[j]
            invariant
                m == pc@.len(),
                n == v@.len(),
                i + m <= n,
                j <= m,
                forall|k: int| 0 <= k < j ==> v@[i + k] == pc@[k],
            decreases m - j,
        {
            j += 1;
        }
        if j == m {
            assert(v@.subrange(i as int, i + m) =~= p@);
            return true;
        }
        assert(v@.subrange(i as int, i + m)[j as int] != p@[j as int]);
        i += 1;
    }
    false
}

} // verus!
