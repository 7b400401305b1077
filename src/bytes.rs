//! Byte-sequence helpers shared by the URL, header and body parsers.
use vstd::prelude::*;

verus! {

/// ASCII whitespace as `char::is_whitespace` sees it: tab, line feed,
/// vertical tab, form feed, carriage return and space.
pub open spec fn is_space(b: u8) -> bool {
    b == 32 || (9 <= b && b <= 13)
}

/// First index at or after `i` that holds `b`.
pub open spec fn index_from(s: Seq<u8>, b: u8, i: int) -> Option<int>
    decreases s.len() - i,
{
    if i < 0 || i >= s.len() {
        None
    } else if s[i] == b {
        Some(i)
    } else {
        index_from(s, b, i + 1)
    }
}

/// Splits around the first `b`, dropping it.
pub open spec fn split_once(s: Seq<u8>, b: u8) -> Option<(Seq<u8>, Seq<u8>)> {
    match index_from(s, b, 0) {
        Some(i) => Some((s.subrange(0, i), s.subrange(i + 1, s.len() as int))),
        None => None,
    }
}

/// Whether `pat` occurs in `s` starting at `i`.
pub open spec fn occurs_at(s: Seq<u8>, pat: Seq<u8>, i: int) -> bool {
    0 <= i && i + pat.len() <= s.len() && s.subrange(i, i + pat.len()) == pat
}

/// First index at or after `i` where `pat` occurs.
pub open spec fn find_from(s: Seq<u8>, pat: Seq<u8>, i: int) -> Option<int>
    decreases s.len() + 1 - i,
{
    if i < 0 || i + pat.len() > s.len() {
        None
    } else if occurs_at(s, pat, i) {
        Some(i)
    } else {
        find_from(s, pat, i + 1)
    }
}

pub open spec fn contains(s: Seq<u8>, pat: Seq<u8>) -> bool {
    find_from(s, pat, 0) is Some
}

pub open spec fn starts_with(s: Seq<u8>, pat: Seq<u8>) -> bool {
    pat.len() <= s.len() && s.subrange(0, pat.len() as int) == pat
}

/// First index at or after `i` that is not whitespace (or the length).
pub open spec fn skip_space(s: Seq<u8>, i: int) -> int
    decreases s.len() - i,
{
    if i < 0 || i >= s.len() {
        if i < 0 { 0 } else { i }
    } else if is_space(s[i]) {
        skip_space(s, i + 1)
    } else {
        i
    }
}

/// End of the prefix `s[..j]` once trailing whitespace is dropped.
pub open spec fn back_space(s: Seq<u8>, j: int) -> int
    decreases j,
{
    if j <= 0 || j > s.len() {
        if j <= 0 { 0 } else { s.len() as int }
    } else if is_space(s[j - 1]) {
        back_space(s, j - 1)
    } else {
        j
    }
}

/// `s` with leading and trailing whitespace removed.
pub open spec fn trim(s: Seq<u8>) -> Seq<u8> {
    let a = skip_space(s, 0);
    let e = back_space(s, s.len() as int);
    if a < e { s.subrange(a, e) } else { Seq::empty() }
}

pub open spec fn lower_byte(b: u8) -> u8 {
    if 65 <= b && b <= 90 { (b + 32) as u8 } else { b }
}

/// ASCII lower-casing.
pub open spec fn lower(s: Seq<u8>) -> Seq<u8> {
    Seq::new(s.len(), |i: int| lower_byte(s[i]))
}

/// Value of one digit in `base` (10 or 16), if it is one.
pub open spec fn digit_value(b: u8, base: nat) -> Option<nat> {
    let d: int = if 48 <= b && b <= 57 {
        b - 48
    } else if 97 <= b && b <= 102 {
        b - 87
    } else if 65 <= b && b <= 70 {
        b - 55
    } else {
        99
    };
    if d < base { Some(d as nat) } else { None }
}

pub open spec fn all_digits(s: Seq<u8>, base: nat) -> bool {
    forall|i: int| 0 <= i < s.len() ==> (#[trigger] digit_value(s[i], base)) is Some
}

/// Positional value of a run of digits, most significant first.
pub open spec fn digits_value(s: Seq<u8>, base: nat) -> nat
    decreases s.len(),
{
    if s.len() == 0 {
        0
    } else {
        digits_value(s.drop_last(), base) * base + match digit_value(s.last(), base) {
            Some(d) => d,
            None => 0,
        }
    }
}

/// An unsigned integer as Rust's `from_str_radix` reads it: an optional
/// `+`, then one or more digits.
pub open spec fn parse_unsigned(s: Seq<u8>, base: nat) -> Option<nat> {
    let t = if s.len() > 0 && s[0] == 43 { s.drop_first() } else { s };
    if t.len() > 0 && all_digits(t, base) {
        Some(digits_value(t, base))
    } else {
        None
    }
}

/// `parse_unsigned`, failing on values above `max`.
pub open spec fn parse_bounded(s: Seq<u8>, base: nat, max: nat) -> Option<nat> {
    match parse_unsigned(s, base) {
        Some(v) => if v <= max { Some(v) } else { None },
        None => None,
    }
}

/// Shortest decimal spelling of `n`.
pub open spec fn decimal(n: nat) -> Seq<u8>
    decreases n,
{
    if n < 10 {
        seq![(48 + n) as u8]
    } else {
        decimal(n / 10).push((48 + n % 10) as u8)
    }
}

pub proof fn lemma_index_from_found(s: Seq<u8>, b: u8, i: int, k: int)
    requires
        0 <= i <= k < s.len(),
        s[k] == b,
        forall|j: int| i <= j < k ==> s[j] != b,
    ensures
        index_from(s, b, i) == Some(k),
    decreases k - i,
{
    if i < k {
        lemma_index_from_found(s, b, i + 1, k);
    }
}

pub proof fn lemma_index_from_absent(s: Seq<u8>, b: u8, i: int)
    requires
        0 <= i,
        forall|j: int| i <= j < s.len() ==> s[j] != b,
    ensures
        index_from(s, b, i) is None,
    decreases s.len() - i,
{
    if i < s.len() {
        lemma_index_from_absent(s, b, i + 1);
    }
}

pub proof fn lemma_find_from_found(s: Seq<u8>, pat: Seq<u8>, i: int, k: int)
    requires
        0 <= i <= k,
        occurs_at(s, pat, k),
        forall|j: int| i <= j < k ==> !occurs_at(s, pat, j),
    ensures
        find_from(s, pat, i) == Some(k),
    decreases k - i,
{
    if i < k {
        lemma_find_from_found(s, pat, i + 1, k);
    }
}

pub proof fn lemma_prefix_value_le(t: Seq<u8>, base: nat, k: int)
    requires
        0 <= k <= t.len(),
        base >= 1,
    ensures
        digits_value(t.subrange(0, k), base) <= digits_value(t, base),
    decreases t.len() - k,
{
    if k < t.len() {
        lemma_prefix_value_le(t, base, k + 1);
        let p = t.subrange(0, k + 1);
        assert(p.drop_last() =~= t.subrange(0, k));
        let v = digits_value(t.subrange(0, k), base);
        assert(v * base >= v) by (nonlinear_arith)
            requires base >= 1, v >= 0;
    } else {
        assert(t.subrange(0, k) =~= t);
    }
}

pub proof fn lemma_decimal_digits(n: nat)
    ensures
        decimal(n).len() > 0,
        all_digits(decimal(n), 10),
        digits_value(decimal(n), 10) == n,
        forall|i: int| 0 <= i < decimal(n).len() ==> 48 <= #[trigger] decimal(n)[i] <= 57,
    decreases n,
{
    if n >= 10 {
        lemma_decimal_digits(n / 10);
        let d = decimal(n);
        assert(d.drop_last() =~= decimal(n / 10));
        assert(d.last() == (48 + n % 10) as u8);
        assert(digit_value(d.last(), 10) == Some(n % 10));
        assert(digits_value(d, 10) == (n / 10) * 10 + n % 10);
        assert forall|i: int| 0 <= i < d.len() implies (#[trigger] digit_value(d[i], 10)) is Some
            && 48 <= d[i] <= 57 by {
            if i < d.len() - 1 {
                assert(d[i] == decimal(n / 10)[i]);
            }
        }
    } else {
        let d = decimal(n);
        assert(d.drop_last() =~= Seq::<u8>::empty());
        assert(digit_value(d.last(), 10) == Some(n));
        assert(digits_value(d.drop_last(), 10) == 0);
        assert(digits_value(d, 10) == 0 * 10 + n);
    }
}

/// Whether the two slices hold the same bytes.
pub fn eq_bytes(s: &[u8], lit: &[u8]) -> (r: bool)
    ensures
        r == (s@ == lit@),
{
    if s.len() != lit.len() {
        return false;
    }
    let mut i: usize = 0;
    while i < s.len()
        invariant
            i <= s.len(),
            s.len() == lit.len(),
            forall|j: int| 0 <= j < i ==> s[j] == lit[j],
        decreases s.len() - i,
    {
        if s[i] != lit[i] {
            return false;
        }
        i += 1;
    }
    assert(s@ =~= lit@);
    true
}

pub fn starts_with_bytes(s: &[u8], pat: &[u8]) -> (r: bool)
    ensures
        r == starts_with(s@, pat@),
{
    if pat.len() > s.len() {
        return false;
    }
    let mut i: usize = 0;
    while i < pat.len()
        invariant
            i <= pat.len() <= s.len(),
            forall|j: int| 0 <= j < i ==> s[j] == pat[j],
        decreases pat.len() - i,
    {
        if s[i] != pat[i] {
            assert(s@.subrange(0, pat.len() as int)[i as int] != pat@[i as int]);
            return false;
        }
        i += 1;
    }
    assert(s@.subrange(0, pat.len() as int) =~= pat@);
    true
}

/// The bytes `s[a..e]` as a new vector.
pub fn copy_range(s: &[u8], a: usize, e: usize) -> (r: Vec<u8>)
    requires
        a <= e <= s.len(),
    ensures
        r@ == s@.subrange(a as int, e as int),
{
    let mut r: Vec<u8> = Vec::new();
    let mut i: usize = a;
    while i < e
        invariant
            a <= i <= e <= s.len(),
            r@ == s@.subrange(a as int, i as int),
        decreases e - i,
    {
        r.push(s[i]);
        i += 1;
        assert(r@ =~= s@.subrange(a as int, i as int));
    }
    r
}

/// Appends the bytes of `t` to `v`.
pub fn append_bytes(v: &mut Vec<u8>, t: &[u8])
    ensures
        final(v)@ == old(v)@ + t@,
{
    let mut i: usize = 0;
    while i < t.len()
        invariant
            i <= t.len(),
            v@ == old(v)@ + t@.subrange(0, i as int),
        decreases t.len() - i,
    {
        v.push(t[i]);
        i += 1;
        assert(v@ =~= old(v)@ + t@.subrange(0, i as int));
    }
    assert(t@.subrange(0, t.len() as int) =~= t@);
}

/// First index at or after `i` that holds `b`.
pub fn index_of(s: &[u8], b: u8, i: usize) -> (r: Option<usize>)
    ensures
        r matches Some(k) ==> index_from(s@, b, i as int) == Some(k as int) && i <= k < s.len()
            && s[k as int] == b,
        r is None ==> index_from(s@, b, i as int) is None,
{
    let mut k: usize = i;
    while k < s.len()
        invariant
            i <= k,
            index_from(s@, b, i as int) == index_from(s@, b, k as int),
        decreases s.len() - k,
    {
        if s[k] == b {
            return Some(k);
        }
        k += 1;
    }
    None
}

/// First index at or after `i` where `pat` occurs.
pub fn find_bytes(s: &[u8], pat: &[u8], i: usize) -> (r: Option<usize>)
    ensures
        r matches Some(k) ==> find_from(s@, pat@, i as int) == Some(k as int) && i <= k
            && k + pat.len() <= s.len(),
        r is None ==> find_from(s@, pat@, i as int) is None,
{
    let mut k: usize = i;
    while k <= s.len() && pat.len() <= s.len() - k
        invariant
            i <= k,
            find_from(s@, pat@, i as int) == find_from(s@, pat@, k as int),
        decreases s.len() + 1 - k,
    {
        let mut j: usize = 0;
        let mut same = true;
        while j < pat.len()
            invariant
                j <= pat.len(),
                k + pat.len() <= s.len(),
                same == forall|m: int| 0 <= m < j ==> s[k + m] == pat[m],
            decreases pat.len() - j,
        {
            if s[k + j] != pat[j] {
                same = false;
            }
            j += 1;
        }
        if same {
            assert(s@.subrange(k as int, k + pat.len()) =~= pat@);
            return Some(k);
        } else {
            assert(!occurs_at(s@, pat@, k as int)) by {
                let m = choose|m: int| 0 <= m < pat.len() && s[k + m] != pat[m];
                if s@.subrange(k as int, k + pat.len()) == pat@ {
                    assert(s@.subrange(k as int, k + pat.len())[m] == s[k + m]);
                }
            }
        }
        k += 1;
    }
    None
}

/// Bounds of `s` once leading and trailing whitespace is dropped.
pub fn trim_bounds(s: &[u8]) -> (r: (usize, usize))
    ensures
        r.0 <= r.1 <= s.len(),
        s@.subrange(r.0 as int, r.1 as int) == trim(s@),
{
    let mut a: usize = 0;
    while a < s.len() && (s[a] == 32 || (9 <= s[a] && s[a] <= 13))
        invariant
            a <= s.len(),
            skip_space(s@, 0) == skip_space(s@, a as int),
        decreases s.len() - a,
    {
        a += 1;
    }
    let mut e: usize = s.len();
    while e > 0 && (s[e - 1] == 32 || (9 <= s[e - 1] && s[e - 1] <= 13))
        invariant
            e <= s.len(),
            back_space(s@, s.len() as int) == back_space(s@, e as int),
        decreases e,
    {
        e -= 1;
    }
    if a < e {
        (a, e)
    } else {
        assert(s@.subrange(a as int, a as int) =~= Seq::<u8>::empty());
        (a, a)
    }
}

/// A copy of `s` with leading and trailing whitespace dropped.
pub fn trimmed(s: &[u8]) -> (r: Vec<u8>)
    ensures
        r@ == trim(s@),
{
    let (a, e) = trim_bounds(s);
    copy_range(s, a, e)
}

/// ASCII lower-casing.
pub fn to_lower(s: &[u8]) -> (r: Vec<u8>)
    ensures
        r@ == lower(s@),
{
    let mut r: Vec<u8> = Vec::new();
    let mut i: usize = 0;
    while i < s.len()
        invariant
            i <= s.len(),
            r@ =~= lower(s@).subrange(0, i as int),
        decreases s.len() - i,
    {
        let b = s[i];
        let c = if 65 <= b && b <= 90 { b + 32 } else { b };
        r.push(c);
        i += 1;
    }
    r
}

/// Reads an optional `+` and then digits of `base` (10 or 16), failing on
/// anything else and on values above `max`.
pub fn parse_number(s: &[u8], base: u64, max: u64) -> (r: Option<u64>)
    requires
        base == 10 || base == 16,
    ensures
        r matches Some(v) ==> parse_bounded(s@, base as nat, max as nat) == Some(v as nat),
        r is None ==> parse_bounded(s@, base as nat, max as nat) is None,
{
    let start: usize = if s.len() > 0 && s[0] == 43 { 1 } else { 0 };
    let ghost t = if s@.len() > 0 && s@[0] == 43 { s@.drop_first() } else { s@ };
    assert(t =~= s@.subrange(start as int, s.len() as int));
    assert(parse_unsigned(s@, base as nat) == (if t.len() > 0 && all_digits(t, base as nat) {
        Some(digits_value(t, base as nat))
    } else {
        None::<nat>
    }));
    if start >= s.len() {
        return None;
    }
    let mut acc: u64 = 0;
    let mut i: usize = start;
    while i < s.len()
        invariant
            start <= i <= s.len(),
            t == s@.subrange(start as int, s.len() as int),
            t.len() > 0,
            parse_unsigned(s@, base as nat) == (if all_digits(t, base as nat) {
                Some(digits_value(t, base as nat))
            } else {
                None::<nat>
            }),
            base == 10 || base == 16,
            acc as nat == digits_value(t.subrange(0, i - start), base as nat),
            acc <= max,
            all_digits(t.subrange(0, i - start), base as nat),
        decreases s.len() - i,
    {
        let b = s[i];
        let d: u64 = if 48 <= b && b <= 57 {
            (b - 48) as u64
        } else if 97 <= b && b <= 102 {
            (b - 87) as u64
        } else if 65 <= b && b <= 70 {
            (b - 55) as u64
        } else {
            99
        };
        assert(t[i - start] == b);
        if d >= base {
            assert(!all_digits(t, base as nat)) by {
                assert(digit_value(t[i - start], base as nat) is None);
            }
            return None;
        }
        let ghost p = t.subrange(0, i + 1 - start);
        assert(p.drop_last() =~= t.subrange(0, i - start));
        assert(p.last() == b);
        let next: u128 = acc as u128 * base as u128 + d as u128;
        assert(acc as u128 * base as u128 <= 0xffff_ffff_ffff_ffffu128 * 16) by (nonlinear_arith)
            requires acc <= 0xffff_ffff_ffff_ffffu64, base <= 16;
        if next > max as u128 {
            proof {
                if all_digits(t, base as nat) {
                    lemma_prefix_value_le(t, base as nat, i + 1 - start);
                }
            }
            return None;
        }
        acc = next as u64;
        i += 1;
        assert(all_digits(t.subrange(0, i - start), base as nat)) by {
            assert forall|j: int| 0 <= j < i - start implies
                (#[trigger] digit_value(t.subrange(0, i - start)[j], base as nat)) is Some by {
                if j < i - 1 - start {
                    assert(t.subrange(0, i - start)[j] == t.subrange(0, i - 1 - start)[j]);
                }
            }
        }
    }
    assert(t.subrange(0, s.len() - start) =~= t);
    Some(acc)
}

/// Shortest decimal spelling of `n`.
pub fn decimal_of(n: u16) -> (r: Vec<u8>)
    ensures
        r@ == decimal(n as nat),
{
    let mut digits: Vec<u8> = Vec::new();
    let mut m: u16 = n;
    // digits collected least significant first
    while m >= 10
        invariant
            decimal(n as nat) == decimal(m as nat) + digits@.reverse(),
        decreases m,
    {
        let ghost before = digits@;
        digits.push((48 + m % 10) as u8);
        assert(digits@.reverse() =~= seq![(48 + m % 10) as u8] + before.reverse());
        assert(decimal(m as nat) == decimal((m / 10) as nat).push((48 + m % 10) as u8));
        assert(decimal(m as nat) + before.reverse() =~= decimal((m / 10) as nat)
            + digits@.reverse());
        m = m / 10;
    }
    let mut r: Vec<u8> = Vec::new();
    r.push((48 + m) as u8);
    assert(r@ =~= decimal(m as nat));
    let mut k: usize = digits.len();
    while k > 0
        invariant
            k <= digits.len(),
            decimal(n as nat) == decimal(m as nat) + digits@.reverse(),
            r@ == decimal(m as nat) + digits@.reverse().subrange(0, (digits.len() - k) as int),
        decreases k,
    {
        k -= 1;
        r.push(digits[k]);
        assert(r@ =~= decimal(m as nat) + digits@.reverse().subrange(
            0,
            (digits.len() - k) as int,
        ));
    }
    assert(digits@.reverse().subrange(0, digits.len() as int) =~= digits@.reverse());
    r
}

} // verus!
