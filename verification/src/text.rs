//! Byte-string utilities shared by the whole library.
//!
//! All operator-visible text (quotes, keywords, mention bodies, resource
//! names) is handled as UTF-8 byte vectors, so every operation on it can be
//! specified over `Seq<u8>`.
use vstd::prelude::*;

verus! {

/// Strict lexicographic order on byte sequences, the order `BTreeMap<String, _>`
/// iterates its keys in.
pub open spec fn lex_lt(a: Seq<u8>, b: Seq<u8>) -> bool
    decreases a.len(),
{
    if b.len() == 0 {
        false
    } else if a.len() == 0 {
        true
    } else if a[0] < b[0] {
        true
    } else if a[0] > b[0] {
        false
    } else {
        lex_lt(a.skip(1), b.skip(1))
    }
}

/// `pat` occurs in `text` starting at position `i`.
pub open spec fn occurs_at(text: Seq<u8>, pat: Seq<u8>, i: int) -> bool {
    0 <= i && i + pat.len() <= text.len() && text.subrange(i, i + pat.len() as int) == pat
}

/// `pat` occurs somewhere in `text` as a contiguous run.
pub open spec fn contains_seq(text: Seq<u8>, pat: Seq<u8>) -> bool {
    exists|i: int| occurs_at(text, pat, i)
}

/// Whether `pat` occurs in `text` at exactly position `i`.
fn match_at(text: &[u8], pat: &[u8], i: usize) -> (r: bool)
    requires
        i + pat@.len() <= text@.len(),
    ensures
        r == occurs_at(text@, pat@, i as int),
{
    let n = text.len();
    let m = pat.len();
    let mut j: usize = 0;
    while j < m
        invariant
            i + m <= n,
            n == text@.len(),
            m == pat@.len(),
            j <= m,
            forall|k: int| 0 <= k < j ==> text@[i + k] == pat@[k],
        decreases m - j,
    {
        if text[i + j] != pat[j] {
            assert(text@.subrange(i as int, i + m as int)[j as int] != pat@[j as int]);
            return false;
        }
        j = j + 1;
    }
    assert(text@.subrange(i as int, i + m as int) =~= pat@);
    true
}

/// Substring test: whether `pat` occurs contiguously in `text`.
pub fn contains_bytes(text: &[u8], pat: &[u8]) -> (r: bool)
    ensures
        r == contains_seq(text@, pat@),
{
    let n = text.len();
    let m = pat.len();
    if m > n {
        assert(forall|k: int| !occurs_at(text@, pat@, k));
        return false;
    }
    if m == 0 {
        assert(text@.subrange(0, 0) =~= pat@);
        assert(occurs_at(text@, pat@, 0));
        return true;
    }
    let mut i: usize = 0;
    while i <= n - m
        invariant
            1 <= m <= n,
            n == text@.len(),
            m == pat@.len(),
            i <= n - m + 1,
            forall|k: int| 0 <= k < i ==> !occurs_at(text@, pat@, k),
        decreases n - m - i + 1,
    {
        if match_at(text, pat, i) {
            return true;
        }
        i = i + 1;
    }
    assert(forall|k: int| occurs_at(text@, pat@, k) ==> 0 <= k <= n - m);
    false
}

/// Appends all of `src` to `dst`.
pub fn append_bytes(dst: &mut Vec<u8>, src: &[u8])
    ensures
        final(dst)@ == old(dst)@ + src@,
{
    let mut i: usize = 0;
    while i < src.len()
        invariant
            i <= src@.len(),
            dst@ == old(dst)@ + src@.take(i as int),
        decreases src@.len() - i,
    {
        dst.push(src[i]);
        assert(old(dst)@ + src@.take(i as int) + seq![src@[i as int]] =~= old(dst)@ + src@.take(
            i + 1,
        ));
        i = i + 1;
    }
    assert(old(dst)@ + src@.take(src@.len() as int) =~= old(dst)@ + src@);
}

/// The decimal rendering of `n`, most significant digit first, no leading
/// zeros (`0` itself is rendered as the single digit `0`).
pub open spec fn dec_of(n: nat) -> Seq<u8>
    decreases n,
{
    if n < 10 {
        seq![(n + 0x30) as u8]
    } else {
        dec_of(n / 10).push((n % 10 + 0x30) as u8)
    }
}

/// Renders `x` in decimal.
pub fn format_u128(x: u128) -> (r: Vec<u8>)
    ensures
        r@ == dec_of(x as nat),
{
    if x == 0 {
        let mut out: Vec<u8> = Vec::new();
        out.push(0x30);
        assert(out@ =~= dec_of(0));
        return out;
    }
    let mut rev: Vec<u8> = Vec::new();
    let mut v: u128 = x;
    assert(Seq::<u8>::empty().reverse() =~= Seq::<u8>::empty());
    assert(dec_of(x as nat) + Seq::<u8>::empty() =~= dec_of(x as nat));
    while v > 0
        invariant
            (v > 0 && dec_of(x as nat) == dec_of(v as nat) + rev@.reverse()) || (v == 0 && rev@.len()
                > 0 && dec_of(x as nat) == rev@.reverse()),
        decreases v,
    {
        let ghost old_rev = rev@;
        let ghost vv = v as nat;
        let d: u8 = (v % 10) as u8 + 0x30;
        rev.push(d);
        assert(rev@.reverse() =~= seq![d] + old_rev.reverse());
        proof {
            if vv < 10 {
                assert(dec_of(vv) == seq![d]);
            } else {
                assert(dec_of(vv) == dec_of(vv / 10).push(d));
                assert(dec_of(vv / 10).push(d) + old_rev.reverse() =~= dec_of(vv / 10) + (seq![d]
                    + old_rev.reverse()));
            }
        }
        v = v / 10;
    }
    let mut out: Vec<u8> = Vec::new();
    let mut k: usize = rev.len();
    while k > 0
        invariant
            k <= rev@.len(),
            out@.len() == rev@.len() - k,
            forall|i: int| 0 <= i < out@.len() ==> out@[i] == rev@[rev@.len() - 1 - i],
        decreases k,
    {
        k = k - 1;
        out.push(rev[k]);
    }
    assert(out@ =~= rev@.reverse());
    out
}

/// Whether `b` is an ASCII decimal digit.
pub open spec fn is_digit(b: u8) -> bool {
    0x30 <= b <= 0x39
}

/// Whether every byte of `s` is an ASCII decimal digit.
pub open spec fn all_digits(s: Seq<u8>) -> bool {
    forall|i: int| 0 <= i < s.len() ==> is_digit(#[trigger] s[i])
}

/// The numeric value of a digit string, most significant digit first.
pub open spec fn dec_val(s: Seq<u8>) -> nat
    decreases s.len(),
{
    if s.len() == 0 {
        0
    } else {
        dec_val(s.drop_last()) * 10 + ((s.last() - 0x30) as nat)
    }
}

/// Parses a digit string as a `u64`; `None` on the empty string, a non-digit
/// byte, or overflow.
pub fn parse_u64(s: &[u8]) -> (r: Option<u64>)
    ensures
        match r {
            Some(v) => s@.len() > 0 && all_digits(s@) && v == dec_val(s@) && dec_val(s@)
                <= u64::MAX,
            None => s@.len() == 0 || !all_digits(s@) || dec_val(s@) > u64::MAX,
        },
{
    if s.len() == 0 {
        return None;
    }
    let mut acc: u64 = 0;
    let mut i: usize = 0;
    while i < s.len()
        invariant
            i <= s@.len(),
            all_digits(s@.take(i as int)),
            acc == dec_val(s@.take(i as int)),
        decreases s@.len() - i,
    {
        let b = s[i];
        if b < 0x30 || b > 0x39 {
            assert(!is_digit(s@[i as int]));
            return None;
        }
        let d: u64 = (b - 0x30) as u64;
        if acc > (u64::MAX - d) / 10 {
            proof {
                lemma_dec_val_prefix_le(s@, i + 1);
                assert(s@.take(i + 1).drop_last() =~= s@.take(i as int));
                assert(dec_val(s@.take(i + 1)) == acc * 10 + d);
                assert(acc * 10 + d > u64::MAX) by (nonlinear_arith)
                    requires
                        acc > (u64::MAX - d) / 10,
                        0 <= d <= 9,
                        acc <= u64::MAX,
                ;
            }
            return None;
        }
        acc = acc * 10 + d;
        assert(s@.take(i + 1).drop_last() =~= s@.take(i as int));
        assert(all_digits(s@.take(i + 1)));
        i = i + 1;
    }
    assert(s@.take(s@.len() as int) =~= s@);
    Some(acc)
}

/// A digit-string prefix never has a larger value than the whole string.
proof fn lemma_dec_val_prefix_le(s: Seq<u8>, i: int)
    requires
        0 <= i <= s.len(),
    ensures
        dec_val(s.take(i)) <= dec_val(s),
    decreases s.len() - i,
{
    if i < s.len() {
        lemma_dec_val_prefix_le(s, i + 1);
        assert(s.take(i + 1).drop_last() =~= s.take(i));
        assert(dec_val(s.take(i + 1)) == dec_val(s.take(i)) * 10 + ((s.take(i + 1).last()
            - 0x30) as nat));
        assert(dec_val(s.take(i)) <= dec_val(s.take(i)) * 10) by (nonlinear_arith)
            requires
                dec_val(s.take(i)) >= 0,
        ;
    } else {
        assert(s.take(i) =~= s);
    }
}

/// A byte mapped to its lower-case form, with `_` mapped to `-`: the
/// normalization applied to stored resource names.
pub open spec fn sanitize_byte(b: u8) -> u8 {
    if 0x41 <= b <= 0x5a {
        (b + 0x20) as u8
    } else if b == 0x5f {
        0x2d
    } else {
        b
    }
}

/// `s` normalized byte for byte by `sanitize_byte`.
pub open spec fn sanitized(s: Seq<u8>) -> Seq<u8> {
    s.map_values(|b: u8| sanitize_byte(b))
}

/// Appends the normalized form of `src` to `dst`.
pub fn append_sanitized(dst: &mut Vec<u8>, src: &[u8])
    ensures
        final(dst)@ == old(dst)@ + sanitized(src@),
{
    let mut i: usize = 0;
    while i < src.len()
        invariant
            i <= src@.len(),
            dst@ == old(dst)@ + sanitized(src@.take(i as int)),
        decreases src@.len() - i,
    {
        let b = src[i];
        let sb: u8 = if b >= 0x41 && b <= 0x5a {
            b + 0x20
        } else if b == 0x5f {
            0x2d
        } else {
            b
        };
        dst.push(sb);
        assert(old(dst)@ + sanitized(src@.take(i as int)) + seq![sanitize_byte(src@[i as int])]
            =~= old(dst)@ + sanitized(src@.take(i + 1)));
        i = i + 1;
    }
    assert(old(dst)@ + sanitized(src@.take(src@.len() as int)) =~= old(dst)@ + sanitized(src@));
}

/// ASCII whitespace: the characters `trim` strips from form input.
pub open spec fn is_ascii_ws(b: u8) -> bool {
    b == 0x20 || (0x09 <= b <= 0x0d)
}

/// `s` with leading ASCII whitespace removed.
pub open spec fn ltrimmed(s: Seq<u8>) -> Seq<u8>
    decreases s.len(),
{
    if s.len() > 0 && is_ascii_ws(s[0]) {
        ltrimmed(s.skip(1))
    } else {
        s
    }
}

/// `s` with trailing ASCII whitespace removed.
pub open spec fn rtrimmed(s: Seq<u8>) -> Seq<u8>
    decreases s.len(),
{
    if s.len() > 0 && is_ascii_ws(s.last()) {
        rtrimmed(s.drop_last())
    } else {
        s
    }
}

/// `s` with whitespace removed from both ends.
pub open spec fn trimmed(s: Seq<u8>) -> Seq<u8> {
    rtrimmed(ltrimmed(s))
}

/// Leading whitespace reaches exactly to `a`.
proof fn lemma_ltrim(s: Seq<u8>, a: int)
    requires
        0 <= a <= s.len(),
        forall|k: int| 0 <= k < a ==> is_ascii_ws(#[trigger] s[k]),
        a == s.len() || !is_ascii_ws(s[a]),
    ensures
        ltrimmed(s) == s.skip(a),
    decreases a,
{
    if a == 0 {
        assert(s.skip(0) =~= s);
    } else {
        lemma_ltrim(s.skip(1), a - 1);
        assert(s.skip(1).skip(a - 1) =~= s.skip(a));
    }
}

/// Trailing whitespace reaches exactly back to `m`.
proof fn lemma_rtrim(t: Seq<u8>, m: int)
    requires
        0 <= m <= t.len(),
        forall|k: int| m <= k < t.len() ==> is_ascii_ws(#[trigger] t[k]),
        m == 0 || !is_ascii_ws(t[m - 1]),
    ensures
        rtrimmed(t) == t.take(m),
    decreases t.len() - m,
{
    if m < t.len() {
        lemma_rtrim(t.drop_last(), m);
        assert(t.drop_last().take(m) =~= t.take(m));
    } else {
        assert(t.take(m) =~= t);
    }
}

/// Copies `s[a0..b0]` with ASCII whitespace trimmed from both ends.
pub fn trim_range(s: &[u8], a0: usize, b0: usize) -> (r: Vec<u8>)
    requires
        a0 <= b0 <= s@.len(),
    ensures
        r@ == trimmed(s@.subrange(a0 as int, b0 as int)),
{
    let ghost t = s@.subrange(a0 as int, b0 as int);
    let mut a = a0;
    while a < b0 && (s[a] == 0x20 || (s[a] >= 0x09 && s[a] <= 0x0d))
        invariant
            a0 <= a <= b0 <= s@.len(),
            forall|k: int| a0 <= k < a ==> is_ascii_ws(#[trigger] s@[k]),
        decreases b0 - a,
    {
        a = a + 1;
    }
    proof {
        assert(forall|k: int| 0 <= k < a - a0 ==> is_ascii_ws(#[trigger] t[k]));
        lemma_ltrim(t, a - a0);
        assert(ltrimmed(t) == t.skip(a - a0));
    }
    let mut b = b0;
    while b > a && (s[b - 1] == 0x20 || (s[b - 1] >= 0x09 && s[b - 1] <= 0x0d))
        invariant
            a <= b <= b0 <= s@.len(),
            forall|k: int| b <= k < b0 ==> is_ascii_ws(#[trigger] s@[k]),
        decreases b,
    {
        b = b - 1;
    }
    proof {
        let u = t.skip(a - a0);
        assert(forall|k: int| b - a <= k < u.len() ==> is_ascii_ws(#[trigger] u[k]));
        lemma_rtrim(u, b - a);
        assert(rtrimmed(u) == u.take(b - a));
        assert(u.take(b - a) =~= s@.subrange(a as int, b as int));
    }
    let mut out: Vec<u8> = Vec::new();
    let mut k = a;
    while k < b
        invariant
            a <= k <= b <= s@.len(),
            out@ == s@.subrange(a as int, k as int),
        decreases b - k,
    {
        out.push(s[k]);
        assert(s@.subrange(a as int, k as int).push(s@[k as int]) =~= s@.subrange(
            a as int,
            k + 1,
        ));
        k = k + 1;
    }
    out
}

/// `lex_lt` is unchanged by dropping an equal prefix.
proof fn lemma_lex_skip(a: Seq<u8>, b: Seq<u8>, i: int)
    requires
        0 <= i <= a.len(),
        i <= b.len(),
        forall|k: int| 0 <= k < i ==> a[k] == b[k],
    ensures
        lex_lt(a, b) == lex_lt(a.skip(i), b.skip(i)),
    decreases i,
{
    if i == 0 {
        assert(a.skip(0) =~= a);
        assert(b.skip(0) =~= b);
    } else {
        assert(a.len() > 0 && b.len() > 0 && a[0] == b[0]);
        lemma_lex_skip(a.skip(1), b.skip(1), i - 1);
        assert(a.skip(1).skip(i - 1) =~= a.skip(i));
        assert(b.skip(1).skip(i - 1) =~= b.skip(i));
    }
}

/// Decides the strict lexicographic order on byte strings.
pub fn lex_less(a: &[u8], b: &[u8]) -> (r: bool)
    ensures
        r == lex_lt(a@, b@),
{
    let mut i: usize = 0;
    while i < a.len() && i < b.len()
        invariant
            i <= a@.len(),
            i <= b@.len(),
            forall|k: int| 0 <= k < i ==> a@[k] == b@[k],
        decreases a@.len() - i,
    {
        if a[i] != b[i] {
            proof {
                lemma_lex_skip(a@, b@, i as int);
                assert(a@.skip(i as int)[0] == a@[i as int]);
                assert(b@.skip(i as int)[0] == b@[i as int]);
            }
            return a[i] < b[i];
        }
        i = i + 1;
    }
    proof {
        lemma_lex_skip(a@, b@, i as int);
    }
    if i < b.len() {
        assert(a@.skip(i as int).len() == 0);
        true
    } else {
        assert(b@.skip(i as int).len() == 0);
        false
    }
}

/// Decides byte-string equality.
pub fn bytes_eq(a: &[u8], b: &[u8]) -> (r: bool)
    ensures
        r == (a@ == b@),
{
    if a.len() != b.len() {
        return false;
    }
    let mut i: usize = 0;
    while i < a.len()
        invariant
            a@.len() == b@.len(),
            i <= a@.len(),
            forall|k: int| 0 <= k < i ==> a@[k] == b@[k],
        decreases a@.len() - i,
    {
        if a[i] != b[i] {
            return false;
        }
        i = i + 1;
    }
    assert(a@ =~= b@);
    true
}

} // verus!
