//! The dice mini-game: parse the first `<N>d<M>` pattern of a mention and
//! roll.
//!
//! The pattern is a run of decimal digits, a literal `d`, and another run of
//! digits; the leftmost occurrence is used, each run taken maximal.  A zero
//! count or zero faces, an absent pattern, and a count or face value too
//! large for `u64` all yield no result.  One die is rendered as its bare
//! value; up to ten dice with up to a hundred faces are rendered as
//! `v1 + v2 + ... = sum`; anything larger as the bare sum, to bound the
//! reply's length.
use vstd::prelude::*;

use crate::rng;
use crate::text;
use crate::text::{all_digits, dec_of, dec_val, is_digit};

verus! {

/// The end of the maximal digit run of `s` starting at `i`.
pub open spec fn run_end(s: Seq<u8>, i: int) -> int
    decreases s.len() - i,
{
    if 0 <= i < s.len() && is_digit(s[i]) {
        run_end(s, i + 1)
    } else {
        i
    }
}

/// A dice pattern starts at position `i` of `s`: digits, `d`, digit.
pub open spec fn dice_match_at(s: Seq<u8>, i: int) -> bool {
    &&& 0 <= i < s.len()
    &&& is_digit(s[i])
    &&& run_end(s, i) < s.len()
    &&& s[run_end(s, i)] == 0x64u8
    &&& run_end(s, i) + 1 < s.len()
    &&& is_digit(s[run_end(s, i) + 1])
}

/// The digits naming the count at a match position.
pub open spec fn count_digits(s: Seq<u8>, i: int) -> Seq<u8> {
    s.subrange(i, run_end(s, i))
}

/// The digits naming the face count at a match position.
pub open spec fn faces_digits(s: Seq<u8>, i: int) -> Seq<u8> {
    s.subrange(run_end(s, i) + 1, run_end(s, run_end(s, i) + 1))
}

/// The digit run from `i` reaches exactly to `run_end`, and no further.
proof fn lemma_run_end(s: Seq<u8>, i: int, j: int)
    requires
        0 <= i <= j <= s.len(),
        forall|k: int| i <= k < j ==> is_digit(#[trigger] s[k]),
        j == s.len() || !is_digit(s[j]),
    ensures
        run_end(s, i) == j,
    decreases j - i,
{
    if i < j {
        lemma_run_end(s, i + 1, j);
    }
}

/// Finds the end of the digit run starting at `i`.
fn run_end_x(s: &[u8], i: usize) -> (r: usize)
    requires
        i <= s@.len(),
    ensures
        r == run_end(s@, i as int),
        i <= r <= s@.len(),
        forall|k: int| i <= k < r ==> is_digit(#[trigger] s@[k]),
        r == s@.len() || !is_digit(s@[r as int]),
{
    let n = s.len();
    let mut k = i;
    while k < n && s[k] >= 0x30 && s[k] <= 0x39
        invariant
            i <= k <= n,
            n == s@.len(),
            forall|q: int| i <= q < k ==> is_digit(#[trigger] s@[q]),
        decreases n - k,
    {
        k = k + 1;
    }
    proof {
        lemma_run_end(s@, i as int, k as int);
    }
    k
}

/// Whether a dice pattern starts at `i`.
fn match_at_x(s: &[u8], i: usize) -> (r: bool)
    requires
        i < s@.len(),
    ensures
        r == dice_match_at(s@, i as int),
{
    if s[i] < 0x30 || s[i] > 0x39 {
        return false;
    }
    let j = run_end_x(s, i);
    if j >= s.len() {
        return false;
    }
    if s[j] != 0x64 {
        return false;
    }
    if j + 1 >= s.len() {
        return false;
    }
    s[j + 1] >= 0x30 && s[j + 1] <= 0x39
}

/// Copies `s[i..j]` into an owned vector.
fn copy_range(s: &[u8], i: usize, j: usize) -> (r: Vec<u8>)
    requires
        i <= j <= s@.len(),
    ensures
        r@ == s@.subrange(i as int, j as int),
{
    let mut out: Vec<u8> = Vec::new();
    let mut k = i;
    while k < j
        invariant
            i <= k <= j <= s@.len(),
            out@ == s@.subrange(i as int, k as int),
        decreases j - k,
    {
        out.push(s[k]);
        assert(s@.subrange(i as int, k as int).push(s@[k as int]) =~= s@.subrange(
            i as int,
            k + 1,
        ));
        k = k + 1;
    }
    out
}

/// The leftmost dice pattern of `text`, parsed: `Some((n, m))` exactly when
/// a pattern occurs and both numbers fit in `u64`.
pub fn find_dice(text: &[u8]) -> (r: Option<(u64, u64)>)
    ensures
        match r {
            Some(nm) => exists|i: int|
                {
                    &&& #[trigger] dice_match_at(text@, i)
                    &&& forall|p: int| 0 <= p < i ==> !dice_match_at(text@, p)
                    &&& nm.0 == dec_val(count_digits(text@, i))
                    &&& nm.1 == dec_val(faces_digits(text@, i))
                },
            None => (forall|i: int| !dice_match_at(text@, i)) || (exists|i: int|
                {
                    &&& #[trigger] dice_match_at(text@, i)
                    &&& forall|p: int| 0 <= p < i ==> !dice_match_at(text@, p)
                    &&& (dec_val(count_digits(text@, i)) > u64::MAX || dec_val(
                        faces_digits(text@, i),
                    ) > u64::MAX)
                }),
        },
{
    let n = text.len();
    let mut i: usize = 0;
    while i < n
        invariant
            i <= n,
            n == text@.len(),
            forall|p: int| 0 <= p < i ==> !dice_match_at(text@, p),
        decreases n - i,
    {
        if match_at_x(text, i) {
            let j = run_end_x(text, i);
            let j2 = run_end_x(text, j + 1);
            let count_str = copy_range(text, i, j);
            let faces_str = copy_range(text, j + 1, j2);
            proof {
                assert(all_digits(count_str@));
                assert(all_digits(faces_str@));
                assert(count_str@.len() > 0);
                assert(faces_str@.len() > 0);
            }
            let nv = text::parse_u64(count_str.as_slice());
            let mv = text::parse_u64(faces_str.as_slice());
            match (nv, mv) {
                (Some(a), Some(b)) => {
                    return Some((a, b));
                },
                _ => {
                    return None;
                },
            }
        }
        i = i + 1;
    }
    assert(forall|p: int| dice_match_at(text@, p) ==> 0 <= p < n);
    None
}

/// The sum of a sequence of rolls.
pub open spec fn sum_of(s: Seq<u64>) -> int
    decreases s.len(),
{
    if s.len() == 0 {
        0
    } else {
        sum_of(s.drop_last()) + s.last()
    }
}

/// Rolls within `[1, m]` keep the sum within `[len, len * m]`.
pub proof fn lemma_sum_bounds(s: Seq<u64>, m: u64)
    requires
        forall|i: int| 0 <= i < s.len() ==> 1 <= #[trigger] s[i] <= m,
    ensures
        s.len() <= sum_of(s) <= s.len() * m,
    decreases s.len(),
{
    if s.len() > 0 {
        lemma_sum_bounds(s.drop_last(), m);
        assert((s.len() - 1) * m + m == s.len() * m) by (nonlinear_arith);
    } else {
        assert(s.len() * m == 0) by (nonlinear_arith)
            requires
                s.len() == 0,
        ;
    }
}

/// Draws `n` independent rolls, each uniform in `[1, m]`.
fn roll_dice(n: u64, m: u64) -> (r: (Vec<u64>, u128))
    requires
        1 <= n,
        1 <= m,
        n <= usize::MAX,
    ensures
        r.0@.len() == n,
        forall|i: int| 0 <= i < r.0@.len() ==> 1 <= #[trigger] r.0@[i] <= m,
        r.1 == sum_of(r.0@),
{
    let mut rolls: Vec<u64> = Vec::new();
    let mut sum: u128 = 0;
    let count = n as usize;
    let mut i: usize = 0;
    while i < count
        invariant
            1 <= m,
            count == n,
            i <= count,
            rolls@.len() == i,
            forall|k: int| 0 <= k < rolls@.len() ==> 1 <= #[trigger] rolls@[k] <= m,
            sum == sum_of(rolls@),
            sum <= (i as int) * m,
        decreases count - i,
    {
        let v = rng::random_in(1, m);
        proof {
            assert((i as int) * m + m == (i + 1) as int * m) by (nonlinear_arith);
            assert((i + 1) as int * m <= 0xffff_ffff_ffff_ffff * 0xffff_ffff_ffff_ffff)
                by (nonlinear_arith)
                requires
                    0 <= (i + 1) as int <= 0xffff_ffff_ffff_ffff,
                    0 < m <= 0xffff_ffff_ffff_ffff,
            ;
        }
        sum = sum + (v as u128);
        let ghost prev = rolls@;
        rolls.push(v);
        proof {
            assert(rolls@.drop_last() =~= prev);
        }
        i = i + 1;
    }
    (rolls, sum)
}

/// The rolls joined by `" + "`.
pub open spec fn joined(rolls: Seq<u64>) -> Seq<u8>
    decreases rolls.len(),
{
    if rolls.len() == 0 {
        Seq::empty()
    } else if rolls.len() == 1 {
        dec_of(rolls[0] as nat)
    } else {
        joined(rolls.drop_last()) + seq![0x20u8, 0x2bu8, 0x20u8] + dec_of(rolls.last() as nat)
    }
}

/// The rendering of a roll of `n` dice: the bare value for one die, the
/// written-out sum `v1 + v2 + ... = sum` for a small roll, the bare sum for
/// a large one.
pub open spec fn spec_render(rolls: Seq<u64>, m: u64, total: int) -> Seq<u8> {
    if rolls.len() == 1 {
        dec_of(rolls[0] as nat)
    } else if rolls.len() <= 10 && m <= 100 {
        joined(rolls) + seq![0x20u8, 0x3du8, 0x20u8] + dec_of(total as nat)
    } else {
        dec_of(total as nat)
    }
}

/// Renders the rolls.
fn render_rolls(rolls: &Vec<u64>, m: u64, total: u128) -> (r: Vec<u8>)
    requires
        rolls@.len() >= 1,
        total == sum_of(rolls@),
        total >= 0,
    ensures
        r@ == spec_render(rolls@, m, total as int),
{
    if rolls.len() == 1 {
        let out = text::format_u128(rolls[0] as u128);
        return out;
    }
    if rolls.len() <= 10 && m <= 100 {
        let mut out: Vec<u8> = Vec::new();
        let first = text::format_u128(rolls[0] as u128);
        text::append_bytes(&mut out, first.as_slice());
        proof {
            assert(rolls@.take(1).drop_last() =~= Seq::<u64>::empty());
            assert(rolls@.take(1) =~= seq![rolls@[0]]);
            assert(out@ =~= joined(rolls@.take(1)));
        }
        let mut i: usize = 1;
        while i < rolls.len()
            invariant
                1 <= i <= rolls@.len(),
                out@ == joined(rolls@.take(i as int)),
            decreases rolls@.len() - i,
        {
            out.push(0x20);
            out.push(0x2b);
            out.push(0x20);
            let piece = text::format_u128(rolls[i] as u128);
            text::append_bytes(&mut out, piece.as_slice());
            proof {
                assert(rolls@.take(i + 1).drop_last() =~= rolls@.take(i as int));
                assert(rolls@.take(i + 1).len() >= 2);
                assert(rolls@.take(i + 1).last() == rolls@[i as int]);
                assert(out@ =~= joined(rolls@.take(i + 1)));
            }
            i = i + 1;
        }
        assert(rolls@.take(rolls@.len() as int) =~= rolls@);
        out.push(0x20);
        out.push(0x3d);
        out.push(0x20);
        let sum_str = text::format_u128(total);
        text::append_bytes(&mut out, sum_str.as_slice());
        assert(out@ =~= joined(rolls@) + seq![0x20u8, 0x3du8, 0x20u8] + dec_of(total as nat));
        return out;
    }
    text::format_u128(total)
}

/// A reply `out` is a correct rendering of the first dice pattern of
/// `text`: some roll of the parsed count and faces, rendered by
/// `spec_render`.
pub open spec fn spec_dice_reply(text: Seq<u8>, out: Seq<u8>) -> bool {
    exists|i: int, rolls: Seq<u64>|
        #![trigger dice_match_at(text, i), sum_of(rolls)]
        {
            let n = dec_val(count_digits(text, i));
            let m = dec_val(faces_digits(text, i));
            &&& dice_match_at(text, i)
            &&& forall|p: int| 0 <= p < i ==> !dice_match_at(text, p)
            &&& 1 <= n <= usize::MAX
            &&& 1 <= m <= u64::MAX
            &&& rolls.len() == n
            &&& (forall|k: int| 0 <= k < rolls.len() ==> 1 <= #[trigger] rolls[k] <= m)
            &&& out == spec_render(rolls, m as u64, sum_of(rolls))
        }
}

/// `text` admits no dice reply: no pattern occurs, or the first pattern
/// names a zero or an unrepresentable number.
pub open spec fn spec_dice_rejected(text: Seq<u8>) -> bool {
    (forall|i: int| !dice_match_at(text, i)) || (exists|i: int|
        {
            &&& #[trigger] dice_match_at(text, i)
            &&& forall|p: int| 0 <= p < i ==> !dice_match_at(text, p)
            &&& (dec_val(count_digits(text, i)) == 0 || dec_val(faces_digits(text, i)) == 0
                || dec_val(count_digits(text, i)) > usize::MAX || dec_val(faces_digits(text, i))
                > u64::MAX)
        })
}

/// Parses the first dice pattern of a mention and rolls it.
///
/// Returns `None` exactly when no pattern occurs, a number overflows, or
/// the count or face number is zero.  Otherwise the reply renders a roll of
/// `n` dice with values in `[1, m]`, in the format `spec_render` gives.
pub fn get_dice(text: &[u8]) -> (r: Option<Vec<u8>>)
    ensures
        match r {
            Some(out) => spec_dice_reply(text@, out@),
            None => spec_dice_rejected(text@),
        },
{
    let parsed = find_dice(text);
    match parsed {
        None => None,
        Some((n, m)) => {
            if n == 0 || m == 0 {
                return None;
            }
            if (n as u128) > (usize::MAX as u128) {
                // a count beyond the address space cannot be allocated;
                // such a roll is rejected like an absent pattern
                return None;
            }
            let (rolls, total) = roll_dice(n, m);
            let out = render_rolls(&rolls, m, total);
            proof {
                lemma_sum_bounds(rolls@, m);
            }
            Some(out)
        },
    }
}

} // verus!
