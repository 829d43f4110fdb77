//! Time-sortable 128-bit identifiers and their 26-character base32 text form.
//!
//! The store keys quotes and replies by ULID strings: 26 characters over the
//! alphabet `0123456789ABCDEFGHJKMNPQRSTVWXYZ`, most significant 5-bit group
//! first, lower-case letters accepted on input.  The codec here is verified
//! against that description, with a proof that decoding inverts encoding.
use vstd::prelude::*;

verus! {

/// Why a candidate identifier string was rejected.
#[derive(Clone, Copy, PartialEq, Eq, Structural, Debug)]
pub enum IdParseError {
    /// The string is not exactly 26 bytes long.
    InvalidLength,
    /// A byte is not a base32 character of the identifier alphabet.
    InvalidChar,
}

/// The byte encoding the 5-bit group `v`.
pub open spec fn enc_char(v: u8) -> u8 {
    if v < 10 {
        (v + 0x30) as u8  // '0'..='9'
    } else if v < 18 {
        (v + 55) as u8  // 'A'..='H'
    } else if v < 20 {
        (v + 56) as u8  // 'J', 'K'
    } else if v < 22 {
        (v + 57) as u8  // 'M', 'N'
    } else if v < 27 {
        (v + 58) as u8  // 'P'..='T'
    } else {
        (v + 59) as u8  // 'V'..='Z'
    }
}

/// The 5-bit group a byte decodes to, `255` when the byte is not in the
/// alphabet.  Lower-case letters decode like their upper-case forms.
pub open spec fn dec_char_val(b: u8) -> u8 {
    let c: u8 = if 0x61 <= b <= 0x7a {
        (b - 0x20) as u8
    } else {
        b
    };
    if 0x30 <= c <= 0x39 {
        (c - 0x30) as u8
    } else if 0x41 <= c <= 0x48 {
        (c - 55) as u8
    } else if 0x4a <= c <= 0x4b {
        (c - 56) as u8
    } else if 0x4d <= c <= 0x4e {
        (c - 57) as u8
    } else if 0x50 <= c <= 0x54 {
        (c - 58) as u8
    } else if 0x56 <= c <= 0x5a {
        (c - 59) as u8
    } else {
        255
    }
}

/// The 5-bit group of `id` rendered at position `i` of the text form.
pub open spec fn id_group(id: u128, i: int) -> u8 {
    ((id >> ((5 * (25 - i)) as u128)) & 0x1f) as u8
}

/// The 26-byte text form of `id`.
pub open spec fn id_text(id: u128) -> Seq<u8> {
    Seq::new(26, |i: int| enc_char(id_group(id, i)))
}

/// Every byte of `s` is in the identifier alphabet.
pub open spec fn id_chars_valid(s: Seq<u8>) -> bool {
    forall|i: int| 0 <= i < s.len() ==> dec_char_val(#[trigger] s[i]) != 255
}

/// The value a valid 26-byte string decodes to: groups folded in from the
/// left, later groups shifted in at the bottom.
pub open spec fn id_fold(s: Seq<u8>) -> u128
    decreases s.len(),
{
    if s.len() == 0 {
        0
    } else {
        (id_fold(s.drop_last()) << 5) | (dec_char_val(s.last()) as u128)
    }
}

/// Encodes the 5-bit group `g`.
fn enc_char_x(g: u8) -> (r: u8)
    requires
        g < 32,
    ensures
        r == enc_char(g),
{
    if g < 10 {
        g + 0x30
    } else if g < 18 {
        g + 55
    } else if g < 20 {
        g + 56
    } else if g < 22 {
        g + 57
    } else if g < 27 {
        g + 58
    } else {
        g + 59
    }
}

/// Decodes one byte to its 5-bit group, `255` when invalid.
fn dec_char_x(b: u8) -> (r: u8)
    ensures
        r == dec_char_val(b),
{
    let c: u8 = if b >= 0x61 && b <= 0x7a {
        b - 0x20
    } else {
        b
    };
    if c >= 0x30 && c <= 0x39 {
        c - 0x30
    } else if c >= 0x41 && c <= 0x48 {
        c - 55
    } else if c >= 0x4a && c <= 0x4b {
        c - 56
    } else if c >= 0x4d && c <= 0x4e {
        c - 57
    } else if c >= 0x50 && c <= 0x54 {
        c - 58
    } else if c >= 0x56 && c <= 0x5a {
        c - 59
    } else {
        255
    }
}

/// Renders `id` as its 26-character text form.
pub fn format_id(id: u128) -> (r: Vec<u8>)
    ensures
        r@ == id_text(id),
        r@.len() == 26,
{
    let mut out: Vec<u8> = Vec::new();
    let mut i: usize = 0;
    while i < 26
        invariant
            i <= 26,
            out@ =~= id_text(id).take(i as int),
        decreases 26 - i,
    {
        let sh: u128 = (125 - 5 * i) as u128;
        let gw: u128 = (id >> sh) & 0x1f;
        assert(gw <= 31) by (bit_vector)
            requires
                gw == (id >> sh) & 0x1f,
        ;
        let g: u8 = gw as u8;
        assert(g == id_group(id, i as int));
        out.push(enc_char_x(g));
        assert(out@ =~= id_text(id).take(i + 1));
        i = i + 1;
    }
    assert(id_text(id).take(26) =~= id_text(id));
    out
}

/// Parses a 26-character identifier string back to its value.
pub fn parse_id(s: &[u8]) -> (r: Result<u128, IdParseError>)
    ensures
        match r {
            Ok(v) => s@.len() == 26 && id_chars_valid(s@) && v == id_fold(s@),
            Err(IdParseError::InvalidLength) => s@.len() != 26,
            Err(IdParseError::InvalidChar) => s@.len() == 26 && !id_chars_valid(s@),
        },
{
    if s.len() != 26 {
        return Err(IdParseError::InvalidLength);
    }
    let mut value: u128 = 0;
    let mut i: usize = 0;
    while i < 26
        invariant
            i <= 26,
            s@.len() == 26,
            id_chars_valid(s@.take(i as int)),
            value == id_fold(s@.take(i as int)),
        decreases 26 - i,
    {
        let val = dec_char_x(s[i]);
        if val == 255 {
            assert(dec_char_val(s@[i as int]) == 255);
            return Err(IdParseError::InvalidChar);
        }
        value = (value << 5) | (val as u128);
        assert(s@.take(i + 1).drop_last() =~= s@.take(i as int));
        assert(id_chars_valid(s@.take(i + 1)));
        i = i + 1;
    }
    assert(s@.take(26) =~= s@);
    Ok(value)
}

/// One fold step keeps reconstructing right-shifted views of the value.
proof fn lemma_fold_step(v: u128, s: u128)
    requires
        5 <= s <= 125,
    ensures
        ((v >> s) << 5) | ((v >> (s - 5) as u128) & 0x1f) == v >> (s - 5) as u128,
{
    assert(((v >> s) << 5) | ((v >> (s - 5) as u128) & 0x1f) == v >> (s - 5) as u128)
        by (bit_vector)
        requires
            5 <= s <= 125,
    ;
}

/// The partial folds of an encoded identifier are its right shifts.
proof fn lemma_enc_partial_fold(id: u128, j: int)
    requires
        1 <= j <= 26,
    ensures
        id_fold(id_text(id).take(j)) == id >> ((130 - 5 * j) as u128),
    decreases j,
{
    let s = id_text(id);
    assert(forall|g: u8| g < 32 ==> dec_char_val(#[trigger] enc_char(g)) == g);
    if j == 1 {
        assert(s.take(1).drop_last() =~= s.take(0));
        assert(s.take(0).len() == 0);
        assert(id_fold(s.take(0)) == 0);
        assert(s.take(1).last() == s[0]);
        assert(s[0] == enc_char(id_group(id, 0)));
        assert(id_group(id, 0) <= 31) by {
            let gw = (id >> 125) & 0x1f;
            assert(gw <= 31) by (bit_vector)
                requires
                    gw == (id >> 125) & 0x1f,
            ;
        }
        assert(id_fold(s.take(1)) == (0u128 << 5) | (id_group(id, 0) as u128));
        assert((0u128 << 5) | (((id >> 125) & 0x1f) as u8 as u128) == id >> 125) by (bit_vector);
    } else {
        lemma_enc_partial_fold(id, j - 1);
        assert(s.take(j).drop_last() =~= s.take(j - 1));
        let sh = (130 - 5 * (j - 1)) as u128;
        let gj = id_group(id, j - 1);
        assert(gj <= 31 && gj as u128 == (id >> (sh - 5) as u128) & 0x1f) by {
            let gw = (id >> (sh - 5) as u128) & 0x1f;
            assert(gw <= 31 && (gw as u8) as u128 == gw) by (bit_vector)
                requires
                    gw == (id >> (sh - 5) as u128) & 0x1f,
            ;
        }
        assert(dec_char_val(s.take(j).last()) == gj);
        lemma_fold_step(id, sh);
    }
}

/// Decoding inverts encoding: the text form of `id` is made of valid
/// alphabet bytes and folds back to `id` exactly.
pub proof fn lemma_id_text_round_trip(id: u128)
    ensures
        id_chars_valid(id_text(id)),
        id_fold(id_text(id)) == id,
{
    let s = id_text(id);
    assert(forall|g: u8| g < 32 ==> dec_char_val(#[trigger] enc_char(g)) == g);
    assert forall|i: int| 0 <= i < s.len() implies dec_char_val(#[trigger] s[i]) != 255 by {
        let sh = (5 * (25 - i)) as u128;
        let gw = (id >> sh) & 0x1f;
        assert(gw <= 31) by (bit_vector)
            requires
                gw == (id >> sh) & 0x1f,
        ;
    }
    lemma_enc_partial_fold(id, 26);
    assert(s.take(26) =~= s);
    assert(id >> 0u128 == id) by (bit_vector);
}

/// The next identifier in a batch: ids count up by one, and wrap to the
/// zero id when the 80 random bits are exhausted.
pub open spec fn spec_succ_id(id: u128) -> u128 {
    if id & 0xffff_ffff_ffff_ffff_ffff == 0xffff_ffff_ffff_ffff_ffff {
        0
    } else {
        (id + 1) as u128
    }
}

/// Steps an identifier to its successor.
pub fn succ_id(id: u128) -> (r: u128)
    ensures
        r == spec_succ_id(id),
{
    if id & 0xffff_ffff_ffff_ffff_ffff == 0xffff_ffff_ffff_ffff_ffff {
        0
    } else {
        proof {
            assert(id & 0xffff_ffff_ffff_ffff_ffff != 0xffff_ffff_ffff_ffff_ffff ==> id
                != 0xffff_ffff_ffff_ffff_ffff_ffff_ffff_ffffu128) by (bit_vector);
        }
        id + 1
    }
}

/// Identifiers allocated for a batch insert: `count` ids, starting at the
/// successor of `seed`, each the successor of the one before.
pub open spec fn spec_id_batch(seed: u128, count: nat) -> Seq<u128>
    decreases count,
{
    if count == 0 {
        Seq::empty()
    } else {
        let prev = spec_id_batch(seed, (count - 1) as nat);
        let base = if count == 1 {
            seed
        } else {
            prev.last()
        };
        prev.push(spec_succ_id(base))
    }
}

/// The `i`-th allocated id is the successor of the one before it.
pub proof fn lemma_id_batch_index(seed: u128, count: nat, i: int)
    requires
        0 <= i < count,
    ensures
        spec_id_batch(seed, count)[i] == spec_succ_id(
            if i == 0 {
                seed
            } else {
                spec_id_batch(seed, count)[i - 1]
            },
        ),
        spec_id_batch(seed, count).len() == count,
    decreases count,
{
    lemma_id_batch_len(seed, count);
    if i == count - 1 {
        if count > 1 {
            lemma_id_batch_len(seed, (count - 1) as nat);
            lemma_id_batch_prefix(seed, count);
        }
    } else {
        lemma_id_batch_index(seed, (count - 1) as nat, i);
        lemma_id_batch_prefix(seed, count);
    }
}

/// A batch has as many ids as requested.
pub proof fn lemma_id_batch_len(seed: u128, count: nat)
    ensures
        spec_id_batch(seed, count).len() == count,
    decreases count,
{
    if count > 0 {
        lemma_id_batch_len(seed, (count - 1) as nat);
    }
}

/// A batch extends the one-shorter batch.
pub proof fn lemma_id_batch_prefix(seed: u128, count: nat)
    requires
        count > 0,
    ensures
        forall|k: int|
            0 <= k < count - 1 ==> spec_id_batch(seed, count)[k] == spec_id_batch(
                seed,
                (count - 1) as nat,
            )[k],
{
    lemma_id_batch_len(seed, count);
    lemma_id_batch_len(seed, (count - 1) as nat);
}

/// Stepping an identifier whose random field is not exhausted adds one:
/// the value grows and the random field counts up.
proof fn lemma_succ_plus_one(b: u128)
    requires
        b & 0xffff_ffff_ffff_ffff_ffff != 0xffff_ffff_ffff_ffff_ffff,
    ensures
        spec_succ_id(b) == b + 1,
        spec_succ_id(b) & 0xffff_ffff_ffff_ffff_ffff == (b & 0xffff_ffff_ffff_ffff_ffff) + 1,
{
    assert(b & 0xffff_ffff_ffff_ffff_ffff != 0xffff_ffff_ffff_ffff_ffff ==> b
        != 0xffff_ffff_ffff_ffff_ffff_ffff_ffff_ffffu128) by (bit_vector);
    assert(b & 0xffff_ffff_ffff_ffff_ffff != 0xffff_ffff_ffff_ffff_ffff ==> vstd::prelude::add(
        b,
        1,
    ) & 0xffff_ffff_ffff_ffff_ffff == vstd::prelude::add(b & 0xffff_ffff_ffff_ffff_ffff, 1))
        by (bit_vector);
    assert(b & 0xffff_ffff_ffff_ffff_ffff <= 0xffff_ffff_ffff_ffff_ffff) by (bit_vector);
    assert(vstd::prelude::add(b, 1) == (b + 1) as u128);
    assert(vstd::prelude::add(b & 0xffff_ffff_ffff_ffff_ffff, 1) == (b
        & 0xffff_ffff_ffff_ffff_ffff) + 1);
}

/// Identifiers of one batch are allocated as a strictly increasing run:
/// as long as the seed's random field has room for the whole batch, the
/// `k`-th id is exactly `seed + k + 1`, so no id within a batch is ever
/// repeated or reassigned.
pub proof fn lemma_id_batch_monotonic(seed: u128, count: nat)
    requires
        (seed & 0xffff_ffff_ffff_ffff_ffff) + count <= 0xffff_ffff_ffff_ffff_ffff,
    ensures
        forall|k: int|
            0 <= k < count ==> #[trigger] spec_id_batch(seed, count)[k] == seed + k + 1
                && spec_id_batch(seed, count)[k] & 0xffff_ffff_ffff_ffff_ffff == (seed
                & 0xffff_ffff_ffff_ffff_ffff) + k + 1,
    decreases count,
{
    lemma_id_batch_len(seed, count);
    if count > 0 {
        lemma_id_batch_monotonic(seed, (count - 1) as nat);
        lemma_id_batch_prefix(seed, count);
        lemma_id_batch_len(seed, (count - 1) as nat);
        let base = if count == 1 {
            seed
        } else {
            spec_id_batch(seed, (count - 1) as nat).last()
        };
        assert(base & 0xffff_ffff_ffff_ffff_ffff == (seed & 0xffff_ffff_ffff_ffff_ffff) + count
            - 1);
        lemma_succ_plus_one(base);
        assert(spec_id_batch(seed, count).last() == spec_succ_id(base));
    }
}

/// Relies on `ulid::Ulid::generate`: a fresh identifier drawn from the
/// current time and a random source; nothing is assumed of its value.
#[verifier::external_body]
pub(crate) fn fresh_id() -> u128 {
    ulid::Ulid::generate().0
}

} // verus!
