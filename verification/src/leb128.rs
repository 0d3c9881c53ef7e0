//! Variable-length little-endian base-128 integer codecs.
//!
//! A ULEB128 value stores seven payload bits per byte, least significant
//! group first; the high bit of a byte is the continuation flag.  An
//! encoding is at most ten bytes long, and in the tenth byte only the
//! values 0 and 1 are accepted, so every accepted encoding fits in a
//! `u64`.  SLEB128 is the signed variant: the 0x40 bit of the final byte
//! is the sign, which is extended through the remaining high bits.

use vstd::arithmetic::power2::pow2;
use vstd::prelude::*;

verus! {

/// Longest accepted encoding, in bytes.
pub const MAX_LEB_LEN: usize = 10;

/// Failure of a LEB128 read.
#[derive(Debug, Clone, Copy, PartialEq, Eq, Structural)]
pub enum LebError {
    /// The slice ended before a terminating byte was found.
    BadOffset,
    /// The tenth byte carried bits that do not fit in 64 payload bits.
    BadInput,
}

/// Decoded value and byte length of the ULEB128 encoding at the head of
/// `s`, given that `rem` more bytes may still be consumed.  `None` means
/// the bytes are not an accepted encoding (truncated, or an overlong
/// tenth byte).
pub open spec fn uleb_dec_rem(s: Seq<u8>, rem: nat) -> Option<(nat, nat)>
    decreases rem,
{
    if s.len() == 0 {
        None
    } else if rem <= 1 {
        if s[0] <= 1 {
            Some((s[0] as nat, 1))
        } else {
            None
        }
    } else if s[0] < 128 {
        Some((s[0] as nat, 1))
    } else {
        match uleb_dec_rem(s.skip(1), (rem - 1) as nat) {
            Some(p) => Some((((s[0] - 128) as nat) + 128 * p.0, p.1 + 1)),
            None => None,
        }
    }
}

/// Decoded value and length of the ULEB128 encoding at the head of `s`.
pub open spec fn uleb_dec(s: Seq<u8>) -> Option<(nat, nat)> {
    uleb_dec_rem(s, MAX_LEB_LEN as nat)
}

/// Whether a failed ULEB128 parse failed because the slice ended, as
/// opposed to an over-wide tenth byte.
pub open spec fn uleb_truncated_rem(s: Seq<u8>, rem: nat) -> bool
    decreases rem,
{
    if s.len() == 0 {
        true
    } else if rem <= 1 {
        false
    } else if s[0] < 128 {
        false
    } else {
        uleb_truncated_rem(s.skip(1), (rem - 1) as nat)
    }
}

/// Whether a failed ULEB128 parse of `s` ran off the end of the slice.
pub open spec fn uleb_truncated(s: Seq<u8>) -> bool {
    uleb_truncated_rem(s, MAX_LEB_LEN as nat)
}

/// The minimum-length ULEB128 encoding of `v`.
pub open spec fn uleb_enc(v: nat) -> Seq<u8>
    decreases v,
{
    if v < 128 {
        seq![v as u8]
    } else {
        seq![(128 + v % 128) as u8] + uleb_enc(v / 128)
    }
}

/// A successful ULEB128 parse stays within `rem` bytes and below
/// `pow2(7 * rem - 6)` (so below `pow2(64)` for the full ten bytes).
pub proof fn lemma_uleb_dec_rem_bound(s: Seq<u8>, rem: nat)
    requires
        1 <= rem,
    ensures
        uleb_dec_rem(s, rem) matches Some(p) ==> {
            &&& p.0 < pow2((7 * rem - 6) as nat)
            &&& 1 <= p.1 <= rem
            &&& p.1 <= s.len()
        },
    decreases rem,
{
    vstd::arithmetic::power2::lemma_pow2_unfold((7 * rem - 6) as nat);
    if s.len() == 0 || rem <= 1 {
        assert(pow2(1) == 2) by {
            vstd::arithmetic::power2::lemma2_to64();
        }
    } else if s[0] < 128 {
        assert(pow2((7 * rem - 6) as nat) >= 128) by {
            vstd::arithmetic::power2::lemma_pow2_adds(7, (7 * rem - 13) as nat);
            vstd::arithmetic::power2::lemma2_to64();
            vstd::arithmetic::power2::lemma_pow2_pos((7 * rem - 13) as nat);
        }
    } else {
        lemma_uleb_dec_rem_bound(s.skip(1), (rem - 1) as nat);
        if let Some(p) = uleb_dec_rem(s.skip(1), (rem - 1) as nat) {
            assert(pow2((7 * rem - 6) as nat) == 128 * pow2((7 * rem - 13) as nat)) by {
                vstd::arithmetic::power2::lemma_pow2_adds(7, (7 * rem - 13) as nat);
                vstd::arithmetic::power2::lemma2_to64();
            }
        }
    }
}

/// Encoding a value below `pow2(7 * k - 6)` takes at most `k` bytes, and
/// if it takes exactly `k` the final byte is 0 or 1.
pub proof fn lemma_uleb_enc_len(v: nat, k: nat)
    requires
        1 <= k,
        v < pow2((7 * k - 6) as nat),
    ensures
        1 <= uleb_enc(v).len() <= k,
    decreases k,
{
    if v < 128 {
    } else {
        assert(pow2(1) == 2 && pow2(7) == 128) by {
            vstd::arithmetic::power2::lemma2_to64();
        }
        assert(k >= 2) by {
            if k == 1 {
                vstd::arithmetic::power2::lemma_pow2_unfold(1);
            }
        }
        assert(pow2((7 * k - 6) as nat) == 128 * pow2((7 * (k - 1) - 6) as nat)) by {
            vstd::arithmetic::power2::lemma_pow2_adds(7, (7 * (k - 1) - 6) as nat);
        }
        assert(v / 128 < pow2((7 * (k - 1) - 6) as nat)) by {
            vstd::arithmetic::div_mod::lemma_multiply_divide_lt(
                v as int,
                128,
                pow2((7 * (k - 1) - 6) as nat) as int,
            );
        }
        lemma_uleb_enc_len(v / 128, (k - 1) as nat);
    }
}

/// Decoding an encoding (with anything after it) yields the encoded
/// value and consumes exactly the encoding.
pub proof fn lemma_uleb_dec_enc(v: nat, tail: Seq<u8>, rem: nat)
    requires
        1 <= rem,
        v < pow2((7 * rem - 6) as nat),
    ensures
        uleb_dec_rem(uleb_enc(v) + tail, rem) == Some((v, uleb_enc(v).len() as nat)),
    decreases rem,
{
    let s = uleb_enc(v) + tail;
    if v < 128 {
        assert(s[0] == v as u8);
        if rem <= 1 {
            assert(pow2(1) == 2) by {
                vstd::arithmetic::power2::lemma2_to64();
            }
            assert(v <= 1);
        }
    } else {
        assert(pow2(1) == 2 && pow2(7) == 128) by {
            vstd::arithmetic::power2::lemma2_to64();
        }
        assert(rem >= 2) by {
            if rem == 1 {
                vstd::arithmetic::power2::lemma_pow2_unfold(1);
            }
        }
        assert(pow2((7 * rem - 6) as nat) == 128 * pow2((7 * (rem - 1) - 6) as nat)) by {
            vstd::arithmetic::power2::lemma_pow2_adds(7, (7 * (rem - 1) - 6) as nat);
        }
        assert(v / 128 < pow2((7 * (rem - 1) - 6) as nat)) by {
            vstd::arithmetic::div_mod::lemma_multiply_divide_lt(
                v as int,
                128,
                pow2((7 * (rem - 1) - 6) as nat) as int,
            );
        }
        lemma_uleb_dec_enc(v / 128, tail, (rem - 1) as nat);
        assert(s[0] == (128 + v % 128) as u8);
        assert(s[0] >= 128);
        assert(s.skip(1) =~= uleb_enc(v / 128) + tail);
        assert(((s[0] - 128) as nat) + 128 * (v / 128) == v) by {
            vstd::arithmetic::div_mod::lemma_fundamental_div_mod(v as int, 128);
        }
    }
}

/// An accepted encoding is minimal when it is as short as possible:
/// a multi-byte encoding never ends in a zero byte.
pub open spec fn uleb_minimal(s: Seq<u8>) -> bool {
    s.len() == 1 || (s.len() > 1 && s.last() != 0)
}

/// Re-encoding the value of a whole, minimal encoding reproduces its
/// bytes exactly.
pub proof fn lemma_uleb_enc_dec(s: Seq<u8>, rem: nat)
    requires
        1 <= rem,
        uleb_dec_rem(s, rem) matches Some(p) && p.1 == s.len(),
        uleb_minimal(s),
    ensures
        uleb_dec_rem(s, rem) matches Some(p) && uleb_enc(p.0) == s,
    decreases rem,
{
    let p = uleb_dec_rem(s, rem).unwrap();
    if rem <= 1 || s[0] < 128 {
        assert(s =~= seq![s[0]]);
        assert(uleb_enc(p.0) =~= seq![s[0]]);
    } else {
        let s1 = s.skip(1);
        let p1 = uleb_dec_rem(s1, (rem - 1) as nat).unwrap();
        assert(s1.len() == s.len() - 1);
        assert(s1.last() == s.last());
        lemma_uleb_enc_dec(s1, (rem - 1) as nat);
        assert(p1.0 >= 1) by {
            if p1.0 == 0 {
                assert(uleb_enc(0) =~= seq![0u8]);
                assert(s1.last() == 0);
            }
        }
        let v = p.0;
        assert(v == ((s[0] - 128) as nat) + 128 * p1.0);
        assert(v >= 128);
        assert(v % 128 == (s[0] - 128) as nat && v / 128 == p1.0) by {
            vstd::arithmetic::div_mod::lemma_fundamental_div_mod_converse(
                v as int,
                128,
                p1.0 as int,
                (s[0] - 128) as int,
            );
        }
        assert(uleb_enc(v) =~= seq![s[0]] + uleb_enc(p1.0));
        assert(uleb_enc(v) =~= s);
    }
}

/// Reads one ULEB128 value beginning at `src[pos]`, consuming at most
/// `rem` bytes.
fn read_uleb_rem(src: &[u8], pos: usize, rem: usize) -> (r: Result<(u64, usize), LebError>)
    requires
        pos <= src@.len(),
        1 <= rem <= MAX_LEB_LEN,
    ensures
        match r {
            Ok(p) => {
                &&& uleb_dec_rem(src@.skip(pos as int), rem as nat) == Some(
                    (p.0 as nat, p.1 as nat),
                )
                &&& (p.0 as nat) < pow2((7 * rem - 6) as nat)
                &&& 1 <= p.1 <= rem
                &&& pos + p.1 <= src@.len()
            },
            Err(e) => {
                &&& uleb_dec_rem(src@.skip(pos as int), rem as nat) is None
                &&& (e == LebError::BadOffset <==> uleb_truncated_rem(
                    src@.skip(pos as int),
                    rem as nat,
                ))
            },
        },
    decreases rem,
{
    proof {
        lemma_uleb_dec_rem_bound(src@.skip(pos as int), rem as nat);
    }
    if pos >= src.len() {
        assert(src@.skip(pos as int).len() == 0);
        return Err(LebError::BadOffset);
    }
    let b = src[pos];
    assert(src@.skip(pos as int)[0] == b);
    if rem == 1 {
        if b <= 1 {
            Ok((b as u64, 1))
        } else {
            Err(LebError::BadInput)
        }
    } else if b < 128 {
        proof {
            assert(pow2((7 * rem - 6) as nat) >= pow2(7) && pow2(7) == 128) by {
                vstd::arithmetic::power2::lemma2_to64();
                vstd::arithmetic::power2::lemma_pow2_adds(7, (7 * rem - 13) as nat);
                vstd::arithmetic::power2::lemma_pow2_pos((7 * rem - 13) as nat);
            }
        }
        Ok((b as u64, 1))
    } else {
        assert(src@.skip(pos as int).skip(1) =~= src@.skip(pos as int + 1));
        match read_uleb_rem(src, pos + 1, rem - 1) {
            Ok((v, n)) => {
                proof {
                    assert(pow2((7 * rem - 6) as nat) == 128 * pow2((7 * (rem - 1) - 6) as nat))
                        by {
                        vstd::arithmetic::power2::lemma_pow2_adds(7, (7 * (rem - 1) - 6) as nat);
                        vstd::arithmetic::power2::lemma2_to64();
                    }
                    assert(pow2((7 * rem - 6) as nat) <= pow2(64)) by {
                        if 7 * rem - 6 < 64 {
                            vstd::arithmetic::power2::lemma_pow2_strictly_increases(
                                (7 * rem - 6) as nat,
                                64,
                            );
                        }
                    }
                    assert(pow2(64) == 0x10000000000000000) by {
                        vstd::arithmetic::power2::lemma2_to64_rest();
                    }
                }
                Ok(((b - 128) as u64 + 128 * v, n + 1))
            },
            Err(e) => Err(e),
        }
    }
}

/// An unsigned LEB128 integer together with its encoded width.
#[derive(Debug, PartialEq, Eq, Structural, Copy, Clone)]
pub struct Uleb128 {
    pub value: u64,
    pub count: usize,
}

impl Uleb128 {
    /// How many bytes this value occupied on the wire.
    pub fn size(&self) -> (n: usize)
        ensures
            n == self.count,
    {
        self.count
    }

    /// The decoded value.
    pub fn value(&self) -> (v: u64)
        ensures
            v == self.value,
    {
        self.value
    }

    /// Reads a variable-length `u64` from `src` at `offset`, advancing
    /// the offset past the encoding on success.
    pub fn read(src: &[u8], offset: &mut usize) -> (r: Result<u64, LebError>)
        requires
            *old(offset) <= src@.len(),
        ensures
            match r {
                Ok(v) => {
                    &&& uleb_dec(src@.skip(*old(offset) as int)) == Some(
                        (v as nat, (*final(offset) - *old(offset)) as nat),
                    )
                    &&& *old(offset) < *final(offset) <= src@.len()
                },
                Err(e) => {
                    &&& *final(offset) == *old(offset)
                    &&& uleb_dec(src@.skip(*old(offset) as int)) is None
                    &&& (e == LebError::BadOffset <==> uleb_truncated(
                        src@.skip(*old(offset) as int),
                    ))
                },
            },
    {
        let len = src.len();
        match read_uleb_rem(src, *offset, MAX_LEB_LEN) {
            Ok((v, n)) => {
                assert(*offset + n <= len);
                *offset = *offset + n;
                Ok(v)
            },
            Err(e) => Err(e),
        }
    }

    /// Reads a ULEB128p1 value: the stored value is offset by one so
    /// that an encoded 0 means "absent".
    pub fn read_p1(src: &[u8], offset: &mut usize) -> (r: Result<Option<u64>, LebError>)
        requires
            *old(offset) <= src@.len(),
        ensures
            match r {
                Ok(o) => {
                    &&& uleb_dec(src@.skip(*old(offset) as int)) matches Some(p) && {
                        &&& (o is None <==> p.0 == 0)
                        &&& (o matches Some(v) ==> v == p.0 - 1)
                        &&& *final(offset) == *old(offset) + p.1
                    }
                    &&& *old(offset) < *final(offset) <= src@.len()
                },
                Err(e) => {
                    &&& *final(offset) == *old(offset)
                    &&& uleb_dec(src@.skip(*old(offset) as int)) is None
                    &&& (e == LebError::BadOffset <==> uleb_truncated(
                        src@.skip(*old(offset) as int),
                    ))
                },
            },
    {
        let v = Self::read(src, offset)?;
        if v == 0 {
            Ok(None)
        } else {
            Ok(Some(v - 1))
        }
    }

    /// Appends the minimum-length encoding of `value` to `dst`.
    pub fn write(dst: &mut Vec<u8>, value: u64)
        ensures
            final(dst)@ == old(dst)@ + uleb_enc(value as nat),
        decreases value,
    {
        if value < 128 {
            dst.push(value as u8);
            assert(dst@ =~= old(dst)@ + uleb_enc(value as nat));
        } else {
            dst.push((128 + value % 128) as u8);
            let ghost mid = dst@;
            Self::write(dst, value / 128);
            assert(dst@ =~= old(dst)@ + uleb_enc(value as nat));
        }
    }
}

/// Decoded value and byte length of the SLEB128 encoding at the head of
/// `s`, given that `rem` more bytes may still be consumed.  The 0x40 bit
/// of the terminating byte is the sign.
pub open spec fn sleb_dec_rem(s: Seq<u8>, rem: nat) -> Option<(int, nat)>
    decreases rem,
{
    if s.len() == 0 {
        None
    } else if s[0] < 128 {
        if rem <= 1 && !(s[0] == 0 || s[0] == 0x7f) {
            None
        } else if s[0] >= 64 {
            Some((s[0] - 128, 1))
        } else {
            Some((s[0] as int, 1))
        }
    } else if rem <= 1 {
        None
    } else {
        match sleb_dec_rem(s.skip(1), (rem - 1) as nat) {
            Some(p) => Some((((s[0] - 128) as int) + 128 * p.0, p.1 + 1)),
            None => None,
        }
    }
}

/// Decoded value and length of the SLEB128 encoding at the head of `s`.
pub open spec fn sleb_dec(s: Seq<u8>) -> Option<(int, nat)> {
    sleb_dec_rem(s, MAX_LEB_LEN as nat)
}

/// Whether a failed SLEB128 parse of `s` ran off the end of the slice.
pub open spec fn sleb_truncated_rem(s: Seq<u8>, rem: nat) -> bool
    decreases rem,
{
    if s.len() == 0 {
        true
    } else if s[0] < 128 {
        false
    } else if rem <= 1 {
        false
    } else {
        sleb_truncated_rem(s.skip(1), (rem - 1) as nat)
    }
}

/// Whether a failed SLEB128 parse of `s` ran off the end of the slice.
pub open spec fn sleb_truncated(s: Seq<u8>) -> bool {
    sleb_truncated_rem(s, MAX_LEB_LEN as nat)
}

/// The minimum-length SLEB128 encoding of `v`.
pub open spec fn sleb_enc(v: int) -> Seq<u8>
    decreases (if v < 0 { -v } else { v }),
{
    if -64 <= v < 64 {
        seq![(v % 128) as u8]
    } else {
        seq![(128 + v % 128) as u8] + sleb_enc(v / 128)
    }
}

/// A successful SLEB128 parse stays within `rem` bytes and within
/// `[-pow2(7 * rem - 7), pow2(7 * rem - 7))`, so within the range of
/// `i64` for the full ten bytes.
pub proof fn lemma_sleb_dec_rem_bound(s: Seq<u8>, rem: nat)
    requires
        1 <= rem,
    ensures
        sleb_dec_rem(s, rem) matches Some(p) ==> {
            &&& -pow2((7 * rem - 7) as nat) <= p.0 < pow2((7 * rem - 7) as nat)
            &&& 1 <= p.1 <= rem
            &&& p.1 <= s.len()
        },
    decreases rem,
{
    if s.len() == 0 {
    } else if s[0] < 128 || rem <= 1 {
        if sleb_dec_rem(s, rem) is Some {
            assert(pow2(0) == 1 && pow2(6) == 64) by {
                vstd::arithmetic::power2::lemma2_to64();
            }
            if rem >= 2 {
                assert(pow2((7 * rem - 7) as nat) >= pow2(6)) by {
                    if 6 < 7 * rem - 7 {
                        vstd::arithmetic::power2::lemma_pow2_strictly_increases(
                            6,
                            (7 * rem - 7) as nat,
                        );
                    }
                }
            }
        }
    } else {
        lemma_sleb_dec_rem_bound(s.skip(1), (rem - 1) as nat);
        if let Some(p) = sleb_dec_rem(s.skip(1), (rem - 1) as nat) {
            assert(pow2((7 * rem - 7) as nat) == 128 * pow2((7 * (rem - 1) - 7) as nat)) by {
                vstd::arithmetic::power2::lemma_pow2_adds(7, (7 * (rem - 1) - 7) as nat);
                vstd::arithmetic::power2::lemma2_to64();
            }
        }
    }
}

/// Encoding a value within `[-pow2(7 * k - 7), pow2(7 * k - 7))` takes
/// at most `k` bytes.
pub proof fn lemma_sleb_enc_len(v: int, k: nat)
    requires
        1 <= k,
        -pow2((7 * k - 7) as nat) <= v < pow2((7 * k - 7) as nat),
    ensures
        1 <= sleb_enc(v).len() <= k,
    decreases k,
{
    if -64 <= v < 64 {
    } else {
        assert(pow2(0) == 1 && pow2(6) == 64 && pow2(7) == 128) by {
            vstd::arithmetic::power2::lemma2_to64();
        }
        assert(k >= 2) by {
            if k == 1 {
            }
        }
        assert(pow2((7 * k - 7) as nat) == 128 * pow2((7 * (k - 1) - 7) as nat)) by {
            vstd::arithmetic::power2::lemma_pow2_adds(7, (7 * (k - 1) - 7) as nat);
        }
        lemma_sleb_div_bound(v, pow2((7 * (k - 1) - 7) as nat) as int);
        lemma_sleb_enc_len(v / 128, (k - 1) as nat);
    }
}

/// Dividing by 128 keeps a value inside a symmetric bound that is a
/// multiple of 128.
proof fn lemma_sleb_div_bound(v: int, b: int)
    requires
        b >= 1,
        -(128 * b) <= v < 128 * b,
    ensures
        -b <= v / 128 < b,
{
    assert((-(128 * b)) / 128 == -b) by {
        vstd::arithmetic::div_mod::lemma_fundamental_div_mod_converse(-(128 * b), 128, -b, 0);
    }
    assert(v / 128 >= (-(128 * b)) / 128) by {
        vstd::arithmetic::div_mod::lemma_div_is_ordered(-(128 * b), v, 128);
    }
    assert(v / 128 < b) by {
        vstd::arithmetic::div_mod::lemma_multiply_divide_lt(v, 128, b);
    }
}

/// Decoding an SLEB128 encoding (with anything after it) yields the
/// encoded value and consumes exactly the encoding.
pub proof fn lemma_sleb_dec_enc(v: int, tail: Seq<u8>, rem: nat)
    requires
        1 <= rem,
        -pow2((7 * rem - 7) as nat) <= v < pow2((7 * rem - 7) as nat),
    ensures
        sleb_dec_rem(sleb_enc(v) + tail, rem) == Some((v, sleb_enc(v).len() as nat)),
    decreases rem,
{
    let s = sleb_enc(v) + tail;
    if -64 <= v < 64 {
        assert(s[0] == (v % 128) as u8);
        if v >= 0 {
            assert(v % 128 == v) by {
                vstd::arithmetic::div_mod::lemma_small_mod(v as nat, 128);
            }
        } else {
            assert(v % 128 == v + 128) by {
                vstd::arithmetic::div_mod::lemma_fundamental_div_mod_converse(v, 128, -1, v + 128);
            }
        }
        if rem <= 1 {
            assert(pow2(0) == 1) by {
                vstd::arithmetic::power2::lemma2_to64();
            }
            assert(-1 <= v < 1);
        }
    } else {
        assert(pow2(0) == 1 && pow2(6) == 64 && pow2(7) == 128) by {
            vstd::arithmetic::power2::lemma2_to64();
        }
        assert(rem >= 2);
        assert(pow2((7 * rem - 7) as nat) == 128 * pow2((7 * (rem - 1) - 7) as nat)) by {
            vstd::arithmetic::power2::lemma_pow2_adds(7, (7 * (rem - 1) - 7) as nat);
        }
        lemma_sleb_div_bound(v, pow2((7 * (rem - 1) - 7) as nat) as int);
        lemma_sleb_dec_enc(v / 128, tail, (rem - 1) as nat);
        assert(s[0] == (128 + v % 128) as u8);
        assert(0 <= v % 128 < 128) by {
            vstd::arithmetic::div_mod::lemma_mod_division_less_than_divisor(v, 128);
        }
        assert(s[0] >= 128);
        assert(s.skip(1) =~= sleb_enc(v / 128) + tail);
        assert(((s[0] - 128) as int) + 128 * (v / 128) == v) by {
            vstd::arithmetic::div_mod::lemma_fundamental_div_mod(v, 128);
        }
    }
}

/// An accepted SLEB128 encoding is minimal when its final byte is not a
/// redundant sign extension of the byte before it.
pub open spec fn sleb_minimal(s: Seq<u8>) -> bool {
    s.len() == 1 || (s.len() > 1 && {
        let last = s.last();
        let prev_low = s[s.len() - 2] % 128;
        !((last == 0 && prev_low < 64) || (last == 0x7f && prev_low >= 64))
    })
}

/// Re-encoding the value of a whole, minimal SLEB128 encoding reproduces
/// its bytes exactly.
pub proof fn lemma_sleb_enc_dec(s: Seq<u8>, rem: nat)
    requires
        1 <= rem,
        sleb_dec_rem(s, rem) matches Some(p) && p.1 == s.len(),
        sleb_minimal(s),
    ensures
        sleb_dec_rem(s, rem) matches Some(p) && sleb_enc(p.0) == s,
    decreases rem,
{
    let p = sleb_dec_rem(s, rem).unwrap();
    if s[0] < 128 {
        assert(s =~= seq![s[0]]);
        let v = p.0;
        assert(-64 <= v < 64);
        if v >= 0 {
            assert(v % 128 == v) by {
                vstd::arithmetic::div_mod::lemma_small_mod(v as nat, 128);
            }
        } else {
            assert(v % 128 == v + 128) by {
                vstd::arithmetic::div_mod::lemma_fundamental_div_mod_converse(v, 128, -1, v + 128);
            }
        }
        assert(sleb_enc(v) =~= seq![s[0]]);
    } else {
        let s1 = s.skip(1);
        let p1 = sleb_dec_rem(s1, (rem - 1) as nat).unwrap();
        assert(s1.len() == s.len() - 1);
        assert(s1.last() == s.last());
        lemma_sleb_enc_dec(s1, (rem - 1) as nat);
        let v = p.0;
        let low = (s[0] - 128) as int;
        assert(v == low + 128 * p1.0);
        assert(v % 128 == low && v / 128 == p1.0) by {
            vstd::arithmetic::div_mod::lemma_fundamental_div_mod_converse(v, 128, p1.0, low);
        }
        assert(!(-64 <= v < 64)) by {
            if -64 <= v < 64 {
                // a terminal value means the tail was a redundant sign byte
                if 0 <= v {
                    assert(p1.0 == 0 && low < 64) by {
                        vstd::arithmetic::div_mod::lemma_fundamental_div_mod_converse(
                            v,
                            128,
                            0,
                            v,
                        );
                        vstd::arithmetic::div_mod::lemma_small_mod(v as nat, 128);
                    }
                    assert(sleb_enc(0) =~= seq![0u8]);
                    assert(s1 =~= seq![0u8]);
                    assert(s.last() == 0 && s[s.len() - 2] % 128 == low);
                } else {
                    assert(p1.0 == -1 && low >= 64) by {
                        vstd::arithmetic::div_mod::lemma_fundamental_div_mod_converse(
                            v,
                            128,
                            -1,
                            v + 128,
                        );
                    }
                    assert(sleb_enc(-1) =~= seq![0x7fu8]);
                    assert(s1 =~= seq![0x7fu8]);
                    assert(s.last() == 0x7f && s[s.len() - 2] % 128 == low);
                }
            }
        }
        assert(sleb_enc(v) =~= seq![s[0]] + sleb_enc(p1.0));
        assert(sleb_enc(v) =~= s);
    }
}

/// Reads one SLEB128 value beginning at `src[pos]`, consuming at most
/// `rem` bytes.
fn read_sleb_rem(src: &[u8], pos: usize, rem: usize) -> (r: Result<(i64, usize), LebError>)
    requires
        pos <= src@.len(),
        1 <= rem <= MAX_LEB_LEN,
    ensures
        match r {
            Ok(p) => {
                &&& sleb_dec_rem(src@.skip(pos as int), rem as nat) == Some(
                    (p.0 as int, p.1 as nat),
                )
                &&& -pow2((7 * rem - 7) as nat) <= p.0 as int
                &&& (p.0 as int) < pow2((7 * rem - 7) as nat)
                &&& 1 <= p.1 <= rem
                &&& pos + p.1 <= src@.len()
            },
            Err(e) => {
                &&& sleb_dec_rem(src@.skip(pos as int), rem as nat) is None
                &&& (e == LebError::BadOffset <==> sleb_truncated_rem(
                    src@.skip(pos as int),
                    rem as nat,
                ))
            },
        },
    decreases rem,
{
    proof {
        lemma_sleb_dec_rem_bound(src@.skip(pos as int), rem as nat);
        vstd::arithmetic::power2::lemma2_to64();
    }
    if pos >= src.len() {
        assert(src@.skip(pos as int).len() == 0);
        return Err(LebError::BadOffset);
    }
    let b = src[pos];
    assert(src@.skip(pos as int)[0] == b);
    if b < 128 {
        if rem == 1 && !(b == 0 || b == 0x7f) {
            return Err(LebError::BadInput);
        }
        proof {
            if rem >= 2 {
                assert(pow2((7 * rem - 7) as nat) >= pow2(6)) by {
                    if 6 < 7 * rem - 7 {
                        vstd::arithmetic::power2::lemma_pow2_strictly_increases(
                            6,
                            (7 * rem - 7) as nat,
                        );
                    }
                }
            }
        }
        if b >= 64 {
            Ok((b as i64 - 128, 1))
        } else {
            Ok((b as i64, 1))
        }
    } else if rem == 1 {
        Err(LebError::BadInput)
    } else {
        assert(src@.skip(pos as int).skip(1) =~= src@.skip(pos as int + 1));
        match read_sleb_rem(src, pos + 1, rem - 1) {
            Ok((v, n)) => {
                proof {
                    assert(pow2((7 * rem - 7) as nat) == 128 * pow2((7 * (rem - 1) - 7) as nat))
                        by {
                        vstd::arithmetic::power2::lemma_pow2_adds(7, (7 * (rem - 1) - 7) as nat);
                    }
                    assert(pow2((7 * rem - 7) as nat) <= pow2(63)) by {
                        if 7 * rem - 7 < 63 {
                            vstd::arithmetic::power2::lemma_pow2_strictly_increases(
                                (7 * rem - 7) as nat,
                                63,
                            );
                        }
                    }
                    assert(pow2(63) == 0x8000000000000000) by {
                        vstd::arithmetic::power2::lemma2_to64_rest();
                    }
                }
                Ok(((b - 128) as i64 + 128 * v, n + 1))
            },
            Err(e) => Err(e),
        }
    }
}

/// A signed LEB128 integer together with its encoded width.
#[derive(Debug, PartialEq, Eq, Structural, Copy, Clone)]
pub struct Sleb128 {
    pub value: i64,
    pub count: usize,
}

impl Sleb128 {
    /// How many bytes this value occupied on the wire.
    pub fn size(&self) -> (n: usize)
        ensures
            n == self.count,
    {
        self.count
    }

    /// The decoded value.
    pub fn value(&self) -> (v: i64)
        ensures
            v == self.value,
    {
        self.value
    }

    /// Reads a variable-length `i64` from `src` at `offset`, advancing
    /// the offset past the encoding on success.
    pub fn read(src: &[u8], offset: &mut usize) -> (r: Result<i64, LebError>)
        requires
            *old(offset) <= src@.len(),
        ensures
            match r {
                Ok(v) => {
                    &&& sleb_dec(src@.skip(*old(offset) as int)) == Some(
                        (v as int, (*final(offset) - *old(offset)) as nat),
                    )
                    &&& *old(offset) < *final(offset) <= src@.len()
                },
                Err(e) => {
                    &&& *final(offset) == *old(offset)
                    &&& sleb_dec(src@.skip(*old(offset) as int)) is None
                    &&& (e == LebError::BadOffset <==> sleb_truncated(
                        src@.skip(*old(offset) as int),
                    ))
                },
            },
    {
        let len = src.len();
        match read_sleb_rem(src, *offset, MAX_LEB_LEN) {
            Ok((v, n)) => {
                assert(*offset + n <= len);
                *offset = *offset + n;
                Ok(v)
            },
            Err(e) => Err(e),
        }
    }

    /// Appends the minimum-length encoding of `value` to `dst`.
    pub fn write(dst: &mut Vec<u8>, value: i64)
        ensures
            final(dst)@ == old(dst)@ + sleb_enc(value as int),
        decreases (if value < 0 { -(value as int) } else { value as int }),
    {
        if -64 <= value && value < 64 {
            let b: u8 = if value >= 0 {
                value as u8
            } else {
                (value + 128) as u8
            };
            proof {
                if value >= 0 {
                    vstd::arithmetic::div_mod::lemma_small_mod(value as nat, 128);
                } else {
                    vstd::arithmetic::div_mod::lemma_fundamental_div_mod_converse(
                        value as int,
                        128,
                        -1,
                        value + 128,
                    );
                }
            }
            dst.push(b);
            assert(dst@ =~= old(dst)@ + sleb_enc(value as int));
        } else {
            let r = match value.checked_rem_euclid(128) {
                Some(r) => r,
                None => 0,
            };
            let q = match value.checked_div_euclid(128) {
                Some(q) => q,
                None => 0,
            };
            assert(r == value as int % 128 && q == value as int / 128) by {
                vstd::arithmetic::div_mod::lemma_mod_division_less_than_divisor(value as int, 128);
            }
            dst.push((128 + r) as u8);
            let ghost mid = dst@;
            proof {
                lemma_sleb_write_decreases(value as int);
            }
            Self::write(dst, q);
            assert(dst@ =~= old(dst)@ + sleb_enc(value as int));
        }
    }
}

/// The quotient by 128 shrinks in magnitude outside the terminal range.
proof fn lemma_sleb_write_decreases(v: int)
    requires
        !(-64 <= v < 64),
    ensures
        (if v / 128 < 0 { -(v / 128) } else { v / 128 }) < (if v < 0 { -v } else { v }),
{
    if v >= 64 {
        assert(v / 128 < v) by {
            vstd::arithmetic::div_mod::lemma_multiply_divide_lt(v, 128, v);
        }
        assert(v / 128 >= 0) by {
            vstd::arithmetic::div_mod::lemma_div_pos_is_pos(v, 128);
        }
    } else {
        // v <= -65: the Euclidean quotient lies in [-v/128 - 1, -1]
        assert(-v <= 128 * (-(v / 128))) by {
            vstd::arithmetic::div_mod::lemma_fundamental_div_mod(v, 128);
            vstd::arithmetic::div_mod::lemma_mod_division_less_than_divisor(v, 128);
        }
        assert(v / 128 <= -1) by {
            vstd::arithmetic::div_mod::lemma_fundamental_div_mod(v, 128);
            vstd::arithmetic::div_mod::lemma_mod_division_less_than_divisor(v, 128);
        }
        assert(-(v / 128) < -v);
    }
}

/// Clears the continuation flag of an encoded byte.
pub fn mask_continuation(byte: u8) -> (r: u8)
    ensures
        r == byte % 128,
{
    byte % 128
}

} // verus!
