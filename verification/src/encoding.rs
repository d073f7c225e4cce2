//! The canonical byte encoding of a block header.
//!
//! A header is laid out as 44 bytes: the 32 bytes of the predecessor digest,
//! the height as an unsigned 64-bit integer and the nonce as an unsigned 32-bit
//! integer, both little-endian. Digests are taken over exactly these bytes, so
//! the layout is part of the interface between all participants.

use vstd::prelude::*;

verus! {

/// Number of bytes in an encoded header.
pub const HEADER_LEN: usize = 44;

/// Offset of the height within an encoded header.
pub const HEIGHT_OFFSET: usize = 32;

/// Offset of the nonce within an encoded header.
pub const NONCE_OFFSET: usize = 40;

/// 256 to the power `width`: the number of values that `width` bytes can hold.
pub open spec fn pow256(width: nat) -> nat
    decreases width,
{
    if width == 0 {
        1
    } else {
        256 * pow256((width - 1) as nat)
    }
}

/// The little-endian representation of `value` in `width` bytes: byte `i` is
/// `value / 256^i mod 256`.
pub open spec fn le_bytes(value: nat, width: nat) -> Seq<u8>
    decreases width,
{
    if width == 0 {
        Seq::empty()
    } else {
        seq![(value % 256) as u8] + le_bytes(value / 256, (width - 1) as nat)
    }
}

/// The number that a little-endian byte string stands for.
pub open spec fn le_value(bytes: Seq<u8>) -> nat
    decreases bytes.len(),
{
    if bytes.len() == 0 {
        0
    } else {
        bytes[0] as nat + 256 * le_value(bytes.drop_first())
    }
}

/// The canonical encoding of a header with the given fields.
pub open spec fn header_encoding(prev_hash: Seq<u8>, height: nat, nonce: nat) -> Seq<u8> {
    prev_hash + le_bytes(height, 8) + le_bytes(nonce, 4)
}

/// `le_bytes` yields exactly `width` bytes.
pub proof fn lemma_le_bytes_len(value: nat, width: nat)
    ensures
        le_bytes(value, width).len() == width,
    decreases width,
{
    if width > 0 {
        lemma_le_bytes_len(value / 256, (width - 1) as nat);
    }
}

/// A byte string of length `n` stands for a number below `256^n`.
pub proof fn lemma_le_value_bound(bytes: Seq<u8>)
    ensures
        le_value(bytes) < pow256(bytes.len()),
    decreases bytes.len(),
{
    if bytes.len() > 0 {
        lemma_le_value_bound(bytes.drop_first());
    }
}

/// Reading back what `le_bytes` wrote gives the value, when it fits the width.
pub proof fn lemma_le_value_of_le_bytes(value: nat, width: nat)
    requires
        value < pow256(width),
    ensures
        le_value(le_bytes(value, width)) == value,
    decreases width,
{
    if width > 0 {
        let rest = le_bytes(value / 256, (width - 1) as nat);
        lemma_le_value_of_le_bytes(value / 256, (width - 1) as nat);
        assert(le_bytes(value, width).drop_first() =~= rest);
    }
}

/// Writing the number that a byte string stands for gives the string back.
pub proof fn lemma_le_bytes_of_le_value(bytes: Seq<u8>)
    ensures
        le_bytes(le_value(bytes), bytes.len()) == bytes,
    decreases bytes.len(),
{
    if bytes.len() > 0 {
        lemma_le_bytes_of_le_value(bytes.drop_first());
    }
}

/// Distinct numbers that fit the width have distinct representations.
pub proof fn lemma_le_bytes_injective(a: nat, b: nat, width: nat)
    requires
        a < pow256(width),
        b < pow256(width),
        le_bytes(a, width) == le_bytes(b, width),
    ensures
        a == b,
{
    lemma_le_value_of_le_bytes(a, width);
    lemma_le_value_of_le_bytes(b, width);
}

/// What eight and four bytes can hold, as the bounds of `u64` and `u32`.
pub proof fn lemma_pow256_widths()
    ensures
        pow256(4) == 0x1_0000_0000,
        pow256(8) == 0x1_0000_0000_0000_0000,
{
    reveal_with_fuel(pow256, 9);
}

/// An encoded header is 44 bytes long when the digest is 32 bytes long, and
/// its three fields lie at fixed offsets.
pub proof fn lemma_header_encoding_layout(prev_hash: Seq<u8>, height: nat, nonce: nat)
    requires
        prev_hash.len() == 32,
    ensures
        header_encoding(prev_hash, height, nonce).len() == 44,
        header_encoding(prev_hash, height, nonce).subrange(0, 32) == prev_hash,
        header_encoding(prev_hash, height, nonce).subrange(32, 40) == le_bytes(height, 8),
        header_encoding(prev_hash, height, nonce).subrange(40, 44) == le_bytes(nonce, 4),
{
    lemma_le_bytes_len(height, 8);
    lemma_le_bytes_len(nonce, 4);
}

/// Calls `bincode::serialize` on the three header fields, as a tuple.
///
/// Trusted: under bincode's default configuration (fixed-width integers,
/// little-endian, no length prefix for tuples and arrays) the bytes are the
/// array's 32 bytes, then `height` widened to 64 bits in 8 bytes, then `nonce`
/// in 4 bytes. Serialising these types into a `Vec` has no failure path: no
/// size limit is set and no element can refuse.
#[verifier::external_body]
pub(crate) fn bincode_serialize_header(prev_hash: &[u8; 32], height: usize, nonce: u32) -> (bytes:
    Vec<u8>)
    ensures
        bytes@ == header_encoding(prev_hash@, height as nat, nonce as nat),
{
    bincode::serialize(&(prev_hash, height, nonce)).unwrap()
}

/// Reads `width` little-endian bytes of `bytes`, starting at `start`.
pub(crate) fn read_le(bytes: &[u8], start: usize, width: usize) -> (value: u64)
    requires
        width <= 8,
        start + width <= bytes@.len(),
    ensures
        value == le_value(bytes@.subrange(start as int, start + width)),
{
    let len: usize = bytes.len();
    let mut acc: u64 = 0;
    let mut i: usize = width;
    proof {
        reveal_with_fuel(pow256, 9);
    }
    while i > 0
        invariant
            i <= width <= 8,
            start + width <= len == bytes@.len(),
            acc == le_value(bytes@.subrange(start + i, start + width)),
            acc < pow256((width - i) as nat),
        decreases i,
    {
        i -= 1;
        let ghost before = bytes@.subrange(start + i + 1, start + width);
        let ghost now = bytes@.subrange(start + i, start + width);
        proof {
            reveal_with_fuel(pow256, 9);
            assert(now.drop_first() =~= before);
            assert(pow256((width - i) as nat) <= pow256(8)) by {
                lemma_pow256_monotonic((width - i) as nat, 8);
            }
        }
        acc = acc * 256 + bytes[start + i] as u64;
    }
    acc
}

/// `pow256` grows with the width.
pub proof fn lemma_pow256_monotonic(a: nat, b: nat)
    requires
        a <= b,
    ensures
        0 < pow256(a) <= pow256(b),
    decreases b,
{
    if b == 0 {
    } else if a == b {
        lemma_pow256_monotonic((a - 1) as nat, (b - 1) as nat);
    } else {
        lemma_pow256_monotonic(a, (b - 1) as nat);
    }
}

} // verus!
