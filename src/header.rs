use vstd::arithmetic::power::pow;
use vstd::prelude::*;

use crate::error::DecodeError;

verus! {

/// Length of the fixed header, in bytes.
pub const HEADER_LEN: usize = 30;

/// Length of the signature that opens every container, in bytes.
pub const SIGNATURE_LEN: usize = 12;

/// The signature that opens every container.
pub open spec fn signature() -> Seq<u8> {
    seq![0xA5u8, 0x7C, 0xC7, 0x5A, 0x4F, 0xF4, 0x5F, 0x5F, 0x4F, 0xF4, 0x5F, 0x5F]
}

/// The unsigned number whose little-endian bytes are `s`.
pub open spec fn le_value(s: Seq<u8>) -> nat
    decreases s.len(),
{
    if s.len() == 0 {
        0
    } else {
        s[0] as nat + 256 * le_value(s.drop_first())
    }
}

/// An 8-byte little-endian field at `offset`, narrowed to 32 bits.
pub open spec fn field_u32(b: Seq<u8>, offset: int) -> u32 {
    (le_value(b.subrange(offset, offset + 8)) % 0x1_0000_0000) as u32
}

/// The declared width of a header.
pub open spec fn header_width(b: Seq<u8>) -> u32 {
    field_u32(b, 14)
}

/// The declared height of a header.
pub open spec fn header_height(b: Seq<u8>) -> u32 {
    field_u32(b, 22)
}

/// What decoding the header at the start of `b` gives.
pub open spec fn header_outcome(b: Seq<u8>) -> Result<(u32, u32), DecodeError> {
    if b.len() < HEADER_LEN {
        Err(DecodeError::TooShort)
    } else if b.subrange(0, SIGNATURE_LEN as int) != signature() {
        Err(DecodeError::BadSignature)
    } else {
        Ok((header_width(b), header_height(b)))
    }
}

/// Reads the 8-byte little-endian field at `offset`, keeping its low 32 bits.
fn read_field(data: &[u8], offset: usize) -> (r: u32)
    requires
        offset + 8 <= data@.len(),
    ensures
        r == field_u32(data@, offset as int),
{
    let b0 = data[offset] as u32;
    let b1 = data[offset + 1] as u32;
    let b2 = data[offset + 2] as u32;
    let b3 = data[offset + 3] as u32;
    proof {
        let s = data@.subrange(offset as int, offset + 8);
        reveal_with_fuel(le_value, 9);
        let high = le_value(s.subrange(4, 8));
        assert(s.drop_first() =~= s.subrange(1, 8));
        assert(s.subrange(1, 8).drop_first() =~= s.subrange(2, 8));
        assert(s.subrange(2, 8).drop_first() =~= s.subrange(3, 8));
        assert(s.subrange(3, 8).drop_first() =~= s.subrange(4, 8));
        let low = b0 + 256 * (b1 + 256 * (b2 + 256 * b3));
        assert(le_value(s) == low + 0x1_0000_0000 * high) by (nonlinear_arith)
            requires
                le_value(s) == b0 + 256 * (b1 + 256 * (b2 + 256 * (b3 + 256 * high))),
                low == b0 + 256 * (b1 + 256 * (b2 + 256 * b3)),
        ;
        assert(low < 0x1_0000_0000) by (nonlinear_arith)
            requires
                low == b0 + 256 * (b1 + 256 * (b2 + 256 * b3)),
                b0 < 256,
                b1 < 256,
                b2 < 256,
                b3 < 256,
        ;
        vstd::arithmetic::div_mod::lemma_mod_multiples_vanish(high as int, low as int, 0x1_0000_0000);
        vstd::arithmetic::div_mod::lemma_small_mod(low as nat, 0x1_0000_0000);
    }
    b0 + 256 * (b1 + 256 * (b2 + 256 * b3))
}

/// Decodes the header at the start of `data` into `(width, height)`.
///
/// The length is checked first, then the signature. The 2-byte version is
/// not checked. Width and height are 8-byte little-endian fields of which the
/// low 32 bits are kept.
pub fn decode_header(data: &[u8]) -> (r: Result<(u32, u32), DecodeError>)
    ensures
        r == header_outcome(data@),
        data@.len() < HEADER_LEN ==> r == Err::<(u32, u32), DecodeError>(DecodeError::TooShort),
        data@.len() >= HEADER_LEN && data@.subrange(0, SIGNATURE_LEN as int) != signature()
            ==> r == Err::<(u32, u32), DecodeError>(DecodeError::BadSignature),
{
    if data.len() < HEADER_LEN {
        return Err(DecodeError::TooShort);
    }
    let expected: [u8; 12] = [0xA5, 0x7C, 0xC7, 0x5A, 0x4F, 0xF4, 0x5F, 0x5F, 0x4F, 0xF4, 0x5F, 0x5F];
    let mut i: usize = 0;
    while i < SIGNATURE_LEN
        invariant
            i <= SIGNATURE_LEN,
            data@.len() >= HEADER_LEN,
            expected@ == signature(),
            forall|k: int| 0 <= k < i ==> data@[k] == signature()[k],
        decreases SIGNATURE_LEN - i,
    {
        if data[i] != expected[i] {
            assert(data@.subrange(0, SIGNATURE_LEN as int)[i as int] != signature()[i as int]);
            return Err(DecodeError::BadSignature);
        }
        i = i + 1;
    }
    assert(data@.subrange(0, SIGNATURE_LEN as int) =~= signature());
    let width = read_field(data, 14);
    let height = read_field(data, 22);
    Ok((width, height))
}

/// The `n` little-endian bytes of `x`, dropping any higher bytes.
pub open spec fn le_bytes(x: nat, n: nat) -> Seq<u8>
    decreases n,
{
    if n == 0 {
        seq![]
    } else {
        seq![(x % 256) as u8] + le_bytes(x / 256, (n - 1) as nat)
    }
}

/// The header that declares `version`, `width` and `height`.
pub open spec fn encode_header(version: u16, width: u32, height: u32) -> Seq<u8> {
    signature() + le_bytes(version as nat, 2) + le_bytes(width as nat, 8) + le_bytes(
        height as nat,
        8,
    )
}

proof fn lemma_le_bytes_round_trip(x: nat, n: nat)
    requires
        x < pow(256, n),
    ensures
        le_bytes(x, n).len() == n,
        le_value(le_bytes(x, n)) == x,
    decreases n,
{
    reveal(pow);
    if n == 0 {
    } else {
        let p = pow(256, (n - 1) as nat);
        vstd::arithmetic::div_mod::lemma_fundamental_div_mod(x as int, 256);
        assert(x / 256 < p) by (nonlinear_arith)
            requires
                x < 256 * p,
                x == 256 * (x / 256) + x % 256,
                x % 256 >= 0,
        ;
        lemma_le_bytes_round_trip(x / 256, (n - 1) as nat);
        let s = le_bytes(x, n);
        assert(s.drop_first() =~= le_bytes(x / 256, (n - 1) as nat));
    }
}

proof fn lemma_field_round_trip(b: Seq<u8>, offset: int, x: u32)
    requires
        0 <= offset,
        offset + 8 <= b.len(),
        b.subrange(offset, offset + 8) == le_bytes(x as nat, 8),
    ensures
        field_u32(b, offset) == x,
{
    reveal_with_fuel(pow, 9);
    lemma_le_bytes_round_trip(x as nat, 8);
    vstd::arithmetic::div_mod::lemma_small_mod(x as nat, 0x1_0000_0000);
}

/// Decoding gives back the width and height that a header was written with,
/// whatever its version and whatever follows it.
pub proof fn lemma_header_round_trip(version: u16, width: u32, height: u32, rest: Seq<u8>)
    ensures
        encode_header(version, width, height).len() == HEADER_LEN,
        header_outcome(encode_header(version, width, height) + rest) == Ok::<
            (u32, u32),
            DecodeError,
        >((width, height)),
{
    reveal_with_fuel(pow, 9);
    lemma_le_bytes_round_trip(version as nat, 2);
    lemma_le_bytes_round_trip(width as nat, 8);
    lemma_le_bytes_round_trip(height as nat, 8);
    let b = encode_header(version, width, height) + rest;
    assert(b.subrange(0, SIGNATURE_LEN as int) =~= signature());
    assert(b.subrange(14, 22) =~= le_bytes(width as nat, 8));
    assert(b.subrange(22, 30) =~= le_bytes(height as nat, 8));
    lemma_field_round_trip(b, 14, width);
    lemma_field_round_trip(b, 22, height);
}

} // verus!
