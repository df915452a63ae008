use vstd::prelude::*;

verus! {

/// The four little-endian bytes of a `u32`: SCALE's encoding of a fixed-width integer.
pub open spec fn le_bytes_u32(x: u32) -> Seq<u8> {
    seq![
        (x % 0x100) as u8,
        ((x / 0x100) % 0x100) as u8,
        ((x / 0x1_0000) % 0x100) as u8,
        (x / 0x100_0000) as u8,
    ]
}

/// Calls `parity_scale_codec::Encode::encode` on a `u32`. The crate encodes every
/// fixed-width integer as its little-endian bytes (`to_le_bytes`), so the result is
/// the four bytes of `le_bytes_u32`.
#[verifier::external_body]
pub(crate) fn scale_encode_u32(x: u32) -> (r: Vec<u8>)
    ensures
        r@ == le_bytes_u32(x),
{
    parity_scale_codec::Encode::encode(&x)
}

} // verus!
