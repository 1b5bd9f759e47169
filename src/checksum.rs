use vstd::prelude::*;

verus! {

/// The CRC-16/XMODEM checksum (poly 0x1021, init 0, no reflection, no
/// final xor) of a byte sequence.
pub uninterp spec fn xmodem_crc(msg: Seq<u8>) -> u16;

/// Relies on `crc16::State::<crc16::XMODEM>::calculate`: the XMODEM checksum
/// of `msg`, which depends on the bytes alone.
#[verifier::external_body]
pub(crate) fn crc_xmodem(msg: &[u8]) -> (r: u16)
    ensures
        r == xmodem_crc(msg@),
{
    crc16::State::<crc16::XMODEM>::calculate(msg)
}

} // verus!
