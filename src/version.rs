use vstd::prelude::*;

verus! {

/// The value a version packs to: the major part in the top byte, the minor part
/// in the byte below it, and the patch part in the low half.
pub open spec fn packed(major: nat, minor: nat, patch: nat) -> nat {
    major * 0x100_0000 + minor * 0x1_0000 + patch
}

/// Packs a three-part version into one 32-bit value,
/// `(major << 24) + (minor << 16) + patch`, for the host side to check
/// compatibility before issuing other calls.
pub fn pack_version(major: u32, minor: u32, patch: u32) -> (r: u32)
    requires
        major <= 0xff,
        minor <= 0xff,
        patch <= 0xffff,
    ensures
        r as nat == packed(major as nat, minor as nat, patch as nat),
{
    assert(major << 24u32 == major * 0x100_0000) by (bit_vector)
        requires
            major <= 0xff,
    ;
    assert(minor << 16u32 == minor * 0x1_0000) by (bit_vector)
        requires
            minor <= 0xff,
    ;
    (major << 24u32) + (minor << 16u32) + patch
}

} // verus!
