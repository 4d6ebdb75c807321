//! The version number that the library shows to its host.

use vstd::prelude::*;

verus! {

/// A version as one number: the low byte of the major part on top, below it
/// the low sixteen bits of the minor part from bit 16 on, and the patch level
/// added to both.
pub open spec fn packed(major: u32, minor: u32, patch: u32) -> int {
    (major % 0x100) * 0x100_0000 + (minor % 0x1_0000) * 0x1_0000 + patch
}

/// Packs a version into one number.
///
/// The parts are added, so the sum has to stay within 32 bits. It does for
/// every version with a minor part below 256 and a patch level below 65536.
pub fn crate_version(major: u32, minor: u32, patch: u32) -> (version: u32)
    requires
        packed(major, minor, patch) <= u32::MAX,
    ensures
        version == packed(major, minor, patch),
{
    proof {
        lemma_shifts(major, minor);
    }
    (major << 24) + (minor << 16) + patch
}

/// Shifting a part to its place keeps the bits that have room there and
/// multiplies them by the weight of the place.
pub proof fn lemma_shifts(major: u32, minor: u32)
    ensures
        (major << 24) == (major % 0x100) * 0x100_0000,
        (minor << 16) == (minor % 0x1_0000) * 0x1_0000,
{
    assert((major << 24) == (major % 0x100) * 0x100_0000) by (bit_vector);
    assert((minor << 16) == (minor % 0x1_0000) * 0x1_0000) by (bit_vector);
}

/// A version of three parts that fit their places can always be packed.
pub proof fn lemma_fits(major: u32, minor: u32, patch: u32)
    requires
        minor < 0x100,
        patch < 0x1_0000,
    ensures
        packed(major, minor, patch) <= u32::MAX,
{
}

} // verus!
