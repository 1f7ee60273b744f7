//! The checks the kernel makes on a secondary system description table (SSDT) before it hands
//! the table to the AML interpreter.

use vstd::prelude::*;

verus! {

/// The smallest length of a system description table: the length of its header.
pub const SDT_HEADER_LENGTH: u32 = 36;

/// What the checks on an SSDT's place come to.
#[derive(Clone, Copy, Debug, PartialEq, Eq, Structural)]
pub enum SsdtPlace {
    /// The table has a null physical address: it is skipped
    NullAddress,
    /// The table is shorter than a table header, this many bytes: it is skipped
    TooShort(u32),
    /// The table can be mapped and read
    Usable,
}

/// Check the physical address and the length of an SSDT.
pub fn check_ssdt_place(phys_address: usize, length: u32) -> (r: SsdtPlace)
    ensures
        phys_address == 0 ==> r == SsdtPlace::NullAddress,
        phys_address != 0 && length < SDT_HEADER_LENGTH ==> r == SsdtPlace::TooShort(length),
        phys_address != 0 && length >= SDT_HEADER_LENGTH ==> r == SsdtPlace::Usable,
{
    if phys_address == 0 {
        SsdtPlace::NullAddress
    } else if length < SDT_HEADER_LENGTH {
        SsdtPlace::TooShort(length)
    } else {
        SsdtPlace::Usable
    }
}

/// The signature the bytes of an SSDT start with.
pub open spec fn ssdt_signature() -> Seq<u8> {
    seq![0x53u8, 0x53, 0x44, 0x54]
}

/// Whether a table starts with the signature `SSDT`; none when it is too short to hold a
/// signature.
pub fn ssdt_signature_matches(table: &[u8]) -> (r: Option<bool>)
    ensures
        table@.len() < 4 ==> r is None,
        table@.len() >= 4 ==> r == Some(table@.take(4) == ssdt_signature()),
{
    if table.len() < 4 {
        return None;
    }
    let ok = table[0] == 0x53 && table[1] == 0x53 && table[2] == 0x44 && table[3] == 0x54;
    proof {
        if ok {
            assert(table@.take(4) =~= ssdt_signature());
        } else {
            assert(table@.take(4) != ssdt_signature()) by {
                if table@.take(4) == ssdt_signature() {
                    assert(table@.take(4)[0] == table@[0]);
                    assert(table@.take(4)[1] == table@[1]);
                    assert(table@.take(4)[2] == table@[2]);
                    assert(table@.take(4)[3] == table@[3]);
                }
            }
        }
    }
    Some(ok)
}

} // verus!
