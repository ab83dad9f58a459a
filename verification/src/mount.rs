//! The mount-side decisions that need no outside tool: the sector-size
//! gate and the name of the mapper device for a slot.

use vstd::prelude::*;

use crate::numbers::spec_dec;
use crate::numbers::u32_to_dec;

verus! {

/// Whether a requested block size is admissible: an exact multiple of the
/// 512-byte sector. Anything else is a fatal sector-size error.
pub fn check_block_size(block_size: u32) -> (r: bool)
    ensures
        r == (block_size % 512 == 0),
{
    block_size % 512 == 0
}

/// The mapper device name of a slot: the fixed prefix followed by the
/// slot number in decimal.
pub fn device_name(entry: u32) -> (r: String)
    ensures
        r@ == "ddrm"@ + spec_dec(entry as nat),
{
    let mut s = "ddrm".to_owned();
    let d = u32_to_dec(entry);
    s.append(d.as_str());
    s
}

} // verus!
