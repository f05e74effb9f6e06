use vstd::prelude::*;

verus! {

/// The lattice hash behind every procedural pattern: a 16-bit value that
/// depends on the two integer coordinates alone.
pub open spec fn spec_hash2(x: i32, y: i32) -> u16 {
    let h = x.wrapping_mul(374761393) ^ y.wrapping_mul(668265263);
    let h = (h ^ (h >> 13)).wrapping_mul(1274126177);
    ((h ^ (h >> 16)) & 0xffff) as u16
}

/// Lattice hash of `(x, y)`; divide by 65535 for a value in `[0, 1]`.
pub fn hash2(x: i32, y: i32) -> (r: u16)
    ensures
        r == spec_hash2(x, y),
{
    let h = x.wrapping_mul(374761393) ^ y.wrapping_mul(668265263);
    let h = (h ^ (h >> 13)).wrapping_mul(1274126177);
    ((h ^ (h >> 16)) & 0xffff) as u16
}

/// The two 16-bit values that orient and scale the ripple on a water cell
/// of the ripple lattice `(cx, cz)`.
pub open spec fn spec_ripple_hash(cx: i32, cz: i32) -> (u16, u16) {
    let hx = (cx.wrapping_mul(92837111) ^ cz.wrapping_mul(689287499)) as u32;
    let hy = (cx.wrapping_add(13).wrapping_mul(362437) ^ cz.wrapping_add(17).wrapping_mul(97531)) as u32;
    (((hx ^ (hx >> 13)) & 0xffff) as u16, ((hy ^ (hy >> 11)) & 0xffff) as u16)
}

pub fn ripple_hash(cx: i32, cz: i32) -> (r: (u16, u16))
    ensures
        r == spec_ripple_hash(cx, cz),
{
    let hx = (cx.wrapping_mul(92837111) ^ cz.wrapping_mul(689287499)) as u32;
    let hy = (cx.wrapping_add(13).wrapping_mul(362437) ^ cz.wrapping_add(17).wrapping_mul(97531)) as u32;
    (((hx ^ (hx >> 13)) & 0xffff) as u16, ((hy ^ (hy >> 11)) & 0xffff) as u16)
}

} // verus!
