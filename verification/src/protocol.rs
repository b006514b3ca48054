use vstd::prelude::*;

verus! {

/// The four-phase session lifecycle. A fresh connection starts in
/// `Handshake`; the handshake packet moves it to `Status` or `Login`,
/// and a completed login moves it to `Play`. No transition leaves `Play`.
#[derive(Clone, Copy, PartialEq, Eq, Debug, Structural)]
pub enum NetworkState {
    Handshake,
    Status,
    Login,
    Play,
}

/// A block position: X and Z span 26 bits each, Y spans 12 bits, packed
/// into one 64-bit word on the wire.
#[derive(Clone, Copy, PartialEq, Eq, Debug, Structural)]
pub struct Position {
    pub x: i32,
    pub y: i16,
    pub z: i32,
}

/// Lowest X (or Z) coordinate that fits the packed 26-bit field.
pub const POSITION_XZ_MIN: i32 = -0x2000000;

/// Highest X (or Z) coordinate that fits the packed 26-bit field.
pub const POSITION_XZ_MAX: i32 = 0x1ffffff;

/// Lowest Y coordinate that fits the packed 12-bit field.
pub const POSITION_Y_MIN: i16 = -0x800;

/// Highest Y coordinate that fits the packed 12-bit field.
pub const POSITION_Y_MAX: i16 = 0x7ff;

impl Position {
    /// A position whose coordinates all fit their packed bit widths.
    pub open spec fn in_range(self) -> bool {
        &&& POSITION_XZ_MIN <= self.x <= POSITION_XZ_MAX
        &&& POSITION_Y_MIN <= self.y <= POSITION_Y_MAX
        &&& POSITION_XZ_MIN <= self.z <= POSITION_XZ_MAX
    }
}

/// The packed wire form: X in bits 38..63, Z in bits 12..37, Y in bits 0..11.
pub open spec fn position_word(p: Position) -> u64 {
    (((p.x as u64) & 0x3ffffff) << 38) | (((p.z as u64) & 0x3ffffff) << 12) | (
    (p.y as u64) & 0xfff)
}

/// Sign-extends the 26-bit X field out of a packed position word.
pub open spec fn position_unpack_x(w: u64) -> i32 {
    if (w >> 38) & 0x2000000 != 0 {
        ((((w >> 38) & 0x3ffffff) | 0xffff_ffff_fc00_0000) as i64) as i32
    } else {
        (((w >> 38) & 0x3ffffff) as i64) as i32
    }
}

/// Sign-extends the 26-bit Z field out of a packed position word.
pub open spec fn position_unpack_z(w: u64) -> i32 {
    if (w >> 12) & 0x2000000 != 0 {
        ((((w >> 12) & 0x3ffffff) | 0xffff_ffff_fc00_0000) as i64) as i32
    } else {
        (((w >> 12) & 0x3ffffff) as i64) as i32
    }
}

/// Sign-extends the 12-bit Y field out of a packed position word.
pub open spec fn position_unpack_y(w: u64) -> i16 {
    if w & 0x800 != 0 {
        (((w & 0xfff) | 0xffff_ffff_ffff_f000) as i64) as i16
    } else {
        ((w & 0xfff) as i64) as i16
    }
}

/// Packs a position into its 64-bit wire word.
pub fn pack_position(p: Position) -> (w: u64)
    ensures
        w == position_word(p),
{
    (((p.x as u64) & 0x3ffffff) << 38) | (((p.z as u64) & 0x3ffffff) << 12) | ((p.y as u64)
        & 0xfff)
}

/// Recovers the three coordinates from a packed position word.
pub fn unpack_position(w: u64) -> (p: Position)
    ensures
        p.x == position_unpack_x(w),
        p.y == position_unpack_y(w),
        p.z == position_unpack_z(w),
{
    let x: i32 = if (w >> 38) & 0x2000000 != 0 {
        ((((w >> 38) & 0x3ffffff) | 0xffff_ffff_fc00_0000) as i64) as i32
    } else {
        (((w >> 38) & 0x3ffffff) as i64) as i32
    };
    let z: i32 = if (w >> 12) & 0x2000000 != 0 {
        ((((w >> 12) & 0x3ffffff) | 0xffff_ffff_fc00_0000) as i64) as i32
    } else {
        (((w >> 12) & 0x3ffffff) as i64) as i32
    };
    let y: i16 = if w & 0x800 != 0 {
        (((w & 0xfff) | 0xffff_ffff_ffff_f000) as i64) as i16
    } else {
        ((w & 0xfff) as i64) as i16
    };
    Position { x, y, z }
}

/// Packing three in-range coordinates and unpacking the word gives the
/// coordinates back.
pub proof fn lemma_position_round_trip(p: Position)
    requires
        p.in_range(),
    ensures
        position_unpack_x(position_word(p)) == p.x,
        position_unpack_y(position_word(p)) == p.y,
        position_unpack_z(position_word(p)) == p.z,
{
    let x = p.x;
    let y = p.y;
    let z = p.z;
    let w = position_word(p);
    assert(w == (((x as u64) & 0x3ffffff) << 38) | (((z as u64) & 0x3ffffff) << 12) | ((
    y as u64) & 0xfff));
    assert(position_unpack_x(w) == x && position_unpack_y(w) == y && position_unpack_z(w)
        == z) by (bit_vector)
        requires
            w == (((x as u64) & 0x3ffffff) << 38) | (((z as u64) & 0x3ffffff) << 12) | ((
            y as u64) & 0xfff),
            -0x2000000 <= x <= 0x1ffffff,
            -0x800 <= y <= 0x7ff,
            -0x2000000 <= z <= 0x1ffffff,
    ;
}

} // verus!
