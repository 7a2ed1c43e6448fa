//! Tile selection arithmetic.
//!
//! Tile ids below 384 denote autotiles, 48 ids per autotile; everything from
//! 384 up is a regular tile.  The selection rectangle of the picker wraps a
//! relative offset around its width and height to pick the tile under it.

use vstd::prelude::*;

verus! {

/// A selected tile: one of the autotiles, or a regular tile by id.
#[derive(Clone, Copy, PartialEq, Eq, Structural, Debug, Hash)]
pub enum SelectedTile {
    Autotile(i16),
    Tile(i16),
}

/// Integer division rounding toward zero, as the `/` of the ids does.
pub open spec fn div_toward_zero(a: int, b: int) -> int
    recommends
        b > 0,
{
    if a >= 0 {
        a / b
    } else {
        -((-a) / b)
    }
}

pub open spec fn spec_from_id(id: i16) -> SelectedTile {
    if id < 384 {
        SelectedTile::Autotile(div_toward_zero(id as int, 48) as i16)
    } else {
        SelectedTile::Tile(id)
    }
}

pub open spec fn spec_to_id(t: SelectedTile) -> int {
    match t {
        SelectedTile::Autotile(tile) => tile * 48,
        SelectedTile::Tile(tile) => tile as int,
    }
}

/// The shapes `from_id` produces: an autotile index whose id fits, or a
/// regular tile id of at least 384.
pub open spec fn wf_selected_tile(t: SelectedTile) -> bool {
    match t {
        SelectedTile::Autotile(tile) => -682 <= tile < 8,
        SelectedTile::Tile(tile) => 384 <= tile,
    }
}

impl SelectedTile {
    pub fn from_id(id: i16) -> (r: Self)
        ensures
            r == spec_from_id(id),
            wf_selected_tile(r),
    {
        if id < 384 {
            if id >= 0 {
                let q: u16 = (id as u16) / 48;
                SelectedTile::Autotile(q as i16)
            } else {
                let neg: u32 = (-(id as i32)) as u32;
                let q: u32 = neg / 48;
                SelectedTile::Autotile((-(q as i32)) as i16)
            }
        } else {
            SelectedTile::Tile(id)
        }
    }

    pub fn to_id(&self) -> (r: i16)
        requires
            wf_selected_tile(*self),
        ensures
            r as int == spec_to_id(*self),
    {
        match *self {
            SelectedTile::Autotile(tile) => tile * 48,
            SelectedTile::Tile(tile) => tile,
        }
    }
}

impl Default for SelectedTile {
    /// The default selection: the first autotile.
    fn default() -> (r: Self)
        ensures
            r == SelectedTile::Autotile(0i16),
    {
        SelectedTile::Autotile(0)
    }
}

/// A selection keeps its identity through its id: converting a selected tile
/// to its id and back yields the same selection.
pub proof fn lemma_tile_id_round_trip(t: SelectedTile)
    requires
        wf_selected_tile(t),
    ensures
        spec_from_id(spec_to_id(t) as i16) == t,
{
    match t {
        SelectedTile::Autotile(tile) => {
            if tile >= 0 {
                vstd::arithmetic::div_mod::lemma_div_by_multiple(tile as int, 48);
            } else {
                vstd::arithmetic::div_mod::lemma_div_by_multiple(-(tile as int), 48);
            }
        },
        SelectedTile::Tile(_) => {},
    }
}

/// An id on an autotile boundary, or any regular tile id, survives the trip
/// through a selection.
pub proof fn lemma_id_round_trip(id: i16)
    requires
        id % 48 == 0 || id >= 384,
    ensures
        spec_to_id(spec_from_id(id)) == id as int,
{
    if id < 384 {
        vstd::arithmetic::div_mod::lemma_fundamental_div_mod(id as int, 48);
        if id >= 0 {
            vstd::arithmetic::div_mod::lemma_div_by_multiple(id as int / 48, 48);
        } else {
            let q = div_toward_zero(id as int, 48);
            vstd::arithmetic::div_mod::lemma_fundamental_div_mod(-(id as int), 48);
            vstd::arithmetic::div_mod::lemma_mod_bound(-(id as int), 48);
            assert((-(id as int)) % 48 == 0) by {
                vstd::arithmetic::div_mod::lemma_mod_bound(id as int, 48);
                vstd::arithmetic::div_mod::lemma_add_mod_noop(id as int, -(id as int), 48);
                vstd::arithmetic::div_mod::lemma_mod_self_0(48);
            }
        }
    }
}

// ---------------------------------------------------------------------------
// Selection rectangles
// ---------------------------------------------------------------------------

pub open spec fn euclid_mod(x: int, m: int) -> int
    recommends
        m > 0,
{
    ((x % m) + m) % m
}

/// What tile a relative offset inside the wrapped selection rectangle picks:
/// offsets wrap around the rectangle, row zero and everything above hold the
/// autotiles, and every later row holds eight regular tiles.
pub open spec fn spec_tile_from_offset(
    left: int,
    top: int,
    right: int,
    bottom: int,
    x: int,
    y: int,
) -> SelectedTile
    recommends
        left <= right,
        top <= bottom,
{
    let sx = left + euclid_mod(x, right - left + 1);
    let sy = top + euclid_mod(y, bottom - top + 1);
    if sy <= 0 {
        SelectedTile::Autotile(sx as i16)
    } else {
        SelectedTile::Tile((sx + (sy - 1) * 8 + 384) as i16)
    }
}

/// Euclidean remainder of an offset by a positive width of at most one more
/// than the id range.
fn rem_euclid_offset(x: i16, m: i32) -> (r: i32)
    requires
        0 < m <= 65536,
    ensures
        r as int == euclid_mod(x as int, m as int),
        0 <= r < m,
{
    let shifted: i64 = (x as i64) + (m as i64) * 32768;
    let r64: u64 = (shifted as u64) % (m as u64);
    proof {
        vstd::arithmetic::div_mod::lemma_mod_multiples_vanish(32768, x as int, m as int);
        vstd::arithmetic::div_mod::lemma_mod_bound(x as int + m as int * 32768, m as int);
        vstd::arithmetic::div_mod::lemma_mod_bound(x as int, m as int);
        assert(euclid_mod(x as int, m as int) == (x as int) % (m as int)) by {
            let b = (x as int) % (m as int);
            vstd::arithmetic::div_mod::lemma_mod_bound(x as int, m as int);
            vstd::arithmetic::div_mod::lemma_mod_multiples_vanish(1, b, m as int);
            vstd::arithmetic::div_mod::lemma_small_mod(b as nat, m as nat);
        }
    }
    r64 as i32
}

/// The tile under a relative offset from the selection rectangle, wrapping
/// the offset around the rectangle.  The only demand beyond a well-ordered
/// rectangle is that every pickable tile id fits a tile id's width.
pub fn get_tile_from_offset(
    left: i16,
    top: i16,
    right: i16,
    bottom: i16,
    x: i16,
    y: i16,
) -> (r: SelectedTile)
    requires
        left <= right,
        top <= bottom,
        bottom > 0 ==> right + (bottom - 1) * 8 + 384 <= i16::MAX,
    ensures
        r == spec_tile_from_offset(
            left as int,
            top as int,
            right as int,
            bottom as int,
            x as int,
            y as int,
        ),
{
    let width: i32 = right as i32 - left as i32 + 1;
    let height: i32 = bottom as i32 - top as i32 + 1;
    let sx: i32 = left as i32 + rem_euclid_offset(x, width);
    let sy: i32 = top as i32 + rem_euclid_offset(y, height);
    if sy <= 0 {
        SelectedTile::Autotile(sx as i16)
    } else {
        SelectedTile::Tile((sx + (sy - 1) * 8 + 384) as i16)
    }
}

} // verus!
