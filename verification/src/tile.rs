use vstd::prelude::*;

verus! {

/// The kinds of tile a generated level can hold.
#[derive(Clone, Copy, PartialEq, Eq, Structural, Debug)]
pub enum TileType {
    Wall,
    Floor,
    DownStairs,
}

/// A tile can be walked on exactly when it is not solid wall.
pub open spec fn spec_walkable(t: TileType) -> bool {
    t != TileType::Wall
}

pub fn tile_walkable(t: TileType) -> (r: bool)
    ensures
        r == spec_walkable(t),
{
    match t {
        TileType::Wall => false,
        TileType::Floor => true,
        TileType::DownStairs => true,
    }
}

pub fn tile_opaque(t: TileType) -> (r: bool)
    ensures
        r == (t == TileType::Wall),
{
    match t {
        TileType::Wall => true,
        TileType::Floor => false,
        TileType::DownStairs => false,
    }
}

} // verus!
