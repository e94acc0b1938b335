//! The voxel world: block ids, themes, weather, the world table and the
//! procedural city generator.
use vstd::prelude::*;

verus! {

/// Width of the world in cells (x axis).
pub const WW: usize = 80;

/// Depth of the world in cells (y axis).
pub const WH: usize = 80;

/// Number of vertical layers (z axis).
pub const WD: usize = 20;

/// Number of cells of the whole grid.
pub const GRID_LEN: usize = 128000;

pub const I_GRASS: u8 = 1;

pub const I_DIRT: u8 = 2;

pub const I_WATER: u8 = 3;

pub const I_TRUNK: u8 = 6;

pub const I_LEAVES: u8 = 7;

pub const I_BRICK: u8 = 8;

pub const I_WOOD: u8 = 9;

pub const I_CONCRETE: u8 = 10;

pub const I_GLASS: u8 = 11;

pub const I_STONE: u8 = 12;

pub const I_PLAZA: u8 = 14;

#[derive(Clone, Copy, PartialEq, Eq, Structural, Debug)]
pub enum Weather {
    Clear,
    Rain,
    Snow,
    Fog,
}

#[derive(Clone, Copy, PartialEq, Eq, Structural, Debug)]
pub enum Theme {
    Valley,
    Desert,
    Frozen,
    Tropical,
    Forest,
}

// ---------------------------------------------------------------------------
// deterministic noise
// ---------------------------------------------------------------------------

/// The integer hash behind all procedural decisions: a multiply / xor-shift
/// mix of a lattice point `(x, y)` and a salt `s`.
#[verifier::opaque]
pub open spec fn noise(x: i32, y: i32, s: u64) -> u64 {
    let a = vstd::wrapping::u64_specs::wrapping_mul(x as u64, 374761393);
    let b = vstd::wrapping::u64_specs::wrapping_add(a, y as u64);
    let c = vstd::wrapping::u64_specs::wrapping_mul(b, 668265263);
    let v0 = vstd::wrapping::u64_specs::wrapping_add(c, s);
    let v1 = v0 ^ (v0 >> 13u64);
    let v2 = vstd::wrapping::u64_specs::wrapping_mul(v1, 1274126177);
    v2 ^ (v2 >> 16u64)
}

/// Computes `noise(x, y, s)`.
pub fn noise_bits(x: i32, y: i32, s: u64) -> (v: u64)
    ensures
        v == noise(x, y, s),
{
    reveal(noise);
    let xu: u64 = x as u64;
    let yu: u64 = y as u64;
    let mut v: u64 = xu.wrapping_mul(374761393).wrapping_add(yu).wrapping_mul(668265263).wrapping_add(
        s,
    );
    v = v ^ (v >> 13u64);
    v = v.wrapping_mul(1274126177);
    v = v ^ (v >> 16u64);
    v
}

// A hash value `v` stands for the fraction `v / 2^64` taken as a double. The
// cut-offs below are the least values of `v` at which that double is no longer
// below the named fraction, so `v < CUT` decides the same as the comparison of
// the double with the fraction.

/// Cut-off for the fraction 0.16 (parks).
pub const PARK_CUT: u64 = 2951479051793528065;

/// Cut-off for the fraction 0.26 (plazas).
pub const PLAZA_CUT: u64 = 4796153459164483072;

/// Cut-off for the fraction 0.14 (suppressed streets).
pub const NO_STREET_CUT: u64 = 2582544170319337216;

/// Cut-off for the fraction 0.4 (glass towers downtown).
pub const GLASS_CUT: u64 = 7378697629483820544;

/// Cut-off for the fraction 0.58 (concrete blocks).
pub const CONCRETE_CUT: u64 = 10699111562751538177;

/// Cut-off for the fraction 0.82 (brick blocks).
pub const BRICK_CUT: u64 = 15126330140441830401;

/// Cut-off for the fraction 0.22 (empty lots).
pub const OPEN_LOT_CUT: u64 = 4058283696216101121;

/// `scaled(v, k)` is the whole part of `k` times the fraction that `v` stands
/// for, as the double product gives it (0 ..= k), for k in 3 ..= 6: the number
/// of cut-offs that `v` reaches.
pub open spec fn scaled(v: u64, k: u64) -> u64 {
    if k == 3 {
        if v >= 18446744073709550592 {
            3
        } else if v >= 12297829382473032705 {
            2
        } else if v >= 6148914691236516353 {
            1
        } else {
            0
        }
    } else if k == 4 {
        if v >= 18446744073709550592 {
            4
        } else if v >= 13835058055282162688 {
            3
        } else if v >= 9223372036854775296 {
            2
        } else if v >= 4611686018427387648 {
            1
        } else {
            0
        }
    } else if k == 5 {
        if v >= 18446744073709550592 {
            5
        } else if v >= 14757395258967641088 {
            4
        } else if v >= 11068046444225729537 {
            3
        } else if v >= 7378697629483820544 {
            2
        } else if v >= 3689348814741910272 {
            1
        } else {
            0
        }
    } else {
        if v >= 18446744073709550592 {
            6
        } else if v >= 15372286728091290624 {
            5
        } else if v >= 12297829382473032705 {
            4
        } else if v >= 9223372036854775296 {
            3
        } else if v >= 6148914691236516353 {
            2
        } else if v >= 3074457345618258177 {
            1
        } else {
            0
        }
    }
}

/// Computes `scaled(v, k)`.
pub fn scale_unit(v: u64, k: u64) -> (r: u64)
    requires
        3 <= k <= 6,
    ensures
        r == scaled(v, k),
        r <= k,
{
    if k == 3 {
        if v >= 18446744073709550592 {
            3
        } else if v >= 12297829382473032705 {
            2
        } else if v >= 6148914691236516353 {
            1
        } else {
            0
        }
    } else if k == 4 {
        if v >= 18446744073709550592 {
            4
        } else if v >= 13835058055282162688 {
            3
        } else if v >= 9223372036854775296 {
            2
        } else if v >= 4611686018427387648 {
            1
        } else {
            0
        }
    } else if k == 5 {
        if v >= 18446744073709550592 {
            5
        } else if v >= 14757395258967641088 {
            4
        } else if v >= 11068046444225729537 {
            3
        } else if v >= 7378697629483820544 {
            2
        } else if v >= 3689348814741910272 {
            1
        } else {
            0
        }
    } else {
        if v >= 18446744073709550592 {
            6
        } else if v >= 15372286728091290624 {
            5
        } else if v >= 12297829382473032705 {
            4
        } else if v >= 9223372036854775296 {
            3
        } else if v >= 6148914691236516353 {
            2
        } else if v >= 3074457345618258177 {
            1
        } else {
            0
        }
    }
}


// ---------------------------------------------------------------------------
// the city plan
// ---------------------------------------------------------------------------

/// What the first pass of the generator puts into one column of the grid.
#[derive(Clone, Copy, PartialEq, Eq, Structural, Debug)]
pub enum Column {
    /// The forest ring: grass, a trunk and two layers of leaves.
    Border,
    /// Only layer 1 holds the block (0 for an open road).
    Flat(u8),
    /// A building of the material, filling layers 1 ..= height.
    Tower(u8, usize),
}

/// The block that a column holds at layer `z`.
pub open spec fn column_block(c: Column, z: int) -> u8 {
    match c {
        Column::Border => {
            if z == 1 {
                I_GRASS
            } else if z == 2 {
                I_TRUNK
            } else if z == 3 || z == 4 {
                I_LEAVES
            } else {
                0
            }
        },
        Column::Flat(b) => if z == 1 {
            b
        } else {
            0
        },
        Column::Tower(m, h) => if 1 <= z <= h {
            m
        } else {
            0
        },
    }
}

/// Computes `column_block(c, z)`.
pub fn column_value(c: Column, z: usize) -> (b: u8)
    ensures
        b == column_block(c, z as int),
{
    match c {
        Column::Border => {
            if z == 1 {
                I_GRASS
            } else if z == 2 {
                I_TRUNK
            } else if z == 3 || z == 4 {
                I_LEAVES
            } else {
                0
            }
        },
        Column::Flat(b) => if z == 1 {
            b
        } else {
            0
        },
        Column::Tower(m, h) => if 1 <= z && z <= h {
            m
        } else {
            0
        },
    }
}

pub open spec fn noise_at(x: int, y: int, s: int) -> u64 {
    noise(x as i32, y as i32, s as u64)
}

/// The supercell `(gx, gy)` (8 x 8 cells) is a park.
pub open spec fn is_park(seed: u64, gx: int, gy: int) -> bool {
    noise_at(gx, gy, seed + 1) < PARK_CUT
}

/// The supercell `(gx, gy)` is a plaza (where it is no park).
pub open spec fn is_plaza(seed: u64, gx: int, gy: int) -> bool {
    noise_at(gx, gy, seed + 2) < PLAZA_CUT
}

/// The horizontal street along the far side of supercell `(gx, gy)` is left out.
pub open spec fn no_hstreet(seed: u64, gx: int, gy: int) -> bool {
    noise_at(gx, gy, seed + 3) < NO_STREET_CUT
}

/// The vertical street along the far side of supercell `(gx, gy)` is left out.
pub open spec fn no_vstreet(seed: u64, gx: int, gy: int) -> bool {
    noise_at(gx, gy, seed + 4) < NO_STREET_CUT
}

pub open spec fn on_border(x: int, y: int) -> bool {
    x < 2 || x >= 78 || y < 2 || y >= 78
}

pub open spec fn iabs(v: int) -> int {
    if v < 0 {
        -v
    } else {
        v
    }
}

/// A supercell near the middle of the map, where glass towers may stand.
pub open spec fn is_downtown(gx: int, gy: int) -> bool {
    iabs(gx * 8 + 4 - 40) + iabs(gy * 8 + 4 - 40) < 30
}

/// Material and base height of the building on the 2 x 2 tile `(tx, ty)`.
pub open spec fn building(seed: u64, gx: int, gy: int, tx: int, ty: int) -> (u8, int) {
    let u = noise_at(tx, ty, seed + 5);
    if is_downtown(gx, gy) && u < GLASS_CUT {
        (I_GLASS, 10 + scaled(noise_at(tx, ty, seed + 6), 6))
    } else if u < CONCRETE_CUT {
        (I_CONCRETE, 6 + scaled(noise_at(tx, ty, seed + 7), 5))
    } else if u < BRICK_CUT {
        (I_BRICK, 4 + scaled(noise_at(tx, ty, seed + 8), 4))
    } else {
        (I_WOOD, 3 + scaled(noise_at(tx, ty, seed + 9), 3))
    }
}

/// The first pass of the generator: what column `(x, y)` holds before parks
/// get their ponds and trees.
#[verifier::opaque]
pub open spec fn plan_col(seed: u64, x: int, y: int) -> Column {
    if on_border(x, y) {
        Column::Border
    } else {
        let gx = x / 8;
        let gy = y / 8;
        let h_street = y % 8 >= 6 && !(no_hstreet(seed, gx, gy) || no_hstreet(seed, gx, gy - 1));
        let v_street = x % 8 >= 6 && !(no_vstreet(seed, gx, gy) || no_vstreet(seed, gx - 1, gy));
        if h_street || v_street {
            Column::Flat(0)
        } else if is_park(seed, gx, gy) {
            Column::Flat(I_GRASS)
        } else if is_plaza(seed, gx, gy) {
            Column::Flat(I_PLAZA)
        } else {
            let tx = x / 2;
            let ty = y / 2;
            let (mat, base) = building(seed, gx, gy, tx, ty);
            let spire = mat == I_GLASS && x % 2 == 0 && y % 2 == 0;
            let h0 = if spire {
                base + 3
            } else {
                base
            };
            let h = if h0 < 19 {
                h0
            } else {
                19
            };
            if noise_at(tx, ty, seed + 10) < OPEN_LOT_CUT && mat != I_GLASS {
                Column::Flat(I_GRASS)
            } else {
                Column::Tower(mat, h as usize)
            }
        }
    }
}

/// Computes `plan_col(seed, x, y)`.
pub fn plan_column(seed: u64, x: i32, y: i32) -> (c: Column)
    requires
        0 <= x < 80,
        0 <= y < 80,
        seed <= u64::MAX - 14,
    ensures
        c == plan_col(seed, x as int, y as int),
{
    reveal(plan_col);
    if x < 2 || x >= 78 || y < 2 || y >= 78 {
        return Column::Border;
    }
    let gx: i32 = x / 8;
    let gy: i32 = y / 8;
    let sx: i32 = x % 8;
    let sy: i32 = y % 8;
    let h_street = sy >= 6 && !(noise_bits(gx, gy, seed + 3) < NO_STREET_CUT || noise_bits(
        gx,
        gy - 1,
        seed + 3,
    ) < NO_STREET_CUT);
    let v_street = sx >= 6 && !(noise_bits(gx, gy, seed + 4) < NO_STREET_CUT || noise_bits(
        gx - 1,
        gy,
        seed + 4,
    ) < NO_STREET_CUT);
    if h_street || v_street {
        return Column::Flat(0);
    }
    if noise_bits(gx, gy, seed + 1) < PARK_CUT {
        return Column::Flat(I_GRASS);
    }
    if noise_bits(gx, gy, seed + 2) < PLAZA_CUT {
        return Column::Flat(I_PLAZA);
    }
    let tx: i32 = x / 2;
    let ty: i32 = y / 2;
    let u = noise_bits(tx, ty, seed + 5);
    let dxc: i32 = gx * 8 + 4 - 40;
    let dyc: i32 = gy * 8 + 4 - 40;
    let adx: i32 = if dxc < 0 {
        -dxc
    } else {
        dxc
    };
    let ady: i32 = if dyc < 0 {
        -dyc
    } else {
        dyc
    };
    let downtown = adx + ady < 30;
    let mat: u8;
    let base: usize;
    if downtown && u < GLASS_CUT {
        mat = I_GLASS;
        base = 10 + scale_unit(noise_bits(tx, ty, seed + 6), 6) as usize;
    } else if u < CONCRETE_CUT {
        mat = I_CONCRETE;
        base = 6 + scale_unit(noise_bits(tx, ty, seed + 7), 5) as usize;
    } else if u < BRICK_CUT {
        mat = I_BRICK;
        base = 4 + scale_unit(noise_bits(tx, ty, seed + 8), 4) as usize;
    } else {
        mat = I_WOOD;
        base = 3 + scale_unit(noise_bits(tx, ty, seed + 9), 3) as usize;
    }
    let spire = mat == I_GLASS && x % 2 == 0 && y % 2 == 0;
    let h0: usize = if spire {
        base + 3
    } else {
        base
    };
    let h: usize = if h0 < 19 {
        h0
    } else {
        19
    };
    if noise_bits(tx, ty, seed + 10) < OPEN_LOT_CUT && mat != I_GLASS {
        return Column::Flat(I_GRASS);
    }
    Column::Tower(mat, h)
}

// ---------------------------------------------------------------------------
// park features
// ---------------------------------------------------------------------------

/// Corner of the 2 x 2 pond of park supercell `(gx, gy)`.
pub open spec fn pond_x(seed: u64, gx: int, gy: int) -> int {
    gx * 8 + scaled(noise_at(gx, gy, seed + 11), 4) + 1
}

pub open spec fn pond_y(seed: u64, gx: int, gy: int) -> int {
    gy * 8 + scaled(noise_at(gx, gy, seed + 12), 4) + 1
}

/// Column `(x, y)` is part of the pond of park supercell `(gx, gy)`.
pub open spec fn is_pond(seed: u64, gx: int, gy: int, x: int, y: int) -> bool {
    let px = pond_x(seed, gx, gy);
    let py = pond_y(seed, gx, gy);
    &&& px <= x <= px + 1
    &&& py <= y <= py + 1
    &&& x < 78
    &&& y < 78
}

/// Position of the `i`-th tree candidate of park supercell `(gx, gy)`.
pub open spec fn tree_x(seed: u64, gx: int, gy: int, i: int) -> int {
    gx * 8 + scaled(noise_at(gx + i, gy, seed + 13), 5) + 1
}

pub open spec fn tree_y(seed: u64, gx: int, gy: int, i: int) -> int {
    gy * 8 + scaled(noise_at(gx, gy + i, seed + 14), 5) + 1
}

/// The `i`-th tree candidate stands on lawn: inside the playable area, on
/// grass of the first pass, and not in the pond.
pub open spec fn tree_ok(seed: u64, gx: int, gy: int, i: int) -> bool {
    let tx = tree_x(seed, gx, gy, i);
    let ty = tree_y(seed, gx, gy, i);
    &&& tx < 78
    &&& ty < 78
    &&& column_block(plan_col(seed, tx, ty), 1) == I_GRASS
    &&& !is_pond(seed, gx, gy, tx, ty)
}

/// One of the first `n` tree candidates grows at `(x, y)`.
pub open spec fn tree_upto(seed: u64, gx: int, gy: int, n: nat, x: int, y: int) -> bool
    decreases n,
{
    if n == 0 {
        false
    } else {
        tree_upto(seed, gx, gy, (n - 1) as nat, x, y) || (tree_ok(seed, gx, gy, n - 1)
            && tree_x(seed, gx, gy, n - 1) == x && tree_y(seed, gx, gy, n - 1) == y)
    }
}

/// The crown of one of the first `n` trees covers `(x, y)`.
pub open spec fn canopy_upto(seed: u64, gx: int, gy: int, n: nat, x: int, y: int) -> bool
    decreases n,
{
    if n == 0 {
        false
    } else {
        canopy_upto(seed, gx, gy, (n - 1) as nat, x, y) || (tree_ok(seed, gx, gy, n - 1) && 0 < x
            < 79 && 0 < y < 79 && iabs(x - tree_x(seed, gx, gy, n - 1)) <= 1 && iabs(
            y - tree_y(seed, gx, gy, n - 1),
        ) <= 1)
    }
}

/// The block at `(x, y, z)` of park supercell `(gx, gy)` once its pond and
/// its first `n` tree candidates are in place.
pub open spec fn park_stage(seed: u64, gx: int, gy: int, n: nat, x: int, y: int, z: int) -> u8 {
    let b = column_block(plan_col(seed, x, y), z);
    let tree = tree_upto(seed, gx, gy, n, x, y);
    if z == 1 {
        if tree {
            I_TRUNK
        } else if is_pond(seed, gx, gy, x, y) {
            I_WATER
        } else {
            b
        }
    } else if z == 2 {
        if tree {
            I_TRUNK
        } else {
            b
        }
    } else if z == 3 {
        if tree {
            I_LEAVES
        } else {
            b
        }
    } else if z == 4 {
        if b == 0 && canopy_upto(seed, gx, gy, n, x, y) {
            I_LEAVES
        } else {
            b
        }
    } else {
        b
    }
}

/// The crossroads at the spawn point that is always kept clear.
pub open spec fn crossroad(x: int, y: int) -> bool {
    (x == 40 && 37 <= y <= 42) || (y == 40 && 37 <= x <= 42)
}

/// The block at `(x, y, z)` of the world built from `seed`.
pub open spec fn world_cell(seed: u64, x: int, y: int, z: int) -> u8 {
    if crossroad(x, y) {
        0
    } else if is_park(seed, x / 8, y / 8) {
        park_stage(seed, x / 8, y / 8, 5, x, y, z)
    } else {
        column_block(plan_col(seed, x, y), z)
    }
}

pub open spec fn in_grid(x: int, y: int, z: int) -> bool {
    0 <= x < 80 && 0 <= y < 80 && 0 <= z < 20
}

/// Position of cell `(x, y, z)` in the flat grid.
pub open spec fn cell_index(x: int, y: int, z: int) -> int {
    (x * 80 + y) * 20 + z
}

// ---------------------------------------------------------------------------
// generation passes
// ---------------------------------------------------------------------------

/// The first pass: every column as `plan_col` gives it.
fn fill_plan(seed: u64) -> (g: Vec<u8>)
    requires
        seed <= u64::MAX - 14,
    ensures
        g@.len() == GRID_LEN,
        forall|x: int, y: int, z: int|
            in_grid(x, y, z) ==> #[trigger] g@[cell_index(x, y, z)] == column_block(
                plan_col(seed, x, y),
                z,
            ),
{
    let mut g: Vec<u8> = Vec::new();
    let mut x: i32 = 0;
    while x < 80
        invariant
            0 <= x <= 80,
            seed <= u64::MAX - 14,
            g@.len() == x * 1600,
            forall|a: int, b: int, c: int|
                0 <= a < x && 0 <= b < 80 && 0 <= c < 20 ==> #[trigger] g@[cell_index(a, b, c)]
                    == column_block(plan_col(seed, a, b), c),
        decreases 80 - x,
    {
        let mut y: i32 = 0;
        while y < 80
            invariant
                0 <= x < 80,
                0 <= y <= 80,
                seed <= u64::MAX - 14,
                g@.len() == x * 1600 + y * 20,
                forall|a: int, b: int, c: int|
                    0 <= a < x && 0 <= b < 80 && 0 <= c < 20 ==> #[trigger] g@[cell_index(a, b, c)]
                        == column_block(plan_col(seed, a, b), c),
                forall|b: int, c: int|
                    0 <= b < y && 0 <= c < 20 ==> #[trigger] g@[cell_index(x as int, b, c)]
                        == column_block(plan_col(seed, x as int, b), c),
            decreases 80 - y,
        {
            let col = plan_column(seed, x, y);
            let mut z: usize = 0;
            while z < 20
                invariant
                    0 <= x < 80,
                    0 <= y < 80,
                    0 <= z <= 20,
                    col == plan_col(seed, x as int, y as int),
                    g@.len() == x * 1600 + y * 20 + z,
                    forall|a: int, b: int, c: int|
                        0 <= a < x && 0 <= b < 80 && 0 <= c < 20 ==> #[trigger] g@[cell_index(
                            a,
                            b,
                            c,
                        )] == column_block(plan_col(seed, a, b), c),
                    forall|b: int, c: int|
                        0 <= b < y && 0 <= c < 20 ==> #[trigger] g@[cell_index(x as int, b, c)]
                            == column_block(plan_col(seed, x as int, b), c),
                    forall|c: int|
                        0 <= c < z ==> #[trigger] g@[cell_index(x as int, y as int, c)]
                            == column_block(col, c),
                decreases 20 - z,
            {
                g.push(column_value(col, z));
                z += 1;
            }
            y += 1;
        }
        x += 1;
    }
    g
}

/// Distinct cells of the grid sit at distinct positions of the flat grid.
proof fn lemma_index_distinct(x: int, y: int, z: int)
    requires
        in_grid(x, y, z),
    ensures
        0 <= cell_index(x, y, z) < GRID_LEN,
        forall|a: int, b: int, c: int|
            in_grid(a, b, c) && !(a == x && b == y && c == z) ==> #[trigger] cell_index(a, b, c)
                != cell_index(x, y, z),
{
    assert forall|a: int, b: int, c: int|
        in_grid(a, b, c) && !(a == x && b == y && c == z) implies #[trigger] cell_index(a, b, c)
        != cell_index(x, y, z) by {
        if a != x {
            if a < x {
                assert(cell_index(a, b, c) < a * 1600 + 1600);
            } else {
                assert(cell_index(x, y, z) < x * 1600 + 1600);
            }
        } else if b != y {
            if b < y {
                assert(cell_index(a, b, c) < a * 1600 + b * 20 + 20);
            } else {
                assert(cell_index(x, y, z) < x * 1600 + y * 20 + 20);
            }
        }
    }
}

/// Position of cell `(x, y, z)` in the flat grid.
fn index_of(x: i32, y: i32, z: usize) -> (i: usize)
    requires
        in_grid(x as int, y as int, z as int),
    ensures
        i == cell_index(x as int, y as int, z as int),
        i < GRID_LEN,
{
    ((x as usize) * 80 + (y as usize)) * 20 + z
}

/// Writes `v` into cell `(x, y, z)` of a flat grid.
fn set_cell(g: &mut Vec<u8>, x: i32, y: i32, z: usize, v: u8)
    requires
        old(g)@.len() == GRID_LEN,
        in_grid(x as int, y as int, z as int),
    ensures
        final(g)@.len() == GRID_LEN,
        final(g)@[cell_index(x as int, y as int, z as int)] == v,
        forall|a: int, b: int, c: int|
            in_grid(a, b, c) && !(a == x && b == y && c == z) ==> #[trigger] final(g)@[cell_index(a, b, c)] == old(g)@[cell_index(a, b, c)],
{
    proof {
        lemma_index_distinct(x as int, y as int, z as int);
    }
    let i = index_of(x, y, z);
    g[i] = v;
}

/// Puts leaves at layer 4 of column `(lx, ly)` where it is empty, unless the
/// column lies on the outermost ring.
fn put_leaf(g: &mut Vec<u8>, lx: i32, ly: i32)
    requires
        old(g)@.len() == GRID_LEN,
        0 <= lx < 80,
        0 <= ly < 80,
    ensures
        final(g)@.len() == GRID_LEN,
        forall|a: int, b: int, c: int|
            in_grid(a, b, c) ==> #[trigger] final(g)@[cell_index(a, b, c)] == if a == lx && b
                == ly && c == 4 && 0 < lx < 79 && 0 < ly < 79 && old(g)@[cell_index(a, b, c)]
                == 0 {
                I_LEAVES
            } else {
                old(g)@[cell_index(a, b, c)]
            },
{
    if lx > 0 && lx < 79 && ly > 0 && ly < 79 {
        let i = index_of(lx, ly, 4);
        if g[i] == 0 {
            set_cell(g, lx, ly, 4, I_LEAVES);
        }
    }
}

/// Spreads a tree crown over the 3 x 3 columns around `(tx, ty)` at layer 4.
fn put_crown(g: &mut Vec<u8>, tx: i32, ty: i32)
    requires
        old(g)@.len() == GRID_LEN,
        1 <= tx < 79,
        1 <= ty < 79,
    ensures
        final(g)@.len() == GRID_LEN,
        forall|a: int, b: int, c: int|
            in_grid(a, b, c) ==> #[trigger] final(g)@[cell_index(a, b, c)] == if c == 4 && 0 < a
                < 79 && 0 < b < 79 && iabs(a - tx) <= 1 && iabs(b - ty) <= 1 && old(g)@[cell_index(a, b, c)] == 0 {
                I_LEAVES
            } else {
                old(g)@[cell_index(a, b, c)]
            },
{
    put_leaf(g, tx - 1, ty - 1);
    put_leaf(g, tx - 1, ty);
    put_leaf(g, tx - 1, ty + 1);
    put_leaf(g, tx, ty - 1);
    put_leaf(g, tx, ty);
    put_leaf(g, tx, ty + 1);
    put_leaf(g, tx + 1, ty - 1);
    put_leaf(g, tx + 1, ty);
    put_leaf(g, tx + 1, ty + 1);
}

/// Every column next to a tree lies under the crowns grown so far.
proof fn lemma_crown_of_tree(seed: u64, gx: int, gy: int, n: nat, x: int, y: int)
    requires
        tree_upto(seed, gx, gy, n, x, y),
    ensures
        forall|a: int, b: int|
            0 < a < 79 && 0 < b < 79 && iabs(a - x) <= 1 && iabs(b - y) <= 1 ==> canopy_upto(
                seed,
                gx,
                gy,
                n,
                a,
                b,
            ),
    decreases n,
{
    if n > 0 {
        let m = (n - 1) as nat;
        if tree_upto(seed, gx, gy, m, x, y) {
            lemma_crown_of_tree(seed, gx, gy, m, x, y);
            assert forall|a: int, b: int|
                0 < a < 79 && 0 < b < 79 && iabs(a - x) <= 1 && iabs(b - y) <= 1 implies canopy_upto(
                seed,
                gx,
                gy,
                n,
                a,
                b,
            ) by {
                assert(canopy_upto(seed, gx, gy, m, a, b));
            }
        } else {
            assert(tree_ok(seed, gx, gy, m as int));
            assert forall|a: int, b: int|
                0 < a < 79 && 0 < b < 79 && iabs(a - x) <= 1 && iabs(b - y) <= 1 implies canopy_upto(
                seed,
                gx,
                gy,
                n,
                a,
                b,
            ) by {}
        }
    }
}

/// Columns of a cell range that starts at a supercell corner and stays within
/// 8 columns belong to that supercell.
proof fn lemma_supercell(g: int, v: int)
    requires
        0 <= g,
        g * 8 <= v < g * 8 + 8,
    ensures
        v / 8 == g,
{
}

/// Gives the park supercell `(gx, gy)` its pond and its trees.
fn plant_park(g: &mut Vec<u8>, seed: u64, gx: i32, gy: i32)
    requires
        old(g)@.len() == GRID_LEN,
        0 <= gx < 10,
        0 <= gy < 10,
        seed <= u64::MAX - 14,
        forall|a: int, b: int, c: int|
            in_grid(a, b, c) && a / 8 == gx && b / 8 == gy ==> #[trigger] old(g)@[cell_index(
                a,
                b,
                c,
            )] == column_block(plan_col(seed, a, b), c),
    ensures
        final(g)@.len() == GRID_LEN,
        forall|a: int, b: int, c: int|
            in_grid(a, b, c) ==> #[trigger] final(g)@[cell_index(a, b, c)] == if a / 8 == gx && b
                / 8 == gy {
                park_stage(seed, gx as int, gy as int, 5, a, b, c)
            } else {
                old(g)@[cell_index(a, b, c)]
            },
{
    let ghost g0 = g@;
    let bx: i32 = gx * 8;
    let by: i32 = gy * 8;
    let px: i32 = bx + scale_unit(noise_bits(gx, gy, seed + 11), 4) as i32 + 1;
    let py: i32 = by + scale_unit(noise_bits(gx, gy, seed + 12), 4) as i32 + 1;
    proof {
        lemma_supercell(gx as int, px as int);
        lemma_supercell(gx as int, px + 1);
        lemma_supercell(gy as int, py as int);
        lemma_supercell(gy as int, py + 1);
    }
    if px < 78 && py < 78 {
        set_cell(g, px, py, 1, I_WATER);
    }
    if px < 78 && py + 1 < 78 {
        set_cell(g, px, py + 1, 1, I_WATER);
    }
    if px + 1 < 78 && py < 78 {
        set_cell(g, px + 1, py, 1, I_WATER);
    }
    if px + 1 < 78 && py + 1 < 78 {
        set_cell(g, px + 1, py + 1, 1, I_WATER);
    }
    assert forall|a: int, b: int, c: int| in_grid(a, b, c) implies #[trigger] g@[cell_index(
        a,
        b,
        c,
    )] == if a / 8 == gx && b / 8 == gy {
        park_stage(seed, gx as int, gy as int, 0, a, b, c)
    } else {
        g0[cell_index(a, b, c)]
    } by {}
    let mut i: i32 = 0;
    while i < 5
        invariant
            0 <= i <= 5,
            0 <= gx < 10,
            0 <= gy < 10,
            bx == gx * 8,
            by == gy * 8,
            seed <= u64::MAX - 14,
            g@.len() == GRID_LEN,
            forall|a: int, b: int, c: int|
                in_grid(a, b, c) ==> #[trigger] g@[cell_index(a, b, c)] == if a / 8 == gx && b / 8
                    == gy {
                    park_stage(seed, gx as int, gy as int, i as nat, a, b, c)
                } else {
                    g0[cell_index(a, b, c)]
                },
        decreases 5 - i,
    {
        let ghost gs = g@;
        let tx: i32 = bx + scale_unit(noise_bits(gx + i, gy, seed + 13), 5) as i32 + 1;
        let ty: i32 = by + scale_unit(noise_bits(gx, gy + i, seed + 14), 5) as i32 + 1;
        assert(tx == tree_x(seed, gx as int, gy as int, i as int));
        assert(ty == tree_y(seed, gx as int, gy as int, i as int));
        proof {
            lemma_supercell(gx as int, tx as int);
            lemma_supercell(gy as int, ty as int);
        }
        if tx < 78 && ty < 78 {
            let k = index_of(tx, ty, 1);
            if g[k] == I_GRASS {
                proof {
                    assert(tree_ok(seed, gx as int, gy as int, i as int));
                }
                set_cell(g, tx, ty, 1, I_TRUNK);
                set_cell(g, tx, ty, 2, I_TRUNK);
                set_cell(g, tx, ty, 3, I_LEAVES);
                put_crown(g, tx, ty);
                assert forall|a: int, b: int, c: int| in_grid(a, b, c) implies #[trigger] g@[cell_index(
                    a,
                    b,
                    c,
                )] == if a / 8 == gx && b / 8 == gy {
                    park_stage(seed, gx as int, gy as int, (i + 1) as nat, a, b, c)
                } else {
                    g0[cell_index(a, b, c)]
                } by {
                    if iabs(a - tx) <= 1 && iabs(b - ty) <= 1 {
                        lemma_supercell(gx as int, a);
                        lemma_supercell(gy as int, b);
                    }
                }
            } else {
                proof {
                    if tree_ok(seed, gx as int, gy as int, i as int) {
                        assert(tree_upto(seed, gx as int, gy as int, i as nat, tx as int, ty as int));
                        lemma_crown_of_tree(seed, gx as int, gy as int, i as nat, tx as int, ty as int);
                    }
                }
            }
        }
        i += 1;
    }
}

/// Empties all layers of column `(x, y)`.
fn clear_column(g: &mut Vec<u8>, x: i32, y: i32)
    requires
        old(g)@.len() == GRID_LEN,
        0 <= x < 80,
        0 <= y < 80,
    ensures
        final(g)@.len() == GRID_LEN,
        forall|a: int, b: int, c: int|
            in_grid(a, b, c) ==> #[trigger] final(g)@[cell_index(a, b, c)] == if a == x && b == y {
                0
            } else {
                old(g)@[cell_index(a, b, c)]
            },
{
    let ghost g0 = g@;
    let mut z: usize = 0;
    while z < 20
        invariant
            0 <= z <= 20,
            0 <= x < 80,
            0 <= y < 80,
            g@.len() == GRID_LEN,
            forall|a: int, b: int, c: int|
                in_grid(a, b, c) ==> #[trigger] g@[cell_index(a, b, c)] == if a == x && b == y && c
                    < z {
                    0
                } else {
                    g0[cell_index(a, b, c)]
                },
        decreases 20 - z,
    {
        set_cell(g, x, y, z, 0);
        z += 1;
    }
}

/// The grid after the parks of the supercells before `(gx, gy)` (in row
/// order) got their features.
pub open spec fn parks_done(seed: u64, gx: int, gy: int, x: int, y: int, z: int) -> u8 {
    if is_park(seed, x / 8, y / 8) && (x / 8 < gx || (x / 8 == gx && y / 8 < gy)) {
        park_stage(seed, x / 8, y / 8, 5, x, y, z)
    } else {
        column_block(plan_col(seed, x, y), z)
    }
}

/// The part of the spawn crossroads cleared by the first `i` steps.
pub open spec fn cleared_upto(i: int, x: int, y: int) -> bool {
    (x == 40 && 37 <= y < 37 + i) || (y == 40 && 37 <= x < 37 + i)
}

/// A voxel world of `WW x WH` columns with `WD` layers each.
pub struct World {
    grid: Vec<u8>,
    pub theme: Theme,
}

impl World {
    /// The grid has its full size.
    pub closed spec fn wf(&self) -> bool {
        self.grid@.len() == GRID_LEN
    }

    /// The theme the world was built with.
    pub closed spec fn theme_of(&self) -> Theme {
        self.theme
    }

    /// The theme the world was built with.
    pub fn theme(&self) -> (t: Theme)
        ensures
            t == self.theme_of(),
    {
        self.theme
    }

    /// The block at `(x, y, z)`, for a cell inside the grid.
    pub closed spec fn cell(&self, x: int, y: int, z: int) -> u8 {
        self.grid@[cell_index(x, y, z)]
    }

    /// The block at `(x, y, z)`; 0 (air) outside the grid.
    pub fn at(&self, x: i32, y: i32, z: i32) -> (b: u8)
        requires
            self.wf(),
        ensures
            b == if in_grid(x as int, y as int, z as int) {
                self.cell(x as int, y as int, z as int)
            } else {
                0
            },
    {
        if x >= 0 && (x as usize) < WW && y >= 0 && (y as usize) < WH && z >= 0 && (z as usize)
            < WD {
            let i = index_of(x, y, z as usize);
            self.grid[i]
        } else {
            0
        }
    }

    /// Generates the city of `seed` with the given theme: the forest ring,
    /// streets, parks with ponds and trees, plazas and buildings, and a clear
    /// crossroads at the spawn point.
    pub fn build(seed: u64, theme: Theme) -> (w: World)
        requires
            seed <= u64::MAX - 14,
        ensures
            w.wf(),
            w.theme_of() == theme,
            forall|x: int, y: int, z: int|
                in_grid(x, y, z) && crossroad(x, y) ==> #[trigger] w.cell(x, y, z) == 0,
            forall|x: int, y: int, z: int|
                in_grid(x, y, z) ==> #[trigger] w.cell(x, y, z) == world_cell(seed, x, y, z),
    {
        let mut g = fill_plan(seed);
        let mut gx: i32 = 0;
        while gx < 10
            invariant
                0 <= gx <= 10,
                seed <= u64::MAX - 14,
                g@.len() == GRID_LEN,
                forall|a: int, b: int, c: int|
                    in_grid(a, b, c) ==> #[trigger] g@[cell_index(a, b, c)] == parks_done(
                        seed,
                        gx as int,
                        0,
                        a,
                        b,
                        c,
                    ),
            decreases 10 - gx,
        {
            let mut gy: i32 = 0;
            while gy < 10
                invariant
                    0 <= gx < 10,
                    0 <= gy <= 10,
                    seed <= u64::MAX - 14,
                    g@.len() == GRID_LEN,
                    forall|a: int, b: int, c: int|
                        in_grid(a, b, c) ==> #[trigger] g@[cell_index(a, b, c)] == parks_done(
                            seed,
                            gx as int,
                            gy as int,
                            a,
                            b,
                            c,
                        ),
                decreases 10 - gy,
            {
                if noise_bits(gx, gy, seed + 1) < PARK_CUT {
                    plant_park(&mut g, seed, gx, gy);
                }
                gy += 1;
            }
            assert forall|a: int, b: int, c: int| in_grid(a, b, c) implies #[trigger] g@[cell_index(
                a,
                b,
                c,
            )] == parks_done(seed, gx + 1, 0, a, b, c) by {}
            gx += 1;
        }
        let mut i: i32 = 0;
        while i < 6
            invariant
                0 <= i <= 6,
                seed <= u64::MAX - 14,
                g@.len() == GRID_LEN,
                forall|a: int, b: int, c: int|
                    in_grid(a, b, c) ==> #[trigger] g@[cell_index(a, b, c)] == if cleared_upto(
                        i as int,
                        a,
                        b,
                    ) {
                        0
                    } else {
                        parks_done(seed, 10, 0, a, b, c)
                    },
            decreases 6 - i,
        {
            clear_column(&mut g, 40, 37 + i);
            clear_column(&mut g, 37 + i, 40);
            i += 1;
        }
        let w = World { grid: g, theme };
        assert forall|x: int, y: int, z: int| in_grid(x, y, z) implies #[trigger] w.cell(x, y, z)
            == world_cell(seed, x, y, z) by {
            assert(w.cell(x, y, z) == w.grid@[cell_index(x, y, z)]);
        }
        w
    }
}

impl World {
    /// No block in layers 2 ..= 4 of column `(ix, iy)`: a body fits there.
    pub fn column_clear(&self, ix: i32, iy: i32) -> (r: bool)
        requires
            self.wf(),
        ensures
            r == (forall|z: int|
                2 <= z <= 4 ==> (if in_grid(ix as int, iy as int, z) {
                    self.cell(ix as int, iy as int, z)
                } else {
                    0u8
                }) == 0),
    {
        let b2 = self.at(ix, iy, 2);
        let b3 = self.at(ix, iy, 3);
        let b4 = self.at(ix, iy, 4);
        let r = b2 == 0 && b3 == 0 && b4 == 0;
        proof {
            if !r {
                if b2 != 0 {
                    assert(!(if in_grid(ix as int, iy as int, 2) {
                        self.cell(ix as int, iy as int, 2)
                    } else {
                        0u8
                    } == 0));
                } else if b3 != 0 {
                    assert(!(if in_grid(ix as int, iy as int, 3) {
                        self.cell(ix as int, iy as int, 3)
                    } else {
                        0u8
                    } == 0));
                } else {
                    assert(!(if in_grid(ix as int, iy as int, 4) {
                        self.cell(ix as int, iy as int, 4)
                    } else {
                        0u8
                    } == 0));
                }
            }
        }
        r
    }

    /// The ground of column `(x, y)` can be walked on by enemies: open road,
    /// grass or plaza at layer 1.
    pub fn ground_open(&self, x: i32, y: i32) -> (r: bool)
        requires
            self.wf(),
        ensures
            ({
                let b = if in_grid(x as int, y as int, 1) {
                    self.cell(x as int, y as int, 1)
                } else {
                    0u8
                };
                r == (b == 0 || b == I_GRASS || b == I_PLAZA)
            }),
    {
        let b = self.at(x, y, 1);
        b == 0 || b == I_GRASS || b == I_PLAZA
    }

    /// What the floor of column `(x, y)` looks like.
    pub fn ground_kind(&self, x: i32, y: i32) -> (k: Ground)
        requires
            self.wf(),
        ensures
            k == ground_of(
                if in_grid(x as int, y as int, 1) {
                    self.cell(x as int, y as int, 1)
                } else {
                    0u8
                },
            ),
    {
        let b = self.at(x, y, 1);
        if b == 0 {
            Ground::Road
        } else if b == I_WATER {
            Ground::Water
        } else if b == I_TRUNK || b == I_LEAVES {
            Ground::Trunk
        } else if b == I_PLAZA {
            Ground::Sidewalk
        } else {
            Ground::Lawn
        }
    }
}

/// The kinds of floor the renderer paints.
#[derive(Clone, Copy, PartialEq, Eq, Structural, Debug)]
pub enum Ground {
    Road,
    Water,
    Trunk,
    Sidewalk,
    Lawn,
}

/// The floor drawn for a column whose layer 1 holds `b`.
pub open spec fn ground_of(b: u8) -> Ground {
    if b == 0 {
        Ground::Road
    } else if b == I_WATER {
        Ground::Water
    } else if b == I_TRUNK || b == I_LEAVES {
        Ground::Trunk
    } else if b == I_PLAZA {
        Ground::Sidewalk
    } else {
        Ground::Lawn
    }
}

// ---------------------------------------------------------------------------
// the world table
// ---------------------------------------------------------------------------

/// Number of selectable worlds.
pub const WORLD_COUNT: usize = 5;

/// One selectable world.
#[derive(Clone, Copy)]
pub struct WorldEntry {
    pub name: &'static str,
    pub seed: u64,
    pub desc: &'static str,
    pub theme: Theme,
}

pub open spec fn world_seed(i: int) -> u64 {
    if i == 0 {
        42
    } else if i == 1 {
        1337
    } else if i == 2 {
        2048
    } else if i == 3 {
        9999
    } else {
        31415
    }
}

pub open spec fn world_theme(i: int) -> Theme {
    if i == 0 {
        Theme::Valley
    } else if i == 1 {
        Theme::Desert
    } else if i == 2 {
        Theme::Frozen
    } else if i == 3 {
        Theme::Tropical
    } else {
        Theme::Forest
    }
}

pub open spec fn world_name(i: int) -> Seq<char> {
    if i == 0 {
        "Green Valley"@
    } else if i == 1 {
        "Desert Oasis"@
    } else if i == 2 {
        "Frozen Peaks"@
    } else if i == 3 {
        "Tropical Island"@
    } else {
        "Dark Forest"@
    }
}

pub open spec fn world_desc(i: int) -> Seq<char> {
    if i == 0 {
        "Gentle hills, scattered trees"@
    } else if i == 1 {
        "Dry plains with stone formations"@
    } else if i == 2 {
        "High mountains, deep snow"@
    } else if i == 3 {
        "Warm beaches, dense jungle"@
    } else {
        "Dense canopy, narrow paths"@
    }
}

/// The five worlds each have their own theme and their own seed, and the
/// seeds are all far below the generator's bound.
pub proof fn lemma_world_table(i: int, j: int)
    requires
        0 <= i < WORLD_COUNT,
        0 <= j < WORLD_COUNT,
        i != j,
    ensures
        world_theme(i) != world_theme(j),
        world_seed(i) != world_seed(j),
        world_seed(i) <= u64::MAX - 14,
{
}

/// The `i`-th entry of the world table.
pub fn world_entry(i: usize) -> (e: WorldEntry)
    requires
        i < WORLD_COUNT,
    ensures
        e.seed == world_seed(i as int),
        e.theme == world_theme(i as int),
        e.name@ == world_name(i as int),
        e.desc@ == world_desc(i as int),
        i == 0 ==> e.seed == 42 && e.theme == Theme::Valley && e.name@ == "Green Valley"@ && e.desc@
            == "Gentle hills, scattered trees"@,
        i == 1 ==> e.seed == 1337 && e.theme == Theme::Desert && e.name@ == "Desert Oasis"@ && e.desc@
            == "Dry plains with stone formations"@,
        i == 2 ==> e.seed == 2048 && e.theme == Theme::Frozen && e.name@ == "Frozen Peaks"@ && e.desc@
            == "High mountains, deep snow"@,
        i == 3 ==> e.seed == 9999 && e.theme == Theme::Tropical && e.name@ == "Tropical Island"@ && e.desc@
            == "Warm beaches, dense jungle"@,
        i == 4 ==> e.seed == 31415 && e.theme == Theme::Forest && e.name@ == "Dark Forest"@ && e.desc@
            == "Dense canopy, narrow paths"@,
{
    if i == 0 {
        WorldEntry {
            name: "Green Valley",
            seed: 42,
            desc: "Gentle hills, scattered trees",
            theme: Theme::Valley,
        }
    } else if i == 1 {
        WorldEntry {
            name: "Desert Oasis",
            seed: 1337,
            desc: "Dry plains with stone formations",
            theme: Theme::Desert,
        }
    } else if i == 2 {
        WorldEntry {
            name: "Frozen Peaks",
            seed: 2048,
            desc: "High mountains, deep snow",
            theme: Theme::Frozen,
        }
    } else if i == 3 {
        WorldEntry {
            name: "Tropical Island",
            seed: 9999,
            desc: "Warm beaches, dense jungle",
            theme: Theme::Tropical,
        }
    } else {
        WorldEntry {
            name: "Dark Forest",
            seed: 31415,
            desc: "Dense canopy, narrow paths",
            theme: Theme::Forest,
        }
    }
}

// ---------------------------------------------------------------------------
// properties of every generated world
// ---------------------------------------------------------------------------

/// A block id that the generator uses.
pub open spec fn generated_block(b: u8) -> bool {
    b == 0 || b == I_GRASS || b == I_WATER || b == I_TRUNK || b == I_LEAVES || b == I_BRICK || b
        == I_WOOD || b == I_CONCRETE || b == I_GLASS || b == I_PLAZA
}

/// Layer 0 of every world is air.
pub proof fn lemma_bottom_layer_air(seed: u64, x: int, y: int)
    ensures
        world_cell(seed, x, y, 0) == 0,
{
}

/// The two outermost rings of columns are forest: a trunk at layer 2, leaves
/// at layers 3 and 4, air above, and grass, a pond or a park tree at layer 1.
pub proof fn lemma_forest_ring(seed: u64, x: int, y: int)
    requires
        0 <= x < 80,
        0 <= y < 80,
        on_border(x, y),
    ensures
        world_cell(seed, x, y, 2) == I_TRUNK,
        world_cell(seed, x, y, 3) == I_LEAVES,
        world_cell(seed, x, y, 4) == I_LEAVES,
        world_cell(seed, x, y, 1) == I_GRASS || world_cell(seed, x, y, 1) == I_WATER
            || world_cell(seed, x, y, 1) == I_TRUNK,
        forall|z: int| 5 <= z < 20 ==> #[trigger] world_cell(seed, x, y, z) == 0,
{
    reveal(plan_col);
}

/// Every cell of a world holds air or one of the blocks the generator places.
pub proof fn lemma_known_blocks(seed: u64, x: int, y: int, z: int)
    ensures
        generated_block(world_cell(seed, x, y, z)),
{
    reveal(plan_col);
}

/// Which palette entry paints a block.
#[derive(Clone, Copy, PartialEq, Eq, Structural, Debug)]
pub enum Look {
    Lawn,
    Dirt,
    Water,
    Trunk,
    Leaf,
    Brick,
    Wood,
    Concrete,
    Glass,
    Stone,
    Sidewalk,
    Unknown,
}

pub open spec fn look_of(id: u8) -> Look {
    if id == I_GRASS {
        Look::Lawn
    } else if id == I_DIRT {
        Look::Dirt
    } else if id == I_WATER {
        Look::Water
    } else if id == I_TRUNK {
        Look::Trunk
    } else if id == I_LEAVES {
        Look::Leaf
    } else if id == I_BRICK {
        Look::Brick
    } else if id == I_WOOD {
        Look::Wood
    } else if id == I_CONCRETE {
        Look::Concrete
    } else if id == I_GLASS {
        Look::Glass
    } else if id == I_STONE {
        Look::Stone
    } else if id == I_PLAZA {
        Look::Sidewalk
    } else {
        Look::Unknown
    }
}

/// The palette entry for block `id`.
pub fn block_look(id: u8) -> (l: Look)
    ensures
        l == look_of(id),
        id == 1 ==> l == Look::Lawn,
        id == 2 ==> l == Look::Dirt,
        id == 3 ==> l == Look::Water,
        id == 6 ==> l == Look::Trunk,
        id == 7 ==> l == Look::Leaf,
        id == 8 ==> l == Look::Brick,
        id == 9 ==> l == Look::Wood,
        id == 10 ==> l == Look::Concrete,
        id == 11 ==> l == Look::Glass,
        id == 12 ==> l == Look::Stone,
        id == 14 ==> l == Look::Sidewalk,
        (id == 0 || id == 4 || id == 5 || id == 13 || id > 14) ==> l == Look::Unknown,
{
    match id {
        I_GRASS => Look::Lawn,
        I_DIRT => Look::Dirt,
        I_WATER => Look::Water,
        I_TRUNK => Look::Trunk,
        I_LEAVES => Look::Leaf,
        I_BRICK => Look::Brick,
        I_WOOD => Look::Wood,
        I_CONCRETE => Look::Concrete,
        I_GLASS => Look::Glass,
        I_STONE => Look::Stone,
        I_PLAZA => Look::Sidewalk,
        _ => Look::Unknown,
    }
}

// ---------------------------------------------------------------------------
// palettes
// ---------------------------------------------------------------------------

/// The colours of a theme, one RGB triple per surface.
#[derive(Clone, Copy, Debug)]
pub struct Palette {
    pub sky_horizon: (u8, u8, u8),
    pub sky_zenith: (u8, u8, u8),
    pub ground_far: (u8, u8, u8),
    pub road: (u8, u8, u8),
    pub sidewalk: (u8, u8, u8),
    pub ground: (u8, u8, u8),
    pub water: (u8, u8, u8),
    pub leaf: (u8, u8, u8),
    pub trunk: (u8, u8, u8),
    pub brick: (u8, u8, u8),
    pub wood: (u8, u8, u8),
    pub concrete: (u8, u8, u8),
    pub glass: (u8, u8, u8),
    pub stone: (u8, u8, u8),
}

/// The palette of each theme.
pub open spec fn palette_of(t: Theme) -> Palette {
    match t {
        Theme::Valley => Palette {
            sky_horizon: (168u8, 208u8, 232u8),
            sky_zenith: (100u8, 150u8, 222u8),
            ground_far: (150u8, 165u8, 120u8),
            road: (52u8, 55u8, 63u8),
            sidewalk: (80u8, 138u8, 50u8),
            ground: (88u8, 146u8, 58u8),
            water: (48u8, 108u8, 192u8),
            leaf: (42u8, 154u8, 56u8),
            trunk: (116u8, 76u8, 40u8),
            brick: (172u8, 92u8, 72u8),
            wood: (108u8, 76u8, 50u8),
            concrete: (166u8, 160u8, 150u8),
            glass: (122u8, 162u8, 208u8),
            stone: (132u8, 132u8, 138u8),
        },
        Theme::Desert => Palette {
            sky_horizon: (252u8, 224u8, 170u8),
            sky_zenith: (130u8, 172u8, 220u8),
            ground_far: (214u8, 188u8, 128u8),
            road: (118u8, 100u8, 74u8),
            sidewalk: (212u8, 182u8, 120u8),
            ground: (226u8, 196u8, 128u8),
            water: (60u8, 138u8, 206u8),
            leaf: (120u8, 150u8, 60u8),
            trunk: (106u8, 82u8, 52u8),
            brick: (196u8, 122u8, 86u8),
            wood: (150u8, 100u8, 62u8),
            concrete: (208u8, 175u8, 120u8),
            glass: (108u8, 152u8, 196u8),
            stone: (206u8, 186u8, 140u8),
        },
        Theme::Frozen => Palette {
            sky_horizon: (208u8, 222u8, 236u8),
            sky_zenith: (130u8, 176u8, 222u8),
            ground_far: (170u8, 185u8, 195u8),
            road: (128u8, 142u8, 158u8),
            sidewalk: (212u8, 220u8, 230u8),
            ground: (226u8, 232u8, 238u8),
            water: (120u8, 170u8, 210u8),
            leaf: (160u8, 200u8, 200u8),
            trunk: (112u8, 92u8, 70u8),
            brick: (168u8, 180u8, 190u8),
            wood: (120u8, 96u8, 72u8),
            concrete: (196u8, 206u8, 214u8),
            glass: (148u8, 196u8, 224u8),
            stone: (186u8, 196u8, 206u8),
        },
        Theme::Tropical => Palette {
            sky_horizon: (210u8, 238u8, 244u8),
            sky_zenith: (52u8, 150u8, 215u8),
            ground_far: (216u8, 198u8, 140u8),
            road: (64u8, 80u8, 76u8),
            sidewalk: (242u8, 216u8, 168u8),
            ground: (58u8, 158u8, 72u8),
            water: (40u8, 150u8, 220u8),
            leaf: (52u8, 170u8, 72u8),
            trunk: (98u8, 78u8, 48u8),
            brick: (198u8, 138u8, 92u8),
            wood: (146u8, 104u8, 62u8),
            concrete: (238u8, 214u8, 168u8),
            glass: (116u8, 184u8, 218u8),
            stone: (222u8, 210u8, 180u8),
        },
        Theme::Forest => Palette {
            sky_horizon: (150u8, 176u8, 150u8),
            sky_zenith: (62u8, 102u8, 74u8),
            ground_far: (130u8, 145u8, 112u8),
            road: (88u8, 86u8, 74u8),
            sidewalk: (96u8, 126u8, 74u8),
            ground: (76u8, 120u8, 58u8),
            water: (70u8, 120u8, 150u8),
            leaf: (40u8, 116u8, 48u8),
            trunk: (90u8, 64u8, 38u8),
            brick: (128u8, 98u8, 82u8),
            wood: (98u8, 70u8, 48u8),
            concrete: (130u8, 130u8, 124u8),
            glass: (96u8, 150u8, 158u8),
            stone: (120u8, 120u8, 116u8),
        },
    }
}

/// Every theme's colours, field by field: e.g. the desert sky is sandy haze
/// at the horizon and blue overhead, the forest's dark green.
pub proof fn lemma_palette_colours(t: Theme)
    ensures
            t == Theme::Valley ==> {
                &&& palette_of(t).sky_horizon == (168u8, 208u8, 232u8)
                &&& palette_of(t).sky_zenith == (100u8, 150u8, 222u8)
                &&& palette_of(t).ground_far == (150u8, 165u8, 120u8)
                &&& palette_of(t).road == (52u8, 55u8, 63u8)
                &&& palette_of(t).sidewalk == (80u8, 138u8, 50u8)
                &&& palette_of(t).ground == (88u8, 146u8, 58u8)
                &&& palette_of(t).water == (48u8, 108u8, 192u8)
                &&& palette_of(t).leaf == (42u8, 154u8, 56u8)
                &&& palette_of(t).trunk == (116u8, 76u8, 40u8)
                &&& palette_of(t).brick == (172u8, 92u8, 72u8)
                &&& palette_of(t).wood == (108u8, 76u8, 50u8)
                &&& palette_of(t).concrete == (166u8, 160u8, 150u8)
                &&& palette_of(t).glass == (122u8, 162u8, 208u8)
                &&& palette_of(t).stone == (132u8, 132u8, 138u8)
            },
            t == Theme::Desert ==> {
                &&& palette_of(t).sky_horizon == (252u8, 224u8, 170u8)
                &&& palette_of(t).sky_zenith == (130u8, 172u8, 220u8)
                &&& palette_of(t).ground_far == (214u8, 188u8, 128u8)
                &&& palette_of(t).road == (118u8, 100u8, 74u8)
                &&& palette_of(t).sidewalk == (212u8, 182u8, 120u8)
                &&& palette_of(t).ground == (226u8, 196u8, 128u8)
                &&& palette_of(t).water == (60u8, 138u8, 206u8)
                &&& palette_of(t).leaf == (120u8, 150u8, 60u8)
                &&& palette_of(t).trunk == (106u8, 82u8, 52u8)
                &&& palette_of(t).brick == (196u8, 122u8, 86u8)
                &&& palette_of(t).wood == (150u8, 100u8, 62u8)
                &&& palette_of(t).concrete == (208u8, 175u8, 120u8)
                &&& palette_of(t).glass == (108u8, 152u8, 196u8)
                &&& palette_of(t).stone == (206u8, 186u8, 140u8)
            },
            t == Theme::Frozen ==> {
                &&& palette_of(t).sky_horizon == (208u8, 222u8, 236u8)
                &&& palette_of(t).sky_zenith == (130u8, 176u8, 222u8)
                &&& palette_of(t).ground_far == (170u8, 185u8, 195u8)
                &&& palette_of(t).road == (128u8, 142u8, 158u8)
                &&& palette_of(t).sidewalk == (212u8, 220u8, 230u8)
                &&& palette_of(t).ground == (226u8, 232u8, 238u8)
                &&& palette_of(t).water == (120u8, 170u8, 210u8)
                &&& palette_of(t).leaf == (160u8, 200u8, 200u8)
                &&& palette_of(t).trunk == (112u8, 92u8, 70u8)
                &&& palette_of(t).brick == (168u8, 180u8, 190u8)
                &&& palette_of(t).wood == (120u8, 96u8, 72u8)
                &&& palette_of(t).concrete == (196u8, 206u8, 214u8)
                &&& palette_of(t).glass == (148u8, 196u8, 224u8)
                &&& palette_of(t).stone == (186u8, 196u8, 206u8)
            },
            t == Theme::Tropical ==> {
                &&& palette_of(t).sky_horizon == (210u8, 238u8, 244u8)
                &&& palette_of(t).sky_zenith == (52u8, 150u8, 215u8)
                &&& palette_of(t).ground_far == (216u8, 198u8, 140u8)
                &&& palette_of(t).road == (64u8, 80u8, 76u8)
                &&& palette_of(t).sidewalk == (242u8, 216u8, 168u8)
                &&& palette_of(t).ground == (58u8, 158u8, 72u8)
                &&& palette_of(t).water == (40u8, 150u8, 220u8)
                &&& palette_of(t).leaf == (52u8, 170u8, 72u8)
                &&& palette_of(t).trunk == (98u8, 78u8, 48u8)
                &&& palette_of(t).brick == (198u8, 138u8, 92u8)
                &&& palette_of(t).wood == (146u8, 104u8, 62u8)
                &&& palette_of(t).concrete == (238u8, 214u8, 168u8)
                &&& palette_of(t).glass == (116u8, 184u8, 218u8)
                &&& palette_of(t).stone == (222u8, 210u8, 180u8)
            },
            t == Theme::Forest ==> {
                &&& palette_of(t).sky_horizon == (150u8, 176u8, 150u8)
                &&& palette_of(t).sky_zenith == (62u8, 102u8, 74u8)
                &&& palette_of(t).ground_far == (130u8, 145u8, 112u8)
                &&& palette_of(t).road == (88u8, 86u8, 74u8)
                &&& palette_of(t).sidewalk == (96u8, 126u8, 74u8)
                &&& palette_of(t).ground == (76u8, 120u8, 58u8)
                &&& palette_of(t).water == (70u8, 120u8, 150u8)
                &&& palette_of(t).leaf == (40u8, 116u8, 48u8)
                &&& palette_of(t).trunk == (90u8, 64u8, 38u8)
                &&& palette_of(t).brick == (128u8, 98u8, 82u8)
                &&& palette_of(t).wood == (98u8, 70u8, 48u8)
                &&& palette_of(t).concrete == (130u8, 130u8, 124u8)
                &&& palette_of(t).glass == (96u8, 150u8, 158u8)
                &&& palette_of(t).stone == (120u8, 120u8, 116u8)
            },
{
}

impl Theme {
    /// The theme's palette.
    pub fn palette(self) -> (p: Palette)
        ensures
            p == palette_of(self),
            self == Theme::Valley ==> {
                &&& p.sky_horizon == (168u8, 208u8, 232u8)
                &&& p.sky_zenith == (100u8, 150u8, 222u8)
                &&& p.ground_far == (150u8, 165u8, 120u8)
                &&& p.road == (52u8, 55u8, 63u8)
                &&& p.sidewalk == (80u8, 138u8, 50u8)
                &&& p.ground == (88u8, 146u8, 58u8)
                &&& p.water == (48u8, 108u8, 192u8)
                &&& p.leaf == (42u8, 154u8, 56u8)
                &&& p.trunk == (116u8, 76u8, 40u8)
                &&& p.brick == (172u8, 92u8, 72u8)
                &&& p.wood == (108u8, 76u8, 50u8)
                &&& p.concrete == (166u8, 160u8, 150u8)
                &&& p.glass == (122u8, 162u8, 208u8)
                &&& p.stone == (132u8, 132u8, 138u8)
            },
            self == Theme::Desert ==> {
                &&& p.sky_horizon == (252u8, 224u8, 170u8)
                &&& p.sky_zenith == (130u8, 172u8, 220u8)
                &&& p.ground_far == (214u8, 188u8, 128u8)
                &&& p.road == (118u8, 100u8, 74u8)
                &&& p.sidewalk == (212u8, 182u8, 120u8)
                &&& p.ground == (226u8, 196u8, 128u8)
                &&& p.water == (60u8, 138u8, 206u8)
                &&& p.leaf == (120u8, 150u8, 60u8)
                &&& p.trunk == (106u8, 82u8, 52u8)
                &&& p.brick == (196u8, 122u8, 86u8)
                &&& p.wood == (150u8, 100u8, 62u8)
                &&& p.concrete == (208u8, 175u8, 120u8)
                &&& p.glass == (108u8, 152u8, 196u8)
                &&& p.stone == (206u8, 186u8, 140u8)
            },
            self == Theme::Frozen ==> {
                &&& p.sky_horizon == (208u8, 222u8, 236u8)
                &&& p.sky_zenith == (130u8, 176u8, 222u8)
                &&& p.ground_far == (170u8, 185u8, 195u8)
                &&& p.road == (128u8, 142u8, 158u8)
                &&& p.sidewalk == (212u8, 220u8, 230u8)
                &&& p.ground == (226u8, 232u8, 238u8)
                &&& p.water == (120u8, 170u8, 210u8)
                &&& p.leaf == (160u8, 200u8, 200u8)
                &&& p.trunk == (112u8, 92u8, 70u8)
                &&& p.brick == (168u8, 180u8, 190u8)
                &&& p.wood == (120u8, 96u8, 72u8)
                &&& p.concrete == (196u8, 206u8, 214u8)
                &&& p.glass == (148u8, 196u8, 224u8)
                &&& p.stone == (186u8, 196u8, 206u8)
            },
            self == Theme::Tropical ==> {
                &&& p.sky_horizon == (210u8, 238u8, 244u8)
                &&& p.sky_zenith == (52u8, 150u8, 215u8)
                &&& p.ground_far == (216u8, 198u8, 140u8)
                &&& p.road == (64u8, 80u8, 76u8)
                &&& p.sidewalk == (242u8, 216u8, 168u8)
                &&& p.ground == (58u8, 158u8, 72u8)
                &&& p.water == (40u8, 150u8, 220u8)
                &&& p.leaf == (52u8, 170u8, 72u8)
                &&& p.trunk == (98u8, 78u8, 48u8)
                &&& p.brick == (198u8, 138u8, 92u8)
                &&& p.wood == (146u8, 104u8, 62u8)
                &&& p.concrete == (238u8, 214u8, 168u8)
                &&& p.glass == (116u8, 184u8, 218u8)
                &&& p.stone == (222u8, 210u8, 180u8)
            },
            self == Theme::Forest ==> {
                &&& p.sky_horizon == (150u8, 176u8, 150u8)
                &&& p.sky_zenith == (62u8, 102u8, 74u8)
                &&& p.ground_far == (130u8, 145u8, 112u8)
                &&& p.road == (88u8, 86u8, 74u8)
                &&& p.sidewalk == (96u8, 126u8, 74u8)
                &&& p.ground == (76u8, 120u8, 58u8)
                &&& p.water == (70u8, 120u8, 150u8)
                &&& p.leaf == (40u8, 116u8, 48u8)
                &&& p.trunk == (90u8, 64u8, 38u8)
                &&& p.brick == (128u8, 98u8, 82u8)
                &&& p.wood == (98u8, 70u8, 48u8)
                &&& p.concrete == (130u8, 130u8, 124u8)
                &&& p.glass == (96u8, 150u8, 158u8)
                &&& p.stone == (120u8, 120u8, 116u8)
            },
    {
        match self {
            Theme::Valley => Palette {
                sky_horizon: (168, 208, 232),
                sky_zenith: (100, 150, 222),
                ground_far: (150, 165, 120),
                road: (52, 55, 63),
                sidewalk: (80, 138, 50),
                ground: (88, 146, 58),
                water: (48, 108, 192),
                leaf: (42, 154, 56),
                trunk: (116, 76, 40),
                brick: (172, 92, 72),
                wood: (108, 76, 50),
                concrete: (166, 160, 150),
                glass: (122, 162, 208),
                stone: (132, 132, 138),
            },
            Theme::Desert => Palette {
                sky_horizon: (252, 224, 170),
                sky_zenith: (130, 172, 220),
                ground_far: (214, 188, 128),
                road: (118, 100, 74),
                sidewalk: (212, 182, 120),
                ground: (226, 196, 128),
                water: (60, 138, 206),
                leaf: (120, 150, 60),
                trunk: (106, 82, 52),
                brick: (196, 122, 86),
                wood: (150, 100, 62),
                concrete: (208, 175, 120),
                glass: (108, 152, 196),
                stone: (206, 186, 140),
            },
            Theme::Frozen => Palette {
                sky_horizon: (208, 222, 236),
                sky_zenith: (130, 176, 222),
                ground_far: (170, 185, 195),
                road: (128, 142, 158),
                sidewalk: (212, 220, 230),
                ground: (226, 232, 238),
                water: (120, 170, 210),
                leaf: (160, 200, 200),
                trunk: (112, 92, 70),
                brick: (168, 180, 190),
                wood: (120, 96, 72),
                concrete: (196, 206, 214),
                glass: (148, 196, 224),
                stone: (186, 196, 206),
            },
            Theme::Tropical => Palette {
                sky_horizon: (210, 238, 244),
                sky_zenith: (52, 150, 215),
                ground_far: (216, 198, 140),
                road: (64, 80, 76),
                sidewalk: (242, 216, 168),
                ground: (58, 158, 72),
                water: (40, 150, 220),
                leaf: (52, 170, 72),
                trunk: (98, 78, 48),
                brick: (198, 138, 92),
                wood: (146, 104, 62),
                concrete: (238, 214, 168),
                glass: (116, 184, 218),
                stone: (222, 210, 180),
            },
            Theme::Forest => Palette {
                sky_horizon: (150, 176, 150),
                sky_zenith: (62, 102, 74),
                ground_far: (130, 145, 112),
                road: (88, 86, 74),
                sidewalk: (96, 126, 74),
                ground: (76, 120, 58),
                water: (70, 120, 150),
                leaf: (40, 116, 48),
                trunk: (90, 64, 38),
                brick: (128, 98, 82),
                wood: (98, 70, 48),
                concrete: (130, 130, 124),
                glass: (96, 150, 158),
                stone: (120, 120, 116),
            },
        }
    }
}

impl Palette {
    /// The colour of the floor of column `(x, y)`: road, water, the trunk
    /// colour under trees, sidewalk on plazas, ground elsewhere.
    pub fn ground(&self, w: &World, x: i32, y: i32) -> (c: (u8, u8, u8))
        requires
            w.wf(),
        ensures
            c == match ground_of(
                if in_grid(x as int, y as int, 1) {
                    w.cell(x as int, y as int, 1)
                } else {
                    0u8
                },
            ) {
                Ground::Road => self.road,
                Ground::Water => self.water,
                Ground::Trunk => self.trunk,
                Ground::Sidewalk => self.sidewalk,
                Ground::Lawn => self.ground,
            },
            ({
                let b = if in_grid(x as int, y as int, 1) {
                    w.cell(x as int, y as int, 1)
                } else {
                    0u8
                };
                &&& b == 0 ==> c == self.road
                &&& b == I_WATER ==> c == self.water
                &&& (b == I_TRUNK || b == I_LEAVES) ==> c == self.trunk
                &&& b == I_PLAZA ==> c == self.sidewalk
                &&& (b != 0 && b != I_WATER && b != I_TRUNK && b != I_LEAVES && b != I_PLAZA)
                    ==> c == self.ground
            }),
    {
        match w.ground_kind(x, y) {
            Ground::Road => self.road,
            Ground::Water => self.water,
            Ground::Trunk => self.trunk,
            Ground::Sidewalk => self.sidewalk,
            Ground::Lawn => self.ground,
        }
    }
}

} // verus!
