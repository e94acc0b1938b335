use wander::world::{
    block_look, noise_bits, scale_unit, world_entry, Ground, Look, Theme, World, BRICK_CUT,
    CONCRETE_CUT, GLASS_CUT, I_BRICK, I_CONCRETE, I_GLASS, I_GRASS, I_LEAVES, I_PLAZA, I_TRUNK,
    I_WATER, I_WOOD, NO_STREET_CUT, OPEN_LOT_CUT, PARK_CUT, PLAZA_CUT, WORLD_COUNT,
};

// A reference city generator that reads each hash as a double-precision
// fraction of the 64-bit range; the library's integer generator must agree
// with it cell for cell.
fn hh(x: i32, y: i32, s: u64) -> f64 {
    let mut v = (x as u64)
        .wrapping_mul(374761393)
        .wrapping_add(y as u64)
        .wrapping_mul(668265263)
        .wrapping_add(s);
    v ^= v >> 13;
    v = v.wrapping_mul(1274126177);
    v ^= v >> 16;
    (v as f64) / (u64::MAX as f64)
}

fn float_city(seed: u64) -> Vec<u8> {
    const W: usize = 80;
    const D: usize = 20;
    let mut g = vec![0u8; W * W * D];
    let ix = |x: i32, y: i32, z: usize| (x as usize * W + y as usize) * D + z;
    let park = |gx: i32, gy: i32| hh(gx, gy, seed + 1) < 0.16;
    let plaza = |gx: i32, gy: i32| hh(gx, gy, seed + 2) < 0.26;
    let no_h = |gx: i32, gy: i32| hh(gx, gy, seed + 3) < 0.14;
    let no_v = |gx: i32, gy: i32| hh(gx, gy, seed + 4) < 0.14;
    for x in 0..80i32 {
        for y in 0..80i32 {
            if x < 2 || x >= 78 || y < 2 || y >= 78 {
                g[ix(x, y, 1)] = 1;
                g[ix(x, y, 2)] = 6;
                g[ix(x, y, 3)] = 7;
                g[ix(x, y, 4)] = 7;
                continue;
            }
            let (gx, gy, sx, sy) = (x.div_euclid(8), y.div_euclid(8), x.rem_euclid(8), y.rem_euclid(8));
            let h_street = sy >= 6 && !(no_h(gx, gy) || no_h(gx, gy - 1));
            let v_street = sx >= 6 && !(no_v(gx, gy) || no_v(gx - 1, gy));
            if h_street || v_street {
                continue;
            }
            if park(gx, gy) {
                g[ix(x, y, 1)] = 1;
                continue;
            }
            if plaza(gx, gy) {
                g[ix(x, y, 1)] = 14;
                continue;
            }
            let (tx, ty) = (x.div_euclid(2), y.div_euclid(2));
            let u = hh(tx, ty, seed + 5);
            let center_d = (((gx * 8 + 4 - 40) as f64).abs() + ((gy * 8 + 4 - 40) as f64).abs()) / 60.0;
            let downtown = (1.0 - center_d).max(0.0).min(1.0);
            let (mat, base): (u8, usize) = if downtown > 0.5 && u < 0.4 {
                (11, 10 + (hh(tx, ty, seed + 6) * 6.0) as usize)
            } else if u < 0.58 {
                (10, 6 + (hh(tx, ty, seed + 7) * 5.0) as usize)
            } else if u < 0.82 {
                (8, 4 + (hh(tx, ty, seed + 8) * 4.0) as usize)
            } else {
                (9, 3 + (hh(tx, ty, seed + 9) * 3.0) as usize)
            };
            let spire = mat == 11 && x.rem_euclid(2) == 0 && y.rem_euclid(2) == 0;
            let h = if spire { base + 3 } else { base }.min(19);
            if hh(tx, ty, seed + 10) < 0.22 && mat != 11 {
                g[ix(x, y, 1)] = 1;
                continue;
            }
            for z in 1..=h {
                g[ix(x, y, z)] = mat;
            }
        }
    }
    for gx in 0..10i32 {
        for gy in 0..10i32 {
            if !park(gx, gy) {
                continue;
            }
            let (bx, by) = (gx * 8, gy * 8);
            let px = bx + (hh(gx, gy, seed + 11) * 4.0) as i32 + 1;
            let py = by + (hh(gx, gy, seed + 12) * 4.0) as i32 + 1;
            for dx in 0..2 {
                for dy in 0..2 {
                    if px + dx < 78 && py + dy < 78 {
                        g[ix(px + dx, py + dy, 1)] = 3;
                    }
                }
            }
            for i in 0..5 {
                let tx = bx + (hh(gx + i, gy, seed + 13) * 5.0) as i32 + 1;
                let ty = by + (hh(gx, gy + i, seed + 14) * 5.0) as i32 + 1;
                if tx >= 78 || ty >= 78 || g[ix(tx, ty, 1)] != 1 {
                    continue;
                }
                g[ix(tx, ty, 1)] = 6;
                g[ix(tx, ty, 2)] = 6;
                g[ix(tx, ty, 3)] = 7;
                for dx in -1i32..=1 {
                    for dy in -1i32..=1 {
                        let (lx, ly) = (tx + dx, ty + dy);
                        if lx > 0 && lx < 79 && ly > 0 && ly < 79 && g[ix(lx, ly, 4)] == 0 {
                            g[ix(lx, ly, 4)] = 7;
                        }
                    }
                }
            }
        }
    }
    for i in 0..6i32 {
        for z in 0..20 {
            g[ix(40, 37 + i, z)] = 0;
            g[ix(37 + i, 40, z)] = 0;
        }
    }
    g
}

fn assert_same_city(seed: u64, theme: Theme) {
    let w = World::build(seed, theme);
    let g = float_city(seed);
    for x in 0..80i32 {
        for y in 0..80i32 {
            for z in 0..20i32 {
                assert_eq!(
                    w.at(x, y, z),
                    g[(x as usize * 80 + y as usize) * 20 + z as usize],
                    "seed {} cell ({}, {}, {})",
                    seed,
                    x,
                    y,
                    z
                );
            }
        }
    }
}

#[test]
fn every_listed_world_matches_the_double_precision_city() {
    for i in 0..WORLD_COUNT {
        let e = world_entry(i);
        assert_same_city(e.seed, e.theme);
    }
}

#[test]
fn other_seeds_match_the_double_precision_city() {
    for seed in [0u64, 1, 7, 123456789, u64::MAX - 14] {
        assert_same_city(seed, Theme::Forest);
    }
}

#[test]
fn cut_offs_decide_like_the_double_comparison() {
    let cases = [
        (PARK_CUT, 0.16),
        (PLAZA_CUT, 0.26),
        (NO_STREET_CUT, 0.14),
        (GLASS_CUT, 0.4),
        (CONCRETE_CUT, 0.58),
        (BRICK_CUT, 0.82),
        (OPEN_LOT_CUT, 0.22),
    ];
    for (cut, frac) in cases {
        for d in [0u64, 1, 2, 255, 256, 257, 1023, 1024, 4096] {
            for v in [cut.wrapping_sub(d), cut.wrapping_add(d)] {
                let double = (v as f64) / (u64::MAX as f64) < frac;
                assert_eq!(v < cut, double, "cut {} v {}", cut, v);
            }
        }
    }
}

#[test]
fn scale_unit_matches_the_double_product() {
    let mut samples: Vec<u64> = vec![0, 1, u64::MAX, u64::MAX - 1, u64::MAX - 1024, u64::MAX - 2048];
    for k in 3u64..=6 {
        for j in 1..=k {
            let mid = ((j as u128) << 64) / (k as u128);
            for d in [0i128, 1, -1, 255, -256, 512, -512, 1024, -1024, 2048, -2048, 4096, -4096] {
                let v = mid as i128 + d;
                if v >= 0 && v <= u64::MAX as i128 {
                    samples.push(v as u64);
                }
            }
        }
    }
    let mut s: u64 = 99;
    for _ in 0..20000 {
        s = s.wrapping_mul(6364136223846793005).wrapping_add(1442695040888963407);
        samples.push(s);
    }
    for k in 3u64..=6 {
        for &v in &samples {
            let double = ((v as f64) / (u64::MAX as f64) * (k as f64)) as u64;
            assert_eq!(scale_unit(v, k), double, "k {} v {}", k, v);
        }
    }
}

#[test]
fn noise_is_the_multiply_xorshift_hash() {
    for (x, y, s) in [(0i32, 0i32, 0u64), (3, 4, 43), (-1, 5, 47), (9, -1, 1341)] {
        let mut v = (x as u64)
            .wrapping_mul(374761393)
            .wrapping_add(y as u64)
            .wrapping_mul(668265263)
            .wrapping_add(s);
        v ^= v >> 13;
        v = v.wrapping_mul(1274126177);
        v ^= v >> 16;
        assert_eq!(noise_bits(x, y, s), v);
    }
    assert_eq!(noise_bits(0, 0, 0), 0);
}

#[test]
fn spawn_crossroads_is_clear() {
    for i in 0..WORLD_COUNT {
        let e = world_entry(i);
        let w = World::build(e.seed, e.theme);
        for k in 0..6 {
            for z in 0..20 {
                assert_eq!(w.at(40, 37 + k, z), 0);
                assert_eq!(w.at(37 + k, 40, z), 0);
            }
        }
    }
}

#[test]
fn forest_ring_surrounds_the_city() {
    let w = World::build(1337, Theme::Desert);
    for x in 0..80 {
        for y in 0..80 {
            if x < 2 || x >= 78 || y < 2 || y >= 78 {
                assert_eq!(w.at(x, y, 2), I_TRUNK);
                assert_eq!(w.at(x, y, 3), I_LEAVES);
                assert_eq!(w.at(x, y, 4), I_LEAVES);
                let b = w.at(x, y, 1);
                assert!(b == I_GRASS || b == I_WATER || b == I_TRUNK);
                for z in 5..20 {
                    assert_eq!(w.at(x, y, z), 0);
                }
            }
        }
    }
}

#[test]
fn bottom_layer_is_air_and_blocks_are_known() {
    let w = World::build(2048, Theme::Frozen);
    let known = [0u8, I_GRASS, I_WATER, I_TRUNK, I_LEAVES, I_BRICK, I_WOOD, I_CONCRETE, I_GLASS, I_PLAZA];
    for x in 0..80 {
        for y in 0..80 {
            assert_eq!(w.at(x, y, 0), 0);
            for z in 0..20 {
                assert!(known.contains(&w.at(x, y, z)));
            }
        }
    }
}

#[test]
fn at_is_air_outside_the_grid() {
    let w = World::build(42, Theme::Valley);
    assert_eq!(w.at(-1, 0, 2), 0);
    assert_eq!(w.at(0, -1, 2), 0);
    assert_eq!(w.at(0, 0, -1), 0);
    assert_eq!(w.at(80, 0, 2), 0);
    assert_eq!(w.at(0, 80, 2), 0);
    assert_eq!(w.at(0, 0, 20), 0);
    assert_eq!(w.at(0, 0, 2), I_TRUNK);
}

#[test]
fn same_seed_builds_the_same_city_whatever_the_theme() {
    let a = World::build(9999, Theme::Tropical);
    let b = World::build(9999, Theme::Valley);
    assert!(a.theme == Theme::Tropical && b.theme == Theme::Valley);
    assert!(a.theme() == Theme::Tropical && b.theme() == Theme::Valley);
    for x in 0..80 {
        for y in 0..80 {
            for z in 0..20 {
                assert_eq!(a.at(x, y, z), b.at(x, y, z));
            }
        }
    }
}

#[test]
fn world_table_lists_five_worlds() {
    assert_eq!(WORLD_COUNT, 5);
    let expect = [
        ("Green Valley", 42u64, "Gentle hills, scattered trees", Theme::Valley),
        ("Desert Oasis", 1337, "Dry plains with stone formations", Theme::Desert),
        ("Frozen Peaks", 2048, "High mountains, deep snow", Theme::Frozen),
        ("Tropical Island", 9999, "Warm beaches, dense jungle", Theme::Tropical),
        ("Dark Forest", 31415, "Dense canopy, narrow paths", Theme::Forest),
    ];
    for (i, (name, seed, desc, theme)) in expect.iter().enumerate() {
        let e = world_entry(i);
        assert_eq!(e.name, *name);
        assert_eq!(e.seed, *seed);
        assert_eq!(e.desc, *desc);
        assert!(e.theme == *theme);
    }
}

#[test]
fn column_clear_checks_layers_two_to_four() {
    let w = World::build(42, Theme::Valley);
    assert!(w.column_clear(40, 40));
    assert!(!w.column_clear(0, 0));
    assert!(w.column_clear(-5, -5));
    for x in 0..80 {
        for y in 0..80 {
            let free = (2..=4).all(|z| w.at(x, y, z) == 0);
            assert_eq!(w.column_clear(x, y), free);
        }
    }
}

#[test]
fn ground_open_and_ground_kind_follow_layer_one() {
    let w = World::build(31415, Theme::Forest);
    assert!(w.ground_open(40, 40));
    assert!(w.ground_open(-3, 7));
    assert!(w.ground_kind(-3, 7) == Ground::Road);
    for x in 0..80 {
        for y in 0..80 {
            let b = w.at(x, y, 1);
            assert_eq!(w.ground_open(x, y), b == 0 || b == I_GRASS || b == I_PLAZA);
            let k = w.ground_kind(x, y);
            let expect = match b {
                0 => Ground::Road,
                3 => Ground::Water,
                6 | 7 => Ground::Trunk,
                14 => Ground::Sidewalk,
                _ => Ground::Lawn,
            };
            assert!(k == expect);
        }
    }
}

#[test]
fn block_look_names_each_block() {
    assert!(block_look(1) == Look::Lawn);
    assert!(block_look(2) == Look::Dirt);
    assert!(block_look(3) == Look::Water);
    assert!(block_look(6) == Look::Trunk);
    assert!(block_look(7) == Look::Leaf);
    assert!(block_look(8) == Look::Brick);
    assert!(block_look(9) == Look::Wood);
    assert!(block_look(10) == Look::Concrete);
    assert!(block_look(11) == Look::Glass);
    assert!(block_look(12) == Look::Stone);
    assert!(block_look(14) == Look::Sidewalk);
    assert!(block_look(0) == Look::Unknown);
    assert!(block_look(200) == Look::Unknown);
}

#[test]
fn palettes_hold_the_theme_colours() {
    let v = Theme::Valley.palette();
    assert_eq!(v.sky_horizon, (168, 208, 232));
    assert_eq!(v.road, (52, 55, 63));
    assert_eq!(v.stone, (132, 132, 138));
    let d = Theme::Desert.palette();
    assert_eq!(d.ground, (226, 196, 128));
    let f = Theme::Frozen.palette();
    assert_eq!(f.water, (120, 170, 210));
    let t = Theme::Tropical.palette();
    assert_eq!(t.sky_zenith, (52, 150, 215));
    let k = Theme::Forest.palette();
    assert_eq!(k.glass, (96, 150, 158));
}

#[test]
fn palette_ground_follows_the_floor() {
    let w = World::build(42, Theme::Valley);
    let p = Theme::Valley.palette();
    assert_eq!(p.ground(&w, 40, 40), p.road);
    assert_eq!(p.ground(&w, -1, -1), p.road);
    for x in 0..80 {
        for y in 0..80 {
            let expect = match w.at(x, y, 1) {
                0 => p.road,
                3 => p.water,
                6 | 7 => p.trunk,
                14 => p.sidewalk,
                _ => p.ground,
            };
            assert_eq!(p.ground(&w, x, y), expect);
        }
    }
}
