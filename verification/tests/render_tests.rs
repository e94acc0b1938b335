use wander::render::{
    decode_halfblock, draw_crosshair, draw_gun, draw_minimap_tiles, draw_muzzle_flash,
    minimap_color, plot_minimap, HalfBlockCell,
};
use wander::world::{Theme, World};

fn px(buf: &[u8], rw: usize, x: usize, y: usize) -> (u8, u8, u8) {
    let i = (y * rw + x) * 3;
    (buf[i], buf[i + 1], buf[i + 2])
}

#[test]
fn halfblock_cells_are_read_row_by_row() {
    let cells: Vec<u8> = (0..24u8).collect();
    let out = decode_halfblock(&cells, 2, 2);
    assert_eq!(out.len(), 4);
    assert!(out[0] == HalfBlockCell { r_fg: 0, g_fg: 1, b_fg: 2, r_bg: 3, g_bg: 4, b_bg: 5 });
    assert!(out[3] == HalfBlockCell { r_fg: 18, g_fg: 19, b_fg: 20, r_bg: 21, g_bg: 22, b_bg: 23 });
}

#[test]
fn halfblock_cells_past_the_buffer_are_black() {
    let cells: Vec<u8> = (1..=10u8).collect();
    let out = decode_halfblock(&cells, 3, 1);
    assert_eq!(out.len(), 3);
    assert!(out[0] == HalfBlockCell { r_fg: 1, g_fg: 2, b_fg: 3, r_bg: 4, g_bg: 5, b_bg: 6 });
    let black = HalfBlockCell { r_fg: 0, g_fg: 0, b_fg: 0, r_bg: 0, g_bg: 0, b_bg: 0 };
    assert!(out[1] == black && out[2] == black);
    assert!(decode_halfblock(&cells, 0, 5).is_empty());
}

#[test]
fn crosshair_marks_nine_pixels_at_the_centre() {
    let (rw, rh) = (20usize, 10usize);
    let mut buf = vec![7u8; rw * rh * 3 + 4];
    draw_crosshair(&mut buf, rw, rh);
    assert_eq!(px(&buf, rw, 10, 5), (0, 255, 255));
    assert_eq!(px(&buf, rw, 8, 5), (0, 255, 220));
    assert_eq!(px(&buf, rw, 12, 5), (0, 255, 220));
    assert_eq!(px(&buf, rw, 10, 3), (0, 255, 220));
    assert_eq!(px(&buf, rw, 10, 7), (0, 255, 220));
    assert_eq!(px(&buf, rw, 9, 5), (40, 200, 160));
    assert_eq!(px(&buf, rw, 10, 6), (40, 200, 160));
    assert_eq!(px(&buf, rw, 11, 6), (7, 7, 7));
    let changed = buf.iter().filter(|&&b| b != 7).count();
    assert_eq!(changed, 9 * 3);
    assert_eq!(&buf[rw * rh * 3..], &[7, 7, 7, 7]);
}

#[test]
fn crosshair_clips_at_the_edge() {
    let mut buf = vec![0u8; 2 * 2 * 3];
    draw_crosshair(&mut buf, 2, 2);
    assert_eq!(px(&buf, 2, 1, 1), (0, 255, 255));
    assert_eq!(px(&buf, 2, 0, 1), (40, 200, 160));
    assert_eq!(px(&buf, 2, 1, 0), (40, 200, 160));
    assert_eq!(px(&buf, 2, 0, 0), (0, 0, 0));
}

#[test]
fn gun_sits_at_the_bottom_centre() {
    let (rw, rh) = (40usize, 40usize);
    let mut buf = vec![1u8; rw * rh * 3];
    draw_gun(&mut buf, rw, rh);
    // gx0 = 14, gy0 = 14, gx1 = 26, gy1 = 39
    assert_eq!(px(&buf, rw, 17, 14), (140, 122, 96));
    assert_eq!(px(&buf, rw, 20, 15), (110, 98, 82));
    assert_eq!(px(&buf, rw, 20, 16), (64, 58, 52));
    assert_eq!(px(&buf, rw, 14, 14), (1, 1, 1));
    assert_eq!(px(&buf, rw, 16, 14), (1, 1, 1));
    assert_eq!(px(&buf, rw, 15, 21), (44, 38, 34));
    assert_eq!(px(&buf, rw, 20, 24), (74, 64, 56));
    assert_eq!(px(&buf, rw, 20, 25), (68, 60, 52));
    assert_eq!(px(&buf, rw, 16, 35), (1, 1, 1));
    assert_eq!(px(&buf, rw, 17, 35), (44, 38, 34));
    assert_eq!(px(&buf, rw, 26, 30), (1, 1, 1));
    assert_eq!(px(&buf, rw, 13, 30), (1, 1, 1));
    assert_eq!(px(&buf, rw, 20, 13), (1, 1, 1));
}

#[test]
fn muzzle_flash_is_a_hot_disc() {
    let (rw, rh) = (40usize, 40usize);
    let mut buf = vec![0u8; rw * rh * 3];
    draw_muzzle_flash(&mut buf, rw, rh, 3);
    // centre (20, 14)
    assert_eq!(px(&buf, rw, 20, 14), (255, 244, 190));
    assert_eq!(px(&buf, rw, 21, 15), (255, 244, 190));
    assert_eq!(px(&buf, rw, 23, 14), (255, 150, 60));
    assert_eq!(px(&buf, rw, 22, 16), (255, 150, 60));
    assert_eq!(px(&buf, rw, 23, 17), (0, 0, 0));
    assert_eq!(px(&buf, rw, 24, 14), (0, 0, 0));
}

#[test]
fn minimap_tiles_show_the_surroundings() {
    let w = World::build(42, Theme::Valley);
    let rw = 40usize;
    let mut buf = vec![3u8; rw * 30 * 3];
    draw_minimap_tiles(&mut buf, rw, 40, 40, &w);
    assert_eq!(px(&buf, rw, 13, 13), (0, 255, 0));
    for dy in 0..22usize {
        for dx in 0..22usize {
            if dx == 11 && dy == 11 {
                continue;
            }
            let (wx, wy) = (40 + dx as i32 - 11, 40 + dy as i32 - 11);
            assert_eq!(px(&buf, rw, 2 + dx, 2 + dy), minimap_color(w.at(wx, wy, 1)));
        }
    }
    assert_eq!(px(&buf, rw, 1, 1), (3, 3, 3));
    assert_eq!(px(&buf, rw, 24, 2), (3, 3, 3));
    let mut edge = vec![3u8; rw * 30 * 3];
    draw_minimap_tiles(&mut edge, rw, 0, 0, &w);
    assert_eq!(px(&edge, rw, 2, 2), (15, 15, 25));
}

#[test]
fn minimap_colours_by_block() {
    assert_eq!(minimap_color(3), (40, 90, 170));
    assert_eq!(minimap_color(1), (70, 140, 50));
    assert_eq!(minimap_color(6), (30, 110, 40));
    assert_eq!(minimap_color(7), (30, 110, 40));
    assert_eq!(minimap_color(8), (170, 90, 70));
    assert_eq!(minimap_color(9), (115, 82, 55));
    assert_eq!(minimap_color(10), (140, 135, 128));
    assert_eq!(minimap_color(11), (100, 140, 190));
    assert_eq!(minimap_color(12), (150, 150, 148));
    assert_eq!(minimap_color(14), (150, 150, 148));
    assert_eq!(minimap_color(0), (20, 20, 30));
}

#[test]
fn minimap_marks_stay_in_the_box() {
    let rw = 30usize;
    let mut buf = vec![0u8; rw * 30 * 3];
    plot_minimap(&mut buf, rw, 13, 10, (255, 255, 0));
    assert_eq!(px(&buf, rw, 13, 10), (255, 255, 0));
    plot_minimap(&mut buf, rw, 24, 10, (9, 9, 9));
    plot_minimap(&mut buf, rw, 1, 10, (9, 9, 9));
    plot_minimap(&mut buf, rw, 10, -3, (9, 9, 9));
    assert!(!buf.contains(&9));
}
