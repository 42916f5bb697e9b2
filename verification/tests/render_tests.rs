use terminal3d::render::cell::push_cursor_to;
use terminal3d::render::tiles::{assign_tiles, tiles_in_box};
use terminal3d::render::{
    char_for_level, make_cell, push_color, push_num, push_usize, raster_setup, raster_setup_fits,
    unpack_cell, FrameBuffer, ZBuffer,
};

#[test]
fn make_cell_packs_bytes() {
    assert_eq!(make_cell(b'#', 0x12, 0x34, 0x56), 0x1234_5623);
    assert_eq!(make_cell(b' ', 0, 0, 0), 32);
    assert_eq!(make_cell(0xff, 0xff, 0xff, 0xff), u32::MAX);
}

#[test]
fn unpack_cell_splits_bytes() {
    assert_eq!(unpack_cell(0x1234_5623), (0x12, 0x34, 0x56, b'#'));
}

#[test]
fn cell_round_trip() {
    for &(ch, r, g, b) in &[(b'@', 2u8, 100u8, 50u8), (0u8, 255u8, 0u8, 7u8), (b'.', 0, 0, 0)] {
        assert_eq!(unpack_cell(make_cell(ch, r, g, b)), (r, g, b, ch));
    }
    for &cell in &[0u32, 1, 0xdead_beef, u32::MAX] {
        let (r, g, b, ch) = unpack_cell(cell);
        assert_eq!(make_cell(ch, r, g, b), cell);
    }
}

#[test]
fn push_num_writes_decimal() {
    for &(n, s) in &[(0u8, "0"), (7, "7"), (10, "10"), (42, "42"), (100, "100"), (205, "205"), (255, "255")] {
        let mut out = vec![b'x'];
        push_num(&mut out, n);
        assert_eq!(out, format!("x{}", s).into_bytes());
    }
}

#[test]
fn push_num_reads_back() {
    for n in 0..=255u8 {
        let mut out = Vec::new();
        push_num(&mut out, n);
        let text = String::from_utf8(out).unwrap();
        assert_eq!(text.parse::<u8>().unwrap(), n);
        assert!(text.len() == 1 || !text.starts_with('0'));
    }
}

#[test]
fn push_usize_writes_decimal() {
    let mut out = Vec::new();
    push_usize(&mut out, 0);
    push_usize(&mut out, 1234567);
    assert_eq!(out, b"01234567".to_vec());
}

#[test]
fn push_color_writes_sgr() {
    let mut out = Vec::new();
    push_color(&mut out, 2, 100, 50);
    assert_eq!(out, b"\x1B[38;2;2;100;50m".to_vec());
}

#[test]
fn push_cursor_to_writes_cup() {
    let mut out = Vec::new();
    push_cursor_to(&mut out, 3, 12);
    assert_eq!(out, b"\x1B[3;12H".to_vec());
}

#[test]
fn frame_buffer_starts_blank() {
    let fb = FrameBuffer::new(3, 2);
    assert_eq!(fb.width(), 3);
    assert_eq!(fb.height(), 2);
    assert_eq!(fb.cells(), &vec![32u32; 6]);
}

#[test]
fn frame_buffer_set_get_clear() {
    let mut fb = FrameBuffer::new(3, 2);
    fb.set(2, 1, make_cell(b'x', 1, 2, 3));
    assert_eq!(fb.get(2, 1), make_cell(b'x', 1, 2, 3));
    assert_eq!(fb.cells()[5], make_cell(b'x', 1, 2, 3));
    assert_eq!(fb.get(0, 0), 32);
    fb.clear();
    assert_eq!(fb.cells(), &vec![32u32; 6]);
    fb.resize(1, 4);
    assert_eq!((fb.width(), fb.height()), (1, 4));
    assert_eq!(fb.cells(), &vec![32u32; 4]);
}

#[test]
fn encode_blank_frame() {
    let fb = FrameBuffer::new(2, 2);
    assert_eq!(fb.encode(), b"\x1B[H\x1B[38;2;0;0;0m  \n  \n\x1B[0m".to_vec());
}

#[test]
fn encode_emits_colour_only_on_change() {
    let mut fb = FrameBuffer::new(3, 1);
    fb.set(0, 0, make_cell(b'a', 255, 0, 0));
    fb.set(1, 0, make_cell(b'b', 255, 0, 0));
    fb.set(2, 0, make_cell(b'c', 0, 255, 0));
    assert_eq!(
        fb.encode(),
        b"\x1B[H\x1B[38;2;255;0;0mab\x1B[38;2;0;255;0mc\n\x1B[0m".to_vec()
    );
}

#[test]
fn encode_colour_carries_across_rows() {
    let mut fb = FrameBuffer::new(1, 2);
    fb.set(0, 0, make_cell(b'a', 9, 9, 9));
    fb.set(0, 1, make_cell(b'b', 9, 9, 9));
    assert_eq!(fb.encode(), b"\x1B[H\x1B[38;2;9;9;9ma\nb\n\x1B[0m".to_vec());
}

#[test]
fn encode_diff_of_same_frame_is_empty() {
    let mut fb = FrameBuffer::new(4, 3);
    fb.set(1, 1, make_cell(b'o', 1, 2, 3));
    let mut prev = FrameBuffer::new(4, 3);
    prev.copy_from(&fb);
    assert_eq!(prev.cells(), fb.cells());
    assert_eq!(fb.encode_diff(&prev), Vec::<u8>::new());
}

#[test]
fn encode_diff_redraws_changed_cells() {
    let prev = FrameBuffer::new(4, 2);
    let mut fb = FrameBuffer::new(4, 2);
    fb.set(1, 0, make_cell(b'a', 1, 1, 1));
    fb.set(2, 0, make_cell(b'b', 1, 1, 1));
    fb.set(3, 1, make_cell(b'c', 1, 1, 1));
    assert_eq!(
        fb.encode_diff(&prev),
        b"\x1B[1;2H\x1B[38;2;1;1;1mab\x1B[2;4H\x1B[38;2;1;1;1mc\x1B[0m".to_vec()
    );
}

#[test]
fn zbuffer_keeps_nearest() {
    let nearer = |a: f32, b: f32| a < b;
    let mut zb = ZBuffer::new((2, 2), f32::INFINITY);
    assert_eq!(zb.len(), 4);
    assert!(zb.test_and_set_idx(3, 5.0, &nearer));
    assert_eq!(zb.depth(3), 5.0);
    assert!(!zb.test_and_set_idx(3, 6.0, &nearer));
    assert_eq!(zb.depth(3), 5.0);
    assert!(zb.test_and_set_idx(3, 1.0, &nearer));
    assert_eq!(zb.depth(3), 1.0);
    assert!(!zb.test_and_set_idx(4, 0.0, &nearer));
    zb.reset(f32::INFINITY);
    assert_eq!(zb.depth(3), f32::INFINITY);
    zb.resize((3, 1), 9.0);
    assert_eq!(zb.len(), 3);
    assert_eq!(zb.depth(2), 9.0);
}

#[test]
fn shade_ramp_levels() {
    assert_eq!(char_for_level(0), b' ');
    assert_eq!(char_for_level(1), b'`');
    assert_eq!(char_for_level(9), b'~');
    assert_eq!(char_for_level(18), b'@');
    assert_eq!(char_for_level(1000), b'@');
}

#[test]
fn raster_setup_of_a_triangle() {
    let s = raster_setup(0, 0, 4, 0, 0, 4, 10, 10).unwrap();
    assert_eq!((s.min_x, s.max_x, s.min_y, s.max_y), (0, 4, 0, 4));
    // (y1 - y2) * (x0 - x2) + (x2 - x1) * (y0 - y2) = (-4)(0) + (-4)(-4)
    assert_eq!(s.denom, 16);
    assert_eq!((s.w0_x_step, s.w1_x_step, s.w0_y_step, s.w1_y_step), (-4, 4, -4, 0));
    assert_eq!(s.w0_seed, 16);
    assert_eq!(s.w1_seed, 0);
}

#[test]
fn raster_setup_clips_to_screen() {
    let s = raster_setup(-5, -5, 20, 0, 0, 20, 8, 6).unwrap();
    assert_eq!((s.min_x, s.max_x, s.min_y, s.max_y), (0, 7, 0, 5));
}

#[test]
fn raster_setup_rejects_flat_and_offscreen() {
    assert!(raster_setup(0, 0, 1, 1, 2, 2, 10, 10).is_none());
    assert!(raster_setup(20, 20, 30, 20, 20, 30, 10, 10).is_none());
    assert!(raster_setup(0, 0, 4, 0, 0, 4, 0, 0).is_none());
}

#[test]
fn raster_setup_overflow_check() {
    assert!(raster_setup_fits(0, 0, 4, 0, 0, 4, 10, 10));
    assert!(!raster_setup_fits(i32::MIN, 0, i32::MAX, 0, 0, 4, 10, 10));
    assert!(!raster_setup_fits(0, i32::MAX, 100_000, -100_000, 0, 0, 10, 10));
}

#[test]
fn tiles_in_box_row_major() {
    assert_eq!(tiles_in_box(1, 2, 3, 4, 5), vec![16, 17, 21, 22]);
    assert_eq!(tiles_in_box(0, 0, 0, 0, 5), vec![0]);
    assert_eq!(tiles_in_box(3, 2, 0, 4, 5), Vec::<usize>::new());
    assert_eq!(tiles_in_box(0, 4, 2, 1, 5), Vec::<usize>::new());
}

#[test]
fn assign_tiles_fills_workers_in_turn() {
    // 10 triangles over 2 workers: the first worker takes tiles until it holds 5.
    assert_eq!(assign_tiles(&vec![3, 1, 2, 0, 4], 2, 10), vec![0, 0, 0, 1, 1]);
    // The last worker takes everything that is left.
    assert_eq!(assign_tiles(&vec![5, 5, 5, 5], 2, 10), vec![0, 1, 1, 1]);
    assert_eq!(assign_tiles(&vec![1, 1, 1], 1, 3), vec![0, 0, 0]);
    assert_eq!(assign_tiles(&vec![], 4, 0), Vec::<usize>::new());
}
