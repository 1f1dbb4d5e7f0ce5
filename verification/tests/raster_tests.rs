use nekopet::raster::{blit_scaled, draw_sprite, paint_block, blit_args_valid, sprite_args_valid};

fn pixel(canvas: &[u8], cw: usize, x: usize, y: usize) -> [u8; 4] {
    let i = (y * cw + x) * 4;
    [canvas[i], canvas[i + 1], canvas[i + 2], canvas[i + 3]]
}

#[test]
fn paint_block_fills_the_block() {
    let mut canvas = vec![0u8; 4 * 4 * 4];
    paint_block(&mut canvas, 4, 1, 1, 2, [1, 2, 3, 4]);
    for y in 0..4 {
        for x in 0..4 {
            let inside = (1..3).contains(&x) && (1..3).contains(&y);
            let expected = if inside { [1, 2, 3, 4] } else { [0, 0, 0, 0] };
            assert_eq!(pixel(&canvas, 4, x, y), expected, "pixel ({}, {})", x, y);
        }
    }
}

#[test]
fn paint_block_skips_negative_cells() {
    let mut canvas = vec![0u8; 3 * 3 * 4];
    paint_block(&mut canvas, 3, -1, -1, 2, [9, 9, 9, 9]);
    assert_eq!(pixel(&canvas, 3, 0, 0), [9, 9, 9, 9]);
    assert_eq!(pixel(&canvas, 3, 1, 0), [0, 0, 0, 0]);
    assert_eq!(pixel(&canvas, 3, 0, 1), [0, 0, 0, 0]);
}

#[test]
fn paint_block_runs_past_the_right_edge_into_the_next_row() {
    let mut canvas = vec![0u8; 3 * 3 * 4];
    paint_block(&mut canvas, 3, 2, 0, 2, [5, 5, 5, 5]);
    // cell (3, 0) has index 3, which is pixel (0, 1)
    assert_eq!(pixel(&canvas, 3, 2, 0), [5, 5, 5, 5]);
    assert_eq!(pixel(&canvas, 3, 0, 1), [5, 5, 5, 5]);
    assert_eq!(pixel(&canvas, 3, 2, 1), [5, 5, 5, 5]);
    assert_eq!(pixel(&canvas, 3, 0, 2), [5, 5, 5, 5]);
    assert_eq!(pixel(&canvas, 3, 1, 1), [0, 0, 0, 0]);
}

#[test]
fn paint_block_skips_pixels_past_the_end() {
    let mut canvas = vec![0u8; 2 * 2 * 4];
    paint_block(&mut canvas, 2, 1, 1, 3, [7, 7, 7, 7]);
    assert_eq!(pixel(&canvas, 2, 1, 1), [7, 7, 7, 7]);
    assert_eq!(canvas.len(), 16);
    assert_eq!(pixel(&canvas, 2, 0, 0), [0, 0, 0, 0]);
}

#[test]
fn blit_scaled_doubles_each_source_pixel() {
    let src: Vec<u8> = vec![1, 1, 1, 1, 2, 2, 2, 2, 3, 3, 3, 3, 4, 4, 4, 4];
    let mut canvas = vec![0u8; 4 * 4 * 4];
    assert!(blit_args_valid(4, 4, 2, 2, 0, 0, 4, 4));
    blit_scaled(&mut canvas, 4, 4, &src, 2, 2, 0, 0, 4, 4);
    for y in 0..4 {
        for x in 0..4 {
            let v = (1 + x / 2 + 2 * (y / 2)) as u8;
            assert_eq!(pixel(&canvas, 4, x, y), [v, v, v, v]);
        }
    }
}

#[test]
fn blit_scaled_clips_to_the_canvas() {
    let src: Vec<u8> = (0..16).map(|i| (i / 4 + 1) as u8).collect();
    let mut canvas = vec![0u8; 2 * 2 * 4];
    blit_scaled(&mut canvas, 2, 2, &src, 2, 2, -1, -1, 2, 2);
    // only destination cell (1, 1), sampling source pixel (1, 1) = 4, lands on canvas (0, 0)
    assert_eq!(pixel(&canvas, 2, 0, 0), [4, 4, 4, 4]);
    assert_eq!(pixel(&canvas, 2, 1, 0), [0, 0, 0, 0]);
    assert_eq!(pixel(&canvas, 2, 0, 1), [0, 0, 0, 0]);
    assert_eq!(pixel(&canvas, 2, 1, 1), [0, 0, 0, 0]);
}

#[test]
fn blit_scaled_shrinks_by_sampling_below() {
    // 4 by 1 source shrunk to 2 by 1: cells sample source columns 0 and 2
    let src: Vec<u8> = vec![10, 10, 10, 10, 20, 20, 20, 20, 30, 30, 30, 30, 40, 40, 40, 40];
    let mut canvas = vec![0u8; 2 * 1 * 4];
    blit_scaled(&mut canvas, 2, 1, &src, 4, 1, 0, 0, 2, 1);
    assert_eq!(pixel(&canvas, 2, 0, 0), [10, 10, 10, 10]);
    assert_eq!(pixel(&canvas, 2, 1, 0), [30, 30, 30, 30]);
}

#[test]
fn blit_args_refuse_an_empty_source_over_the_canvas() {
    assert!(!blit_args_valid(4, 4, 0, 2, 0, 0, 2, 2));
    assert!(blit_args_valid(4, 4, 0, 2, 10, 10, 2, 2));
}

#[test]
fn draw_sprite_at_full_height_clips_each_edge() {
    let frame: Vec<u8> = (0..(3 * 3 * 4)).map(|i| (i / 4 + 1) as u8).collect();
    let mut canvas = vec![0u8; 4 * 4 * 4];
    assert!(sprite_args_valid(canvas.len(), 4, 4, frame.len(), 3, 3, -1, 2, 3));
    draw_sprite(&mut canvas, 4, 4, &frame, 3, 3, -1, 2, 3);
    // canvas (x, y) shows frame (x + 1, y - 2) where that exists and fits
    for y in 0..4usize {
        for x in 0..4usize {
            let fx = x as i32 + 1;
            let fy = y as i32 - 2;
            let expected = if (0..3).contains(&fx) && (0..3).contains(&fy) {
                let v = (fy * 3 + fx + 1) as u8;
                [v, v, v, v]
            } else {
                [0, 0, 0, 0]
            };
            assert_eq!(pixel(&canvas, 4, x, y), expected, "pixel ({}, {})", x, y);
        }
    }
}

#[test]
fn draw_sprite_at_native_size_matches_blit() {
    let frame: Vec<u8> = (0..(5 * 4 * 4)).map(|i| (i * 7 % 251) as u8).collect();
    for &(x, y) in &[(-2i32, -1i32), (0, 0), (3, 2), (6, 5), (-5, 0)] {
        let mut a = vec![200u8; 6 * 5 * 4];
        let mut b = a.clone();
        draw_sprite(&mut a, 6, 5, &frame, 5, 4, x, y, 4);
        blit_scaled(&mut b, 6, 5, &frame, 5, 4, x, y, 5, 4);
        assert_eq!(a, b, "at ({}, {})", x, y);
    }
}

#[test]
fn draw_sprite_at_other_height_scales() {
    let frame: Vec<u8> = vec![1, 1, 1, 1, 2, 2, 2, 2];
    // a 1 by 2 frame drawn 4 high: two rows of each source row
    let mut canvas = vec![0u8; 1 * 4 * 4];
    draw_sprite(&mut canvas, 1, 4, &frame, 1, 2, 0, 0, 4);
    assert_eq!(pixel(&canvas, 1, 0, 0), [1, 1, 1, 1]);
    assert_eq!(pixel(&canvas, 1, 0, 1), [1, 1, 1, 1]);
    assert_eq!(pixel(&canvas, 1, 0, 2), [2, 2, 2, 2]);
    assert_eq!(pixel(&canvas, 1, 0, 3), [2, 2, 2, 2]);
}

#[test]
fn painting_twice_changes_nothing_more() {
    let mut canvas: Vec<u8> = (0..(5 * 5 * 4)).map(|i| i as u8).collect();
    paint_block(&mut canvas, 5, -1, 2, 3, [1, 2, 3, 4]);
    let once = canvas.clone();
    paint_block(&mut canvas, 5, -1, 2, 3, [1, 2, 3, 4]);
    assert_eq!(canvas, once);
}

#[test]
fn full_blit_copies_the_source() {
    let src: Vec<u8> = (0..(3 * 2 * 4)).map(|i| (i * 11) as u8).collect();
    let mut canvas = vec![9u8; 3 * 2 * 4];
    blit_scaled(&mut canvas, 3, 2, &src, 3, 2, 0, 0, 3, 2);
    assert_eq!(canvas, src);
}

#[test]
fn blit_leaves_the_rest_of_the_canvas() {
    let src = vec![1u8; 2 * 2 * 4];
    let mut canvas = vec![7u8; 4 * 3 * 4 + 8];
    blit_scaled(&mut canvas, 4, 3, &src, 2, 2, 1, 1, 2, 2);
    for y in 0..3usize {
        for x in 0..4usize {
            let inside = (1..3).contains(&x) && (1..3).contains(&y);
            assert_eq!(pixel(&canvas, 4, x, y), if inside { [1, 1, 1, 1] } else { [7, 7, 7, 7] });
        }
    }
    assert_eq!(&canvas[48..], &[7u8; 8]);
}

#[test]
fn blit_onto_a_canvas_wider_than_i32_draws_nothing() {
    let src: Vec<u8> = vec![8; 2 * 1 * 4];
    let mut canvas = vec![0u8; 16];
    let cw: usize = 1 << 31;
    assert!(blit_args_valid(cw, 1, 2, 1, 0, 0, 2, 1));
    blit_scaled(&mut canvas, cw, 1, &src, 2, 1, 0, 0, 2, 1);
    assert_eq!(canvas, vec![0u8; 16]);
}

#[test]
fn blit_compares_the_canvas_width_as_i32() {
    // 2^32 + 2 columns compare as 2, so only the first two columns of row 0 are drawn
    let src: Vec<u8> = vec![1, 1, 1, 1, 2, 2, 2, 2, 3, 3, 3, 3];
    let mut canvas = vec![0u8; 16];
    let cw: usize = (1usize << 32) + 2;
    assert!(blit_args_valid(cw, 1, 3, 1, 0, 0, 3, 1));
    blit_scaled(&mut canvas, cw, 1, &src, 3, 1, 0, 0, 3, 1);
    assert_eq!(canvas, vec![1, 1, 1, 1, 2, 2, 2, 2, 0, 0, 0, 0, 0, 0, 0, 0]);
}
