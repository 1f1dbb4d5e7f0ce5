use nekopet::effects::{draw_eyes, eyes_args_valid, is_body_color, tint_args_valid, tint_targets};

fn pixel(canvas: &[u8], cw: usize, x: usize, y: usize) -> [u8; 4] {
    let i = (y * cw + x) * 4;
    [canvas[i], canvas[i + 1], canvas[i + 2], canvas[i + 3]]
}

const EYE_BG: [u8; 4] = [102, 160, 217, 255];
const PUPIL: [u8; 4] = [0, 0, 0, 255];

#[test]
fn eyes_at_scale_one_without_offset() {
    let mut canvas = vec![0u8; 32 * 32 * 4];
    assert!(eyes_args_valid(32, 0, 0, 1, 0, 0));
    draw_eyes(&mut canvas, 32, 0, 0, 1, 0, 0);
    // pupils cover the eye backgrounds exactly
    for &(x, y) in &[(12, 9), (13, 9), (12, 10), (13, 10), (18, 9), (19, 10)] {
        assert_eq!(pixel(&canvas, 32, x, y), PUPIL);
    }
    assert_eq!(pixel(&canvas, 32, 14, 9), [0, 0, 0, 0]);
    assert_eq!(pixel(&canvas, 32, 11, 9), [0, 0, 0, 0]);
}

#[test]
fn eyes_pupils_follow_the_offset() {
    let mut canvas = vec![0u8; 64 * 64 * 4];
    // scale 2: eye backgrounds 4 by 4 at x 24 and 36, y 18; pupils moved 2 right, 1 down
    draw_eyes(&mut canvas, 64, 0, 0, 2, 2, 1);
    assert_eq!(pixel(&canvas, 64, 24, 18), EYE_BG);
    assert_eq!(pixel(&canvas, 64, 25, 21), EYE_BG);
    assert_eq!(pixel(&canvas, 64, 26, 19), PUPIL);
    assert_eq!(pixel(&canvas, 64, 29, 22), PUPIL);
    assert_eq!(pixel(&canvas, 64, 26, 18), EYE_BG);
    assert_eq!(pixel(&canvas, 64, 36, 18), EYE_BG);
    assert_eq!(pixel(&canvas, 64, 38, 19), PUPIL);
    assert_eq!(pixel(&canvas, 64, 41, 22), PUPIL);
    assert_eq!(pixel(&canvas, 64, 42, 22), [0, 0, 0, 0]);
}

#[test]
fn eyes_args_refuse_a_huge_scale() {
    assert!(!eyes_args_valid(32, 0, 0, 0x1000_0000, 0, 0));
}

#[test]
fn body_color_rule() {
    // the eye background counts as body colour
    assert!(is_body_color(102, 160, 217));
    assert!(is_body_color(40, 120, 230));
    assert!(!is_body_color(40, 120, 140));
    assert!(!is_body_color(115, 120, 230));
    assert!(!is_body_color(40, 50, 230));
    assert!(!is_body_color(40, 180, 230));
}

#[test]
fn tint_targets_lists_opaque_body_pixels_in_order() {
    let cw = 3usize;
    let mut canvas = vec![0u8; 3 * 3 * 4];
    let body = [40u8, 120, 230, 255];
    let set = |c: &mut Vec<u8>, x: usize, y: usize, p: [u8; 4]| {
        let i = (y * cw + x) * 4;
        c[i..i + 4].copy_from_slice(&p);
    };
    set(&mut canvas, 2, 0, body);
    set(&mut canvas, 0, 1, body);
    set(&mut canvas, 1, 1, [40, 120, 230, 0]); // transparent
    set(&mut canvas, 2, 1, [200, 120, 230, 255]); // too blue
    set(&mut canvas, 1, 2, body);
    assert!(tint_args_valid(cw, 0, 0, 3, 3));
    let t = tint_targets(&canvas, cw, 0, 0, 3, 3);
    assert_eq!(t, vec![(0 * 3 + 2) * 4, (1 * 3 + 0) * 4, (2 * 3 + 1) * 4]);
}

#[test]
fn tint_targets_keeps_to_the_pet_rectangle() {
    let cw = 4usize;
    let body = [40u8, 120, 230, 255];
    let canvas: Vec<u8> = (0..16).flat_map(|_| body).collect();
    // a 2 by 2 pet at (-1, 3): columns 0, rows 3 only (row 4 is past the canvas)
    let t = tint_targets(&canvas, cw, -1, 3, 2, 2);
    assert_eq!(t, vec![(3 * 4 + 0) * 4]);
}

#[test]
fn tint_compares_the_canvas_width_as_i32() {
    let body = [40u8, 120, 230, 255];
    let canvas: Vec<u8> = (0..4).flat_map(|_| body).collect();
    let wide: usize = 1 << 31;
    assert!(tint_args_valid(wide, 0, 0, 4, 1));
    assert_eq!(tint_targets(&canvas, wide, 0, 0, 4, 1), Vec::<usize>::new());
    // 2^32 + 2 columns compare as 2
    let wrapped: usize = (1usize << 32) + 2;
    assert!(tint_args_valid(wrapped, 0, 0, 4, 1));
    assert_eq!(tint_targets(&canvas, wrapped, 0, 0, 4, 1), vec![0, 4]);
}

#[test]
fn tint_takes_the_display_size_as_i32() {
    let body = [40u8, 120, 230, 255];
    let canvas: Vec<u8> = (0..4).flat_map(|_| body).collect();
    // u32::MAX is -1 as an i32: the rectangle ends left of the pet
    assert!(tint_args_valid(4, 0, 0, u32::MAX, 1));
    assert_eq!(tint_targets(&canvas, 4, 0, 0, u32::MAX, 1), Vec::<usize>::new());
    assert!(!tint_args_valid(4, i32::MAX, 0, 1, 1));
    assert!(!tint_args_valid(4, i32::MIN, 0, u32::MAX, 1));
}
