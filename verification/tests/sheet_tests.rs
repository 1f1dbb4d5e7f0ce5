use nekopet::sheet::{count_frames_in_row, load_anim, premultiply_bgra, display_size_valid, RgbaImage};

fn sheet(width: u32, height: u32, opaque: &[(u32, u32)]) -> RgbaImage {
    let mut pixels = vec![0u8; (width * height * 4) as usize];
    for &(x, y) in opaque {
        let i = ((y * width + x) * 4) as usize;
        pixels[i] = 200;
        pixels[i + 1] = 100;
        pixels[i + 2] = 50;
        pixels[i + 3] = 255;
    }
    RgbaImage { width, height, pixels }
}

#[test]
fn frames_stop_at_the_first_empty_one() {
    // 4 columns; row 1 has frames 0 and 1 non-empty, 2 empty, 3 non-empty
    let s = sheet(128, 64, &[(5, 40), (63, 63), (100, 33)]);
    assert!(s.is_wf());
    assert!(s.can_read_row(1));
    assert_eq!(count_frames_in_row(&s, 1), 2);
    assert_eq!(count_frames_in_row(&s, 0), 0);
}

#[test]
fn frames_reach_the_right_edge() {
    let s = sheet(70, 32, &[(0, 0), (40, 31)]);
    // only two whole columns fit in 70 pixels
    assert_eq!(count_frames_in_row(&s, 0), 2);
}

#[test]
fn narrow_sheet_has_no_frames() {
    let s = sheet(20, 10, &[(1, 1)]);
    assert!(s.can_read_row(7));
    assert_eq!(count_frames_in_row(&s, 7), 0);
}

#[test]
fn premultiply_weights_and_swaps() {
    let out = premultiply_bgra(&[10, 20, 30, 128, 255, 0, 0, 255, 1, 2, 3]);
    assert_eq!(out, vec![15u8, 10, 5, 128, 0, 0, 255, 255]);
    assert_eq!(premultiply_bgra(&[9, 9, 9, 0]), vec![0, 0, 0, 0]);
}

#[test]
fn load_anim_scales_frames_with_the_image_crate() {
    let s = sheet(64, 32, &[(0, 0), (33, 1)]);
    assert!(s.can_read_frames(0, 2));
    assert!(display_size_valid(64, 64));
    let frames = load_anim(&s, 0, 2, 64, 64);
    assert_eq!(frames.right.len(), 2);
    for f in &frames.right {
        assert_eq!(f.len(), 64 * 64 * 4);
    }
    let px = |f: &Vec<u8>, x: usize, y: usize| {
        let i = (y * 64 + x) * 4;
        [f[i], f[i + 1], f[i + 2], f[i + 3]]
    };
    // the opaque sheet pixel (0, 0) becomes a 2 by 2 block, premultiplied BGRA
    assert_eq!(px(&frames.right[0], 0, 0), [50, 100, 200, 255]);
    assert_eq!(px(&frames.right[0], 1, 1), [50, 100, 200, 255]);
    assert_eq!(px(&frames.right[0], 2, 0), [0, 0, 0, 0]);
    // frame 1 holds sheet pixel (33, 1), frame pixel (1, 1)
    assert_eq!(px(&frames.right[1], 2, 2), [50, 100, 200, 255]);
    assert_eq!(px(&frames.right[1], 0, 0), [0, 0, 0, 0]);
}

#[test]
fn load_anim_at_native_size_copies() {
    let s = sheet(32, 32, &[(3, 4)]);
    let frames = load_anim(&s, 0, 1, 32, 32);
    let f = &frames.right[0];
    let i = (4 * 32 + 3) * 4;
    assert_eq!(&f[i..i + 4], &[50, 100, 200, 255]);
    assert_eq!(f.iter().filter(|&&b| b != 0).count(), 4);
}

#[test]
fn load_anim_of_no_frames() {
    let s = sheet(10, 10, &[]);
    assert!(s.can_read_frames(5, 0));
    assert_eq!(load_anim(&s, 5, 0, 96, 96).right.len(), 0);
    assert!(!s.can_read_frames(0, 1));
}

#[test]
fn row_cut_off_by_the_bottom_edge() {
    // rows 32..40 exist of row 1; each frame shows a pixel in its first column there
    let s = sheet(64, 40, &[(0, 35), (32, 39)]);
    assert!(s.can_read_row(1));
    assert_eq!(count_frames_in_row(&s, 1), 2);
    // the second frame's first column is empty above the edge: the scan would leave the sheet
    let t = sheet(64, 40, &[(0, 35), (33, 39)]);
    assert!(!t.can_read_row(1));
    // a row wholly below the sheet cannot be scanned
    assert!(!s.can_read_row(2));
}

#[test]
fn premultiplied_colors_stay_within_alpha() {
    let rgba: Vec<u8> = (0..64u32).map(|i| (i * 37 % 256) as u8).collect();
    let out = premultiply_bgra(&rgba);
    for k in 0..out.len() {
        let a = (k / 4) * 4 + 3;
        assert!(out[k] <= out[a]);
        assert_eq!(out[a], rgba[a]);
    }
}

#[test]
fn clearing_a_counted_frame_cuts_the_count() {
    let full = sheet(128, 32, &[(3, 3), (40, 10), (70, 20), (100, 5)]);
    assert_eq!(count_frames_in_row(&full, 0), 4);
    let cleared = sheet(128, 32, &[(3, 3), (70, 20), (100, 5)]);
    assert_eq!(count_frames_in_row(&cleared, 0), 1);
    // filling a frame past the first empty one changes nothing
    let later = sheet(128, 32, &[(3, 3), (70, 20), (100, 5), (127, 31)]);
    assert_eq!(count_frames_in_row(&later, 0), 1);
}

#[test]
fn loaded_frames_are_premultiplied() {
    let mut s = sheet(32, 32, &[]);
    for (i, b) in s.pixels.iter_mut().enumerate() {
        *b = (i * 53 % 256) as u8;
    }
    let frames = load_anim(&s, 0, 1, 48, 40);
    let f = &frames.right[0];
    for k in 0..f.len() {
        assert!(f[k] <= f[(k / 4) * 4 + 3]);
    }
}
