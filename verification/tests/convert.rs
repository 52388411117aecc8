use desktop_capture::convert::abgr_to_i420;
use desktop_capture::frame::{DesktopFrame, I420Buffer};

fn uniform_frame(width: i32, height: i32, stride: u32, r: u8, g: u8, b: u8) -> DesktopFrame {
    let mut data = Vec::new();
    for _row in 0..height {
        let mut written = 0u32;
        for _col in 0..width {
            data.push(r);
            data.push(g);
            data.push(b);
            data.push(255);
            written += 4;
        }
        while written < stride {
            data.push(0xCD);
            written += 1;
        }
    }
    DesktopFrame::new(width, height, stride, 0, 0, data)
}

fn frame_from_pixels(width: i32, height: i32, pixels: &[(u8, u8, u8)]) -> DesktopFrame {
    assert_eq!(pixels.len(), (width * height) as usize);
    let mut data = Vec::new();
    for &(r, g, b) in pixels {
        data.push(r);
        data.push(g);
        data.push(b);
        data.push(0);
    }
    DesktopFrame::new(width, height, 4 * width as u32, 0, 0, data)
}

fn expected_luma(r: u8, g: u8, b: u8) -> u8 {
    ((66 * r as u32 + 129 * g as u32 + 25 * b as u32 + 128) / 256 + 16) as u8
}

fn expected_cb(r: u8, g: u8, b: u8) -> u8 {
    ((112 * b as u32 + 32896 - 38 * r as u32 - 74 * g as u32) / 256) as u8
}

fn expected_cr(r: u8, g: u8, b: u8) -> u8 {
    ((112 * r as u32 + 32896 - 94 * g as u32 - 18 * b as u32) / 256) as u8
}

fn clamp_byte(x: i32) -> u8 {
    x.clamp(0, 255) as u8
}

/// Inverse of the broadcast-video transform, for round-trip checks.
fn decode(y: u8, u: u8, v: u8) -> (u8, u8, u8) {
    let c = y as i32 - 16;
    let d = u as i32 - 128;
    let e = v as i32 - 128;
    let r = clamp_byte((298 * c + 409 * e + 128) >> 8);
    let g = clamp_byte((298 * c - 100 * d - 208 * e + 128) >> 8);
    let b = clamp_byte((298 * c + 516 * d + 128) >> 8);
    (r, g, b)
}

#[test]
fn frame_reports_its_geometry_and_data() {
    let frame = uniform_frame(3, 2, 16, 1, 2, 3);
    assert_eq!(frame.width(), 3);
    assert_eq!(frame.height(), 2);
    assert_eq!(frame.stride(), 16);
    assert_eq!(frame.left(), 0);
    assert_eq!(frame.top(), 0);
    assert_eq!(frame.data().len(), 32);
    assert_eq!(frame.data()[0], 1);
    assert_eq!(frame.data()[1], 2);
    assert_eq!(frame.data()[2], 3);
}

#[test]
fn known_colors_convert_to_known_bytes() {
    let cases = [
        ((0u8, 0u8, 0u8), (16u8, 128u8, 128u8)),
        ((255, 255, 255), (235, 128, 128)),
        ((255, 0, 0), (82, 90, 240)),
        ((0, 255, 0), (144, 54, 34)),
        ((0, 0, 255), (41, 240, 110)),
        ((200, 100, 50), (123, 91, 175)),
    ];
    for ((r, g, b), (ey, eu, ev)) in cases {
        assert_eq!(expected_luma(r, g, b), ey, "luma of {:?}", (r, g, b));
        assert_eq!(expected_cb(r, g, b), eu, "cb of {:?}", (r, g, b));
        assert_eq!(expected_cr(r, g, b), ev, "cr of {:?}", (r, g, b));
        let frame = uniform_frame(2, 2, 8, r, g, b);
        let mut dst = I420Buffer::new(2, 2);
        abgr_to_i420(&frame, &mut dst);
        assert!(dst.y.iter().all(|&x| x == ey));
        assert_eq!(dst.u, vec![eu]);
        assert_eq!(dst.v, vec![ev]);
    }
}

#[test]
fn conversion_honours_the_source_stride() {
    let frame = uniform_frame(3, 3, 24, 90, 140, 30);
    let mut dst = I420Buffer::new(3, 3);
    abgr_to_i420(&frame, &mut dst);
    let ey = expected_luma(90, 140, 30);
    assert_eq!(dst.y, vec![ey; 9]);
    assert_eq!(dst.u, vec![expected_cb(90, 140, 30); 4]);
    assert_eq!(dst.v, vec![expected_cr(90, 140, 30); 4]);
}

#[test]
fn odd_sized_frame_samples_chroma_at_even_coordinates() {
    // 3x3 frame with a distinct color per pixel: chroma blocks sample the
    // pixels at (0,0), (2,0), (0,2) and (2,2).
    let pixels: Vec<(u8, u8, u8)> = (0..9).map(|i| (10 * i as u8, 5 * i as u8, 3 * i as u8))
        .collect();
    let frame = frame_from_pixels(3, 3, &pixels);
    let mut dst = I420Buffer::new(3, 3);
    abgr_to_i420(&frame, &mut dst);
    for (i, &(r, g, b)) in pixels.iter().enumerate() {
        assert_eq!(dst.y[i], expected_luma(r, g, b), "luma at {}", i);
    }
    for (slot, pix) in [(0usize, 0usize), (1, 2), (2, 6), (3, 8)] {
        let (r, g, b) = pixels[pix];
        assert_eq!(dst.u[slot], expected_cb(r, g, b), "cb slot {}", slot);
        assert_eq!(dst.v[slot], expected_cr(r, g, b), "cr slot {}", slot);
    }
}

#[test]
fn empty_frame_converts_to_empty_planes() {
    let frame = DesktopFrame::new(0, 0, 0, 0, 0, Vec::new());
    let mut dst = I420Buffer::new(0, 0);
    abgr_to_i420(&frame, &mut dst);
    assert!(dst.y.is_empty());
    assert!(dst.u.is_empty());
    assert!(dst.v.is_empty());
}

#[test]
fn conversion_overwrites_the_whole_buffer() {
    // Two buffers with different prior contents receive the same frame:
    // afterwards they agree byte for byte, so no stale data survives.
    let earlier = uniform_frame(4, 4, 16, 250, 10, 10);
    let frame = uniform_frame(4, 4, 16, 7, 77, 177);
    let mut fresh = I420Buffer::new(4, 4);
    let mut reused = I420Buffer::new(4, 4);
    abgr_to_i420(&earlier, &mut reused);
    assert_ne!(fresh.y, reused.y);
    abgr_to_i420(&frame, &mut fresh);
    abgr_to_i420(&frame, &mut reused);
    assert_eq!(fresh.y, reused.y);
    assert_eq!(fresh.u, reused.u);
    assert_eq!(fresh.v, reused.v);
}

#[test]
fn round_trip_recovers_the_source_color_within_tolerance() {
    let colors = [
        (200u8, 100u8, 50u8),
        (16, 16, 16),
        (240, 240, 240),
        (128, 0, 255),
        (0, 128, 64),
        (33, 66, 99),
    ];
    for (r, g, b) in colors {
        let frame = uniform_frame(2, 2, 8, r, g, b);
        let mut dst = I420Buffer::new(2, 2);
        abgr_to_i420(&frame, &mut dst);
        let (rr, rg, rb) = decode(dst.y[0], dst.u[0], dst.v[0]);
        let tol = 3i32;
        assert!((rr as i32 - r as i32).abs() <= tol, "red {} -> {}", r, rr);
        assert!((rg as i32 - g as i32).abs() <= tol, "green {} -> {}", g, rg);
        assert!((rb as i32 - b as i32).abs() <= tol, "blue {} -> {}", b, rb);
    }
}

#[test]
fn buffer_allocation_matches_half_resolution_chroma() {
    let b = I420Buffer::new(5, 3);
    assert_eq!(b.width(), 5);
    assert_eq!(b.height(), 3);
    assert_eq!(b.y.len(), 15);
    assert_eq!(b.u.len(), 6);
    assert_eq!(b.v.len(), 6);
}
