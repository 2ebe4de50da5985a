//! Frame-id marker.
use ginger_rs::marker::{
    cells_to_id, crc8, data_grid_rect, decode_marker, encode_marker, encode_marker_yuyv,
    marker_cells, roi_rect, BLACK, CELL, COLS, MARKER_H, MARKER_W, N_CELLS, WHITE,
};

const FW: usize = 640;
const FH: usize = 480;

fn crop_rgba(y: &[u8], gx: usize, gy: usize, gw: usize, gh: usize) -> Vec<u8> {
    let mut rgba = vec![0u8; gw * gh * 4];
    for r in 0..gh {
        for c in 0..gw {
            let v = y[(gy + r) * FW + gx + c];
            let o = (r * gw + c) * 4;
            rgba[o] = v;
            rgba[o + 1] = v;
            rgba[o + 2] = v;
            rgba[o + 3] = 255;
        }
    }
    rgba
}

/// Render `id` into a frame's luma, then crop the data grid to RGBA.
fn grid_rgba(id: u64) -> (Vec<u8>, usize, usize) {
    let mut y = vec![100u8; FW * FH];
    encode_marker(&mut y, FW, FW, FH, id);
    let (gx, gy, gw, gh) = data_grid_rect(FW, FH);
    (crop_rgba(&y, gx, gy, gw, gh), gw, gh)
}

fn flip_cell(y: &mut [u8], gx: usize, gy: usize, cell: usize) {
    let (col, row) = (cell % COLS, cell / COLS);
    for dy in 0..CELL {
        for dx in 0..CELL {
            let p = (gy + row * CELL + dy) * FW + gx + col * CELL + dx;
            y[p] = if y[p] == WHITE { BLACK } else { WHITE };
        }
    }
}

#[test]
fn roundtrip_all_8bit_ids() {
    for id in [0u64, 1, 7, 0x5A, 0xFF, 0xDEADBE, 0x123456] {
        let (rgba, w, h) = grid_rgba(id);
        assert_eq!(decode_marker(&rgba, w, h), Some(id & 0xFF), "id {id:#x}");
    }
}

#[test]
fn roundtrip_survives_quantization_noise_blur() {
    let mut s = 0x1234_5678u64;
    let mut rng = || {
        s = s
            .wrapping_mul(6364136223846793005)
            .wrapping_add(1442695040888963407);
        (s >> 33) as u32
    };
    let levels = [16u8, 64, 128, 192, 235];
    let mut ok = 0;
    let trials = 1000;
    for _ in 0..trials {
        let id = (rng() & 0xFF) as u64;
        let (mut rgba, w, h) = grid_rgba(id);
        for px in rgba.chunks_exact_mut(4) {
            let q = *levels
                .iter()
                .min_by_key(|&&l| (l as i32 - px[0] as i32).abs())
                .unwrap();
            let n = (rng() % 17) as i32 - 8;
            let v = (q as i32 + n).clamp(0, 255) as u8;
            px[0] = v;
            px[1] = v;
            px[2] = v;
        }
        let src: Vec<u8> = rgba.iter().step_by(4).copied().collect();
        for yy in 0..h {
            for xx in 0..w {
                let mut sum = 0u32;
                let mut n = 0u32;
                for dy in -1i32..=1 {
                    for dx in -1i32..=1 {
                        let nx = xx as i32 + dx;
                        let ny = yy as i32 + dy;
                        if nx >= 0 && ny >= 0 && (nx as usize) < w && (ny as usize) < h {
                            sum += src[ny as usize * w + nx as usize] as u32;
                            n += 1;
                        }
                    }
                }
                let v = (sum / n) as u8;
                let o = (yy * w + xx) * 4;
                rgba[o] = v;
                rgba[o + 1] = v;
                rgba[o + 2] = v;
            }
        }
        if decode_marker(&rgba, w, h) == Some(id) {
            ok += 1;
        }
    }
    assert!(
        ok as f32 / trials as f32 >= 0.999,
        "decoded {ok}/{trials} after quantization+noise+blur"
    );
}

#[test]
fn single_cell_flip_never_wrong() {
    let (gx, gy, _, _) = data_grid_rect(FW, FH);
    for id in [0u64, 0x0F, 0xFF, 7, 0x5A] {
        for c in 0..N_CELLS {
            let mut y = vec![100u8; FW * FH];
            encode_marker(&mut y, FW, FW, FH, id);
            flip_cell(&mut y, gx, gy, c);
            let (gw, gh) = (MARKER_W, MARKER_H);
            let rgba = crop_rgba(&y, gx, gy, gw, gh);
            if let Some(d) = decode_marker(&rgba, gw, gh) {
                assert_eq!(d, id & 0xFF, "cell {c} flip on id {id:#x}");
            }
        }
    }
}

#[test]
fn two_cell_flips_none_dominates_wrong() {
    let mut s = 0xC0FFEEu64;
    let mut rng = || {
        s = s
            .wrapping_mul(6364136223846793005)
            .wrapping_add(1442695040888963407);
        (s >> 33) as usize
    };
    let (gx, gy, _, _) = data_grid_rect(FW, FH);
    let (mut wrong, mut none_or_ok) = (0, 0);
    for _ in 0..2000 {
        let id = (rng() & 0xFF) as u64;
        let mut y = vec![100u8; FW * FH];
        encode_marker(&mut y, FW, FW, FH, id);
        let a = rng() % N_CELLS;
        let mut b = rng() % N_CELLS;
        if b == a {
            b = (b + 1) % N_CELLS;
        }
        for cell in [a, b] {
            flip_cell(&mut y, gx, gy, cell);
        }
        let (gw, gh) = (MARKER_W, MARKER_H);
        let rgba = crop_rgba(&y, gx, gy, gw, gh);
        match decode_marker(&rgba, gw, gh) {
            Some(d) if d != id & 0xFF => wrong += 1,
            _ => none_or_ok += 1,
        }
    }
    assert!(
        none_or_ok > wrong,
        "two-cell flips: wrong={wrong} none_or_ok={none_or_ok}"
    );
}

#[test]
fn cells_carry_sync_id_and_checksum() {
    let cells = marker_cells(0x1_5A);
    assert_eq!(cells_to_id(&cells), Some(0x5A));
    let mut broken = cells;
    broken[0] = !broken[0];
    // A damaged sync pattern is refused or read right, never read wrong.
    assert!(matches!(cells_to_id(&broken), None | Some(0x5A)));
    assert_eq!(crc8(0), crc8(0));
    assert_ne!(crc8(1), crc8(2));
}

#[test]
fn frames_too_small_for_the_marker_stay_untouched() {
    let mut y = vec![7u8; 32 * 16];
    encode_marker(&mut y, 32, 32, 16, 1);
    assert!(y.iter().all(|&p| p == 7));
    assert_eq!(decode_marker(&[0u8; 16], 2, 2), None);
}

#[test]
fn yuyv_marker_leaves_chroma_alone() {
    let mut yuyv = vec![128u8; FW * FH * 2];
    encode_marker_yuyv(&mut yuyv, FW, FH, 9);
    assert!(yuyv.iter().skip(1).step_by(2).all(|&c| c == 128));
    let luma: Vec<u8> = yuyv.iter().step_by(2).copied().collect();
    let (gx, gy, gw, gh) = data_grid_rect(FW, FH);
    assert_eq!(decode_marker(&crop_rgba(&luma, gx, gy, gw, gh), gw, gh), Some(9));
    let (rx, ry, rw, rh) = roi_rect(FW, FH);
    assert!(rx <= gx && ry <= gy && rx + rw >= gx + gw && ry + rh >= gy + gh);
}

#[test]
fn cell_centres_are_sampled_in_single_precision() {
    // Only the sampled pixels are painted, so that any other sample would miss.
    for (w, h) in [(48usize, 16usize), (53, 19), (97, 31), (12, 4), (391, 130)] {
        let (grid, gw, _) = grid_rgba(0xA7);
        let mut rgba = vec![0u8; w * h * 4];
        for c in 0..COLS * 4 {
            let (col, row) = (c % COLS, c / COLS);
            let px = (((col as f32 + 0.5) / COLS as f32) * w as f32) as usize;
            let py = (((row as f32 + 0.5) / 4.0) * h as f32) as usize;
            let from = ((row * CELL + 1) * gw + col * CELL + 1) * 4;
            let to = (py.min(h - 1) * w + px.min(w - 1)) * 4;
            rgba[to..to + 4].copy_from_slice(&grid[from..from + 4]);
        }
        assert_eq!(decode_marker(&rgba, w, h), Some(0xA7), "{w}x{h}");
    }
}
