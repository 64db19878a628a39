use vgplay::font::{draw_text, fit_text_scale, glyph, text_width, GLYPH_H, GLYPH_W};
use vgplay::raster::{colorref, column_range, fill_rect};
use vgplay::status::{status_line, TrackInfo};

#[test]
fn glyph_digits_and_letters() {
    assert_eq!(glyph('A'), [0b01110, 0b10001, 0b10001, 0b11111, 0b10001, 0b10001, 0b10001]);
    assert_eq!(glyph('1'), [0b00100, 0b01100, 0b00100, 0b00100, 0b00100, 0b00100, 0b01110]);
    assert_eq!(glyph(':'), [0b00000, 0b00100, 0b00100, 0b00000, 0b00100, 0b00100, 0b00000]);
    assert_eq!(glyph('/'), [0b00001, 0b00010, 0b00010, 0b00100, 0b01000, 0b01000, 0b10000]);
}

#[test]
fn glyph_unencoded_is_blank() {
    assert_eq!(glyph(' '), [0; 7]);
    assert_eq!(glyph('a'), [0; 7]);
    assert_eq!(glyph('#'), [0; 7]);
    assert_eq!(glyph('é'), [0; 7]);
}

#[test]
fn glyph_rows_fit_five_columns() {
    for c in "0123456789ABCDEFGHIJKLMNOPQRSTUVWXYZ:./".chars() {
        let rows = glyph(c);
        assert!(rows.iter().all(|r| *r < 32));
        assert!(rows.iter().any(|r| *r != 0), "{c} has ink");
    }
    assert_eq!(GLYPH_W, 5);
    assert_eq!(GLYPH_H, 7);
}

#[test]
fn fill_rect_fills_and_clips() {
    let mut buf = vec![0u32; 4 * 3];
    fill_rect(&mut buf, 4, 3, 1, 1, 3, 5, 7);
    let expected = vec![
        0, 0, 0, 0, //
        0, 7, 7, 0, //
        0, 7, 7, 0,
    ];
    assert_eq!(buf, expected);
}

#[test]
fn fill_rect_negative_and_empty() {
    let mut buf = vec![1u32; 3 * 2];
    fill_rect(&mut buf, 3, 2, -5, -5, 1, 1, 9);
    assert_eq!(buf, vec![9, 1, 1, 1, 1, 1]);
    let before = buf.clone();
    fill_rect(&mut buf, 3, 2, 2, 2, 1, 1, 4);
    assert_eq!(buf, before);
    fill_rect(&mut buf, 3, 2, 10, 0, 20, 2, 4);
    assert_eq!(buf, before);
}

fn ink_of(buf: &[u32], w: usize, x: usize, y: usize) -> bool {
    buf[y * w + x] != 0
}

#[test]
fn draw_text_one_glyph_at_scale_one() {
    let (w, h) = (6usize, 7usize);
    let mut buf = vec![0u32; w * h];
    draw_text(&mut buf, w as u32, h as u32, 0, 0, 1, 5, "1");
    let rows = glyph('1');
    for y in 0..h {
        for x in 0..w {
            let on = x < 5 && rows[y] & (1 << (4 - x)) != 0;
            assert_eq!(ink_of(&buf, w, x, y), on, "pixel {x},{y}");
            if on {
                assert_eq!(buf[y * w + x], 5);
            }
        }
    }
}

#[test]
fn draw_text_upper_cases() {
    let (w, h) = (12u32, 7u32);
    let mut lower = vec![0u32; 84];
    let mut upper = vec![0u32; 84];
    draw_text(&mut lower, w, h, 0, 0, 1, 3, "hz");
    draw_text(&mut upper, w, h, 0, 0, 1, 3, "HZ");
    assert_eq!(lower, upper);
    assert!(upper.iter().any(|p| *p == 3));
}

#[test]
fn draw_text_scale_two_blocks() {
    let (w, h) = (12u32, 14u32);
    let mut buf = vec![0u32; (w * h) as usize];
    draw_text(&mut buf, w, h, 0, 0, 2, 1, ".");
    // '.' has ink in rows 5 and 6, columns 2 and 3: pixels 4..8 × 10..14.
    for y in 0..h as usize {
        for x in 0..w as usize {
            let on = (4..8).contains(&x) && (10..14).contains(&y);
            assert_eq!(buf[y * 12 + x] == 1, on, "pixel {x},{y}");
        }
    }
}

#[test]
fn draw_text_stays_in_its_box() {
    let (w, h) = (40u32, 20u32);
    let mut buf = vec![0u32; (w * h) as usize];
    let (x, y, scale) = (3i32, 2i32, 2i32);
    let text = "1:05";
    draw_text(&mut buf, w, h, x, y, scale, 8, text);
    let width = text_width(text, scale);
    for (i, p) in buf.iter().enumerate() {
        if *p != 0 {
            let px = (i as i32) % (w as i32);
            let py = (i as i32) / (w as i32);
            assert!(x <= px && px < x + width);
            assert!(y <= py && py < y + GLYPH_H * scale);
        }
    }
}

#[test]
fn draw_text_clips_at_edges() {
    let mut buf = vec![0u32; 4 * 4];
    draw_text(&mut buf, 4, 4, -2, -3, 1, 6, "8");
    // '8' shifted up by 3 and left by 2: its row 3 (0b01110) lands on row 0 at
    // x -1..=1, its row 4 (0b10001) on row 1 at x -2 and 2.
    assert_eq!(&buf[0..4], &[6, 6, 0, 0]);
    assert_eq!(&buf[4..8], &[0, 0, 6, 0]);
    let mut empty = vec![0u32; 4];
    draw_text(&mut empty, 2, 2, 0, 0, 1, 6, "");
    assert_eq!(empty, vec![0; 4]);
}

#[test]
fn text_width_counts_characters() {
    assert_eq!(text_width("12:34", 2), 60);
    assert_eq!(text_width("", 3), 0);
    assert_eq!(text_width("é", 1), 6);
}

#[test]
fn fit_text_scale_cases() {
    // "abc" is 18 pixels wide at scale 1.
    assert_eq!(fit_text_scale(100, "abc", 4), 4);
    assert_eq!(fit_text_scale(40, "abc", 4), 2);
    assert_eq!(fit_text_scale(36, "abc", 4), 2);
    assert_eq!(fit_text_scale(35, "abc", 4), 1);
    assert_eq!(fit_text_scale(10, "abc", 4), 1);
    assert_eq!(fit_text_scale(0, "abc", 4), 1);
    assert_eq!(fit_text_scale(-7, "abc", 3), 1);
    assert_eq!(fit_text_scale(50, "", 3), 3);
}

#[test]
fn colorref_swaps_red_and_blue() {
    assert_eq!(colorref(0x123456), 0x563412);
    assert_eq!(colorref(0x00F5_F5F5), 0x00F5_F5F5);
    assert_eq!(colorref(0x003B_82F6), 0x00F6_823B);
    assert_eq!(colorref(0xFF00_0001), 0x0001_0000);
    assert_eq!(colorref(colorref(0x00AB_CDEF)), 0x00AB_CDEF);
}

#[test]
fn column_range_values() {
    assert_eq!(column_range(10, 0, 5), (0, 2));
    assert_eq!(column_range(10, 4, 5), (8, 10));
    assert_eq!(column_range(3, 1, 10), (0, 1));
    assert_eq!(column_range(3, 9, 10), (2, 3));
    assert_eq!(column_range(7, 2, 3), (4, 7));
}

#[test]
fn column_ranges_tile_the_envelope() {
    for &(n, cols) in &[(1usize, 1u32), (5, 17), (4096, 640), (3, 3), (1000, 999)] {
        let mut covered = vec![false; n];
        let mut prev_start = 0usize;
        for px in 0..cols {
            let (s, e) = column_range(n, px, cols);
            assert!(s < e && e <= n);
            assert!(s >= prev_start);
            prev_start = s;
            for b in s..e {
                covered[b] = true;
            }
        }
        assert_eq!(column_range(n, 0, cols).0, 0);
        assert_eq!(column_range(n, cols - 1, cols).1, n);
        assert!(covered.iter().all(|c| *c));
    }
}

#[test]
fn sound_status_lines_only_use_drawn_characters() {
    let infos = [
        None,
        Some(TrackInfo { sample_rate: 44100, channels: 2, bits: Some(16), duration_secs: 185 }),
        Some(TrackInfo { sample_rate: 8000, channels: 1, bits: None, duration_secs: 0 }),
        Some(TrackInfo { sample_rate: u32::MAX, channels: u16::MAX, bits: Some(u16::MAX), duration_secs: u64::MAX }),
    ];
    for name in ["a.wav", "B.Mp3", "clip.FLAC", "x.ogg"] {
        for info in infos.iter() {
            let line = status_line(name, info.as_ref(), 3599);
            for c in line.chars() {
                assert!(c == ' ' || glyph(c) != [0; 7], "{c:?} in {line}");
            }
        }
    }
}

#[test]
fn draw_text_needs_only_the_inked_pixels() {
    // The image is 100×100 but the buffer only holds its first row; text in
    // that row draws without touching the rest.
    let mut buf = vec![0u32; 100];
    draw_text(&mut buf, 100, 100, 0, -6, 1, 2, "1");
    // Row 6 of '1' is 0b01110.
    assert_eq!(&buf[0..6], &[0, 2, 2, 2, 0, 0]);
    assert!(buf[6..].iter().all(|p| *p == 0));
}

#[test]
fn draw_text_lower_and_upper_case_match() {
    for t in ["mono 1:05", "Stereo", "ok/."] {
        let mut a = vec![0u32; 60 * 8];
        let mut b = vec![0u32; 60 * 8];
        draw_text(&mut a, 60, 8, 1, 0, 1, 4, t);
        draw_text(&mut b, 60, 8, 1, 0, 1, 4, &t.to_ascii_uppercase());
        assert_eq!(a, b, "{t}");
    }
}
