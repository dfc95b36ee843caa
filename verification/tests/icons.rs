use bluetooth_monitor::theme::{accent_for, draw_glyph_strokes, paint_px, tray_icon_argb, Accent};

#[test]
fn argb_reorders_pixels() {
    let rgba = [1u8, 2, 3, 4, 5, 6, 7, 8, 9];
    assert_eq!(tray_icon_argb(&rgba), vec![4, 1, 2, 3, 8, 5, 6, 7]);
    assert!(tray_icon_argb(&[]).is_empty());
}

#[test]
fn paint_pixel_in_and_out_of_bounds() {
    let mut px = vec![0u8; 2 * 2 * 4];
    paint_px(&mut px, 2, 1, 1);
    assert_eq!(&px[12..16], &[255, 255, 255, 255]);
    assert!(px[..12].iter().all(|b| *b == 0));
    paint_px(&mut px, 2, 0, 2);
    assert!(px[..12].iter().all(|b| *b == 0));
}

fn white(px: &[u8], w: usize, x: usize, y: usize) -> bool {
    let i = (y * w + x) * 4;
    px[i..i + 4] == [255, 255, 255, 255]
}

#[test]
fn thin_diagonal_line() {
    let (w, h) = (5usize, 5usize);
    let mut px = vec![0u8; w * h * 4];
    bluetooth_monitor::theme::line(&mut px, w, h, 0, 0, 4, 4, 1);
    for y in 0..h {
        for x in 0..w {
            assert_eq!(white(&px, w, x, y), x == y, "pixel {x},{y}");
        }
    }
}

#[test]
fn shallow_line_and_single_point() {
    let (w, h) = (6usize, 3usize);
    let mut px = vec![0u8; w * h * 4];
    bluetooth_monitor::theme::line(&mut px, w, h, 0, 0, 5, 2, 1);
    let lit: Vec<(usize, usize)> =
        (0..h).flat_map(|y| (0..w).map(move |x| (x, y))).filter(|&(x, y)| white(&px, w, x, y)).collect();
    assert_eq!(lit, vec![(0, 0), (1, 0), (2, 1), (3, 1), (4, 2), (5, 2)]);
    let mut dot = vec![0u8; 9 * 4];
    bluetooth_monitor::theme::line(&mut dot, 3, 3, 1, 1, 1, 1, 3);
    assert!(dot.iter().all(|b| *b == 255));
}

#[test]
fn line_is_clipped_to_the_image() {
    let (w, h) = (3usize, 3usize);
    let mut px = vec![0u8; w * h * 4];
    bluetooth_monitor::theme::line(&mut px, w, h, 0, 1, 10, 1, 1);
    for x in 0..w {
        assert!(white(&px, w, x, 1));
        assert!(!white(&px, w, x, 0));
    }
}

#[test]
fn glyph_only_paints_white() {
    let (w, h) = (22usize, 22usize);
    let mut px = vec![7u8; w * h * 4];
    draw_glyph_strokes(&mut px, w, h, 2, 6, 15, 3, 18, 7, 14);
    assert!(px.iter().all(|b| *b == 7 || *b == 255));
    assert!(white(&px, w, 10, 3));
    assert!(white(&px, w, 11, 18));
    assert!(white(&px, w, 15, 7));
}

#[test]
fn accent_cycle() {
    let got: Vec<Accent> = (0..8).map(accent_for).collect();
    assert_eq!(
        got,
        vec![
            Accent::Teal,
            Accent::Coral,
            Accent::Yellow,
            Accent::Orange,
            Accent::Purple,
            Accent::Pink,
            Accent::Teal,
            Accent::Coral
        ]
    );
}
