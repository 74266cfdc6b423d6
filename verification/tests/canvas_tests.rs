use jepa::canvas::{draw_disc, draw_thick_line, Canvas, Color};

const BLACK: Color = Color { r: 0, g: 0, b: 0 };
const WHITE: Color = Color { r: 255, g: 255, b: 255 };

fn canvas(w: u32, h: u32) -> Canvas {
    Canvas::from_pixels(w, h, vec![BLACK; (w * h) as usize]).unwrap()
}

fn painted(c: Canvas) -> Vec<(u32, u32)> {
    let w = c.width_px();
    c.into_pixels()
        .iter()
        .enumerate()
        .filter(|(_, p)| **p == WHITE)
        .map(|(i, _)| (i as u32 % w, i as u32 / w))
        .collect()
}

#[test]
fn pixels_must_match_the_size() {
    assert!(Canvas::from_pixels(2, 2, vec![BLACK; 3]).is_none());
    assert!(Canvas::from_pixels(0, 5, Vec::new()).is_some());
}

#[test]
fn discs_are_filled_and_clipped() {
    let mut c = canvas(5, 5);
    draw_disc(&mut c, 2, 2, 1, WHITE);
    assert_eq!(painted(c), vec![(2, 1), (1, 2), (2, 2), (3, 2), (2, 3)]);
    let mut c = canvas(3, 3);
    draw_disc(&mut c, 0, 0, 1, WHITE);
    assert_eq!(painted(c), vec![(0, 0), (1, 0), (0, 1)]);
    let mut c = canvas(3, 3);
    draw_disc(&mut c, 1, 1, -1, WHITE);
    assert!(painted(c).is_empty());
    let mut c = canvas(3, 3);
    draw_disc(&mut c, i32::MIN, i32::MAX, 2, WHITE);
    assert!(painted(c).is_empty());
}

#[test]
fn thick_lines_cover_both_ends() {
    let mut c = canvas(8, 3);
    draw_thick_line(&mut c, (1, 1), (6, 1), 0, WHITE);
    assert_eq!(painted(c), vec![(1, 1), (2, 1), (3, 1), (4, 1), (5, 1), (6, 1)]);
    let mut c = canvas(4, 4);
    draw_thick_line(&mut c, (0, 0), (3, 3), 0, WHITE);
    assert_eq!(painted(c), vec![(0, 0), (1, 1), (2, 2), (3, 3)]);
    // Centres are rounded half away from zero: (0,0)->(1,2) passes (0.5, 1) -> (1, 1).
    let mut c = canvas(3, 3);
    draw_thick_line(&mut c, (0, 0), (1, 2), 0, WHITE);
    assert_eq!(painted(c), vec![(0, 0), (1, 1), (1, 2)]);
}
