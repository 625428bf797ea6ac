use spinny::canvas::{blank_canvas, plot, BLANK, INK};
use spinny::renderer::{draw_line, render, ScreenPoint};

fn grid(lines: &[&str]) -> Vec<Vec<char>> {
    lines
        .iter()
        .map(|l| l.chars().map(|c| if c == '#' { INK } else { BLANK }).collect())
        .collect()
}

fn square(a: (i32, i32), b: (i32, i32), c: (i32, i32), d: (i32, i32)) -> Vec<ScreenPoint> {
    vec![
        ScreenPoint::new(a.0, a.1),
        ScreenPoint::new(b.0, b.1),
        ScreenPoint::new(c.0, c.1),
        ScreenPoint::new(d.0, d.1),
    ]
}

#[test]
fn unit_square_renders_hollow_rectangle() {
    // (100,100,0)..(100,-100,0) on a 20x10 canvas at scale 0.01 projects to
    // columns 10 +/- 2 and rows 5 -/+ 1.
    let faces = vec![square((12, 4), (8, 4), (8, 6), (12, 6))];
    let canvas = render(&faces, 20, 10);
    let expected = grid(&[
        "                    ",
        "                    ",
        "                    ",
        "                    ",
        "        #####       ",
        "        #   #       ",
        "        #####       ",
        "                    ",
        "                    ",
        "                    ",
    ]);
    assert_eq!(canvas, expected);
}

#[test]
fn two_cube_faces_overlap_on_small_canvas() {
    // the front and back faces of the +/-100 cube, 14x8 canvas, scale 0.01
    let faces = vec![
        square((9, 3), (5, 3), (5, 5), (9, 5)),
        square((9, 3), (5, 3), (5, 5), (9, 5)),
    ];
    let canvas = render(&faces, 14, 8);
    let expected = grid(&[
        "              ",
        "              ",
        "              ",
        "     #####    ",
        "     #   #    ",
        "     #####    ",
        "              ",
        "              ",
    ]);
    assert_eq!(canvas, expected);
}

#[test]
fn degenerate_faces_render_nothing() {
    let faces = vec![vec![], vec![ScreenPoint::new(3, 2)]];
    let canvas = render(&faces, 6, 4);
    assert_eq!(canvas, blank_canvas(6, 4));
    assert!(canvas.iter().all(|row| row.iter().all(|&c| c == BLANK)));
}

#[test]
fn two_point_face_draws_its_segment() {
    let faces = vec![vec![ScreenPoint::new(1, 1), ScreenPoint::new(4, 1)]];
    let canvas = render(&faces, 6, 3);
    let expected = grid(&["      ", " #### ", "      "]);
    assert_eq!(canvas, expected);
}

#[test]
fn canvas_has_requested_shape() {
    let faces = vec![square((-50, -50), (50, -50), (50, 50), (-50, 50))];
    for &(w, h) in &[(0usize, 0usize), (1, 1), (50, 25), (7, 0), (0, 7), (3, 9)] {
        let canvas = render(&faces, w, h);
        assert_eq!(canvas.len(), h);
        assert!(canvas.iter().all(|row| row.len() == w));
    }
}

#[test]
fn shallow_line_steps_like_bresenham() {
    let mut canvas = blank_canvas(6, 3);
    draw_line(&mut canvas, ScreenPoint::new(0, 0), ScreenPoint::new(5, 2));
    let expected = grid(&["##    ", "  ##  ", "    ##"]);
    assert_eq!(canvas, expected);
}

#[test]
fn steep_line_reversed_direction() {
    let mut canvas = blank_canvas(3, 5);
    draw_line(&mut canvas, ScreenPoint::new(2, 4), ScreenPoint::new(0, 0));
    let expected = grid(&["#  ", " # ", " # ", "  #", "  #"]);
    assert_eq!(canvas, expected);
}

#[test]
fn diagonal_line() {
    let mut canvas = blank_canvas(4, 4);
    draw_line(&mut canvas, ScreenPoint::new(0, 3), ScreenPoint::new(3, 0));
    let expected = grid(&["   #", "  # ", " #  ", "#   "]);
    assert_eq!(canvas, expected);
}

#[test]
fn line_off_canvas_is_clipped() {
    let mut canvas = blank_canvas(4, 3);
    draw_line(&mut canvas, ScreenPoint::new(-3, 1), ScreenPoint::new(10, 1));
    let expected = grid(&["    ", "####", "    "]);
    assert_eq!(canvas, expected);
    let mut other = blank_canvas(4, 3);
    draw_line(&mut other, ScreenPoint::new(-5, -5), ScreenPoint::new(-1, -9));
    assert_eq!(other, blank_canvas(4, 3));
}

#[test]
fn single_cell_line() {
    let mut canvas = blank_canvas(3, 3);
    draw_line(&mut canvas, ScreenPoint::new(1, 2), ScreenPoint::new(1, 2));
    assert_eq!(canvas, grid(&["   ", "   ", " # "]));
}

#[test]
fn plot_inside_and_outside() {
    let mut canvas = blank_canvas(2, 2);
    plot(&mut canvas, 1, 0);
    plot(&mut canvas, 2, 0);
    plot(&mut canvas, 0, -1);
    plot(&mut canvas, i64::MAX, i64::MIN);
    assert_eq!(canvas, grid(&[" #", "  "]));
}

#[test]
fn blank_canvas_is_blank() {
    let canvas = blank_canvas(3, 2);
    assert_eq!(canvas, vec![vec![' '; 3]; 2]);
    assert_eq!(INK, '█');
}
