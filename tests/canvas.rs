use ascii_canvas::canvas::Canvas;

const W: u32 = 80;
const H: u32 = 22;

fn cell_of(canvas: &Canvas, i: usize) -> char {
    canvas.cells()[i]
}

fn changed_cells(before: &Canvas, after: &Canvas) -> Vec<usize> {
    let mut out = Vec::new();
    for i in 0..before.cells().len() {
        if before.cells()[i] != after.cells()[i] {
            out.push(i);
        }
    }
    out
}

#[test]
fn new_canvas_is_blank_with_terminators() {
    let canvas = Canvas::new(W, H);
    assert_eq!(canvas.width(), W);
    assert_eq!(canvas.height(), H);
    assert_eq!(canvas.cells().len(), (W * H) as usize);
    for i in 0..(W * H) as usize {
        let expected = if i % W as usize == W as usize - 1 { '\n' } else { ' ' };
        assert_eq!(cell_of(&canvas, i), expected, "cell {}", i);
    }
}

#[test]
fn map_coordinate_examples() {
    let canvas = Canvas::new(W, H);
    // bottom row is the last buffer row; x is one-based
    assert_eq!(canvas.map_coordinate(1, 0), (21 * 80) as usize);
    assert_eq!(canvas.map_coordinate(5, 0), (21 * 80 + 4) as usize);
    assert_eq!(canvas.map_coordinate(1, 21), 0);
    assert_eq!(canvas.map_coordinate(79, 21), 78);
    assert_eq!(canvas.map_coordinate(10, 3), (18 * 80 + 9) as usize);
}

#[test]
fn map_coordinate_outside_canvas() {
    let canvas = Canvas::new(W, H);
    // column W is the terminator column of each row
    assert_eq!(canvas.map_coordinate(W, 21), 79);
    assert_eq!(canvas.map_coordinate(W, 0), 1759);
    // rows above the top are measured from the top row
    assert_eq!(canvas.map_coordinate(3, H), 82);
    assert_eq!(canvas.map_coordinate(0, H + 7), 640);
    // a column past the terminator runs into the next buffer row
    assert_eq!(canvas.map_coordinate(W + 1, 5), 1360);
    // an index past the buffer falls on index 0
    assert_eq!(canvas.map_coordinate(W + 1, 0), 0);
    assert_eq!(canvas.map_coordinate(u32::MAX, u32::MAX), 0);
    assert_eq!(canvas.map_coordinate(5, 5), 1284);
    assert_eq!(canvas.map_coordinate(79, 0), 1758);
}

#[test]
fn map_coordinate_is_injective_on_visible_columns() {
    let canvas = Canvas::new(W, H);
    let mut seen = vec![false; (W * H) as usize];
    for y in 0..H {
        for x in 1..W {
            let i = canvas.map_coordinate(x, y);
            assert!(i < (W * H) as usize);
            assert!(!seen[i], "index {} repeated at ({}, {})", i, x, y);
            seen[i] = true;
        }
        assert!(canvas.map_coordinate(0, y) < (W * H) as usize);
    }
}

#[test]
fn map_coordinate_column_zero_equals_column_one() {
    let canvas = Canvas::new(W, H);
    for y in 0..H + 3 {
        assert_eq!(canvas.map_coordinate(0, y), canvas.map_coordinate(1, y));
    }
}

#[test]
fn draw_and_get_pixel() {
    let mut canvas = Canvas::new(W, H);
    canvas.draw_pixel(7, 3, '@');
    assert_eq!(canvas.get_pixel(7, 3), '@');
    assert_eq!(canvas.get_pixel(8, 3), ' ');
    let i = canvas.map_coordinate(7, 3);
    assert_eq!(cell_of(&canvas, i), '@');
}

#[test]
fn out_of_range_pixel_lands_on_index_zero_and_keeps_terminators() {
    let mut canvas = Canvas::new(W, H);
    canvas.draw_pixel(W, 4, 'x');
    assert_eq!(cell_of(&canvas, 0), 'x');
    for r in 0..H as usize {
        assert_eq!(cell_of(&canvas, r * W as usize + W as usize - 1), '\n');
    }
    canvas.draw_pixel(2, H + 1, 'y');
    assert_eq!(cell_of(&canvas, 0), 'y');
}

#[test]
fn point_line_sets_exactly_one_cell() {
    let before = Canvas::new(W, H);
    let mut after = Canvas::new(W, H);
    after.draw_line((12, 7), (12, 7), '*');
    let changed = changed_cells(&before, &after);
    assert_eq!(changed, vec![before.map_coordinate(12, 7)]);
    assert_eq!(after.get_pixel(12, 7), '*');
}

#[test]
fn horizontal_line_fills_bottom_row() {
    let mut canvas = Canvas::new(W, H);
    canvas.draw_line((0, 0), (W as i32 - 1, 0), '=');
    let base = ((H - 1) * W) as usize;
    for col in 0..(W - 1) as usize {
        assert_eq!(cell_of(&canvas, base + col), '=', "column {}", col);
    }
    assert_eq!(cell_of(&canvas, base + W as usize - 1), '\n');
    // nothing above the bottom row changed
    for i in 0..base {
        let expected = if i % W as usize == W as usize - 1 { '\n' } else { ' ' };
        assert_eq!(cell_of(&canvas, i), expected);
    }
}

#[test]
fn vertical_and_reversed_lines() {
    let mut canvas = Canvas::new(W, H);
    canvas.draw_line((10, 15), (10, 2), '|');
    for y in 2..=15 {
        assert_eq!(canvas.get_pixel(10, y), '|');
    }
    assert_eq!(canvas.get_pixel(10, 1), ' ');
    assert_eq!(canvas.get_pixel(10, 16), ' ');
    let mut forward = Canvas::new(W, H);
    forward.draw_line((3, 4), (9, 7), '.');
    let mut count = 0;
    for c in forward.cells() {
        if *c == '.' {
            count += 1;
        }
    }
    assert_eq!(count, 7);
}

#[test]
fn diagonal_line_on_80_by_20_is_gapless() {
    let before = Canvas::new(80, 20);
    let mut canvas = Canvas::new(80, 20);
    canvas.draw_line((0, 0), (79, 19), '#');
    let changed = changed_cells(&before, &canvas);
    // 80 points are plotted; (0, 0) and (1, 0) share a cell, so 79 cells change
    assert_eq!(changed.len(), 79);
    assert_eq!(canvas.get_pixel(0, 0), '#');
    assert_eq!(canvas.get_pixel(79, 19), '#');
    // every visible column 1..=79 holds exactly one plotted cell, and the rows
    // of neighbouring columns differ by at most one
    let mut prev_row: Option<usize> = None;
    for x in 1..80u32 {
        let mut rows = Vec::new();
        for y in 0..20u32 {
            if canvas.get_pixel(x, y) == '#' {
                rows.push(y as usize);
            }
        }
        assert_eq!(rows.len(), 1, "column {}", x);
        if let Some(p) = prev_row {
            assert!(rows[0] >= p && rows[0] - p <= 1);
        }
        prev_row = Some(rows[0]);
    }
}

#[test]
fn circle_radius_five_stays_near_radius() {
    let (cx, cy) = (30i32, 11i32);
    let before = Canvas::new(W, H);
    let mut canvas = Canvas::new(W, H);
    canvas.draw_circle((cx, cy), 5, 'o');
    let changed = changed_cells(&before, &canvas);
    assert!(!changed.is_empty());
    for i in changed {
        let row = i / W as usize;
        let col = i % W as usize;
        let x = col as f64 + 1.0;
        let y = (H as usize - 1 - row) as f64;
        let dist = ((x - cx as f64).powi(2) + (y - cy as f64).powi(2)).sqrt();
        assert!((dist.round() - 5.0).abs() <= 1.0, "({}, {}) at distance {}", x, y, dist);
    }
    for (x, y) in [(cx, cy + 5), (cx, cy - 5), (cx + 5, cy), (cx - 5, cy), (cx + 1, cy + 5), (cx + 3, cy + 3)] {
        assert_eq!(canvas.get_pixel(x as u32, y as u32), 'o', "({}, {})", x, y);
    }
    assert_eq!(canvas.get_pixel(cx as u32, cy as u32), ' ');
}

#[test]
fn circle_radius_zero_plots_center() {
    let before = Canvas::new(W, H);
    let mut canvas = Canvas::new(W, H);
    canvas.draw_circle((40, 10), 0, '+');
    let changed = changed_cells(&before, &canvas);
    assert_eq!(changed, vec![before.map_coordinate(40, 10)]);
}

#[test]
fn circle_negative_radius_plots_nothing() {
    let before = Canvas::new(W, H);
    let mut canvas = Canvas::new(W, H);
    canvas.draw_circle((40, 10), -3, '+');
    assert!(changed_cells(&before, &canvas).is_empty());
}

#[test]
fn circle_partly_off_canvas_writes_index_zero() {
    let mut canvas = Canvas::new(W, H);
    canvas.draw_circle((2, 2), 4, '#');
    assert_eq!(cell_of(&canvas, 0), '#');
    assert_eq!(canvas.get_pixel(6, 2), '#');
    for r in 0..H as usize {
        assert_eq!(cell_of(&canvas, r * W as usize + W as usize - 1), '\n');
    }
}

#[test]
fn clear_canvas_resets_every_cell() {
    let mut canvas = Canvas::new(W, H);
    canvas.draw_circle((25, 11), 10, '#');
    canvas.draw_line((0, 0), (79, 21), '*');
    canvas.draw_pixel(W, 0, '!');
    canvas.clear_canvas();
    let fresh = Canvas::new(W, H);
    assert_eq!(canvas.cells(), fresh.cells());
    for y in 0..H {
        for x in 0..W {
            assert_eq!(canvas.get_pixel(x, y), ' ');
        }
        assert_eq!(canvas.get_pixel(W, y), '\n');
    }
    for y in 0..H + 2 {
        for x in 0..W + 2 {
            let i = canvas.map_coordinate(x, y);
            let expected = if i % W as usize == W as usize - 1 { '\n' } else { ' ' };
            assert_eq!(canvas.get_pixel(x, y), expected);
        }
    }
}

#[test]
fn frame_holds_reset_sequence_buffer_and_newline() {
    let mut canvas = Canvas::new(4, 2);
    canvas.draw_pixel(1, 0, 'a');
    canvas.draw_pixel(3, 1, 'b');
    let text: String = canvas.frame().into_iter().collect();
    assert_eq!(text, "\x1B[2J\x1B[1;1H  b\na  \n\n");
}
