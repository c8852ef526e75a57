use asciibrot::evaluator::EscapeRule;
use asciibrot::quaternion::SCALE;
use asciibrot::renderer::{sample_ranges, Mode, RenderError, Renderer, Viewport};
use asciibrot::sampler::StepRange;

fn standard(mode: Mode) -> Renderer {
    Renderer::new(EscapeRule::Mandelbrot, mode, 1000, 2 * SCALE)
}

#[test]
fn member_pixel_is_filled_glyph() {
    let mut r = standard(Mode::Boolean);
    assert_eq!(r.render_pixel(0, 0), '*');
}

#[test]
fn escaping_pixel_is_background_glyph() {
    let mut r = standard(Mode::Boolean);
    assert_eq!(r.render_pixel(3 * SCALE, 0), ' ');
}

#[test]
fn depth_mode_buckets_divergence() {
    let mut r = standard(Mode::Depth);
    // position 1 of 1000 lands in the shallowest bucket
    assert_eq!(r.render_pixel(3 * SCALE, 0), '0');
    // members show the background glyph in depth mode
    assert_eq!(r.render_pixel(0, 0), ' ');
}

#[test]
fn render_preserves_row_and_column_order() {
    let mut r = standard(Mode::Boolean);
    let xs = StepRange::new(-2 * SCALE, 2 * SCALE, SCALE);
    let ys = StepRange::new(-SCALE, SCALE, SCALE);
    let screen = r.render(xs, ys);
    // rows walk the reverse range: y = SCALE first, then 0
    assert_eq!(screen.len(), 2);
    for line in &screen {
        assert_eq!(line.chars().count(), 4);
    }
    // row 1 is y = 0: the origin column is a member, the far left is not
    let middle: Vec<char> = screen[1].chars().collect();
    assert_eq!(middle[2], '*');
    assert_eq!(middle[0], ' ');
}

#[test]
fn render_twice_is_byte_identical() {
    let mut r = standard(Mode::Depth);
    let v = Viewport { x: -2 * SCALE, y: SCALE, width: 4 * SCALE, height: 2 * SCALE };
    let (xs1, ys1) = sample_ranges(v, 20, 10).unwrap();
    let first = r.render(xs1, ys1);
    let (xs2, ys2) = sample_ranges(v, 20, 10).unwrap();
    let second = r.render(xs2, ys2);
    assert_eq!(first, second);
    // and a fresh rasterizer with the same settings agrees too
    let mut fresh = standard(Mode::Depth);
    let (xs3, ys3) = sample_ranges(v, 20, 10).unwrap();
    assert_eq!(fresh.render(xs3, ys3), first);
}

#[test]
fn sample_ranges_rejects_degenerate_inputs() {
    let good = Viewport { x: 0, y: 0, width: 100, height: 50 };
    assert_eq!(
        sample_ranges(Viewport { width: 0, ..good }, 10, 10),
        Err(RenderError::DegenerateViewport)
    );
    assert_eq!(
        sample_ranges(Viewport { height: -5, ..good }, 10, 10),
        Err(RenderError::DegenerateViewport)
    );
    assert_eq!(sample_ranges(good, 2, 10), Err(RenderError::DegenerateViewport));
    assert_eq!(sample_ranges(good, 10, 0), Err(RenderError::DegenerateViewport));
    // resolution rounds to zero: width smaller than the usable column count
    assert_eq!(sample_ranges(good, 200, 10), Err(RenderError::DegenerateViewport));
}

#[test]
fn sample_ranges_builds_both_walks() {
    let v = Viewport { x: 0, y: 0, width: 100, height: 50 };
    let (mut xs, mut ys) = sample_ranges(v, 12, 7).unwrap();
    assert_eq!(xs.collect_forward(), vec![0, 10, 20, 30, 40, 50, 60, 70, 80, 90]);
    assert_eq!(ys.collect_reverse(), vec![0, -10, -20, -30, -40]);
}

#[test]
fn grid_dimensions_follow_sampling() {
    let mut r = standard(Mode::Boolean);
    let v = Viewport { x: -2 * SCALE, y: SCALE, width: 4 * SCALE, height: 2 * SCALE };
    // resolutions divide evenly: 4 usable columns and rows of one unit each
    let (xs, ys) = sample_ranges(v, 6, 6).unwrap();
    let screen = r.render(xs, ys);
    assert_eq!(screen.len(), 4);
    for line in &screen {
        assert_eq!(line.chars().count(), 4);
    }
}
