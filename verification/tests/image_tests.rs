use pepper::math::{new_point, DynMatrix};
use pepper::Color;
use pepper::Image;

fn black() -> Color {
    Color::new(0, 0, 0)
}

fn white() -> Color {
    Color::new(255, 255, 255)
}

fn lit_pixels(img: &Image, w: i32, h: i32) -> Vec<(i32, i32)> {
    let mut lit = Vec::new();
    for x in 0..w {
        for y in 0..h {
            if img.get_pixel(x, y) != black() {
                lit.push((x, y));
            }
        }
    }
    lit
}

#[test]
fn new_fills_background() {
    let img = Image::new(3, 2, white());
    for x in 0..3 {
        for y in 0..2 {
            assert_eq!(img.get_pixel(x, y), white());
        }
    }
}

#[test]
fn plot_and_reset() {
    let mut img = Image::new(4, 4, black());
    img.plot(1, 2, white());
    assert_eq!(img.get_pixel(1, 2), white());
    assert_eq!(img.get_pixel(2, 1), black());
    img.reset(black());
    assert_eq!(img.get_pixel(1, 2), black());
}

#[test]
fn horizontal_line_endpoint_inclusion() {
    // The segment (0,0)-(5,0) plots both endpoints and every column between,
    // each exactly once, with y constant at 0.
    let mut img = Image::new(10, 10, black());
    img.draw_line(0, 0, 5, 0, white());
    let mut expected = Vec::new();
    for x in 0..=5 {
        expected.push((x, 0));
    }
    assert_eq!(lit_pixels(&img, 10, 10), expected);
}

#[test]
fn diagonal_symmetry_both_directions() {
    // Drawing (0,0)->(10,10) and (10,10)->(0,0) gives the identical raster.
    let mut a = Image::new(12, 12, black());
    let mut b = Image::new(12, 12, black());
    a.draw_line(0, 0, 10, 10, white());
    b.draw_line(10, 10, 0, 0, white());
    assert_eq!(a.to_ppm(), b.to_ppm());
}

#[test]
fn shallow_rising_walk_is_exact() {
    // Class with slope in [0, 1]: the incremental-error walk for
    // (0,0)->(3,1) visits exactly these pixels, in this pattern.
    let mut img = Image::new(8, 8, black());
    img.draw_line(0, 0, 3, 1, white());
    assert_eq!(lit_pixels(&img, 8, 8), vec![(0, 0), (1, 0), (2, 1), (3, 1)]);
}

#[test]
fn steep_rising_walk_is_exact() {
    // Class with slope above 1: the walk for (0,0)->(1,3) stays on column 0
    // and stops short of the far endpoint, exactly as the error rule says.
    let mut img = Image::new(8, 8, black());
    img.draw_line(0, 0, 1, 3, white());
    assert_eq!(lit_pixels(&img, 8, 8), vec![(0, 0), (0, 1), (0, 2), (0, 3)]);
}

#[test]
fn steep_falling_walk_is_exact() {
    // Class with slope below -1: the walk for (0,5)->(1,2).
    let mut img = Image::new(8, 8, black());
    img.draw_line(0, 5, 1, 2, white());
    assert_eq!(lit_pixels(&img, 8, 8), vec![(0, 2), (0, 3), (0, 4), (0, 5)]);
}

#[test]
fn shallow_falling_walk_is_exact() {
    // Class with slope in [-1, 0): the walk for (0,5)->(3,4) dips one row
    // below the lower endpoint, exactly as the error rule says.
    let mut img = Image::new(8, 8, black());
    img.draw_line(0, 5, 3, 4, white());
    assert_eq!(lit_pixels(&img, 8, 8), vec![(0, 5), (1, 4), (2, 3), (3, 3)]);
}

#[test]
fn vertical_line_up_plots_all_rows() {
    let mut img = Image::new(8, 8, black());
    img.draw_line(2, 1, 2, 4, white());
    assert_eq!(lit_pixels(&img, 8, 8), vec![(2, 1), (2, 2), (2, 3), (2, 4)]);
}

#[test]
fn vertical_line_down_plots_nothing() {
    // The vertical class never reorders its endpoints: walked downward it
    // stops at once.
    let mut img = Image::new(8, 8, black());
    img.draw_line(2, 4, 2, 1, white());
    assert_eq!(lit_pixels(&img, 8, 8), Vec::new());
}

#[test]
fn zero_length_line_plots_start_pixel() {
    let mut img = Image::new(8, 8, black());
    img.draw_line(3, 3, 3, 3, white());
    assert_eq!(lit_pixels(&img, 8, 8), vec![(3, 3)]);
}

#[test]
fn draw_lines_walks_edge_pairs() {
    let mut edges = DynMatrix::new(0, 4);
    edges.add_edge(&new_point(0, 0, 0), &new_point(5, 0, 0));
    edges.add_edge(&new_point(2, 1, 0), &new_point(2, 3, 0));
    let mut img = Image::new(10, 10, black());
    img.draw_lines(&edges, white());
    let lit = lit_pixels(&img, 10, 10);
    for x in 0..=5 {
        assert!(lit.contains(&(x, 0)));
    }
    for y in 1..=3 {
        assert!(lit.contains(&(2, y)));
    }
    assert_eq!(lit.len(), 9);
}

#[test]
fn y_axis_points_up() {
    // Pixel (0, 0) is the image's geometric bottom-left, so it lands in the
    // last serialized row; increasing y moves toward the top scan row.
    let mut img = Image::new(2, 2, black());
    img.plot(0, 1, white());
    let text = img.to_ppm();
    assert_eq!(text, "P3\n2 2\n255\n255 255 255 0 0 0 0 0 0 0 0 0 ");
}

#[test]
fn serialization_shape() {
    // A 3-by-2 buffer serializes to a header declaring "3 2" and exactly
    // 3 * 2 color triples.
    let img = Image::new(3, 2, Color::new(1, 2, 3));
    let text = img.to_ppm();
    assert_eq!(text, "P3\n3 2\n255\n1 2 3 1 2 3 1 2 3 1 2 3 1 2 3 1 2 3 ");
    let tokens: Vec<&str> = text.split_whitespace().collect();
    // Header: format name, width, height, max channel value.
    assert_eq!(tokens[0], "P3");
    assert_eq!(tokens[1], "3");
    assert_eq!(tokens[2], "2");
    assert_eq!(tokens[3], "255");
    assert_eq!(tokens.len(), 4 + 3 * 3 * 2);
}

#[test]
fn serialization_multi_digit_dimensions() {
    let img = Image::new(12, 1, black());
    let text = img.to_ppm();
    assert!(text.starts_with("P3\n12 1\n255\n"));
    assert_eq!(text.split_whitespace().count(), 4 + 3 * 12);
}
