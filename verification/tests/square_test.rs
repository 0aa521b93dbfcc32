use mirage::{render_square, square_pixel, SQUARE_SIZE};

fn pixel(buf: &[u8], x: u32, y: u32) -> (u8, u8, u8) {
    let base = (3 * (SQUARE_SIZE * y + x)) as usize;
    (buf[base], buf[base + 1], buf[base + 2])
}

#[test]
fn the_square_holds_three_bytes_per_pixel() {
    let buf = render_square(10, 20, 30);
    assert_eq!(buf.len(), (3 * SQUARE_SIZE * SQUARE_SIZE) as usize);
}

#[test]
fn the_corner_pixel_inverts_green_and_blue() {
    // (0, 0) is on the border (green inverted) and on the main diagonal
    // (blue inverted); red is always the base red.
    let buf = render_square(10, 20, 30);
    assert_eq!(pixel(&buf, 0, 0), (10, 255 - 20, 255 - 30));
}

#[test]
fn the_centre_pixel_sits_on_the_main_diagonal() {
    // (50, 50) is on no border row or column, so green keeps its base
    // value; but 50 == 50 puts it on the main diagonal, so blue is
    // inverted (50 + 50 is 100, not 99, so the other diagonal is not hit).
    let buf = render_square(10, 20, 30);
    assert_eq!(pixel(&buf, 50, 50), (10, 20, 255 - 30));
}

#[test]
fn an_inner_pixel_off_both_figures_keeps_the_base_colour() {
    let buf = render_square(10, 20, 30);
    assert_eq!(pixel(&buf, 50, 51), (10, 20, 30));
}

#[test]
fn the_far_corner_is_border_and_diagonal_at_once() {
    let buf = render_square(200, 100, 50);
    assert_eq!(pixel(&buf, 99, 99), (200, 255 - 100, 255 - 50));
    assert_eq!(pixel(&buf, 0, 99), (200, 255 - 100, 255 - 50));
}

#[test]
fn an_edge_pixel_off_the_diagonals_inverts_green_only() {
    let buf = render_square(1, 2, 3);
    assert_eq!(pixel(&buf, 0, 50), (1, 255 - 2, 3));
    assert_eq!(pixel(&buf, 50, 0), (1, 255 - 2, 3));
}

#[test]
fn square_pixel_agrees_with_the_rendered_buffer() {
    let buf = render_square(77, 66, 55);
    for &(x, y) in &[(0u32, 0u32), (1, 1), (42, 17), (99, 0), (98, 1), (50, 49)] {
        let (r, g, b) = square_pixel(77, 66, 55, x, y);
        assert_eq!(pixel(&buf, x, y), (r, g, b));
    }
}

#[test]
fn rendering_twice_gives_byte_identical_output() {
    assert_eq!(render_square(3, 141, 59), render_square(3, 141, 59));
}
