use brimstone::render::{render, render_row};

#[test]
fn constant_colour_fills_uniformly() {
    let colour = (0.25f32, 0.5f32, 0.75f32);
    let mut buf = vec![(0.0f32, 0.0f32, 0.0f32); 16];
    render(4, 4, &mut buf, &|_x: usize, _y: usize| colour);
    assert!(buf.iter().all(|&c| c == colour));
}

#[test]
fn pixels_are_row_major() {
    let mut buf = vec![(0usize, 0usize); 6];
    render(3, 2, &mut buf, &|x: usize, y: usize| (x, y));
    assert_eq!(buf, vec![(0, 0), (1, 0), (2, 0), (0, 1), (1, 1), (2, 1)]);
}

#[test]
fn empty_image_renders_nothing() {
    let mut buf: Vec<u8> = vec![];
    render(0, 5, &mut buf, &|_x: usize, _y: usize| 1u8);
    assert!(buf.is_empty());
}

#[test]
fn row_gets_its_own_y() {
    let mut row = vec![0u32; 4];
    render_row(&mut row, 7, &|x: usize, y: usize| (10 * y + x) as u32);
    assert_eq!(row, vec![70, 71, 72, 73]);
}
