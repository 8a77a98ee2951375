use brimstone::blur::{
    box_widths, entering_index, filter_radius, leaving_index, lower_box_width, transpose_square,
    window_start,
};

#[test]
fn transpose_three_by_three() {
    let mut g = vec![1, 2, 3, 4, 5, 6, 7, 8, 9];
    transpose_square(&mut g, 3);
    assert_eq!(g, vec![1, 4, 7, 2, 5, 8, 3, 6, 9]);
}

#[test]
fn transpose_twice_is_identity() {
    let orig: Vec<f32> = (0..16).map(|i| i as f32 * 0.5).collect();
    let mut g = orig.clone();
    transpose_square(&mut g, 4);
    assert_ne!(g, orig);
    transpose_square(&mut g, 4);
    assert_eq!(g, orig);
}

#[test]
fn transpose_degenerate_sizes() {
    let mut empty: Vec<u8> = vec![];
    transpose_square(&mut empty, 0);
    assert!(empty.is_empty());
    let mut one = vec![7u8];
    transpose_square(&mut one, 1);
    assert_eq!(one, vec![7]);
}

#[test]
fn lower_box_width_is_odd() {
    assert_eq!(lower_box_width(1), 1);
    assert_eq!(lower_box_width(2), 1);
    assert_eq!(lower_box_width(5), 5);
    assert_eq!(lower_box_width(6), 5);
}

#[test]
fn box_widths_split_narrow_and_wide() {
    assert_eq!(box_widths(1, 3), [1, 1, 1]);
    assert_eq!(box_widths(3, 1), [3, 5, 5]);
    assert_eq!(box_widths(3, 2), [3, 3, 5]);
    assert_eq!(box_widths(3, 0), [5, 5, 5]);
    assert_eq!(box_widths(7, 9), [7, 7, 7]);
}

#[test]
fn zero_sigma_gives_unit_boxes() {
    // sigma = 0: ideal width sqrt(1) = 1, and the balancing count rounds to 3
    let wl = lower_box_width(1);
    assert_eq!(box_widths(wl, 3), [1, 1, 1]);
    assert_eq!(filter_radius(1), 0);
    assert_eq!(window_start(5, 0), vec![0]);
}

#[test]
fn radius_of_odd_widths() {
    assert_eq!(filter_radius(1), 0);
    assert_eq!(filter_radius(3), 1);
    assert_eq!(filter_radius(9), 4);
}

#[test]
fn window_start_replicates_edges() {
    assert_eq!(window_start(4, 2), vec![0, 0, 0, 1, 2]);
    assert_eq!(window_start(2, 3), vec![0, 0, 0, 0, 1, 1, 1]);
    assert_eq!(window_start(1, 1), vec![0, 0, 0]);
}

#[test]
fn entering_and_leaving_indices() {
    assert_eq!(entering_index(0, 1, 5), 2);
    assert_eq!(entering_index(3, 1, 5), 4);
    assert_eq!(entering_index(4, 1, 5), 4);
    assert_eq!(entering_index(2, 10, 5), 4);
    assert_eq!(leaving_index(0, 1, 5), 0);
    assert_eq!(leaving_index(1, 1, 5), 0);
    assert_eq!(leaving_index(4, 1, 5), 3);
}

fn direct_box_sums(row: &[i64], rd: usize) -> Vec<i64> {
    let w = row.len() as i64;
    (0..w)
        .map(|x| {
            (x - rd as i64..=x + rd as i64)
                .map(|i| row[i.clamp(0, w - 1) as usize])
                .sum()
        })
        .collect()
}

fn sliding_box_sums(row: &[i64], rd: usize) -> Vec<i64> {
    let w = row.len();
    let mut acc: i64 = window_start(w, rd).iter().map(|&i| row[i]).sum();
    let mut out = vec![];
    for x in 0..w {
        out.push(acc);
        acc += row[entering_index(x, rd, w)];
        acc -= row[leaving_index(x, rd, w)];
    }
    out
}

#[test]
fn sliding_sums_match_direct_sums() {
    let row: Vec<i64> = vec![3, -1, 4, 1, -5, 9, 2, 6];
    for rd in 0..12 {
        assert_eq!(sliding_box_sums(&row, rd), direct_box_sums(&row, rd));
    }
    assert_eq!(sliding_box_sums(&[5], 2), vec![25]);
}
