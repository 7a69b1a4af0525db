use tron::raster::{draw_cross, draw_line, line_points, put_pixel};

#[test]
fn put_pixel_sets_three_bytes_inside_only() {
    let mut rgb = vec![0u8; 2 * 2 * 3];
    put_pixel(&mut rgb, 2, 1, 1, [1, 2, 3]);
    assert_eq!(&rgb[9..12], &[1, 2, 3]);
    put_pixel(&mut rgb, 2, 2, 0, [9, 9, 9]);
    put_pixel(&mut rgb, 2, -1, 0, [9, 9, 9]);
    assert_eq!(rgb.iter().filter(|&&b| b == 9).count(), 0);
}

#[test]
fn bresenham_lines_reach_both_ends() {
    assert_eq!(line_points(0, 0, 3, 1), vec![(0, 0), (1, 0), (2, 1), (3, 1)]);
    assert_eq!(line_points(2, 2, 2, 2), vec![(2, 2)]);
    assert_eq!(line_points(3, 0, 0, 3), vec![(3, 0), (2, 1), (1, 2), (0, 3)]);
    assert_eq!(line_points(0, 5, 0, 2), vec![(0, 5), (0, 4), (0, 3), (0, 2)]);
    let long = line_points(-10, 4, 37, -20);
    assert_eq!(long.first(), Some(&(-10, 4)));
    assert_eq!(long.last(), Some(&(37, -20)));
    assert_eq!(long.len(), 48);
}

#[test]
fn lines_and_crosses_are_drawn() {
    let mut rgb = vec![0u8; 4 * 4 * 3];
    draw_line(&mut rgb, 4, 0, 0, 3, 3, [255, 0, 0]);
    for k in 0..4 {
        assert_eq!(rgb[(k * 4 + k) * 3], 255);
    }
    let mut rgb = vec![0u8; 8 * 8 * 3];
    draw_cross(&mut rgb, 8, 4, 4, [0, 7, 0]);
    let lit = (0..64).filter(|p| rgb[p * 3 + 1] == 7).count();
    assert_eq!(lit, 13);
}

#[test]
fn ppm_header_names_the_size_twice() {
    assert_eq!(tron::raster::ppm_header(224), "P6\n224 224\n255\n");
    assert_eq!(tron::raster::ppm_header(0), "P6\n0 0\n255\n");
}

#[test]
fn lines_near_the_ends_of_i32() {
    assert_eq!(
        line_points(i32::MAX - 3, i32::MIN, i32::MAX, i32::MIN + 1),
        vec![(i32::MAX - 3, i32::MIN), (i32::MAX - 2, i32::MIN), (i32::MAX - 1, i32::MIN + 1), (i32::MAX, i32::MIN + 1)]
    );
}
