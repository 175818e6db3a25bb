use aco_walk::aco::ACOMap;
use aco_walk::screen::{ScreenLength, ScreenPoint};

fn pixels(point: ScreenPoint) -> (f32, f32) {
    (
        point.x_num as f32 / point.x_den as f32,
        point.y_num as f32 / point.y_den as f32,
    )
}

fn with_floats(width: usize, height: usize, window: (usize, usize), v: (usize, usize)) -> (f32, f32) {
    let x_spacing = window.0 as f32 / width as f32;
    let y_spacing = window.1 as f32 / height as f32;
    (
        x_spacing / 2.0 + v.0 as f32 * x_spacing,
        y_spacing / 2.0 + v.1 as f32 * y_spacing,
    )
}

#[test]
fn coordinates_on_three_by_three() {
    let map = ACOMap::new(3, 3, 500_000).unwrap();
    let point = map.get_vertice_coordinates((1200, 1200), (0, 0));
    assert_eq!(point, ScreenPoint { x_num: 1200, x_den: 6, y_num: 1200, y_den: 6 });
    assert_eq!(pixels(point), (200.0, 200.0));
    let point = map.get_vertice_coordinates((1200, 1200), (1, 2));
    assert_eq!(point, ScreenPoint { x_num: 3600, x_den: 6, y_num: 6000, y_den: 6 });
    assert_eq!(pixels(point), (600.0, 1000.0));
    let point = map.get_vertice_coordinates((1200, 1200), (2, 1));
    assert_eq!(pixels(point), (1000.0, 600.0));
}

#[test]
fn coordinates_on_square_cells_of_a_large_grid() {
    let map = ACOMap::new(100, 8, 500_000).unwrap();
    let point = map.get_vertice_coordinates((1200, 96), (7, 7));
    assert_eq!(point, ScreenPoint { x_num: 18_000, x_den: 200, y_num: 1440, y_den: 16 });
    assert_eq!(pixels(point), (90.0, 90.0));
}

#[test]
fn coordinates_agree_with_the_spacing_in_floats() {
    let (width, height) = (20, 15);
    let window = (1200, 1000);
    let map = ACOMap::new(width, height, 500_000).unwrap();
    for x in 0..width {
        for y in 0..height {
            let (px, py) = pixels(map.get_vertice_coordinates(window, (x, y)));
            let (fx, fy) = with_floats(width, height, window, (x, y));
            assert!((px - fx).abs() < 0.01);
            assert!((py - fy).abs() < 0.01);
        }
    }
}

#[test]
fn coordinates_in_a_window_that_is_wider_than_high() {
    let map = ACOMap::new(2, 3, 500_000).unwrap();
    let point = map.get_vertice_coordinates((800, 100), (1, 2));
    assert_eq!(point, ScreenPoint { x_num: 2400, x_den: 4, y_num: 500, y_den: 6 });
    let (fx, fy) = with_floats(2, 3, (800, 100), (1, 2));
    let (px, py) = pixels(point);
    assert!((px - fx).abs() < 0.001 && (py - fy).abs() < 0.001);
}

#[test]
fn coordinates_on_a_single_row() {
    let map = ACOMap::new(4, 1, 500_000).unwrap();
    let point = map.get_vertice_coordinates((800, 600), (3, 0));
    assert_eq!(point, ScreenPoint { x_num: 5600, x_den: 8, y_num: 600, y_den: 2 });
    assert_eq!(pixels(point), (700.0, 300.0));
}

#[test]
fn coordinates_in_the_largest_window() {
    let map = ACOMap::new(3, 3, 500_000).unwrap();
    let point = map.get_vertice_coordinates((usize::MAX, usize::MAX), (2, 2));
    let side = usize::MAX as u128;
    assert_eq!(point.x_num, side * 5);
    assert_eq!(point.x_den, 6);
    assert_eq!(point.y_num, side * 5);
    assert_eq!(point.y_den, 6);
}

#[test]
fn coordinates_in_a_window_without_size() {
    let map = ACOMap::new(3, 3, 500_000).unwrap();
    let point = map.get_vertice_coordinates((0, 0), (2, 1));
    assert_eq!(point, ScreenPoint { x_num: 0, x_den: 6, y_num: 0, y_den: 6 });
}

fn all_points_distinct_and_inside(width: usize, height: usize, window: (usize, usize)) {
    let map = ACOMap::new(width, height, 500_000).unwrap();
    let mut seen: Vec<ScreenPoint> = Vec::new();
    for x in 0..width {
        for y in 0..height {
            let point = map.get_vertice_coordinates(window, (x, y));
            assert_eq!(point.x_den, 2 * width as u128);
            assert_eq!(point.y_den, 2 * height as u128);
            assert!(point.x_num > 0 && point.x_num < point.x_den * window.0 as u128);
            assert!(point.y_num > 0 && point.y_num < point.y_den * window.1 as u128);
            for other in &seen {
                assert!(point.x_num != other.x_num || point.y_num != other.y_num);
            }
            seen.push(point);
        }
    }
    assert_eq!(seen.len(), width * height);
}

#[test]
fn distinct_vertices_have_distinct_coordinates() {
    all_points_distinct_and_inside(7, 5, (640, 480));
}

#[test]
fn rows_stay_apart_where_the_window_is_one_column_high() {
    all_points_distinct_and_inside(4, 3, (400, 100));
    all_points_distinct_and_inside(2, 2, (4, 2));
    let map = ACOMap::new(2, 2, 500_000).unwrap();
    let upper = map.get_vertice_coordinates((4, 2), (0, 0));
    let lower = map.get_vertice_coordinates((4, 2), (0, 1));
    assert_eq!(upper, ScreenPoint { x_num: 4, x_den: 4, y_num: 2, y_den: 4 });
    assert_eq!(lower, ScreenPoint { x_num: 4, x_den: 4, y_num: 6, y_den: 4 });
}

#[test]
fn first_row_lies_within_a_low_and_wide_window() {
    all_points_distinct_and_inside(2, 2, (8, 1));
    let map = ACOMap::new(2, 2, 500_000).unwrap();
    let point = map.get_vertice_coordinates((8, 1), (0, 0));
    assert_eq!(point, ScreenPoint { x_num: 8, x_den: 4, y_num: 1, y_den: 4 });
    assert_eq!(pixels(point), (2.0, 0.25));
}

#[test]
fn neighbouring_columns_and_rows_are_one_cell_apart() {
    let map = ACOMap::new(5, 4, 500_000).unwrap();
    let window = (1000, 600);
    for x in 0..4 {
        for y in 0..3 {
            let here = map.get_vertice_coordinates(window, (x, y));
            let right = map.get_vertice_coordinates(window, (x + 1, y));
            let below = map.get_vertice_coordinates(window, (x, y + 1));
            assert_eq!(right.x_num - here.x_num, 2000);
            assert_eq!(right.y_num, here.y_num);
            assert_eq!(below.y_num - here.y_num, 1200);
            assert_eq!(below.x_num, here.x_num);
        }
    }
}

#[test]
fn marker_radius_is_a_twentieth_of_the_smaller_spacing() {
    let map = ACOMap::new(3, 3, 500_000).unwrap();
    assert_eq!(map.get_marker_radius((1200, 1200)), ScreenLength { num: 3600, den: 180 });
    assert_eq!(map.get_marker_radius((1200, 2400)), ScreenLength { num: 3600, den: 180 });
    assert_eq!(map.get_marker_radius((1200, 600)), ScreenLength { num: 1800, den: 180 });
    let map = ACOMap::new(20, 15, 500_000).unwrap();
    let radius = map.get_marker_radius((1200, 1000));
    assert_eq!(radius, ScreenLength { num: 18_000, den: 6000 });
    let x_spacing = 1200f32 / 20f32;
    let y_spacing = 1000f32 / 15f32;
    let expected = if x_spacing < y_spacing { x_spacing / 20.0 } else { y_spacing / 20.0 };
    assert!((radius.num as f32 / radius.den as f32 - expected).abs() < 0.0001);
}

#[test]
fn marker_radius_on_a_single_row() {
    let map = ACOMap::new(4, 1, 500_000).unwrap();
    assert_eq!(map.get_marker_radius((800, 600)), ScreenLength { num: 800, den: 80 });
    assert_eq!(map.get_marker_radius((800, 100)), ScreenLength { num: 400, den: 80 });
}
