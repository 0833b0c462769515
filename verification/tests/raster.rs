use pixel_canvas::canvas::{BUFFER_LEN, HEIGHT, WIDTH};
use pixel_canvas::codec::{Action, ClientMessage};
use pixel_canvas::shapes::{fill_rect, rasterize, rasterize_all};

const WHITE: [u8; 3] = [0xff; 3];
const BLACK: [u8; 3] = [0; 3];
const RED: [u8; 3] = [255, 0, 0];
const TEAL: [u8; 3] = [0, 128, 128];

fn white_canvas() -> Vec<u8> {
    vec![0xff; BUFFER_LEN]
}

fn get(data: &[u8], x: usize, y: usize) -> [u8; 3] {
    let i = (y * WIDTH + x) * 3;
    [data[i], data[i + 1], data[i + 2]]
}

fn command(action: Action, x: u16, y: u16, height: u8, color: [u8; 3]) -> ClientMessage {
    let message = ClientMessage { action, x, y, height, color };
    assert!(message.is_valid());
    message
}

fn drawn(message: &ClientMessage) -> Vec<u8> {
    let mut data = white_canvas();
    rasterize(&mut data, message);
    data
}

/// Checks every pixel of `data` against `inside`: `ink` where it holds, white elsewhere.
fn assert_region(data: &[u8], ink: [u8; 3], inside: impl Fn(i32, i32) -> bool) {
    assert_eq!(data.len(), BUFFER_LEN);
    for y in 0..HEIGHT {
        for x in 0..WIDTH {
            let expected = if inside(x as i32, y as i32) { ink } else { WHITE };
            if get(data, x, y) != expected {
                panic!("pixel ({}, {}) is {:?}, expected {:?}", x, y, get(data, x, y), expected);
            }
        }
    }
}

fn touched(data: &[u8]) -> Vec<(usize, usize)> {
    let mut found = Vec::new();
    for y in 0..HEIGHT {
        for x in 0..WIDTH {
            if get(data, x, y) != WHITE {
                found.push((x, y));
            }
        }
    }
    found
}

fn bresenham(points: &mut Vec<(i32, i32)>, mut x1: i32, mut y1: i32, x2: i32, y2: i32) {
    let dx = (x2 - x1).abs();
    let dy = -(y2 - y1).abs();
    let sx = if x1 < x2 { 1 } else { -1 };
    let sy = if y1 < y2 { 1 } else { -1 };
    let mut err = dx + dy;
    loop {
        points.push((x1, y1));
        if x1 == x2 && y1 == y2 {
            break;
        }
        let e2 = err * 2;
        if e2 >= dy {
            err += dy;
            x1 += sx;
        }
        if e2 <= dx {
            err += dx;
            y1 += sy;
        }
    }
}

fn thick(points: &mut Vec<(i32, i32)>, x1: i32, y1: i32, x2: i32, y2: i32) {
    bresenham(points, x1, y1, x2, y2);
    bresenham(points, x1 + 1, y1, x2 + 1, y2);
    bresenham(points, x1, y1 + 1, x2, y2 + 1);
    bresenham(points, x1 + 1, y1 + 1, x2 + 1, y2 + 1);
}

fn clipped(points: Vec<(i32, i32)>) -> Vec<(usize, usize)> {
    let mut kept: Vec<(usize, usize)> = points
        .into_iter()
        .filter(|(x, y)| *x >= 0 && *x < WIDTH as i32 && *y >= 0 && *y < HEIGHT as i32)
        .map(|(x, y)| (x as usize, y as usize))
        .collect();
    kept.sort_by_key(|(x, y)| (*y, *x));
    kept.dedup();
    kept
}

/// The crossings of a row with the slanted edges of the hexagon, in floating point.
fn hexagon_span(cx: u16, cy: u16, size: u8, y: i32) -> Option<(i32, i32)> {
    let size = size as f32;
    let center_x = cx as f32;
    let center_y = cy as f32;
    let points = [
        (center_x + size, center_y),
        (center_x + size / 2.0, center_y - size),
        (center_x - size / 2.0, center_y - size),
        (center_x - size, center_y),
        (center_x - size / 2.0, center_y + size),
        (center_x + size / 2.0, center_y + size),
    ];
    let mut crossings = Vec::new();
    for i in 0..6 {
        let start = points[i];
        let end = points[(i + 1) % 6];
        if (start.1 <= y as f32 && end.1 > y as f32) || (end.1 <= y as f32 && start.1 > y as f32) {
            let x = start.0 + (y as f32 - start.1) * (end.0 - start.0) / (end.1 - start.1);
            crossings.push(x as i32);
        }
    }
    crossings.sort_unstable();
    match crossings.len() {
        0 => None,
        2 => Some((crossings[0], crossings[1])),
        n => panic!("{} crossings in row {}", n, y),
    }
}

#[test]
fn red_cube_fills_six_by_six() {
    let message = command(Action::DrawCubeNormal, 10, 10, 5, RED);
    let record = message.encode();
    assert_eq!(ClientMessage::decode(&record), Some(message));
    let data = drawn(&message);
    for y in 10..=15 {
        for x in 10..=15 {
            assert_eq!(get(&data, x, y), RED);
        }
    }
    assert_eq!(get(&data, 20, 20), WHITE);
    assert_region(&data, RED, |x, y| (10..=15).contains(&x) && (10..=15).contains(&y));
}

#[test]
fn fill_rect_includes_its_corners() {
    let mut data = white_canvas();
    fill_rect(&mut data, 3, 5, 7, 8, &TEAL);
    assert_eq!(touched(&data), vec![(3, 7), (4, 7), (5, 7), (3, 8), (4, 8), (5, 8)]);
    let mut data = white_canvas();
    fill_rect(&mut data, 5, 3, 7, 8, &TEAL);
    assert_eq!(touched(&data), vec![]);
    let mut data = white_canvas();
    fill_rect(&mut data, 0, 1919, 0, 999, &TEAL);
    assert!(data.chunks(3).all(|p| p == TEAL));
}

#[test]
fn cube_is_clipped_at_the_edges() {
    let data = drawn(&command(Action::DrawCubeNormal, 1900, 990, 127, TEAL));
    assert_region(&data, TEAL, |x, y| x >= 1900 && y >= 990);
    let data = drawn(&command(Action::DrawCubeNormal, 1919, 999, 1, TEAL));
    assert_eq!(touched(&data), vec![(1919, 999)]);
    let data = drawn(&command(Action::DrawCubeNormal, 0, 0, 1, TEAL));
    assert_eq!(touched(&data), vec![(0, 0), (1, 0), (0, 1), (1, 1)]);
}

#[test]
fn cube_applied_twice_is_cube_applied_once() {
    let message = command(Action::DrawCubeNormal, 300, 400, 50, TEAL);
    let mut once = white_canvas();
    rasterize(&mut once, &message);
    let mut twice = once.clone();
    rasterize(&mut twice, &message);
    assert_eq!(once, twice);
}

#[test]
fn every_action_applied_twice_is_applied_once() {
    for action in [
        Action::Erase,
        Action::DrawCubeHollow,
        Action::DrawCircleNormal,
        Action::DrawCircleHollow,
        Action::DrawTriangleNormal,
        Action::DrawTriangleHollow,
        Action::DrawHexagonNormal,
        Action::DrawHexagonHollow,
    ] {
        let message = command(action, 1900, 5, 40, TEAL);
        let mut once = white_canvas();
        rasterize(&mut once, &message);
        let mut twice = once.clone();
        rasterize(&mut twice, &message);
        assert_eq!(once, twice);
    }
}

#[test]
fn erase_is_a_black_square_around_the_click() {
    let data = drawn(&command(Action::Erase, 10, 10, 5, RED));
    assert_region(&data, BLACK, |x, y| (8..=13).contains(&x) && (8..=13).contains(&y));
    let data = drawn(&command(Action::Erase, 100, 200, 8, RED));
    assert_region(&data, BLACK, |x, y| (96..=104).contains(&x) && (196..=204).contains(&y));
    let data = drawn(&command(Action::Erase, 100, 200, 1, RED));
    assert_region(&data, BLACK, |x, y| (100..=101).contains(&x) && (200..=201).contains(&y));
}

#[test]
fn erase_is_clipped_at_the_edges() {
    let data = drawn(&command(Action::Erase, 0, 0, 127, RED));
    assert_region(&data, BLACK, |x, y| x <= 64 && y <= 64);
    let data = drawn(&command(Action::Erase, 1919, 999, 127, RED));
    assert_region(&data, BLACK, |x, y| x >= 1856 && y >= 936);
}

#[test]
fn erase_paints_over_what_was_drawn() {
    let mut data = white_canvas();
    rasterize_all(
        &mut data,
        &[command(Action::DrawCubeNormal, 10, 10, 5, RED), command(Action::Erase, 12, 12, 2, RED)],
    );
    assert_eq!(get(&data, 10, 10), RED);
    assert_eq!(get(&data, 11, 11), BLACK);
    assert_eq!(get(&data, 13, 13), BLACK);
    assert_eq!(get(&data, 14, 14), RED);
    assert_eq!(get(&data, 16, 16), WHITE);
}

#[test]
fn hollow_cube_has_a_stroke_of_two() {
    let data = drawn(&command(Action::DrawCubeHollow, 10, 10, 5, TEAL));
    assert_region(&data, TEAL, |x, y| {
        ((10..=15).contains(&x) && [10, 11, 15, 16].contains(&y))
            || ((10..=15).contains(&y) && [10, 11, 15, 16].contains(&x))
    });
    assert_eq!(get(&data, 12, 12), WHITE);
    assert_eq!(get(&data, 16, 12), TEAL);
    assert_eq!(get(&data, 12, 16), TEAL);
    assert_eq!(get(&data, 16, 16), WHITE);
}

#[test]
fn hollow_cube_is_clipped_at_the_edges() {
    let data = drawn(&command(Action::DrawCubeHollow, 1910, 990, 20, TEAL));
    assert_region(&data, TEAL, |x, y| {
        x >= 1910 && y >= 990 && ([990, 991, 999].contains(&y) || [1910, 1911, 1919].contains(&x))
    });
    let data = drawn(&command(Action::DrawCubeHollow, 1919, 999, 20, TEAL));
    assert_eq!(touched(&data), vec![(1919, 999)]);
}

#[test]
fn hollow_cube_reaches_past_the_filled_one() {
    let hollow = drawn(&command(Action::DrawCubeHollow, 10, 10, 5, TEAL));
    let filled = drawn(&command(Action::DrawCubeNormal, 10, 10, 5, TEAL));
    assert_eq!(get(&hollow, 10, 16), TEAL);
    assert_eq!(get(&filled, 10, 16), WHITE);
}

#[test]
fn hollow_cube_in_the_last_corner_is_part_of_the_filled_one() {
    let hollow = touched(&drawn(&command(Action::DrawCubeHollow, 1916, 996, 5, TEAL)));
    let filled = touched(&drawn(&command(Action::DrawCubeNormal, 1916, 996, 5, TEAL)));
    assert!(hollow.iter().all(|p| filled.contains(p)));
    assert_eq!(filled.len(), 16);
    assert_eq!(hollow.len(), 15);
    assert!(!hollow.contains(&(1918, 998)));
    assert_eq!(touched(&drawn(&command(Action::DrawCubeHollow, 1917, 996, 5, TEAL))).len(), 12);
    assert_eq!(touched(&drawn(&command(Action::DrawCubeNormal, 1917, 996, 5, TEAL))).len(), 12);
}

#[test]
fn filled_circle_is_the_disc() {
    for (cx, cy, r) in [(50u16, 50u16, 3u8), (500, 500, 1), (500, 500, 2), (700, 300, 40), (960, 500, 127)] {
        let data = drawn(&command(Action::DrawCircleNormal, cx, cy, r, TEAL));
        assert_region(&data, TEAL, |x, y| {
            let dx = x as f32 - cx as f32;
            let dy = y as f32 - cy as f32;
            dx * dx + dy * dy <= (r as f32) * (r as f32)
        });
    }
}

#[test]
fn filled_circle_of_radius_three() {
    let data = drawn(&command(Action::DrawCircleNormal, 50, 50, 3, TEAL));
    assert_eq!(get(&data, 50, 50), TEAL);
    assert_eq!(get(&data, 53, 50), TEAL);
    assert_eq!(get(&data, 52, 52), TEAL);
    assert_eq!(get(&data, 53, 51), WHITE);
    assert_eq!(get(&data, 54, 50), WHITE);
    assert_eq!(touched(&data).len(), 29);
}

#[test]
fn circle_is_clipped_at_the_edges() {
    for (cx, cy) in [(0u16, 0u16), (1919, 999), (0, 999), (1919, 0), (3, 997)] {
        let (fx, fy) = (cx as i64, cy as i64);
        let data = drawn(&command(Action::DrawCircleNormal, cx, cy, 20, TEAL));
        assert_region(&data, TEAL, |x, y| {
            let (dx, dy) = (x as i64 - fx, y as i64 - fy);
            dx * dx + dy * dy <= 400
        });
        let data = drawn(&command(Action::DrawCircleHollow, cx, cy, 20, TEAL));
        assert_region(&data, TEAL, |x, y| {
            let (dx, dy) = (x as i64 - fx, y as i64 - fy);
            let d = dx * dx + dy * dy;
            (324..=400).contains(&d)
        });
    }
}

#[test]
fn pixels_outside_the_box_of_a_circle_stay() {
    let mut data = white_canvas();
    rasterize(&mut data, &command(Action::DrawCubeNormal, 80, 80, 100, RED));
    rasterize(&mut data, &command(Action::DrawCircleNormal, 130, 130, 10, TEAL));
    for y in 0..HEIGHT {
        for x in 0..WIDTH {
            let (dx, dy) = (x as i64 - 130, y as i64 - 130);
            if dx * dx + dy * dy <= 100 {
                assert_eq!(get(&data, x, y), TEAL);
            } else if dx.abs() > 10 || dy.abs() > 10 {
                let before = if (80..=180).contains(&x) && (80..=180).contains(&y) { RED } else { WHITE };
                assert_eq!(get(&data, x, y), before);
            }
        }
    }
}

#[test]
fn hollow_circle_is_the_ring() {
    for (cx, cy, r) in [(50u16, 50u16, 3u8), (500, 500, 1), (500, 500, 2), (700, 300, 40), (960, 500, 127)] {
        let data = drawn(&command(Action::DrawCircleHollow, cx, cy, r, TEAL));
        assert_region(&data, TEAL, |x, y| {
            let (dx, dy) = (x as i64 - cx as i64, y as i64 - cy as i64);
            let d = dx * dx + dy * dy;
            let inner = r as i64 - 2;
            inner * inner <= d && d <= (r as i64) * (r as i64)
        });
    }
}

#[test]
fn hollow_circle_of_radius_one_leaves_the_centre() {
    let data = drawn(&command(Action::DrawCircleHollow, 500, 500, 1, TEAL));
    assert_eq!(touched(&data), vec![(500, 499), (499, 500), (501, 500), (500, 501)]);
}

#[test]
fn hollow_circle_touches_less_than_the_filled_one() {
    for r in [1u8, 3, 4, 10, 127] {
        let hollow = drawn(&command(Action::DrawCircleHollow, 900, 500, r, TEAL));
        let filled = drawn(&command(Action::DrawCircleNormal, 900, 500, r, TEAL));
        for (h, f) in hollow.chunks(3).zip(filled.chunks(3)) {
            assert!(h == WHITE || f == TEAL);
        }
        assert_eq!(get(&filled, 900, 500), TEAL);
        assert_eq!(get(&hollow, 900, 500), WHITE);
    }
}

#[test]
fn hollow_circle_of_radius_two_is_the_filled_one() {
    let hollow = drawn(&command(Action::DrawCircleHollow, 900, 500, 2, TEAL));
    let filled = drawn(&command(Action::DrawCircleNormal, 900, 500, 2, TEAL));
    assert_eq!(hollow, filled);
    assert_eq!(touched(&filled).len(), 13);
}

#[test]
fn filled_triangle_hangs_from_its_apex() {
    let data = drawn(&command(Action::DrawTriangleNormal, 100, 100, 3, TEAL));
    assert_eq!(
        touched(&data),
        vec![
            (100, 100),
            (100, 101),
            (99, 102),
            (100, 102),
            (101, 102),
            (99, 103),
            (100, 103),
            (101, 103),
            (98, 104),
            (99, 104),
            (100, 104),
            (101, 104),
            (102, 104),
            (98, 105),
            (99, 105),
            (100, 105),
            (101, 105),
            (102, 105),
            (97, 106),
            (98, 106),
            (99, 106),
            (100, 106),
            (101, 106),
            (102, 106),
            (103, 106),
        ]
    );
}

#[test]
fn filled_triangle_is_what_the_edge_test_admits() {
    for (x, y, h) in [(400u16, 300u16, 60u8), (0, 0, 127), (1919, 999, 127), (5, 900, 100), (1900, 10, 1)] {
        let (ax, ay, size) = (x as i64, y as i64, h as i64);
        let data = drawn(&command(Action::DrawTriangleNormal, x, y, h, TEAL));
        assert_region(&data, TEAL, |px, py| {
            let (px, py) = (px as i64, py as i64);
            let (x1, y1, x2, y2, x3, y3) = (ax, ay, ax - size, ay + 2 * size, ax + size, ay + 2 * size);
            let e1 = (px - x1) * (y2 - y1) - (py - y1) * (x2 - x1);
            let e2 = (px - x2) * (y3 - y2) - (py - y2) * (x3 - x2);
            let e3 = (px - x3) * (y1 - y3) - (py - y3) * (x1 - x3);
            (e1 >= 0 && e2 >= 0 && e3 >= 0) || (e1 <= 0 && e2 <= 0 && e3 <= 0)
        });
    }
}

#[test]
fn hollow_triangle_is_three_thick_lines() {
    for (x, y, h) in [(400u16, 300u16, 60u8), (0, 0, 127), (1919, 999, 127), (5, 900, 100), (1900, 10, 1)] {
        let (ax, ay, size) = (x as i32, y as i32, h as i32);
        let data = drawn(&command(Action::DrawTriangleHollow, x, y, h, TEAL));
        let mut points = Vec::new();
        thick(&mut points, ax, ay, ax - size, ay + 2 * size);
        thick(&mut points, ax - size, ay + 2 * size, ax + size, ay + 2 * size);
        thick(&mut points, ax + size, ay + 2 * size, ax, ay);
        assert_eq!(touched(&data), clipped(points));
    }
}

#[test]
fn hollow_triangle_reaches_past_the_filled_one() {
    let hollow = drawn(&command(Action::DrawTriangleHollow, 100, 100, 5, TEAL));
    let filled = drawn(&command(Action::DrawTriangleNormal, 100, 100, 5, TEAL));
    assert_eq!(get(&hollow, 101, 100), TEAL);
    assert_eq!(get(&filled, 101, 100), WHITE);
}

#[test]
fn hollow_triangle_in_the_last_column_reaches_past_the_filled_one() {
    let hollow = drawn(&command(Action::DrawTriangleHollow, 1919, 500, 5, TEAL));
    let filled = drawn(&command(Action::DrawTriangleNormal, 1919, 500, 5, TEAL));
    assert_eq!(get(&hollow, 1918, 501), TEAL);
    assert_eq!(get(&filled, 1918, 501), WHITE);
}

#[test]
fn triangles_at_the_last_pixel_are_one_pixel() {
    for h in [1u8, 5, 127] {
        let hollow = touched(&drawn(&command(Action::DrawTriangleHollow, 1919, 999, h, TEAL)));
        let filled = touched(&drawn(&command(Action::DrawTriangleNormal, 1919, 999, h, TEAL)));
        assert_eq!(hollow, vec![(1919, 999)]);
        assert_eq!(filled, vec![(1919, 999)]);
    }
}

#[test]
fn hollow_hexagon_at_the_right_edge_reaches_below_the_filled_one() {
    let hollow = drawn(&command(Action::DrawHexagonHollow, 1900, 100, 30, TEAL));
    let filled = drawn(&command(Action::DrawHexagonNormal, 1900, 100, 30, TEAL));
    assert_eq!(get(&hollow, 1885, 130), TEAL);
    assert_eq!(get(&filled, 1885, 130), WHITE);
    assert_eq!(get(&filled, 1885, 129), TEAL);
}

#[test]
fn hollow_hexagon_in_the_last_corner_may_be_part_of_the_filled_one() {
    let hollow = touched(&drawn(&command(Action::DrawHexagonHollow, 1919, 999, 10, TEAL)));
    let filled = touched(&drawn(&command(Action::DrawHexagonNormal, 1919, 999, 10, TEAL)));
    assert!(hollow.iter().all(|p| filled.contains(p)));
    assert!(hollow.len() < filled.len());
    let hollow = touched(&drawn(&command(Action::DrawHexagonHollow, 1915, 999, 4, TEAL)));
    let filled = touched(&drawn(&command(Action::DrawHexagonNormal, 1915, 999, 4, TEAL)));
    assert!(hollow.iter().any(|p| !filled.contains(p)));
}

#[test]
fn filled_hexagon_of_size_four() {
    let data = drawn(&command(Action::DrawHexagonNormal, 100, 100, 4, TEAL));
    let rows = [
        (96, 98, 102),
        (97, 97, 102),
        (98, 97, 103),
        (99, 96, 103),
        (100, 96, 104),
        (101, 96, 103),
        (102, 97, 103),
        (103, 97, 102),
    ];
    assert_region(&data, TEAL, |x, y| rows.iter().any(|(row, from, to)| y == *row && *from <= x && x <= *to));
}

#[test]
fn filled_hexagon_follows_the_crossings() {
    for (cx, cy, size) in [
        (400u16, 300u16, 60u8),
        (400, 300, 61),
        (100, 100, 1),
        (100, 100, 2),
        (100, 100, 3),
        (1, 500, 3),
        (0, 500, 127),
        (1919, 500, 127),
        (30, 40, 126),
        (1900, 980, 125),
    ] {
        let data = drawn(&command(Action::DrawHexagonNormal, cx, cy, size, TEAL));
        assert_region(&data, TEAL, |x, y| match hexagon_span(cx, cy, size, y) {
            Some((from, to)) => from.max(0) <= x && x <= to.min(1919),
            None => false,
        });
    }
}

#[test]
fn filled_hexagon_is_clipped_above_and_below() {
    let data = drawn(&command(Action::DrawHexagonNormal, 100, 0, 10, TEAL));
    assert_eq!(get(&data, 100, 0), TEAL);
    assert_eq!(get(&data, 90, 0), TEAL);
    assert_eq!(get(&data, 110, 0), TEAL);
    assert_eq!(get(&data, 111, 0), WHITE);
    assert_eq!(get(&data, 100, 9), TEAL);
    assert_eq!(get(&data, 100, 10), WHITE);
    let data = drawn(&command(Action::DrawHexagonNormal, 100, 999, 10, TEAL));
    assert_eq!(get(&data, 100, 999), TEAL);
    assert_eq!(get(&data, 100, 989), TEAL);
    assert_eq!(get(&data, 100, 988), WHITE);
}

#[test]
fn hollow_hexagon_is_six_thick_lines() {
    for (cx, cy, size) in [(400u16, 300u16, 60u8), (400, 300, 61), (1, 1, 3), (0, 0, 127), (1919, 999, 127), (100, 100, 1)] {
        let s = size as f32;
        let (fx, fy) = (cx as f32, cy as f32);
        let corners = [
            (fx + s, fy),
            (fx + s / 2.0, fy - s),
            (fx - s / 2.0, fy - s),
            (fx - s, fy),
            (fx - s / 2.0, fy + s),
            (fx + s / 2.0, fy + s),
        ];
        let mut points = Vec::new();
        for i in 0..6 {
            let from = corners[i];
            let to = corners[(i + 1) % 6];
            thick(&mut points, from.0 as i32, from.1 as i32, to.0 as i32, to.1 as i32);
        }
        let data = drawn(&command(Action::DrawHexagonHollow, cx, cy, size, TEAL));
        assert_eq!(touched(&data), clipped(points));
    }
}

#[test]
fn hollow_hexagon_reaches_past_the_filled_one() {
    let hollow = drawn(&command(Action::DrawHexagonHollow, 100, 100, 4, TEAL));
    let filled = drawn(&command(Action::DrawHexagonNormal, 100, 100, 4, TEAL));
    assert_eq!(get(&hollow, 100, 104), TEAL);
    assert_eq!(get(&filled, 100, 104), WHITE);
}

#[test]
fn later_commands_paint_over_earlier_ones() {
    let first = command(Action::DrawCubeNormal, 10, 10, 10, RED);
    let second = command(Action::DrawCubeNormal, 15, 15, 10, TEAL);
    let mut data = white_canvas();
    rasterize_all(&mut data, &[first, second]);
    assert_eq!(get(&data, 12, 12), RED);
    assert_eq!(get(&data, 17, 17), TEAL);
    assert_eq!(get(&data, 24, 24), TEAL);
    let mut other = white_canvas();
    rasterize_all(&mut other, &[second, first]);
    assert_eq!(get(&other, 17, 17), RED);
    assert_eq!(get(&other, 24, 24), TEAL);
}

#[test]
fn two_batches_in_a_row_are_one_batch() {
    let first = [command(Action::DrawCubeNormal, 10, 10, 10, RED), command(Action::DrawCircleHollow, 30, 30, 25, TEAL)];
    let second = [command(Action::Erase, 20, 20, 9, RED), command(Action::DrawTriangleNormal, 25, 5, 12, RED)];
    let mut stepwise = white_canvas();
    rasterize_all(&mut stepwise, &first);
    rasterize_all(&mut stepwise, &second);
    let mut at_once = white_canvas();
    rasterize_all(&mut at_once, &[first[0], first[1], second[0], second[1]]);
    assert_eq!(stepwise, at_once);
    let mut one_by_one = white_canvas();
    for message in first.iter().chain(second.iter()) {
        rasterize(&mut one_by_one, message);
    }
    assert_eq!(one_by_one, at_once);
}

#[test]
fn every_action_stays_near_the_click() {
    for action in [
        Action::Erase,
        Action::DrawCubeNormal,
        Action::DrawCubeHollow,
        Action::DrawCircleNormal,
        Action::DrawCircleHollow,
        Action::DrawTriangleNormal,
        Action::DrawTriangleHollow,
        Action::DrawHexagonNormal,
        Action::DrawHexagonHollow,
    ] {
        for h in [1usize, 20, 127] {
            let points = touched(&drawn(&command(action, 500, 400, h as u8, TEAL)));
            assert!(!points.is_empty());
            for (x, y) in points {
                assert!(500 - h <= x && x <= 500 + h + 1);
                assert!(400 - h <= y && y <= 400 + 2 * h + 1);
            }
        }
    }
}

#[test]
fn an_empty_batch_changes_nothing() {
    let mut data = white_canvas();
    rasterize_all(&mut data, &[]);
    assert_eq!(data, white_canvas());
}

#[test]
fn largest_shapes_in_every_corner_stay_on_the_canvas() {
    for action in [
        Action::Erase,
        Action::DrawCubeNormal,
        Action::DrawCubeHollow,
        Action::DrawCircleNormal,
        Action::DrawCircleHollow,
        Action::DrawTriangleNormal,
        Action::DrawTriangleHollow,
        Action::DrawHexagonNormal,
        Action::DrawHexagonHollow,
    ] {
        let mut data = white_canvas();
        for (x, y) in [(0u16, 0u16), (1919, 0), (0, 999), (1919, 999)] {
            rasterize(&mut data, &command(action, x, y, 127, TEAL));
        }
        assert_eq!(data.len(), BUFFER_LEN);
        assert!(!touched(&data).is_empty());
    }
}
