use std::collections::BTreeSet;
use toy_physics::shape::Shape;

/// The octant points of the midpoint walk for the given radius.
fn walk(size: i32) -> Vec<(i32, i32)> {
    let mut points = Vec::new();
    let mut x = 0;
    let mut y = size;
    let mut d = 3 - 2 * size;
    points.push((x, y));
    while x < y {
        if d < 0 {
            d = d + 4 * x + 6;
        } else {
            y -= 1;
            d = d + 4 * (x - y) + 10;
        }
        x += 1;
        points.push((x, y));
    }
    points
}

/// The eight mirror images of every point of the walk.
fn reference_outline(size: i32) -> BTreeSet<(i32, i32)> {
    let mut out = BTreeSet::new();
    for (x, y) in walk(size) {
        out.extend([(x, y), (-x, y), (x, -y), (-x, -y), (y, x), (-y, x), (y, -x), (-y, -x)]);
    }
    out
}

/// The full spans between the mirror images of every point of the walk.
fn reference_fill(size: i32) -> BTreeSet<(i32, i32)> {
    let mut out = BTreeSet::new();
    for (x, y) in walk(size) {
        for (half, row) in [(x, y), (x, -y), (y, x), (y, -x)] {
            for column in -half..=half {
                out.insert((column, row));
            }
        }
    }
    out
}

fn as_set(offsets: &[(i32, i32)]) -> BTreeSet<(i32, i32)> {
    let set: BTreeSet<(i32, i32)> = offsets.iter().copied().collect();
    assert_eq!(set.len(), offsets.len(), "an offset was drawn twice");
    set
}

#[test]
fn outline_of_radius_one() {
    assert_eq!(Shape::CircleOutline.draw(1), vec![(0, 1), (0, -1), (1, 0), (-1, 0)]);
}

#[test]
fn outline_of_radius_two() {
    let expected = vec![
        (0, 2),
        (0, -2),
        (2, 0),
        (-2, 0),
        (1, 2),
        (-1, 2),
        (1, -2),
        (-1, -2),
        (2, 1),
        (-2, 1),
        (2, -1),
        (-2, -1),
    ];
    assert_eq!(Shape::CircleOutline.draw(2), expected);
}

#[test]
fn outline_of_radius_three_ends_on_the_diagonal() {
    let out = Shape::CircleOutline.draw(3);
    assert_eq!(out.len(), 16);
    assert_eq!(&out[12..], &[(2, 2), (-2, 2), (2, -2), (-2, -2)]);
}

#[test]
fn outline_is_the_mirrored_walk_for_many_sizes() {
    for size in 1..=200 {
        assert_eq!(as_set(&Shape::CircleOutline.draw(size)), reference_outline(size), "size {size}");
    }
}

#[test]
fn fill_of_radius_one() {
    let expected = vec![(-1, 0), (0, 0), (1, 0), (0, 1), (0, -1)];
    assert_eq!(Shape::CircleFill.draw(1), expected);
}

#[test]
fn fill_of_radius_two() {
    let mut expected = Vec::new();
    for (row, half) in [(0, 2), (1, 2), (-1, 2), (2, 1), (-2, 1)] {
        for column in -half..=half {
            expected.push((column, row));
        }
    }
    assert_eq!(Shape::CircleFill.draw(2), expected);
}

#[test]
fn fill_is_the_spanned_walk_for_many_sizes() {
    for size in 1..=80 {
        assert_eq!(as_set(&Shape::CircleFill.draw(size)), reference_fill(size), "size {size}");
    }
}

#[test]
fn fill_stays_within_the_next_radius() {
    for r in 1..=40i32 {
        for (dx, dy) in Shape::CircleFill.draw(r) {
            assert!(dx * dx + dy * dy < (r + 1) * (r + 1), "r {r}: ({dx}, {dy})");
        }
    }
}

#[test]
fn fill_covers_the_disc() {
    for r in 1..=60i32 {
        let cells = as_set(&Shape::CircleFill.draw(r));
        for dy in -r..=r {
            for dx in -r..=r {
                if dx * dx + dy * dy <= r * r {
                    assert!(cells.contains(&(dx, dy)), "r {r}: ({dx}, {dy})");
                }
            }
        }
    }
}

#[test]
fn fill_is_made_of_full_rows() {
    for r in 1..=40i32 {
        let cells = as_set(&Shape::CircleFill.draw(r));
        for dy in -r..=r {
            let row: Vec<i32> = cells.iter().filter(|c| c.1 == dy).map(|c| c.0).collect();
            let half = *row.last().unwrap();
            assert_eq!(row, (-half..=half).collect::<Vec<i32>>(), "r {r}, row {dy}");
        }
        assert!(cells.iter().all(|c| -r <= c.1 && c.1 <= r));
    }
}

#[test]
fn fill_reaches_the_four_poles() {
    let cells = Shape::CircleFill.draw(5);
    for pole in [(5, 0), (-5, 0), (0, 5), (0, -5), (0, 0)] {
        assert!(cells.contains(&pole));
    }
    assert!(!cells.contains(&(6, 0)));
    assert!(!cells.contains(&(5, 5)));
}

#[test]
fn no_offset_is_drawn_twice() {
    for shape in [Shape::CircleOutline, Shape::CircleFill, Shape::SquareCentered] {
        for size in 0..=64 {
            as_set(&shape.draw(size));
        }
    }
}

#[test]
fn outline_stays_within_one_cell_of_the_circle() {
    for r in 1..=300i32 {
        for (dx, dy) in Shape::CircleOutline.draw(r) {
            let d2 = dx * dx + dy * dy;
            assert!((r - 1) * (r - 1) <= d2 && d2 < (r + 1) * (r + 1), "r {r}: ({dx}, {dy})");
        }
    }
}

#[test]
fn outline_is_its_own_mirror_image() {
    for r in 1..=50i32 {
        let cells = as_set(&Shape::CircleOutline.draw(r));
        for (dx, dy) in cells.iter().copied() {
            assert!(cells.contains(&(-dx, dy)));
            assert!(cells.contains(&(dx, -dy)));
            assert!(cells.contains(&(dy, dx)));
        }
    }
}

#[test]
fn square_lists_its_cells_row_by_row() {
    let expected = vec![
        (-2, -2),
        (-1, -2),
        (0, -2),
        (1, -2),
        (-2, -1),
        (-1, -1),
        (0, -1),
        (1, -1),
        (-2, 0),
        (-1, 0),
        (0, 0),
        (1, 0),
        (-2, 1),
        (-1, 1),
        (0, 1),
        (1, 1),
    ];
    assert_eq!(Shape::SquareCentered.draw(4), expected);
    assert_eq!(Shape::SquareCentered.draw(5), expected);
}

#[test]
fn square_of_size_one_is_empty() {
    assert!(Shape::SquareCentered.draw(1).is_empty());
    assert_eq!(Shape::SquareCentered.draw(2), vec![(-1, -1), (0, -1), (-1, 0), (0, 0)]);
}

#[test]
fn nothing_is_drawn_below_size_one() {
    for shape in [Shape::CircleOutline, Shape::CircleFill, Shape::SquareCentered] {
        assert!(shape.draw(0).is_empty());
        assert!(shape.draw(-3).is_empty());
        assert!(shape.draw(i32::MIN).is_empty());
    }
}

#[test]
fn outline_of_a_large_radius_stays_near_the_circle() {
    let r: i64 = 100_000;
    for (dx, dy) in Shape::CircleOutline.draw(r as i32) {
        let d2 = (dx as i64) * (dx as i64) + (dy as i64) * (dy as i64);
        assert!(d2 < (r + 1) * (r + 1));
        assert!(d2 >= (r - 1) * (r - 1));
    }
}

#[test]
fn shapes_cycle_in_threes() {
    assert_eq!(Shape::CircleOutline.next(), Shape::CircleFill);
    assert_eq!(Shape::CircleFill.next(), Shape::SquareCentered);
    assert_eq!(Shape::SquareCentered.next(), Shape::CircleOutline);
}
