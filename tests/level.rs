use lvlmaker::grid::Grid;
use lvlmaker::level::{build_level, check_palette, Level};
use lvlmaker::rank::rank_walls;
use lvlmaker::reconcile::reconcile;
use lvlmaker::scan::{horizontal_runs, markers, vertical_runs};
use lvlmaker::square::SquareType;
use lvlmaker::wall::{check_if_point_is_wall, Point, Wall};

const BLACK: [u8; 4] = [0, 0, 0, 255];
const WHITE: [u8; 4] = [255, 255, 255, 255];
const RED: [u8; 4] = [255, 0, 0, 255];
const GREEN: [u8; 4] = [0, 255, 0, 255];
const BLUE: [u8; 4] = [0, 0, 255, 255];

/// Builds a grid from rows of characters: `#` wall, `.` empty, `S` start, `E` end,
/// `C` checkpoint, `?` a gray sample outside the palette.
fn grid(rows: &[&str]) -> Grid {
    let height = rows.len() as u32;
    let width = rows[0].len() as u32;
    let mut pixels = Vec::new();
    for row in rows {
        for c in row.chars() {
            pixels.push(match c {
                '#' => BLACK,
                '.' => WHITE,
                'S' => GREEN,
                'E' => RED,
                'C' => BLUE,
                _ => [128, 128, 128, 255],
            });
        }
    }
    Grid::new(width, height, pixels).expect("dimensions match")
}

fn p(x: u32, y: u32) -> Point {
    Point::new(x, y)
}

fn seg(x0: u32, y0: u32, x1: u32, y1: u32) -> Wall {
    Wall { start: p(x0, y0), end: Some(p(x1, y1)) }
}

fn cell(x: u32, y: u32) -> Wall {
    Wall { start: p(x, y), end: None }
}

fn level(rows: &[&str]) -> Level {
    match build_level(&grid(rows)) {
        Ok(l) => l,
        Err(e) => panic!("unsupported color {:?}", e.color),
    }
}

#[test]
fn horizontal_three_cells() {
    let l = level(&["###"]);
    assert_eq!(l.walls, vec![seg(0, 0, 2, 0)]);
    assert_eq!((l.width, l.height), (3, 1));
}

#[test]
fn vertical_three_cells() {
    let l = level(&["#", "#", "#"]);
    assert_eq!(l.walls, vec![seg(0, 0, 0, 2)]);
    assert_eq!(l.walls[0].length(), 2);
}

#[test]
fn single_black_pixel() {
    let l = level(&["#"]);
    assert_eq!(l.walls, vec![cell(0, 0)]);
}

#[test]
fn l_shape_merges_top_row() {
    // The cell right of the column's top joins it in a two-cell horizontal run.
    let l = level(&["##", "#.", "#."]);
    assert_eq!(l.walls, vec![seg(0, 0, 0, 2), seg(0, 0, 1, 0)]);
}

#[test]
fn column_with_detached_cell() {
    let l = level(&["#.#", "#..", "#.."]);
    assert_eq!(l.walls, vec![seg(0, 0, 0, 2), cell(2, 0)]);
}

#[test]
fn markers_in_row_major_order() {
    let l = level(&["C....", ".S...", "...C.", ".....", "....E"]);
    assert_eq!(l.start, p(1, 1));
    assert_eq!(l.end, p(4, 4));
    assert_eq!(l.checkpoints, vec![p(0, 0), p(3, 2)]);
    assert!(l.walls.is_empty());
}

#[test]
fn last_start_and_end_win() {
    let l = level(&["S.E", "E.S"]);
    assert_eq!(l.start, p(2, 1));
    assert_eq!(l.end, p(0, 1));
}

#[test]
fn missing_markers_default_to_origin() {
    let l = level(&["..", ".."]);
    assert_eq!(l.start, p(0, 0));
    assert_eq!(l.end, p(0, 0));
    assert!(l.checkpoints.is_empty());
}

#[test]
fn unsupported_color_is_an_error() {
    let g = grid(&["#.", ".?"]);
    match build_level(&g) {
        Ok(_) => panic!("expected an error"),
        Err(e) => assert_eq!(e.color, [128, 128, 128, 255]),
    }
}

#[test]
fn first_unsupported_color_is_reported() {
    let g = Grid::new(3, 1, vec![WHITE, [1, 2, 3, 4], [9, 9, 9, 9]]).unwrap();
    match check_palette(&g) {
        Ok(()) => panic!("expected an error"),
        Err(e) => assert_eq!(e.color, [1, 2, 3, 4]),
    }
    assert!(check_palette(&grid(&["#SEC."])).is_ok());
}

#[test]
fn classify_palette() {
    assert_eq!(SquareType::classify(BLACK).unwrap(), SquareType::Wall);
    assert_eq!(SquareType::classify(WHITE).unwrap(), SquareType::Empty);
    assert_eq!(SquareType::classify(RED).unwrap(), SquareType::End);
    assert_eq!(SquareType::classify(GREEN).unwrap(), SquareType::Start);
    assert_eq!(SquareType::classify(BLUE).unwrap(), SquareType::Checkpoint);
    // Alpha is ignored.
    assert_eq!(SquareType::classify([0, 0, 0, 0]).unwrap(), SquareType::Wall);
    assert_eq!(SquareType::classify([255, 255, 255, 17]).unwrap(), SquareType::Empty);
}

#[test]
fn classify_is_repeatable_and_strict() {
    for sample in [BLACK, WHITE, RED, GREEN, BLUE, [0, 0, 1, 255], [254, 255, 255, 255]] {
        let a = SquareType::classify(sample);
        let b = SquareType::classify(sample);
        match (a, b) {
            (Ok(x), Ok(y)) => assert_eq!(x, y),
            (Err(x), Err(y)) => {
                assert_eq!(x.color, sample);
                assert_eq!(y.color, sample);
            }
            _ => panic!("classification differs"),
        }
    }
    assert!(SquareType::classify([0, 0, 1, 255]).is_err());
    assert!(SquareType::classify([254, 255, 255, 255]).is_err());
}

#[test]
fn square_names() {
    assert_eq!(SquareType::Wall.name(), "Wall");
    assert_eq!(SquareType::Checkpoint.name(), "Checkpoint");
    assert_eq!(SquareType::Empty.name(), "Empty");
}

#[test]
fn grid_rejects_wrong_sample_count() {
    assert!(Grid::new(2, 2, vec![BLACK; 3]).is_none());
    let g = Grid::new(2, 1, vec![BLACK, RED]).unwrap();
    assert_eq!(g.pixel(1, 0), RED);
}

#[test]
fn wall_lengths() {
    assert_eq!(cell(3, 3).length(), 1);
    assert_eq!(seg(1, 2, 5, 2).length(), 4);
    assert_eq!(seg(1, 2, 1, 9).length(), 7);
    assert_eq!(seg(0, 0, 1, 0).length(), 1);
}

#[test]
fn point_inside_wall_boxes() {
    let walls = vec![seg(2, 1, 2, 4), cell(7, 7)];
    assert!(check_if_point_is_wall(2, 3, &walls));
    assert!(check_if_point_is_wall(2, 1, &walls));
    assert!(check_if_point_is_wall(7, 7, &walls));
    assert!(!check_if_point_is_wall(2, 5, &walls));
    assert!(!check_if_point_is_wall(3, 3, &walls));
    assert!(!check_if_point_is_wall(0, 0, &[]));
}

#[test]
fn horizontal_scan_order() {
    let g = grid(&["#.##", "####", "...#"]);
    assert_eq!(
        horizontal_runs(&g),
        vec![cell(0, 0), seg(2, 0, 3, 0), seg(0, 1, 3, 1), cell(3, 2)]
    );
}

#[test]
fn vertical_scan_skips_single_cells() {
    let g = grid(&["#.##", "####", "...#"]);
    assert_eq!(vertical_runs(&g), vec![seg(0, 0, 0, 1), seg(2, 0, 2, 1), seg(3, 0, 3, 2)]);
}

#[test]
fn reconcile_drops_covered_single_cells_only() {
    let horizontal = vec![cell(0, 0), seg(0, 1, 3, 1), cell(5, 5), cell(0, 2)];
    let vertical = vec![seg(0, 0, 0, 2)];
    assert_eq!(
        reconcile(horizontal, vertical),
        vec![seg(0, 1, 3, 1), cell(5, 5), seg(0, 0, 0, 2)]
    );
}

#[test]
fn ranking_is_stable_and_descending() {
    let walls = vec![cell(0, 0), seg(0, 1, 1, 1), seg(0, 2, 3, 2), cell(5, 5), seg(4, 0, 4, 3)];
    assert_eq!(
        rank_walls(walls),
        vec![seg(0, 2, 3, 2), seg(4, 0, 4, 3), cell(0, 0), seg(0, 1, 1, 1), cell(5, 5)]
    );
    assert!(rank_walls(Vec::new()).is_empty());
}

#[test]
fn cross_keeps_overlapping_runs() {
    let l = level(&[".#.", "###", ".#."]);
    assert_eq!(l.walls, vec![seg(0, 1, 2, 1), seg(1, 0, 1, 2)]);
}

#[test]
fn outputs_are_valid_sorted_and_reconciled() {
    let l = level(&["#.##.#", "#..#.#", "####.#", "...#..", "#.#.##"]);
    for w in &l.walls {
        if let Some(e) = w.end {
            assert!((e.x == w.start.x) != (e.y == w.start.y));
            assert!(e.x >= w.start.x && e.y >= w.start.y);
        }
    }
    for i in 0..l.walls.len() {
        for j in i + 1..l.walls.len() {
            assert!(l.walls[i].length() >= l.walls[j].length());
        }
    }
    for a in &l.walls {
        if a.end.is_none() {
            for b in &l.walls {
                if let Some(e) = b.end {
                    if e.x == b.start.x {
                        let inside = b.start.x <= a.start.x
                            && a.start.x <= e.x
                            && b.start.y <= a.start.y
                            && a.start.y <= e.y;
                        assert!(!inside);
                    }
                }
            }
        }
    }
    let mut sorted = l.walls.clone();
    sorted.sort_by_key(|w| std::cmp::Reverse(w.length()));
    assert_eq!(sorted, l.walls);
}

#[test]
fn markers_alone() {
    let (start, end, checkpoints) = markers(&grid(&["C#S", "E.C"]));
    assert_eq!(start, p(2, 0));
    assert_eq!(end, p(0, 1));
    assert_eq!(checkpoints, vec![p(0, 0), p(2, 1)]);
}
