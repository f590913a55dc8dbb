use retro3d::grid::{GridMap, Rgb};
use retro3d::maze::{BOTTOM_WALL, LEFT_WALL, RIGHT_WALL, TOP_WALL};
use retro3d::source::{CyclingSource, ThreadRandom};
use retro3d::maze::SplitSource;

fn border_expected(w: u32, h: u32, x: u32, y: u32) -> usize {
    if x == w - 1 {
        RIGHT_WALL
    } else if x == 0 {
        LEFT_WALL
    } else if y == h - 1 {
        BOTTOM_WALL
    } else if y == 0 {
        TOP_WALL
    } else {
        0
    }
}

#[test]
fn bordered_map_has_four_walls() {
    let top = Rgb { r: 1, g: 0, b: 0 };
    let bottom = Rgb { r: 2, g: 0, b: 0 };
    let left = Rgb { r: 3, g: 0, b: 0 };
    let right = Rgb { r: 4, g: 0, b: 0 };
    let m = GridMap::bordered(16, 16, top, bottom, left, right);
    for y in 0..16 {
        for x in 0..16 {
            assert_eq!(m.cell_at(x, y), Ok(border_expected(16, 16, x, y)));
        }
    }
    assert_eq!(m.cell_at(0, 0), Ok(LEFT_WALL));
    assert_eq!(m.cell_at(15, 0), Ok(RIGHT_WALL));
    assert_eq!(m.cell_at(0, 15), Ok(LEFT_WALL));
    assert_eq!(m.cell_at(15, 15), Ok(RIGHT_WALL));
    assert_eq!(m.cell_at(7, 0), Ok(TOP_WALL));
    assert_eq!(m.cell_at(7, 15), Ok(BOTTOM_WALL));
    assert_eq!(m.palette_len(), 5);
    assert_eq!(m.color_for(TOP_WALL), Ok(top));
    assert_eq!(m.color_for(BOTTOM_WALL), Ok(bottom));
    assert_eq!(m.color_for(LEFT_WALL), Ok(left));
    assert_eq!(m.color_for(RIGHT_WALL), Ok(right));
}

#[test]
fn random_maze_keeps_the_border_and_palette() {
    for (w, h) in [(16u32, 16u32), (4, 4), (5, 9), (30, 7), (1, 1), (2, 6)] {
        let m = GridMap::new_with_walls(w, h);
        assert!(m.palette_len() >= 5 && m.palette_len() <= 20);
        for y in 0..h {
            for x in 0..w {
                let id = m.cell_at(x, y).unwrap();
                assert!(m.color_for(id).is_ok());
                if x == 0 || y == 0 || x == w - 1 || y == h - 1 {
                    assert_eq!(id, border_expected(w, h, x, y));
                } else {
                    assert!(id == 0 || id >= 5);
                }
            }
        }
    }
}

#[test]
fn maze_generation_terminates_for_many_sizes() {
    for w in 4u32..24 {
        for h in 4u32..24 {
            let mut m = GridMap::new(w, h);
            m.recursive_maze(0, 0, w, h, 0);
            assert!(m.palette_len() <= 16);
        }
    }
}

#[test]
fn scripted_vertical_split() {
    let mut m = GridMap::new(10, 5);
    let mut src = CyclingSource::new(vec![0x010203, 3]);
    m.recursive_maze_with(&mut src, 0, 0, 10, 5, 3);
    assert_eq!(m.palette_len(), 2);
    assert_eq!(m.color_for(1), Ok(Rgb { r: 3, g: 2, b: 1 }));
    for y in 0..5 {
        for x in 0..10 {
            assert_eq!(m.cell_at(x, y), Ok(if x == 5 { 1 } else { 0 }));
        }
    }
}

#[test]
fn scripted_horizontal_split_then_stop() {
    // 6 wide, 9 high at depth 3: one split across the rows at 2 + 7 % 5 = 4.
    let mut m = GridMap::new(6, 9);
    let mut src = CyclingSource::new(vec![0, 7]);
    m.recursive_maze_with(&mut src, 0, 0, 6, 9, 3);
    assert_eq!(m.palette_len(), 2);
    for y in 0..9 {
        for x in 0..6 {
            assert_eq!(m.cell_at(x, y), Ok(if y == 4 { 1 } else { 0 }));
        }
    }
}

#[test]
fn degenerate_regions_are_left_alone() {
    let mut m = GridMap::new(8, 8);
    let mut src = CyclingSource::new(vec![1, 2, 3]);
    m.recursive_maze_with(&mut src, 0, 0, 4, 4, 0);
    m.recursive_maze_with(&mut src, 0, 0, 3, 8, 0);
    m.recursive_maze_with(&mut src, 0, 0, 8, 8, 4);
    assert_eq!(m.palette_len(), 1);
}

#[test]
fn scripted_maze_stays_inside_its_region() {
    let mut m = GridMap::new(20, 20);
    let mut src = CyclingSource::new(vec![5, 11, 2, 9, 4, 1, 8]);
    m.recursive_maze_with(&mut src, 2, 3, 15, 12, 0);
    let n = m.palette_len();
    assert!(n > 1 && n <= 16);
    for y in 0..20u32 {
        for x in 0..20u32 {
            let id = m.cell_at(x, y).unwrap();
            if !(2..17).contains(&x) || !(3..15).contains(&y) {
                assert_eq!(id, 0);
            }
            assert!(id < n);
        }
    }
}

#[test]
fn thread_random_picks_within_range() {
    let mut rng = ThreadRandom;
    let mut seen_other = false;
    for _ in 0..200 {
        let v = rng.pick(10, 1000);
        assert!((10..1000).contains(&v));
        if v != 10 {
            seen_other = true;
        }
    }
    assert!(seen_other);
}

#[test]
fn cycling_source_repeats() {
    let mut src = CyclingSource::new(vec![4, 6]);
    assert_eq!(src.draw(), 4);
    assert_eq!(src.draw(), 6);
    assert_eq!(src.draw(), 4);
    let mut empty = CyclingSource::new(vec![]);
    assert_eq!(empty.draw(), 0);
    assert_eq!(empty.pick(3, 8), 3);
}

#[test]
fn split_region_paints_one_line() {
    let mut m = GridMap::new(8, 6);
    let c = Rgb { r: 9, g: 8, b: 7 };
    let id = m.split_region(1, 1, 6, 4, 3, c);
    assert_eq!(id, 1);
    assert_eq!(m.color_for(1), Ok(c));
    for y in 0..6 {
        for x in 0..8 {
            let expected = if x == 3 && (1..5).contains(&y) { 1 } else { 0 };
            assert_eq!(m.cell_at(x, y), Ok(expected));
        }
    }
    let id2 = m.split_region(0, 0, 3, 6, 2, c);
    assert_eq!(id2, 2);
    for x in 0..8 {
        assert_eq!(m.cell_at(x, 2), Ok(if x < 3 { 2 } else if x == 3 { 1 } else { 0 }));
    }
}

#[test]
fn random_maze_carves_the_interior() {
    for (w, h) in [(16u32, 16u32), (7, 7), (12, 8), (8, 30)] {
        let m = GridMap::new_with_walls(w, h);
        assert!(m.palette_len() >= 6);
        let mut walls = 0;
        for y in 1..h - 1 {
            for x in 1..w - 1 {
                if m.cell_at(x, y).unwrap() != 0 {
                    walls += 1;
                }
            }
        }
        assert!(walls > 0);
    }
}

#[test]
fn unsplit_regions_change_nothing() {
    let mut m = GridMap::new(10, 10);
    let mut src = ThreadRandom;
    m.recursive_maze_with(&mut src, 0, 0, 10, 3, 0);
    m.recursive_maze_with(&mut src, 0, 0, 3, 10, 0);
    m.recursive_maze_with(&mut src, 0, 0, 10, 10, 4);
    m.recursive_maze_with(&mut src, 2, 2, 4, 4, 1);
    assert_eq!(m.palette_len(), 1);
    for y in 0..10 {
        for x in 0..10 {
            assert_eq!(m.cell_at(x, y), Ok(0));
        }
    }
}

#[test]
fn split_leaves_a_full_wall_of_its_id() {
    for _ in 0..50 {
        let mut m = GridMap::new(20, 12);
        m.recursive_maze(1, 2, 18, 9, 0);
        assert!(m.palette_len() >= 2);
        assert_eq!(m.cell_at(1, 2), Ok(0));
        let s = (3..17).find(|&s| m.cell_at(s, 2) == Ok(1)).expect("wall column of id 1");
        for cy in 2..11 {
            assert_ne!(m.cell_at(s, cy), Ok(0));
        }
    }
}
