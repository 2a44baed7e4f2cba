use std::iter::repeat;

use hafen_bot::coords::{tile_pos_to_tile_index, GRID_SIZE};
use hafen_bot::grid::Grid;
use hafen_bot::navigator::{
    divide_into_areas, divide_loop_areas, make_area_border, make_areas, pos_to_index, Area, Areas,
};
use hafen_bot::vec2::Vec2i;

#[test]
fn make_areas_should_return_borders_for_each_area() {
    let grid = Grid {
        id: 0,
        revision: 0,
        segment_id: 0,
        position: Vec2i::zero(),
        heights: repeat(0u32).take((GRID_SIZE * GRID_SIZE) as usize).collect(),
        tiles: repeat(0).take((GRID_SIZE * GRID_SIZE) as usize).collect(),
    };
    assert_eq!(make_areas(&grid), vec![
        Area {
            tile: 0,
            border: vec![
                Vec2i::new(0, 0), Vec2i::new(100, 0),
                Vec2i::new(100, 100), Vec2i::new(0, 100),
            ],
        },
    ]);
}

#[test]
fn make_areas_should_divide_different_tiles_into_areas() {
    let mut tiles: Vec<i32> = repeat(0).take((GRID_SIZE * GRID_SIZE) as usize).collect();
    for y in 0..GRID_SIZE {
        for x in GRID_SIZE / 2..GRID_SIZE {
            tiles[tile_pos_to_tile_index(Vec2i::new(x, y))] = 1;
        }
    }
    let grid = Grid {
        id: 0,
        revision: 0,
        segment_id: 0,
        position: Vec2i::zero(),
        heights: repeat(0u32).take((GRID_SIZE * GRID_SIZE) as usize).collect(),
        tiles,
    };
    assert_eq!(make_areas(&grid), vec![
        Area {
            tile: 0,
            border: vec![
                Vec2i::new(0, 0), Vec2i::new(50, 0),
                Vec2i::new(50, 100), Vec2i::new(0, 100),
            ],
        },
        Area {
            tile: 1,
            border: vec![
                Vec2i::new(50, 0), Vec2i::new(100, 0),
                Vec2i::new(100, 100), Vec2i::new(50, 100),
            ],
        },
    ]);
}

#[test]
fn make_areas_should_support_nested_areas() {
    let mut tiles: Vec<i32> = repeat(0).take((GRID_SIZE * GRID_SIZE) as usize).collect();
    for x in GRID_SIZE / 3..2 * GRID_SIZE / 3 {
        for y in GRID_SIZE / 3..2 * GRID_SIZE / 3 {
            tiles[tile_pos_to_tile_index(Vec2i::new(x, y))] = 1;
        }
    }
    let grid = Grid {
        id: 0,
        revision: 0,
        segment_id: 0,
        position: Vec2i::zero(),
        heights: repeat(0u32).take((GRID_SIZE * GRID_SIZE) as usize).collect(),
        tiles,
    };
    assert_eq!(make_areas(&grid), vec![
        Area {
            tile: 0,
            border: vec![
                Vec2i::new(0, 0), Vec2i::new(100, 0),
                Vec2i::new(100, 66), Vec2i::new(66, 66),
                Vec2i::new(66, 33), Vec2i::new(33, 33),
                Vec2i::new(33, 100), Vec2i::new(0, 100),
            ],
        },
        Area {
            tile: 1,
            border: vec![
                Vec2i::new(33, 33), Vec2i::new(66, 33),
                Vec2i::new(66, 66), Vec2i::new(33, 66),
            ],
        },
        Area {
            tile: 0,
            border: vec![
                Vec2i::new(33, 66), Vec2i::new(100, 66),
                Vec2i::new(100, 100), Vec2i::new(33, 100),
            ],
        },
    ]);
}

#[test]
fn make_areas_should_support_diagonal_left_to_right_border() {
    let mut tiles: Vec<i32> = repeat(0).take((GRID_SIZE * GRID_SIZE) as usize).collect();
    for y in 0..GRID_SIZE {
        for x in y..GRID_SIZE {
            tiles[tile_pos_to_tile_index(Vec2i::new(x, y))] = 1;
        }
    }
    let grid = Grid {
        id: 0,
        revision: 0,
        segment_id: 0,
        position: Vec2i::zero(),
        heights: repeat(0u32).take((GRID_SIZE * GRID_SIZE) as usize).collect(),
        tiles,
    };
    assert_eq!(make_areas(&grid), vec![
        Area {
            tile: 1,
            border: vec![
                Vec2i::new(0, 0), Vec2i::new(100, 0), Vec2i::new(100, 100),
                Vec2i::new(1, 1), Vec2i::new(1, 0),
            ],
        },
        Area {
            tile: 0,
            border: vec![
                Vec2i::new(0, 1), Vec2i::new(99, 100), Vec2i::new(0, 100)
            ],
        },
    ]);
}

#[test]
fn make_areas_should_support_diagonal_right_to_left_border() {
    let mut tiles: Vec<i32> = repeat(0).take((GRID_SIZE * GRID_SIZE) as usize).collect();
    for y in 0..GRID_SIZE {
        for x in GRID_SIZE - y..GRID_SIZE {
            tiles[tile_pos_to_tile_index(Vec2i::new(x, y))] = 1;
        }
    }
    let grid = Grid {
        id: 0,
        revision: 0,
        segment_id: 0,
        position: Vec2i::zero(),
        heights: repeat(0u32).take((GRID_SIZE * GRID_SIZE) as usize).collect(),
        tiles,
    };
    assert_eq!(make_areas(&grid), vec![
        Area {
            tile: 0,
            border: vec![
                Vec2i::new(0, 0), Vec2i::new(100, 0), Vec2i::new(0, 100),
            ],
        },
        Area {
            tile: 1,
            border: vec![
                Vec2i::new(99, 1), Vec2i::new(100, 1), Vec2i::new(100, 100),
                Vec2i::new(1, 100), Vec2i::new(99, 2),
            ],
        },
    ]);
}

#[test]
fn divide_into_areas_should_fill_all_grid_with_only_one_tile() {
    let grid = Grid {
        id: 0,
        revision: 0,
        segment_id: 0,
        position: Vec2i::zero(),
        heights: repeat(0u32).take((GRID_SIZE * GRID_SIZE) as usize).collect(),
        tiles: repeat(0).take((GRID_SIZE * GRID_SIZE) as usize).collect(),
    };
    let areas = divide_into_areas(&grid);
    assert_eq!(
        areas,
        Areas {
            number: 2,
            size: GRID_SIZE as usize,
            values: repeat(1).take((GRID_SIZE * GRID_SIZE) as usize).collect(),
        },
    );
}

#[test]
fn divide_into_areas_should_separate_different_tiles_into_different_areas() {
    let mut tiles: Vec<i32> = repeat(0).take((GRID_SIZE * GRID_SIZE) as usize).collect();
    for y in 0..GRID_SIZE {
        for x in GRID_SIZE / 2..GRID_SIZE {
            tiles[tile_pos_to_tile_index(Vec2i::new(x, y))] = 1;
        }
    }
    let expected_areas: Vec<u16> = tiles.iter()
        .map(|v| match *v as u16 {
            0 => 1,
            1 => 2,
            _ => 0,
        })
        .collect();
    let grid = Grid {
        id: 0,
        revision: 0,
        segment_id: 0,
        position: Vec2i::zero(),
        heights: repeat(0u32).take((GRID_SIZE * GRID_SIZE) as usize).collect(),
        tiles,
    };
    let areas = divide_into_areas(&grid);
    assert_eq!(areas, Areas { number: 3, size: GRID_SIZE as usize, values: expected_areas });
}

#[test]
fn divide_into_areas_should_put_horizontally_separated_same_tile_into_different_areas() {
    let mut tiles: Vec<i32> = repeat(0).take((GRID_SIZE * GRID_SIZE) as usize).collect();
    for y in 0..GRID_SIZE {
        for x in GRID_SIZE / 3..2 * GRID_SIZE / 3 {
            tiles[tile_pos_to_tile_index(Vec2i::new(x, y))] = 1;
        }
    }
    let mut expected_areas: Vec<u16> = tiles.iter()
        .map(|v| match *v as u16 {
            0 => 1,
            1 => 2,
            _ => 0,
        })
        .collect();
    for y in 0..GRID_SIZE {
        for x in 2 * GRID_SIZE / 3..GRID_SIZE {
            expected_areas[tile_pos_to_tile_index(Vec2i::new(x, y))] = 3;
        }
    }
    let grid = Grid {
        id: 0,
        revision: 0,
        segment_id: 0,
        position: Vec2i::zero(),
        heights: repeat(0u32).take((GRID_SIZE * GRID_SIZE) as usize).collect(),
        tiles,
    };
    let areas = divide_into_areas(&grid);
    assert_eq!(areas, Areas { number: 4, size: GRID_SIZE as usize, values: expected_areas });
}

#[test]
fn divide_into_areas_should_put_vertically_separated_same_tile_into_different_areas() {
    let mut tiles: Vec<i32> = repeat(0).take((GRID_SIZE * GRID_SIZE) as usize).collect();
    for y in GRID_SIZE / 3..2 * GRID_SIZE / 3 {
        for x in 0..GRID_SIZE {
            tiles[tile_pos_to_tile_index(Vec2i::new(x, y))] = 1;
        }
    }
    let mut expected_areas: Vec<u16> = tiles.iter()
        .map(|v| match *v as u16 {
            0 => 1,
            1 => 2,
            _ => 0,
        })
        .collect();
    for y in 2 * GRID_SIZE / 3..GRID_SIZE {
        for x in 0..GRID_SIZE {
            expected_areas[tile_pos_to_tile_index(Vec2i::new(x, y))] = 3;
        }
    }
    let grid = Grid {
        id: 0,
        revision: 0,
        segment_id: 0,
        position: Vec2i::zero(),
        heights: repeat(0u32).take((GRID_SIZE * GRID_SIZE) as usize).collect(),
        tiles,
    };
    let areas = divide_into_areas(&grid);
    assert_eq!(areas, Areas { number: 4, size: GRID_SIZE as usize, values: expected_areas });
}

#[test]
fn divide_into_areas_should_support_nested_areas() {
    let mut tiles: Vec<i32> = repeat(0).take((GRID_SIZE * GRID_SIZE) as usize).collect();
    for x in GRID_SIZE / 3..2 * GRID_SIZE / 3 {
        for y in GRID_SIZE / 3..2 * GRID_SIZE / 3 {
            tiles[tile_pos_to_tile_index(Vec2i::new(x, y))] = 1;
        }
    }
    let expected_areas: Vec<u16> = tiles.iter()
        .map(|v| match *v as u16 {
            0 => 1,
            1 => 2,
            _ => 0,
        })
        .collect();
    let grid = Grid {
        id: 0,
        revision: 0,
        segment_id: 0,
        position: Vec2i::zero(),
        heights: repeat(0u32).take((GRID_SIZE * GRID_SIZE) as usize).collect(),
        tiles,
    };
    let areas = divide_into_areas(&grid);
    assert_eq!(areas, Areas { number: 3, size: GRID_SIZE as usize, values: expected_areas });
}

#[test]
fn divide_into_areas_should_support_diagonal_left_to_right_border() {
    let mut tiles: Vec<i32> = repeat(0).take((GRID_SIZE * GRID_SIZE) as usize).collect();
    for y in 0..GRID_SIZE {
        for x in y..GRID_SIZE {
            tiles[tile_pos_to_tile_index(Vec2i::new(x, y))] = 1;
        }
    }
    let expected_areas: Vec<u16> = tiles.iter()
        .map(|v| match *v as u16 {
            0 => 2,
            1 => 1,
            _ => 0,
        })
        .collect();
    let grid = Grid {
        id: 0,
        revision: 0,
        segment_id: 0,
        position: Vec2i::zero(),
        heights: repeat(0u32).take((GRID_SIZE * GRID_SIZE) as usize).collect(),
        tiles,
    };
    let areas = divide_into_areas(&grid);
    assert_eq!(areas, Areas { number: 3, size: GRID_SIZE as usize, values: expected_areas });
}

#[test]
fn divide_into_areas_should_support_diagonal_right_to_left_border() {
    let mut tiles: Vec<i32> = repeat(0).take((GRID_SIZE * GRID_SIZE) as usize).collect();
    for y in 0..GRID_SIZE {
        for x in GRID_SIZE - y..GRID_SIZE {
            tiles[tile_pos_to_tile_index(Vec2i::new(x, y))] = 1;
        }
    }
    let expected_areas: Vec<u16> = tiles.iter()
        .map(|v| match *v as u16 {
            0 => 1,
            1 => 2,
            _ => 0,
        })
        .collect();
    let grid = Grid {
        id: 0,
        revision: 0,
        segment_id: 0,
        position: Vec2i::zero(),
        heights: repeat(0u32).take((GRID_SIZE * GRID_SIZE) as usize).collect(),
        tiles,
    };
    let areas = divide_into_areas(&grid);
    assert_eq!(areas, Areas { number: 3, size: GRID_SIZE as usize, values: expected_areas });
}

#[test]
fn divide_into_areas_should_support_single_different_tile() {
    let mut tiles: Vec<i32> = repeat(0).take((GRID_SIZE * GRID_SIZE) as usize).collect();
    tiles[0] = 1;
    let expected_areas: Vec<u16> = tiles.iter()
        .map(|v| match *v as u16 {
            0 => 2,
            1 => 1,
            _ => 0,
        })
        .collect();
    let grid = Grid {
        id: 0,
        revision: 0,
        segment_id: 0,
        position: Vec2i::zero(),
        heights: repeat(0u32).take((GRID_SIZE * GRID_SIZE) as usize).collect(),
        tiles,
    };
    let areas = divide_into_areas(&grid);
    assert_eq!(areas, Areas { number: 3, size: GRID_SIZE as usize, values: expected_areas });
}

#[test]
fn divide_loop_areas_should_support_nested_areas() {
    let mut tiles: Vec<i32> = repeat(0).take((GRID_SIZE * GRID_SIZE) as usize).collect();
    for x in GRID_SIZE / 3..2 * GRID_SIZE / 3 {
        for y in GRID_SIZE / 3..2 * GRID_SIZE / 3 {
            tiles[tile_pos_to_tile_index(Vec2i::new(x, y))] = 1;
        }
    }
    let mut expected_areas: Vec<u16> = repeat(1).take(tiles.len()).collect();
    for y in GRID_SIZE / 3..2 * GRID_SIZE / 3 {
        for x in GRID_SIZE / 3..2 * GRID_SIZE / 3 {
            expected_areas[tile_pos_to_tile_index(Vec2i::new(x, y))] = 2;
        }
    }
    for y in 2 * GRID_SIZE / 3..GRID_SIZE {
        for x in GRID_SIZE / 3..GRID_SIZE {
            expected_areas[tile_pos_to_tile_index(Vec2i::new(x, y))] = 3;
        }
    }
    let grid = Grid {
        id: 0,
        revision: 0,
        segment_id: 0,
        position: Vec2i::zero(),
        heights: repeat(0u32).take((GRID_SIZE * GRID_SIZE) as usize).collect(),
        tiles,
    };
    let mut areas = divide_into_areas(&grid);
    divide_loop_areas(&mut areas, &grid);
    assert_eq!(areas, Areas { number: 4, size: GRID_SIZE as usize, values: expected_areas });
}

#[test]
fn divide_loop_areas_should_support_diagonal_left_to_right_border() {
    let mut tiles: Vec<i32> = repeat(0).take((GRID_SIZE * GRID_SIZE) as usize).collect();
    for y in 0..GRID_SIZE {
        for x in y..GRID_SIZE {
            tiles[tile_pos_to_tile_index(Vec2i::new(x, y))] = 1;
        }
    }
    let expected_areas: Vec<u16> = tiles.iter()
        .map(|v| match *v as u16 {
            0 => 2,
            1 => 1,
            _ => 0,
        })
        .collect();
    let grid = Grid {
        id: 0,
        revision: 0,
        segment_id: 0,
        position: Vec2i::zero(),
        heights: repeat(0u32).take((GRID_SIZE * GRID_SIZE) as usize).collect(),
        tiles,
    };
    let mut areas = divide_into_areas(&grid);
    divide_loop_areas(&mut areas, &grid);
    assert_eq!(areas, Areas { number: 3, size: GRID_SIZE as usize, values: expected_areas });
}

#[test]
fn divide_loop_areas_should_support_diagonal_right_to_left_border() {
    let mut tiles: Vec<i32> = repeat(0).take((GRID_SIZE * GRID_SIZE) as usize).collect();
    for y in 0..GRID_SIZE {
        for x in GRID_SIZE - y..GRID_SIZE {
            tiles[tile_pos_to_tile_index(Vec2i::new(x, y))] = 1;
        }
    }
    let expected_areas: Vec<u16> = tiles.iter()
        .map(|v| match *v as u16 {
            0 => 1,
            1 => 2,
            _ => 0,
        })
        .collect();
    let grid = Grid {
        id: 0,
        revision: 0,
        segment_id: 0,
        position: Vec2i::zero(),
        heights: repeat(0u32).take((GRID_SIZE * GRID_SIZE) as usize).collect(),
        tiles,
    };
    let mut areas = divide_into_areas(&grid);
    divide_loop_areas(&mut areas, &grid);
    assert_eq!(areas, Areas { number: 3, size: GRID_SIZE as usize, values: expected_areas });
}

#[test]
fn divide_loop_areas_should_support_single_different_tile() {
    let mut tiles: Vec<i32> = repeat(0).take((GRID_SIZE * GRID_SIZE) as usize).collect();
    tiles[0] = 1;
    let expected_areas: Vec<u16> = tiles.iter()
        .map(|v| match *v as u16 {
            0 => 2,
            1 => 1,
            _ => 0,
        })
        .collect();
    let grid = Grid {
        id: 0,
        revision: 0,
        segment_id: 0,
        position: Vec2i::zero(),
        heights: repeat(0u32).take((GRID_SIZE * GRID_SIZE) as usize).collect(),
        tiles,
    };
    let mut areas = divide_into_areas(&grid);
    divide_loop_areas(&mut areas, &grid);
    assert_eq!(areas, Areas { number: 3, size: GRID_SIZE as usize, values: expected_areas });
}

#[test]
fn divide_loop_areas_should_support_spiral() {
    let mut tiles: Vec<i32> = repeat(0).take((GRID_SIZE * GRID_SIZE) as usize).collect();
    for y in 0..GRID_SIZE / 3 {
        for x in 0..GRID_SIZE {
            tiles[tile_pos_to_tile_index(Vec2i::new(x, y))] = 1;
        }
    }
    for y in GRID_SIZE / 3..GRID_SIZE {
        for x in 3 * GRID_SIZE / 4..GRID_SIZE {
            tiles[tile_pos_to_tile_index(Vec2i::new(x, y))] = 1;
        }
    }
    for y in 4 * GRID_SIZE / 5..GRID_SIZE {
        for x in 0..GRID_SIZE {
            tiles[tile_pos_to_tile_index(Vec2i::new(x, y))] = 1;
        }
    }
    for y in 3 * GRID_SIZE / 7..4 * GRID_SIZE / 5 {
        for x in 0..GRID_SIZE / 6 {
            tiles[tile_pos_to_tile_index(Vec2i::new(x, y))] = 1;
        }
    }
    for y in 3 * GRID_SIZE / 7..4 * GRID_SIZE / 7 {
        for x in 0..5 * GRID_SIZE / 8 {
            tiles[tile_pos_to_tile_index(Vec2i::new(x, y))] = 1;
        }
    }
    let mut expected_areas: Vec<u16> = tiles.iter()
        .map(|v| match *v as u16 {
            0 => 2,
            1 => 1,
            _ => 0,
        })
        .collect();
    for y in 4 * GRID_SIZE / 5..GRID_SIZE {
        for x in GRID_SIZE / 6..GRID_SIZE {
            expected_areas[tile_pos_to_tile_index(Vec2i::new(x, y))] = 5;
        }
    }
    for y in 3 * GRID_SIZE / 7..GRID_SIZE {
        for x in 0..GRID_SIZE / 6 {
            expected_areas[tile_pos_to_tile_index(Vec2i::new(x, y))] = 3;
        }
    }
    for y in 3 * GRID_SIZE / 7..4 * GRID_SIZE / 7 {
        for x in 0..5 * GRID_SIZE / 8 {
            expected_areas[tile_pos_to_tile_index(Vec2i::new(x, y))] = 3;
        }
    }
    for y in 4 * GRID_SIZE / 7..4 * GRID_SIZE / 5 {
        for x in GRID_SIZE / 6..3 * GRID_SIZE / 4 {
            expected_areas[tile_pos_to_tile_index(Vec2i::new(x, y))] = 4;
        }
    }
    let grid = Grid {
        id: 0,
        revision: 0,
        segment_id: 0,
        position: Vec2i::zero(),
        heights: repeat(0u32).take((GRID_SIZE * GRID_SIZE) as usize).collect(),
        tiles,
    };
    let mut areas = divide_into_areas(&grid);
    divide_loop_areas(&mut areas, &grid);
    assert_eq!(areas, Areas { number: 6, size: GRID_SIZE as usize, values: expected_areas });
}

#[test]
fn make_area_border_should_return_border_for_square() {
    let areas = Areas {
        number: 2,
        size: 3,
        values: repeat(1).take(9).collect(),
    };
    assert_eq!(
        area_border_to_string(&areas, &make_area_border(Vec2i::zero(), 1, &areas)),
        String::from("^**\
                         $.*\
                         ***\
                         ")
    );
}

#[test]
fn make_area_border_should_return_border_for_cross_like_area() {
    let mut areas = Areas {
        number: 3,
        size: 9,
        values: repeat(1).take(81).collect(),
    };
    for y in 3..6 {
        for x in 0..9 {
            set_area_by_pos(&mut areas, Vec2i::new(x, y), 2);
            set_area_by_pos(&mut areas, Vec2i::new(y, x), 2);
        }
    }
    assert_eq!(
        area_border_to_string(&areas, &make_area_border(Vec2i::new(3, 0), 2, &areas)),
        String::from("...^**...\
                         ...$.*...\
                         ...*.*...\
                         ****.****\
                         *.......*\
                         ****.****\
                         ...*.*...\
                         ...*.*...\
                         ...***...\
                         ")
    );
}

#[test]
fn make_area_border_should_return_border_for_area_with_single_tile_width_part() {
    let mut areas = Areas {
        number: 3,
        size: 7,
        values: repeat(1).take(49).collect(),
    };
    for y in 2..5 {
        for x in 2..5 {
            set_area_by_pos(&mut areas, Vec2i::new(x, y), 2);
        }
    }
    for n in 0..7 {
        set_area_by_pos(&mut areas, Vec2i::new(n, 3), 2);
        set_area_by_pos(&mut areas, Vec2i::new(3, n), 2);
    }
    assert_eq!(make_area_border(Vec2i::new(2, 2), 2, &areas), vec![
        Vec2i::new(2, 2), Vec2i::new(3, 2), Vec2i::new(3, 1),
        Vec2i::new(3, 0), Vec2i::new(3, 1), Vec2i::new(3, 2),
        Vec2i::new(4, 2), Vec2i::new(4, 3), Vec2i::new(5, 3),
        Vec2i::new(6, 3), Vec2i::new(5, 3), Vec2i::new(4, 3),
        Vec2i::new(4, 4), Vec2i::new(3, 4), Vec2i::new(3, 5),
        Vec2i::new(3, 6), Vec2i::new(3, 5), Vec2i::new(3, 4),
        Vec2i::new(2, 4), Vec2i::new(2, 3), Vec2i::new(1, 3),
        Vec2i::new(0, 3), Vec2i::new(1, 3), Vec2i::new(2, 3),
    ]);
}

#[test]
fn make_area_border_should_return_border_for_area_with_single_tile_width_line() {
    let mut areas = Areas {
        number: 3,
        size: 5 as usize,
        values: repeat(1).take(25).collect(),
    };
    for n in 0..3 {
        set_area_by_pos(&mut areas, Vec2i::new(0, n), 2);
    }
    for n in 0..4 {
        set_area_by_pos(&mut areas, Vec2i::new(n, 2), 2);
    }
    for n in 3..5 {
        set_area_by_pos(&mut areas, Vec2i::new(3, n), 2);
    }
    assert_eq!(make_area_border(Vec2i::zero(), 2, &areas), vec![
        Vec2i::new(0, 0), Vec2i::new(0, 1), Vec2i::new(0, 2),
        Vec2i::new(1, 2), Vec2i::new(2, 2), Vec2i::new(3, 2),
        Vec2i::new(3, 3), Vec2i::new(3, 4), Vec2i::new(3, 3),
        Vec2i::new(3, 2), Vec2i::new(2, 2), Vec2i::new(1, 2),
        Vec2i::new(0, 2), Vec2i::new(0, 1),
    ]);
}

#[test]
fn make_area_border_should_return_border_for_area_with_diagonal_border_1() {
    let initial_position = Vec2i::zero();
    let mut areas = Areas {
        number: 2,
        size: 3,
        values: repeat(1).take(9).collect(),
    };
    for y in 0..3 {
        for x in y..3 {
            set_area_by_pos(&mut areas, Vec2i::new(x, y), 2);
        }
    }
    assert_eq!(make_area_border(Vec2i::zero(), 2, &areas), vec![
        Vec2i::new(0, 0), Vec2i::new(1, 0), Vec2i::new(2, 0),
        Vec2i::new(2, 1), Vec2i::new(2, 2), Vec2i::new(2, 1),
        Vec2i::new(1, 1), Vec2i::new(1, 0),
    ]);
}

#[test]
fn make_area_border_should_return_border_for_area_with_diagonal_border_2() {
    let initial_position = Vec2i::zero();
    let mut areas = Areas {
        number: 2,
        size: 3,
        values: repeat(1).take(9).collect(),
    };
    for y in 0..3 {
        for x in y + 1..3 {
            set_area_by_pos(&mut areas, Vec2i::new(x, y), 2);
        }
    }
    assert_eq!(make_area_border(Vec2i::zero(), 1, &areas), vec![
        Vec2i::new(0, 0), Vec2i::new(0, 1), Vec2i::new(1, 1),
        Vec2i::new(1, 2), Vec2i::new(2, 2), Vec2i::new(1, 2),
        Vec2i::new(0, 2), Vec2i::new(0, 1),
    ]);
}

#[test]
fn make_area_border_should_support_single_tile_area() {
    let initial_position = Vec2i::new(GRID_SIZE / 2, GRID_SIZE / 2);
    let area = 2;
    let mut areas = Areas {
        number: area + 1,
        size: GRID_SIZE as usize,
        values: repeat(1).take((GRID_SIZE * GRID_SIZE) as usize).collect(),
    };
    set_area_by_pos(&mut areas, initial_position, area);
    assert_eq!(make_area_border(initial_position, area, &areas), vec![initial_position]);
}

#[test]
fn make_area_border_should_support_two_tiles_area() {
    let initial_position = Vec2i::new(GRID_SIZE / 2, GRID_SIZE / 2);
    let area = 2;
    let mut areas = Areas {
        number: area + 1,
        size: GRID_SIZE as usize,
        values: repeat(1).take((GRID_SIZE * GRID_SIZE) as usize).collect(),
    };
    set_area_by_pos(&mut areas, initial_position, area);
    set_area_by_pos(&mut areas, initial_position + Vec2i::only_x(1), area);
    assert_eq!(make_area_border(initial_position, area, &areas), vec![
        initial_position,
        initial_position + Vec2i::only_x(1),
    ]);
}

#[test]
fn make_area_border_should_support_single_tile_width_area() {
    let mut areas = Areas {
        number: 3,
        size: 3,
        values: repeat(1).take(9).collect(),
    };
    for n in 0..3 {
        set_area_by_pos(&mut areas, Vec2i::new(n, 1), 2);
    }
    assert_eq!(make_area_border(Vec2i::new(0, 1), 2, &areas), vec![
        Vec2i::new(0, 1), Vec2i::new(1, 1),
        Vec2i::new(2, 1), Vec2i::new(1, 1),
    ]);
}

fn area_border_to_string(areas: &Areas, border: &Vec<Vec2i>) -> String {
    let mut result: Vec<u8> = repeat('.' as u8).take(areas.size * areas.size).collect();
    if !border.is_empty() {
        result[pos_to_index(border[0], areas.size)] = '^' as u8;
        for i in 1..border.len() - 1 {
            result[pos_to_index(border[i], areas.size)] = '*' as u8;
        }
        if border.len() > 1 {
            result[pos_to_index(border[border.len() - 1], areas.size)] = '$' as u8;
        }
    }
    String::from_utf8(result).unwrap()
}

fn set_area_by_pos(areas: &mut Areas, position: Vec2i, value: u16) {
    areas.values[position.x() as usize + position.y() as usize * areas.size as usize] = value;
}
