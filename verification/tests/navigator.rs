use hafen_bot::navigator::{make_area_contour, remove_redundant_border_positions, smooth_area_border};
use hafen_bot::vec2::Vec2i;

#[test]
fn make_area_contour_should_include_tile() {
    let border = vec![
        Vec2i::new(0, 0), Vec2i::new(99, 0),
        Vec2i::new(99, 99), Vec2i::new(0, 99),
    ];
    assert_eq!(make_area_contour(border), vec![
        Vec2i::new(0, 0), Vec2i::new(100, 0),
        Vec2i::new(100, 100), Vec2i::new(0, 100),
    ]);
}

#[test]
fn make_area_contour_should_support_cross_like_border() {
    let border = vec![
        Vec2i::new(33, 0), Vec2i::new(65, 0),
        Vec2i::new(65, 33), Vec2i::new(99, 33),
        Vec2i::new(99, 65), Vec2i::new(65, 65),
        Vec2i::new(65, 99), Vec2i::new(33, 99),
        Vec2i::new(33, 65), Vec2i::new(0, 65),
        Vec2i::new(0, 33), Vec2i::new(33, 33),
    ];
    assert_eq!(make_area_contour(border), vec![
        Vec2i::new(33, 0), Vec2i::new(66, 0),
        Vec2i::new(66, 33), Vec2i::new(100, 33),
        Vec2i::new(100, 66), Vec2i::new(66, 66),
        Vec2i::new(66, 100), Vec2i::new(33, 100),
        Vec2i::new(33, 66), Vec2i::new(0, 66),
        Vec2i::new(0, 33), Vec2i::new(33, 33),
    ]);
}

#[test]
fn make_area_contour_should_support_border_with_single_tile_width_part() {
    let border = vec![
        Vec2i::new(33, 33), Vec2i::new(50, 33),
        Vec2i::new(50, 31), Vec2i::new(50, 33),
        Vec2i::new(65, 33), Vec2i::new(65, 50),
        Vec2i::new(67, 50), Vec2i::new(65, 50),
        Vec2i::new(65, 65), Vec2i::new(50, 65),
        Vec2i::new(50, 67), Vec2i::new(50, 65),
        Vec2i::new(33, 65), Vec2i::new(33, 50),
        Vec2i::new(31, 50), Vec2i::new(33, 50),
    ];
    assert_eq!(make_area_contour(border), vec![
        Vec2i::new(33, 33), Vec2i::new(50, 33),
        Vec2i::new(50, 31), Vec2i::new(51, 31), Vec2i::new(51, 33),
        Vec2i::new(66, 33), Vec2i::new(66, 50),
        Vec2i::new(68, 50), Vec2i::new(68, 51), Vec2i::new(66, 51),
        Vec2i::new(66, 66), Vec2i::new(51, 66),
        Vec2i::new(51, 68), Vec2i::new(50, 68), Vec2i::new(50, 66),
        Vec2i::new(33, 66), Vec2i::new(33, 51),
        Vec2i::new(31, 51), Vec2i::new(31, 50), Vec2i::new(33, 50),
    ]);
}

#[test]
fn make_area_contour_should_support_border_with_single_tile_width() {
    let border = vec![
        Vec2i::new(20, 20), Vec2i::new(20, 30),
        Vec2i::new(30, 30), Vec2i::new(30, 40),
        Vec2i::new(30, 30), Vec2i::new(20, 30),
    ];
    assert_eq!(make_area_contour(border), vec![
        Vec2i::new(20, 20), Vec2i::new(21, 20),
        Vec2i::new(21, 30), Vec2i::new(31, 30),
        Vec2i::new(31, 41), Vec2i::new(30, 41),
        Vec2i::new(30, 31), Vec2i::new(20, 31),
    ]);
}

#[test]
fn make_area_contour_should_support_border_for_single_tile() {
    let border = vec![Vec2i::new(0, 0)];
    assert_eq!(make_area_contour(border), vec![
        Vec2i::new(0, 0), Vec2i::new(1, 0),
        Vec2i::new(1, 1), Vec2i::new(0, 1),
    ]);
}

#[test]
fn make_area_contour_should_support_border_for_two_tiles() {
    let border = vec![Vec2i::new(0, 0), Vec2i::new(1, 0)];
    assert_eq!(make_area_contour(border), vec![
        Vec2i::new(0, 0), Vec2i::new(2, 0),
        Vec2i::new(2, 1), Vec2i::new(0, 1),
    ]);
}

#[test]
fn make_area_contour_should_support_border_for_single_tile_width_by_x() {
    let border = vec![Vec2i::new(0, 0), Vec2i::new(3, 0)];
    assert_eq!(make_area_contour(border), vec![
        Vec2i::new(0, 0), Vec2i::new(4, 0),
        Vec2i::new(4, 1), Vec2i::new(0, 1),
    ]);
}

#[test]
fn make_area_contour_should_support_border_for_single_tile_width_by_y() {
    let border = vec![Vec2i::new(0, 0), Vec2i::new(0, 3)];
    assert_eq!(make_area_contour(border), vec![
        Vec2i::new(0, 0), Vec2i::new(1, 0),
        Vec2i::new(1, 4), Vec2i::new(0, 4),
    ]);
}

#[test]
fn smooth_area_border_should_return_empty_as_is() {
    assert_eq!(smooth_area_border(vec![]), Vec::<Vec2i>::new());
}

#[test]
fn smooth_area_border_should_return_one_value_as_is() {
    assert_eq!(smooth_area_border(vec![Vec2i::zero()]), vec![Vec2i::zero()]);
}

#[test]
fn smooth_area_border_should_return_two_values_as_is() {
    assert_eq!(
        smooth_area_border(vec![Vec2i::new(0, 0), Vec2i::new(2, 0)]),
        vec![Vec2i::new(0, 0), Vec2i::new(2, 0)]
    );
}

#[test]
fn smooth_area_border_should_not_smooth_distant_positions() {
    assert_eq!(
        smooth_area_border(vec![Vec2i::new(0, 0), Vec2i::new(2, 0), Vec2i::new(2, 2)]),
        vec![Vec2i::new(0, 0), Vec2i::new(2, 0), Vec2i::new(2, 2)]
    );
}

#[test]
fn smooth_area_border_should_smooth_close_positions() {
    assert_eq!(
        smooth_area_border(vec![Vec2i::new(0, 0), Vec2i::new(1, 0), Vec2i::new(1, 1)]),
        vec![Vec2i::new(0, 0), Vec2i::new(1, 1)]
    );
}

#[test]
fn smooth_area_border_should_smooth_multiple_close_positions() {
    assert_eq!(
        smooth_area_border(vec![
            Vec2i::new(0, 0), Vec2i::new(1, 0), Vec2i::new(1, 1),
            Vec2i::new(2, 1), Vec2i::new(2, 2),
        ]),
        vec![Vec2i::new(0, 0), Vec2i::new(1, 1), Vec2i::new(2, 2)]
    );
}

#[test]
fn remove_redundant_border_positions_should_support_dead_end() {
    assert_eq!(
        remove_redundant_border_positions(vec![
            Vec2i::new(4, 4), Vec2i::new(4, 5), Vec2i::new(4, 6),
            Vec2i::new(4, 5), Vec2i::new(3, 5), Vec2i::new(3, 4),
        ]),
        vec![
            Vec2i::new(4, 4), Vec2i::new(4, 6),
            Vec2i::new(4, 5), Vec2i::new(3, 5), Vec2i::new(3, 4),
        ]
    );
}

#[test]
fn remove_redundant_border_positions_should_return_empty_as_is() {
    assert_eq!(remove_redundant_border_positions(vec![]), Vec::<Vec2i>::new());
}

#[test]
fn remove_redundant_border_positions_should_return_single_value_as_is() {
    assert_eq!(remove_redundant_border_positions(vec![Vec2i::zero()]), vec![Vec2i::zero()]);
}

#[test]
fn remove_redundant_border_positions_should_return_two_values_as_is() {
    assert_eq!(remove_redundant_border_positions(vec![Vec2i::zero(), Vec2i::zero()]), vec![Vec2i::zero(), Vec2i::zero()]);
}

#[test]
fn remove_redundant_border_positions_should_remove_positions_on_the_same_line() {
    assert_eq!(
        remove_redundant_border_positions(vec![
            Vec2i::new(0, 0), Vec2i::new(1, 1), Vec2i::new(2, 2),
        ]),
        vec![Vec2i::new(0, 0), Vec2i::new(2, 2)]
    );
}

#[test]
fn remove_redundant_border_positions_should_remove_positions_on_the_same_line_2() {
    assert_eq!(
        remove_redundant_border_positions(vec![
            Vec2i::new(0, 0), Vec2i::new(1, 1), Vec2i::new(2, 2),
        ]),
        vec![Vec2i::new(0, 0), Vec2i::new(2, 2)]
    );
}
