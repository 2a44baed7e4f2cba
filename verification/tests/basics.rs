use hafen_bot::clusterization::{
    add_wide, get_cluster_median, is_adjacent, less_wide, make_adjacent_tiles_clusters, square_wide,
};
use hafen_bot::coords::{
    grid_pos_to_tile_pos, make_tile_pos, map_pos_to_tile_pos, tile_index_to_tile_pos,
    tile_pos_to_grid_pos, tile_pos_to_map_pos, tile_pos_to_relative_tile_pos,
    tile_pos_to_tile_index,
};
use hafen_bot::math::{floor_div_i32, Clamp1, Square};
use hafen_bot::name_index::NameIndex;
use hafen_bot::ordered_map::OrderedMap;
use hafen_bot::vec2::Vec2i;
use hafen_bot::visualization::{
    get_color_component, make_rgba_color_u8, DurationMovingAverage, FpsMovingAverage,
};

#[test]
fn floor_div_rounds_toward_negative_infinity() {
    assert_eq!(floor_div_i32(7, 2), 3);
    assert_eq!(floor_div_i32(-7, 2), -4);
    assert_eq!(floor_div_i32(-1, 100), -1);
    assert_eq!(floor_div_i32(-100, 100), -1);
    assert_eq!(floor_div_i32(-101, 100), -2);
    assert_eq!(floor_div_i32(0, 100), 0);
    assert_eq!(floor_div_i32(99, 100), 0);
    assert_eq!(floor_div_i32(100, 100), 1);
    assert_eq!(floor_div_i32(i32::MIN, 100), -21474837);
    assert_eq!(floor_div_i32(i32::MAX, 100), 21474836);
}

#[test]
fn floor_div_by_negative_divisor_follows_machine_division() {
    assert_eq!(floor_div_i32(7, -2), -3);
    assert_eq!(floor_div_i32(-7, -2), 2);
    assert_eq!(floor_div_i32(i32::MIN, -1), i32::MAX - 1);
}

#[test]
fn clamp_holds_value_between_bounds() {
    assert_eq!(5usize.clamp1(1, 3), 3);
    assert_eq!(0usize.clamp1(1, 3), 1);
    assert_eq!(2usize.clamp1(1, 3), 2);
    assert_eq!((-5i32).clamp1(-2, 2), -2);
    assert_eq!(7i64.square(), 49);
}

#[test]
fn vec2i_arithmetic() {
    let a = Vec2i::new(3, -4);
    let b = Vec2i::new(-1, 2);
    assert_eq!(a + b, Vec2i::new(2, -2));
    assert_eq!(a - b, Vec2i::new(4, -6));
    assert_eq!(a * b, Vec2i::new(-3, -8));
    assert_eq!(a * 3, Vec2i::new(9, -12));
    assert_eq!(a.with_x(7), Vec2i::new(7, -4));
    assert_eq!(a.with_y(7), Vec2i::new(3, 7));
    assert_eq!(Vec2i::only_x(5), Vec2i::new(5, 0));
    assert_eq!(Vec2i::only_y(5), Vec2i::new(0, 5));
    assert_eq!(Vec2i::zero(), Vec2i::new(0, 0));
    assert_eq!(a.signum(), Vec2i::new(1, -1));
    assert_eq!(a.manhattan(), 7);
    assert_eq!(a.floor_div_i32(2), Vec2i::new(1, -2));
    assert_eq!((a.x(), a.y()), (3, -4));
    let mut c = a;
    c.add_x(2);
    c.add_y(-2);
    assert_eq!(c, Vec2i::new(5, -6));
}

#[test]
fn vec2i_wrapping_arithmetic_wraps_at_the_ends() {
    let edge = Vec2i::new(i32::MAX, i32::MIN);
    assert_eq!(edge.wrapping_add(Vec2i::new(1, -1)), Vec2i::new(i32::MIN, i32::MAX));
    assert_eq!(Vec2i::new(i32::MIN, i32::MAX).wrapping_sub(Vec2i::new(1, -1)), edge);
    assert_eq!(Vec2i::new(1, 2).wrapping_add(Vec2i::new(3, 4)), Vec2i::new(4, 6));
}

#[test]
fn map_positions_fall_into_tiles_of_1024_units() {
    assert_eq!(map_pos_to_tile_pos(Vec2i::new(0, 1023)), Vec2i::new(0, 0));
    assert_eq!(map_pos_to_tile_pos(Vec2i::new(1024, -1)), Vec2i::new(1, -1));
    assert_eq!(map_pos_to_tile_pos(Vec2i::new(-1024, -1025)), Vec2i::new(-1, -2));
    assert_eq!(map_pos_to_tile_pos(Vec2i::new(-924781, -941823)), Vec2i::new(-904, -920));
}

#[test]
fn click_in_the_middle_of_a_tile() {
    assert_eq!(tile_pos_to_map_pos(Vec2i::new(0, 0)), Vec2i::new(512, 512));
    assert_eq!(tile_pos_to_map_pos(Vec2i::new(-1, 3)), Vec2i::new(-512, 3584));
    assert_eq!(map_pos_to_tile_pos(tile_pos_to_map_pos(Vec2i::new(-77, 1234))), Vec2i::new(-77, 1234));
    assert_eq!(tile_pos_to_map_pos(Vec2i::new(i32::MAX, i32::MIN)), Vec2i::new(i32::MAX, i32::MIN));
}

#[test]
fn tiles_and_grids() {
    assert_eq!(grid_pos_to_tile_pos(Vec2i::new(2, -3)), Vec2i::new(200, -300));
    assert_eq!(tile_pos_to_grid_pos(Vec2i::new(199, -1)), Vec2i::new(1, -1));
    assert_eq!(tile_pos_to_grid_pos(Vec2i::new(-100, -101)), Vec2i::new(-1, -2));
    assert_eq!(tile_pos_to_relative_tile_pos(Vec2i::new(-1, 205), Vec2i::new(-1, 2)), Vec2i::new(99, 5));
    assert_eq!(make_tile_pos(Vec2i::new(-1, 2), Vec2i::new(99, 5)), Vec2i::new(-1, 205));
    assert_eq!(tile_pos_to_tile_index(Vec2i::new(7, 3)), 307);
    assert_eq!(tile_index_to_tile_pos(307), Vec2i::new(7, 3));
    assert_eq!(tile_index_to_tile_pos(9999), Vec2i::new(99, 99));
}

#[test]
fn tiles_that_share_a_side_are_adjacent() {
    assert!(is_adjacent(Vec2i::new(0, 0), Vec2i::new(1, 0)));
    assert!(is_adjacent(Vec2i::new(0, 0), Vec2i::new(0, -1)));
    assert!(!is_adjacent(Vec2i::new(0, 0), Vec2i::new(1, 1)));
    assert!(!is_adjacent(Vec2i::new(0, 0), Vec2i::new(0, 0)));
    assert!(!is_adjacent(Vec2i::new(0, 0), Vec2i::new(1, 5)));
    assert!(is_adjacent(Vec2i::new(i32::MAX, 0), Vec2i::new(i32::MAX - 1, 0)));
}

#[test]
fn tiles_join_the_first_cluster_that_touches_them() {
    let tiles = vec![
        Vec2i::new(0, 0),
        Vec2i::new(5, 5),
        Vec2i::new(1, 0),
        Vec2i::new(5, 6),
        Vec2i::new(2, 0),
        Vec2i::new(9, 9),
        Vec2i::new(1, 1),
    ];
    assert_eq!(make_adjacent_tiles_clusters(&tiles), vec![
        vec![Vec2i::new(0, 0), Vec2i::new(1, 0), Vec2i::new(2, 0), Vec2i::new(1, 1)],
        vec![Vec2i::new(5, 5), Vec2i::new(5, 6)],
        vec![Vec2i::new(9, 9)],
    ]);
    assert_eq!(make_adjacent_tiles_clusters(&Vec::new()), Vec::<Vec<Vec2i>>::new());
}

#[test]
fn cluster_median_is_the_tile_nearest_to_the_mean() {
    assert_eq!(get_cluster_median(&Vec::new()), None);
    assert_eq!(get_cluster_median(&vec![Vec2i::new(3, 4)]), Some(Vec2i::new(3, 4)));
    let line = vec![Vec2i::new(0, 0), Vec2i::new(1, 0), Vec2i::new(2, 0)];
    assert_eq!(get_cluster_median(&line), Some(Vec2i::new(1, 0)));
    let pair = vec![Vec2i::new(0, 0), Vec2i::new(1, 0)];
    assert_eq!(get_cluster_median(&pair), Some(Vec2i::new(0, 0)));
    let bent = vec![Vec2i::new(0, 0), Vec2i::new(10, 0), Vec2i::new(10, 1), Vec2i::new(10, 2)];
    assert_eq!(get_cluster_median(&bent), Some(Vec2i::new(10, 1)));
}

#[test]
fn ordered_map_keeps_keys_in_order() {
    let mut map: OrderedMap<&str> = OrderedMap::new();
    assert_eq!(map.insert(5, "five"), None);
    assert_eq!(map.insert(-3, "minus three"), None);
    assert_eq!(map.insert(9, "nine"), None);
    assert_eq!(map.insert(5, "FIVE"), Some("five"));
    assert_eq!(map.len(), 3);
    assert_eq!(map.keys, vec![-3, 5, 9]);
    assert_eq!(map.values, vec!["minus three", "FIVE", "nine"]);
    assert_eq!(map.get(5), Some(&"FIVE"));
    assert_eq!(map.get(6), None);
    assert!(map.contains_key(9));
    assert_eq!(map.find(6), (2, false));
    assert_eq!(map.find(9), (2, true));
    assert_eq!(map.key_at(0), -3);
    assert_eq!(map.value_at(2), &"nine");
    assert_eq!(map.replace_at(0, "m3"), "minus three");
    assert_eq!(map.remove(5), Some("FIVE"));
    assert_eq!(map.remove(5), None);
    assert_eq!(map.pop_first(), Some((-3, "m3")));
    assert_eq!(map.pop_first(), Some((9, "nine")));
    assert_eq!(map.pop_first(), None);
}

#[test]
fn name_index_resolves_names() {
    let mut index: NameIndex<i64> = NameIndex::new();
    index.insert(String::from("a"), 1);
    index.insert(String::from("b"), 2);
    index.insert(String::from("a"), 3);
    assert_eq!(index.get(&String::from("a")), Some(3));
    assert_eq!(index.get(&String::from("b")), Some(2));
    assert_eq!(index.get(&String::from("c")), None);
    index.remove(&String::from("a"));
    assert_eq!(index.get(&String::from("a")), None);
    assert_eq!(index.get(&String::from("b")), Some(2));
    index.remove(&String::from("zzz"));
    assert_eq!(index.entries.len(), 1);
}

#[test]
fn colour_components() {
    assert_eq!(get_color_component(0x11223344, 0), 0x44);
    assert_eq!(get_color_component(0x11223344, 1), 0x33);
    assert_eq!(get_color_component(0x11223344, 2), 0x22);
    assert_eq!(get_color_component(0x11223344, 3), 0x11);
    assert_eq!(get_color_component(-1, 3), 0xff);
    assert_eq!(make_rgba_color_u8(0x11223344), [0x22, 0x33, 0x44, 0x11]);
}

#[test]
fn fps_moving_average_keeps_the_last_frames() {
    let mut average = FpsMovingAverage::new(3, 1_000);
    average.add(10);
    average.add(20);
    average.add(50);
    assert_eq!((average.frames(), average.sum_duration()), (3, 40));
    average.add(60);
    assert_eq!(average.times, vec![20, 50, 60]);
    assert_eq!(average.sum_duration(), 40);
    let mut by_interval = FpsMovingAverage::new(10, 30);
    for time in [0, 10, 20, 30, 40] {
        by_interval.add(time);
    }
    assert_eq!(by_interval.times, vec![10, 20, 30, 40]);
    assert_eq!(by_interval.sum_duration(), 30);
}

#[test]
fn duration_moving_average_keeps_the_last_durations() {
    let mut average = DurationMovingAverage::new(2, 1_000);
    average.add(5);
    average.add(7);
    assert_eq!((average.frames(), average.sum_duration()), (2, 12));
    average.add(9);
    assert_eq!(average.durations, vec![7, 9]);
    assert_eq!(average.sum_duration(), 16);
}

#[test]
fn wide_numbers_hold_squares_of_96_bits() {
    let cases: [(i128, u128, u128); 8] = [
        (0, 0, 0),
        (1, 0, 1),
        (-1, 0, 1),
        (281474976710655, 0, 79228162514263774643590529025),
        (281474976710656, 1, 0),
        (39614081257132168796771987513, 19807040628566084398385999929, 152399025),
        (-79228162514264337593543950335, 79228162514264337593543950334, 1),
        (123456789012345678901234567, 192375769796437268443542, 6740863634893079403887747377),
    ];
    for (v, hi, lo) in cases {
        let square = square_wide(v);
        assert_eq!((square.hi, square.lo), (hi, lo));
    }
    let greatest = square_wide(79228162514264337593543950335);
    let sum = add_wide(greatest, greatest);
    assert_eq!((sum.hi, sum.lo), (158456325028528675187087900668, 2));
    assert!(less_wide(greatest, sum));
    assert!(!less_wide(sum, greatest));
    assert!(!less_wide(sum, sum));
    assert!(less_wide(square_wide(281474976710655), square_wide(281474976710656)));
}

#[test]
fn cluster_median_is_found_at_the_ends_of_the_range() {
    let cluster = vec![
        Vec2i::new(i32::MIN, i32::MIN),
        Vec2i::new(i32::MAX, i32::MAX),
        Vec2i::new(0, 0),
        Vec2i::new(-1, 0),
    ];
    assert_eq!(get_cluster_median(&cluster), Some(Vec2i::new(0, 0)));
    let far = vec![Vec2i::new(i32::MAX, i32::MIN), Vec2i::new(i32::MAX, i32::MIN + 1)];
    assert_eq!(get_cluster_median(&far), Some(Vec2i::new(i32::MAX, i32::MIN)));
}
