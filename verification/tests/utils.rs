use swl::utils::coordinates::{
    GlobalPoint, GlobalRect, OutputRelativePoint, OutputRelativeRect, VirtualOutputRelativePoint,
    VirtualOutputRelativeRect,
};
use swl::utils::geometry::{saturating_difference, saturating_sum, Point, Rectangle, Size};
use swl::utils::lists;
use swl::utils::table::Table;
use swl::utils::text;

fn rect(x: i32, y: i32, w: i32, h: i32) -> Rectangle {
    Rectangle::new(Point::new(x, y), Size::new(w, h))
}

#[test]
fn sums_saturate() {
    assert_eq!(saturating_sum(i32::MAX, 1), i32::MAX);
    assert_eq!(saturating_sum(3, 4), 7);
    assert_eq!(saturating_difference(i32::MIN, 1), i32::MIN);
    assert_eq!(saturating_difference(3, 4), -1);
}

#[test]
fn rectangles_contain_their_corner_and_not_their_end() {
    let r = rect(10, 20, 30, 40);
    assert!(r.contains(Point::new(10, 20)));
    assert!(r.contains(Point::new(39, 59)));
    assert!(!r.contains(Point::new(40, 20)));
    assert!(!r.contains(Point::new(10, 60)));
    assert!(!r.contains(Point::new(9, 30)));
}

#[test]
fn intersection_is_the_common_part() {
    let a = rect(0, 0, 100, 100);
    let b = rect(50, 60, 100, 100);
    assert!(a.overlaps(&b) && b.overlaps(&a));
    assert_eq!(a.intersection(&b), Some(rect(50, 60, 50, 40)));
    let far = rect(100, 0, 10, 10);
    assert!(!a.overlaps(&far));
    assert_eq!(a.intersection(&far), None);
}

#[test]
fn global_points_go_to_an_output_and_back() {
    let output = GlobalPoint::new(1920, 100);
    let p = GlobalPoint::new(2000, 90);
    let relative = p.to_output_relative(output);
    assert_eq!(relative, OutputRelativePoint::new(80, -10));
    assert_eq!(relative.to_global(output), p);
    assert_eq!(relative.offset_by(-1, 2), OutputRelativePoint::new(79, -8));
}

#[test]
fn virtual_points_go_through_the_global_space() {
    let vout = GlobalPoint::new(500, 0);
    let output = GlobalPoint::new(400, 50);
    let p = VirtualOutputRelativePoint::new(10, 70);
    assert_eq!(p.to_global(vout), GlobalPoint::new(510, 70));
    assert_eq!(p.to_output_relative(vout, output), OutputRelativePoint::new(110, 20));
    let q = Point::new(1, 2);
    assert_eq!((p + q).as_point(), Point::new(11, 72));
    assert_eq!((p - q).as_point(), Point::new(9, 68));
}

#[test]
fn a_bar_on_top_keeps_the_bottom() {
    let area = VirtualOutputRelativeRect::from(rect(5, 10, 100, 50));
    let below = VirtualOutputRelativeRect::with_y_offset(&area, 6);
    assert_eq!(below.as_rectangle(), rect(5, 16, 100, 44));
}

#[test]
fn a_global_rectangle_seen_from_its_virtual_output_starts_at_the_origin() {
    let global = GlobalRect::from_loc_and_size(GlobalPoint::new(300, 400), Size::new(7, 8));
    let relative = VirtualOutputRelativeRect::from(global);
    assert_eq!(relative.as_rectangle(), rect(0, 0, 7, 8));
    assert_eq!(global.location(), GlobalPoint::new(300, 400));
    assert!(global.contains(Point::new(306, 407)));
    assert_eq!(Rectangle::from(global), rect(300, 400, 7, 8));
    assert_eq!(OutputRelativeRect::from(rect(1, 2, 3, 4)).size(), Size::new(3, 4));
    assert_eq!(GlobalPoint::default(), GlobalPoint::new(0, 0));
}

#[test]
fn lists_keep_their_order() {
    let list = vec![5, 3, 5, 8];
    assert!(lists::contains(&list, 8));
    assert!(!lists::contains(&list, 9));
    assert_eq!(lists::position(&list, 5), Some(0));
    assert_eq!(lists::position(&list, 9), None);
    assert_eq!(lists::remove_value(&list, 5), vec![3, 8]);
    assert_eq!(lists::remove_all(&list, &vec![3, 8]), vec![5, 5]);
    assert_eq!(lists::copy_list(&list), list);
}

#[test]
fn tables_file_and_forget() {
    let mut table: Table<u64> = Table::new();
    table.insert(7, 70);
    table.insert(3, 30);
    table.insert(7, 71);
    assert_eq!(table.len(), 2);
    assert_eq!(table.at(0), (7, 71));
    assert_eq!(table.get(3), Some(30));
    assert_eq!(table.remove(7), Some(71));
    assert_eq!(table.remove(7), None);
    assert_eq!(table.get(7), None);
    assert_eq!(table.get(3), Some(30));
}

#[test]
fn numbers_are_read_like_numbers() {
    assert_eq!(text::parse_i32("-2147483648"), Some(i32::MIN));
    assert_eq!(text::parse_i32("2147483648"), None);
    assert_eq!(text::parse_i32("+17"), Some(17));
    assert_eq!(text::parse_i32(""), None);
    assert_eq!(text::parse_i32("-"), None);
    assert_eq!(text::parse_i32("1x"), None);
    assert_eq!(text::parse_usize("42"), Some(42));
    assert_eq!(text::parse_usize("-1"), None);
    assert_eq!(text::parse_usize("99999999999999999999999"), None);
    assert_eq!(text::parse_u32("4294967295"), Some(u32::MAX));
    assert_eq!(text::parse_u32("4294967296"), None);
    assert_eq!(text::parse_u32("-0"), None);
}

#[test]
fn numbers_are_read_as_std_reads_them() {
    for s in ["0", "007", "+0", "-0", "--1", "+", "12 ", " 12", "2147483647", "-2147483649", "1_0"] {
        assert_eq!(text::parse_i32(s), s.parse::<i32>().ok(), "{s}");
        assert_eq!(text::parse_u32(s), s.parse::<u32>().ok(), "{s}");
        assert_eq!(text::parse_usize(s), s.parse::<usize>().ok(), "{s}");
    }
}

#[test]
fn decimal_notation_round_trips() {
    for n in [0u64, 9, 10, 305, 18446744073709551615] {
        assert_eq!(text::decimal_text(n), n.to_string());
    }
    assert_eq!(text::parse_i32(text::decimal_text(90210).as_str()), Some(90210));
}

#[test]
fn texts_are_split_and_trimmed() {
    assert_eq!(text::split("a;;b", ';'), vec!["a", "", "b"]);
    assert_eq!(text::split("", ','), vec![""]);
    assert_eq!(text::trim(" \t1\n"), "1");
    assert_eq!(text::trim(" \u{a0}\u{3000} "), "");
    for s in ["", "x", "  x y ", "\u{2028}x\u{85}", "\u{200b}x", "\r\n\u{b}\u{c}1 2"] {
        assert_eq!(text::trim(s), s.trim());
    }
    assert!(text::same_text("DP-1", "DP-1"));
    assert!(!text::same_text("DP-1", "DP-11"));
}
