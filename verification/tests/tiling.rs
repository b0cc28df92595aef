use swl::shell::tabs::{find_tab, pointer_distance, pointer_in_bar, start_of_tab, visible_width_of_tab, width_of_tab, Pointer};
use swl::shell::tiling::TilingLayout;
use swl::shell::workspace::{LayoutMode, Workspace};
use swl::utils::coordinates::VirtualOutputRelativeRect;
use swl::utils::geometry::{Point, Rectangle, Size};

fn rect(x: i32, y: i32, w: i32, h: i32) -> Rectangle {
    Rectangle::new(Point::new(x, y), Size::new(w, h))
}

fn layout(n_master: Option<&str>) -> TilingLayout {
    TilingLayout::new(VirtualOutputRelativeRect::from(rect(0, 0, 1003, 602)), n_master)
}

#[test]
fn master_count_comes_from_the_setting() {
    assert_eq!(layout(None).n_master(), 1);
    assert_eq!(layout(Some("3")).n_master(), 3);
    assert_eq!(layout(Some("-3")).n_master(), 1);
    assert_eq!(layout(Some("many")).n_master(), 1);
}

#[test]
fn master_count_saturates() {
    let mut l = layout(None);
    l.inc_n_master(-5);
    assert_eq!(l.n_master(), 0);
    l.inc_n_master(2);
    assert_eq!(l.n_master(), 2);
}

#[test]
fn no_windows_no_tiles() {
    assert!(layout(None).tile(&vec![], 0).is_empty());
}

#[test]
fn one_window_fills_the_area_within_its_border() {
    assert_eq!(layout(None).tile(&vec![7], 0), vec![(7, rect(1, 1, 1001, 600))]);
}

#[test]
fn master_and_stack_share_the_width() {
    let l = layout(None);
    assert_eq!(l.two_column_width(), 1000);
    assert_eq!(
        l.tile(&vec![1, 2, 3], 500),
        vec![
            (1, rect(1, 1, 500, 600)),
            (2, rect(502, 1, 500, 300)),
            (3, rect(502, 302, 500, 299)),
        ]
    );
}

#[test]
fn the_first_tile_of_a_column_takes_the_remainder() {
    let mut l = layout(Some("0"));
    l.set_available_area(VirtualOutputRelativeRect::from(rect(10, 20, 103, 105)));
    // the master column keeps its share, even without windows
    let tiles = l.tile(&vec![1, 2, 3], 50);
    assert_eq!(
        tiles,
        vec![
            (1, rect(62, 21, 50, 35)),
            (2, rect(62, 57, 50, 33)),
            (3, rect(62, 91, 50, 33)),
        ]
    );
}

#[test]
fn tiles_are_at_least_one_pixel() {
    let mut l = layout(None);
    l.set_available_area(VirtualOutputRelativeRect::from(rect(0, 0, 1, 1)));
    for (_, r) in l.tile(&vec![1, 2, 3], 0) {
        assert!(r.size.w >= 1 && r.size.h >= 1);
    }
}

#[test]
fn tabs_are_found_but_separators_are_not() {
    assert_eq!(width_of_tab(100, 3), 33);
    assert_eq!(start_of_tab(100, 3, 2), 66);
    assert_eq!(find_tab(100, 3, 0), Some(0));
    assert_eq!(find_tab(100, 3, 30), Some(0));
    assert_eq!(find_tab(100, 3, 31), None);
    assert_eq!(find_tab(100, 3, 33), Some(1));
    assert_eq!(visible_width_of_tab(100, 3, 1), 31);
    // the last tab takes what is left over
    assert_eq!(visible_width_of_tab(100, 3, 2), 34);
    assert_eq!(find_tab(100, 3, 98), Some(2));
    assert_eq!(find_tab(100, 3, 99), Some(2));
    assert_eq!(find_tab(100, 3, 100), None);
    assert_eq!(find_tab(100, 3, -1), None);
}

#[test]
fn the_tab_bar_is_six_pixels_high() {
    let area = rect(10, 20, 100, 80);
    let at = |x: i32, y: i32| Pointer {
        floor: Point::new(x, y),
        ceil: Point::new(x, y),
        round: Point::new(x, y),
    };
    assert!(pointer_in_bar(&area, &at(10, 20)));
    assert!(pointer_in_bar(&area, &at(10, 25)));
    assert!(!pointer_in_bar(&area, &at(10, 26)));
    assert!(!pointer_in_bar(&area, &at(10, 19)));
    assert_eq!(pointer_distance(&area, &at(47, 20)), 37);
}

#[test]
fn workspaces_keep_windows_apart_from_floating_ones() {
    let mut w = Workspace::new(String::from("1"), None);
    w.add_window(1, false);
    w.add_window(2, true);
    w.add_window(3, false);
    w.add_window(1, true);
    assert_eq!(w.windows(), &vec![1, 2, 3]);
    assert_eq!(w.tiled_windows(), vec![1, 3]);
    assert!(w.is_floating(2) && !w.is_floating(1));
    assert!(w.needs_arrange());
    assert!(w.remove_window(2, &vec![]));
    assert!(!w.remove_window(2, &vec![]));
    assert!(!w.is_floating(2));
}

#[test]
fn dead_windows_leave_everything() {
    let mut w = Workspace::new(String::from("1"), None);
    w.add_window(1, false);
    w.add_window(2, true);
    w.append_focus(1);
    w.append_focus(2);
    let found = w.validate_consistency(&vec![1]);
    assert_eq!(found.dead_windows, 1);
    w.refresh(&vec![1]);
    assert_eq!(w.windows(), &vec![2]);
    assert_eq!(w.focus_stack(), &vec![2]);
    assert_eq!(w.validate_consistency(&vec![]).dead_windows, 0);
}

#[test]
fn focus_moves_to_the_end_of_its_history() {
    let mut w = Workspace::new(String::from("1"), None);
    for id in [1, 2, 3] {
        w.add_window(id, false);
        w.append_focus(id);
    }
    w.append_focus(1);
    assert_eq!(w.focus_stack(), &vec![2, 3, 1]);
}

#[test]
fn tabs_go_round() {
    let mut w = Workspace::new(String::from("1"), None);
    for id in [1, 2, 3] {
        w.add_window(id, false);
        w.append_focus(id);
    }
    assert_eq!(w.next_tab(), None);
    w.append_focus(2);
    w.toggle_layout_mode();
    assert_eq!(w.layout_mode(), LayoutMode::Tabbed);
    assert_eq!(w.active_tab_index(), 1);
    assert_eq!(w.next_tab(), Some(3));
    assert_eq!(w.next_tab(), Some(1));
    assert_eq!(w.prev_tab(), Some(3));
    assert_eq!(w.prev_tab(), Some(2));
    w.toggle_layout_mode();
    assert_eq!(w.layout_mode(), LayoutMode::Tiling);
    assert_eq!(w.windows(), &vec![1, 2, 3]);
}

#[test]
fn a_new_tab_is_the_active_one() {
    let mut w = Workspace::new(String::from("1"), None);
    w.toggle_layout_mode();
    w.add_window(4, false);
    w.add_window(5, false);
    assert_eq!(w.active_tab_index(), 1);
    w.remove_window(5, &vec![]);
    assert_eq!(w.active_tab_index(), 0);
}

#[test]
fn the_active_tab_stays_in_range() {
    let mut w = Workspace::new(String::from("1"), None);
    w.toggle_layout_mode();
    for id in [1, 2, 3] {
        w.add_window(id, false);
    }
    assert_eq!(w.active_tab_index(), 2);
    w.remove_window(1, &vec![]);
    assert_eq!(w.active_tab_index(), 1);
    assert!(!w.validate_consistency(&vec![]).invalid_tab);
    w.add_window(4, true);
    assert_eq!(w.active_tab_index(), 1);
    w.refresh(&vec![3]);
    assert_eq!(w.active_tab_index(), 0);
    w.refresh(&vec![2]);
    assert_eq!(w.active_tab_index(), 0);
    assert!(w.tiled_windows().is_empty());
}

#[test]
fn the_same_area_asks_for_no_arrangement() {
    let mut w = Workspace::new(String::from("1"), None);
    let area = w.available_area();
    assert_eq!(area.as_rectangle(), rect(0, 0, 1920, 1080));
    w.set_needs_arrange(false);
    w.update_output_geometry(area);
    assert!(!w.needs_arrange());
    w.update_output_geometry(VirtualOutputRelativeRect::from(rect(0, 0, 800, 600)));
    assert!(w.needs_arrange());
}
