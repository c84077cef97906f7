use gpig::color::{default_palette, ColorManager, GIT_BLUE, GIT_GREEN, GIT_PURPLE};
use gpig::edge::{Edge, EdgeManager};
use gpig::history_oid::{HistoryOid, HistoryOids};
use gpig::menu::{DropdownEvent, MenuBar};
use gpig::oid::Oid;
use gpig::point::Point;
use gpig::title::TitleBar;

#[test]
fn colors_cycle_through_palette() {
    let mut colors = ColorManager::new(default_palette());
    let got: Vec<usize> = (0..7usize).map(|lane| colors.get_color(&lane)).collect();
    assert_eq!(got, vec![0, 1, 2, 3, 4, 0, 1]);
    assert_eq!(colors.get_color(&3), 3);
    assert_eq!(colors.rgb(0), GIT_PURPLE);
    assert_eq!(colors.rgb(1), GIT_BLUE);
    assert_eq!(colors.rgb(4), GIT_GREEN);
}

#[test]
fn released_color_goes_to_next_lane_that_asks() {
    let mut colors = ColorManager::new(default_palette());
    assert_eq!(colors.get_color(&0), 0);
    assert_eq!(colors.get_color(&1), 1);
    assert_eq!(colors.get_color(&2), 2);
    colors.remove_lane_color(&1);
    assert_eq!(colors.get_color(&5), 1);
    // Lane 1 has no color any more: it gets the next fresh one.
    assert_eq!(colors.get_color(&1), 3);
    // The last color given back is reused first.
    colors.remove_lane_color(&0);
    colors.remove_lane_color(&2);
    assert_eq!(colors.get_color(&7), 2);
    assert_eq!(colors.get_color(&8), 0);
    assert_eq!(colors.get_color(&9), 4);
}

#[test]
fn releasing_a_lane_without_color_changes_nothing() {
    let mut colors = ColorManager::new(vec![10, 20]);
    colors.remove_lane_color(&4);
    assert_eq!(colors.get_color(&4), 0);
    assert_eq!(colors.get_color(&0), 1);
    assert_eq!(colors.get_color(&1), 0);
}

#[test]
fn pending_ends_by_parent_in_order() {
    let a = Oid::new(1, 2, 3);
    let b = Oid::new(1, 2, 4);
    let end = |x: u128, lane: usize| HistoryOid::new(Point::new(x, 0), lane, lane);
    let mut index = HistoryOids::new();
    assert!(index.get(&a).is_empty());
    index.add_history(a, end(35, 0));
    index.add_history(b, end(50, 1));
    index.add_history(a, end(65, 2));
    let got = index.get(&a);
    assert_eq!(got.len(), 2);
    assert_eq!(got[0], end(35, 0));
    assert_eq!(got[1], end(65, 2));
    assert_eq!(index.get(&b), vec![end(50, 1)]);
}

#[test]
fn edge_manager_hands_out_edges_once() {
    let mut edges = EdgeManager::new();
    edges.add(Point::new(1, 2), Point::new(3, 4), 2);
    edges.add(Point::new(5, 6), Point::new(7, 8), 0);
    let taken = edges.take_edges();
    assert_eq!(
        taken,
        vec![
            Edge::new(Point::new(1, 2), Point::new(3, 4), 2),
            Edge::new(Point::new(5, 6), Point::new(7, 8), 0),
        ]
    );
    assert!(edges.take_edges().is_empty());
}

#[test]
fn menu_dropdown_toggles_and_closes() {
    let mut menu = MenuBar::new();
    assert!(!menu.is_dropdown_open());
    assert_eq!(menu.close_dropdown(), None);
    assert_eq!(menu.toggle_dropdown(), DropdownEvent { is_open: true });
    assert!(menu.is_dropdown_open());
    assert_eq!(menu.close_dropdown(), Some(DropdownEvent { is_open: false }));
    assert!(!menu.is_dropdown_open());
    assert_eq!(menu.toggle_dropdown(), DropdownEvent { is_open: true });
    assert_eq!(menu.toggle_dropdown(), DropdownEvent { is_open: false });
}

#[test]
fn title_bar_title() {
    let mut title = TitleBar::new("Dark Pig Git".to_string());
    assert_eq!(title.title(), "Dark Pig Git");
    title.set_title("repo".to_string());
    assert_eq!(title.title(), "repo");
}
