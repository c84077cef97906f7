use gpig::edge::{Edge, PathShape};
use gpig::entities::commit::CommitNode as Commit;
use gpig::garph::Garph;
use gpig::menu::DropdownEvent;
use gpig::oid::Oid;
use gpig::point::Point;
use gpig::workspace::{
    status_color, status_text, ActivePane, ChangeKind, ChangedFile, CommitSelected, ContentView,
    Workspace,
};

fn file(path: &str, status: ChangeKind) -> ChangedFile {
    ChangedFile { path: path.to_string(), status }
}

#[test]
fn edge_shapes() {
    let straight = Edge::new(Point::new(35, 0), Point::new(35, 40), 0);
    assert_eq!(straight.shape(), PathShape::Line);
    let leftwards = Edge::new(Point::new(50, 20), Point::new(35, 60), 1);
    assert_eq!(leftwards.shape(), PathShape::Curve { control: Point::new(50, 60) });
    let rightwards = Edge::new(Point::new(35, 20), Point::new(65, 0), 1);
    assert_eq!(rightwards.shape(), PathShape::Curve { control: Point::new(65, 20) });
}

#[test]
fn text_starts_past_widest_lane() {
    let mut g = Garph::new();
    assert_eq!(g.text_left(), 30 + 15 + 20);
    let id = |n: u32| Oid::new(0, 0, n);
    let commits = vec![
        Commit::new(id(1), String::new(), String::new(), 0, vec![id(2), id(3)]),
        Commit::new(id(3), String::new(), String::new(), 0, vec![id(4)]),
    ];
    g.recompute(&commits);
    assert_eq!(g.max_lane(), 1);
    assert_eq!(g.text_left(), 30 + 2 * 15 + 20);
}

#[test]
fn change_markers() {
    assert_eq!(status_text(ChangeKind::Added), 'A');
    assert_eq!(status_text(ChangeKind::Deleted), 'D');
    assert_eq!(status_text(ChangeKind::Modified), 'M');
    assert_eq!(status_text(ChangeKind::Renamed), 'R');
    assert_eq!(status_text(ChangeKind::Copied), 'C');
    assert_eq!(status_text(ChangeKind::Other), '?');
    assert_eq!(status_color(ChangeKind::Added), 0x2ECC71);
    assert_eq!(status_color(ChangeKind::Deleted), 0xE74C3C);
    assert_eq!(status_color(ChangeKind::Other), 0x888888);
}

#[test]
fn workspace_starts_empty() {
    let w = Workspace::new();
    assert_eq!(w.title(), "Dark Pig Git");
    assert!(!w.is_menu_open());
    assert_eq!(w.selected_commit(), None);
    assert_eq!(w.active_pane(), ActivePane::Content);
    assert_eq!(w.content_view(), ContentView::NoFiles);
}

#[test]
fn workspace_file_selection_flow() {
    let mut w = Workspace::new();
    let commit = CommitSelected { oid: Oid::new(9, 9, 9) };
    w.on_commit_selected(
        &commit,
        vec![file("src/a.rs", ChangeKind::Modified), file("b.txt", ChangeKind::Added)],
    );
    assert_eq!(w.selected_commit(), Some(commit));
    assert_eq!(w.content_view(), ContentView::FileList);

    // An index past the list changes nothing.
    assert!(w.on_file_selected(2).is_none());
    assert_eq!(w.selected_file(), None);

    let request = w.on_file_selected(1).unwrap();
    assert_eq!(request.oid, commit.oid);
    assert_eq!(request.path, "b.txt");
    assert_eq!(w.content_view(), ContentView::Loading);

    w.finish_file_diff("+hello".to_string());
    assert_eq!(w.content_view(), ContentView::Diff { file: 1 });
    assert_eq!(w.file_diff().as_deref(), Some("+hello"));

    w.on_back_to_file_list();
    assert_eq!(w.selected_file(), None);
    assert_eq!(w.file_diff(), &None);
    assert_eq!(w.content_view(), ContentView::FileList);
}

#[test]
fn workspace_file_without_commit() {
    let mut w = Workspace::new();
    w.set_selected_commit(Some(CommitSelected { oid: Oid::new(1, 1, 1) }));
    w.load_changed_files(&CommitSelected { oid: Oid::new(2, 2, 2) }, vec![]);
    assert_eq!(w.content_view(), ContentView::NoFiles);
    assert!(w.on_file_selected(0).is_none());
    assert_eq!(w.content_view(), ContentView::NoFiles);
}

#[test]
fn workspace_menu_and_panes() {
    let mut w = Workspace::new();
    assert_eq!(w.close_menu(), None);
    assert_eq!(w.toggle_menu(), DropdownEvent { is_open: true });
    assert!(w.is_menu_open());
    assert_eq!(w.close_menu(), Some(DropdownEvent { is_open: false }));
    w.activate_pane(ActivePane::Dock);
    assert_eq!(w.active_pane(), ActivePane::Dock);
    w.set_title("my repo");
    assert_eq!(w.title(), "my repo");
}
