use vstd::prelude::*;

use crate::menu::{DropdownEvent, MenuBar};
use crate::oid::Oid;
use crate::title::TitleBar;

verus! {

/// How a commit changed a file.
#[derive(Clone, Copy, Debug, PartialEq, Eq, Structural)]
pub enum ChangeKind {
    Added,
    Deleted,
    Modified,
    Renamed,
    Copied,
    Other,
}

/// The letter that marks a change in the file list.
pub fn status_text(kind: ChangeKind) -> (r: char)
    ensures
        r == match kind {
            ChangeKind::Added => 'A',
            ChangeKind::Deleted => 'D',
            ChangeKind::Modified => 'M',
            ChangeKind::Renamed => 'R',
            ChangeKind::Copied => 'C',
            ChangeKind::Other => '?',
        },
{
    match kind {
        ChangeKind::Added => 'A',
        ChangeKind::Deleted => 'D',
        ChangeKind::Modified => 'M',
        ChangeKind::Renamed => 'R',
        ChangeKind::Copied => 'C',
        ChangeKind::Other => '?',
    }
}

/// The RGB color of a change's letter.
pub fn status_color(kind: ChangeKind) -> (r: u32)
    ensures
        r == match kind {
            ChangeKind::Added => 0x2ECC71u32,
            ChangeKind::Deleted => 0xE74C3Cu32,
            ChangeKind::Modified => 0xF39C12u32,
            ChangeKind::Renamed => 0x3498DBu32,
            ChangeKind::Copied => 0x9B59B6u32,
            ChangeKind::Other => 0x888888u32,
        },
{
    match kind {
        ChangeKind::Added => 0x2ECC71,
        ChangeKind::Deleted => 0xE74C3C,
        ChangeKind::Modified => 0xF39C12,
        ChangeKind::Renamed => 0x3498DB,
        ChangeKind::Copied => 0x9B59B6,
        ChangeKind::Other => 0x888888,
    }
}

/// A file a commit changed.
#[derive(Clone, Debug)]
pub struct ChangedFile {
    pub path: String,
    pub status: ChangeKind,
}

/// A commit picked in the graph.
#[derive(Clone, Copy, Debug, PartialEq, Eq, Structural)]
pub struct CommitSelected {
    pub oid: Oid,
}

/// The half of the window that takes the clicks.
#[derive(Clone, Copy, Debug, PartialEq, Eq, Structural)]
pub enum ActivePane {
    Dock,
    Content,
}

/// The half of the window that holds the graph.
#[derive(Clone, Copy, Debug, PartialEq, Eq, Structural)]
pub struct Dock;

/// A half of the window.
#[derive(Clone, Copy, Debug, PartialEq, Eq, Structural)]
pub struct Pane;

/// What the content half shows.
#[derive(Clone, Copy, Debug, PartialEq, Eq, Structural)]
pub enum ContentView {
    /// The commit changed no file.
    NoFiles,
    /// The list of changed files.
    FileList,
    /// A file's diff is being computed.
    Loading,
    /// The selected file is not in the list.
    InvalidSelection,
    /// The diff of the changed file at this index.
    Diff { file: usize },
}

/// A diff the window has to compute: the file at `path` in the commit `oid`.
#[derive(Clone, Debug)]
pub struct DiffRequest {
    pub oid: Oid,
    pub path: String,
}

/// The window's state: title, menu, picked commit, its changed files, and the diff shown.
pub struct Workspace {
    title_bar: TitleBar,
    menu_bar: MenuBar,
    selected_commit: Option<CommitSelected>,
    changed_files: Vec<ChangedFile>,
    selected_file: Option<usize>,
    file_diff: Option<String>,
    active_pane: ActivePane,
    loading_diff: bool,
    current_commit_oid: Option<Oid>,
}

pub open spec fn diff_text(d: Option<String>) -> Option<Seq<char>> {
    match d {
        Some(s) => Some(s@),
        None => None,
    }
}

impl Workspace {
    pub closed spec fn spec_title(&self) -> Seq<char> {
        self.title_bar.spec_title()
    }

    pub closed spec fn spec_menu_open(&self) -> bool {
        self.menu_bar.spec_is_dropdown_open()
    }

    pub closed spec fn spec_selected_commit(&self) -> Option<CommitSelected> {
        self.selected_commit
    }

    pub closed spec fn spec_changed_files(&self) -> Seq<ChangedFile> {
        self.changed_files@
    }

    pub closed spec fn spec_selected_file(&self) -> Option<usize> {
        self.selected_file
    }

    pub closed spec fn spec_file_diff(&self) -> Option<Seq<char>> {
        diff_text(self.file_diff)
    }

    pub closed spec fn spec_active_pane(&self) -> ActivePane {
        self.active_pane
    }

    pub closed spec fn spec_loading_diff(&self) -> bool {
        self.loading_diff
    }

    pub closed spec fn spec_current_commit(&self) -> Option<Oid> {
        self.current_commit_oid
    }

    /// What the content half shows: the diff panel once a file is selected, else the list.
    pub open spec fn spec_content_view(&self) -> ContentView {
        match self.spec_selected_file() {
            None => if self.spec_changed_files().len() == 0 {
                ContentView::NoFiles
            } else {
                ContentView::FileList
            },
            Some(i) => if self.spec_loading_diff() {
                ContentView::Loading
            } else if i >= self.spec_changed_files().len() {
                ContentView::InvalidSelection
            } else {
                ContentView::Diff { file: i }
            },
        }
    }

    pub fn new() -> (r: Workspace)
        ensures
            r.spec_title() == "Dark Pig Git"@,
            !r.spec_menu_open(),
            r.spec_selected_commit() is None,
            r.spec_changed_files().len() == 0,
            r.spec_selected_file() is None,
            r.spec_file_diff() is None,
            r.spec_active_pane() == ActivePane::Content,
            !r.spec_loading_diff(),
            r.spec_current_commit() is None,
    {
        proof {
            reveal_strlit("Dark Pig Git");
        }
        Workspace {
            title_bar: TitleBar::new("Dark Pig Git".to_owned()),
            menu_bar: MenuBar::new(),
            selected_commit: None,
            changed_files: Vec::new(),
            selected_file: None,
            file_diff: None,
            active_pane: ActivePane::Content,
            loading_diff: false,
            current_commit_oid: None,
        }
    }

    pub fn title(&self) -> (r: &str)
        ensures
            r@ == self.spec_title(),
    {
        self.title_bar.title()
    }

    pub fn is_menu_open(&self) -> (r: bool)
        ensures
            r == self.spec_menu_open(),
    {
        self.menu_bar.is_dropdown_open()
    }

    pub fn selected_commit(&self) -> (r: Option<CommitSelected>)
        ensures
            r == self.spec_selected_commit(),
    {
        self.selected_commit
    }

    pub fn changed_files(&self) -> (r: &Vec<ChangedFile>)
        ensures
            r@ == self.spec_changed_files(),
    {
        &self.changed_files
    }

    pub fn selected_file(&self) -> (r: Option<usize>)
        ensures
            r == self.spec_selected_file(),
    {
        self.selected_file
    }

    pub fn file_diff(&self) -> (r: &Option<String>)
        ensures
            diff_text(*r) == self.spec_file_diff(),
    {
        &self.file_diff
    }

    pub fn active_pane(&self) -> (r: ActivePane)
        ensures
            r == self.spec_active_pane(),
    {
        self.active_pane
    }

    pub fn loading_diff(&self) -> (r: bool)
        ensures
            r == self.spec_loading_diff(),
    {
        self.loading_diff
    }

    pub fn set_title(&mut self, title: &str)
        ensures
            final(self).spec_title() == title@,
            final(self).spec_menu_open() == old(self).spec_menu_open(),
            final(self).spec_selected_commit() == old(self).spec_selected_commit(),
            final(self).spec_changed_files() == old(self).spec_changed_files(),
            final(self).spec_selected_file() == old(self).spec_selected_file(),
            final(self).spec_file_diff() == old(self).spec_file_diff(),
            final(self).spec_active_pane() == old(self).spec_active_pane(),
            final(self).spec_loading_diff() == old(self).spec_loading_diff(),
            final(self).spec_current_commit() == old(self).spec_current_commit(),
    {
        self.title_bar.set_title(title.to_owned());
    }

    pub fn set_selected_commit(&mut self, commit: Option<CommitSelected>)
        ensures
            final(self).spec_selected_commit() == commit,
            final(self).spec_title() == old(self).spec_title(),
            final(self).spec_menu_open() == old(self).spec_menu_open(),
            final(self).spec_changed_files() == old(self).spec_changed_files(),
            final(self).spec_selected_file() == old(self).spec_selected_file(),
            final(self).spec_file_diff() == old(self).spec_file_diff(),
            final(self).spec_active_pane() == old(self).spec_active_pane(),
            final(self).spec_loading_diff() == old(self).spec_loading_diff(),
            final(self).spec_current_commit() == old(self).spec_current_commit(),
    {
        self.selected_commit = commit;
    }

    /// Shows the files `commit` changed, with no file selected yet.
    pub fn load_changed_files(&mut self, commit: &CommitSelected, files: Vec<ChangedFile>)
        ensures
            final(self).spec_changed_files() == files@,
            final(self).spec_selected_file() is None,
            final(self).spec_file_diff() is None,
            final(self).spec_current_commit() == Some(commit.oid),
            final(self).spec_title() == old(self).spec_title(),
            final(self).spec_menu_open() == old(self).spec_menu_open(),
            final(self).spec_selected_commit() == old(self).spec_selected_commit(),
            final(self).spec_active_pane() == old(self).spec_active_pane(),
            final(self).spec_loading_diff() == old(self).spec_loading_diff(),
    {
        self.changed_files = files;
        self.selected_file = None;
        self.file_diff = None;
        self.current_commit_oid = Some(commit.oid);
    }

    /// A commit was picked in the graph: it becomes the selected commit, and its changed
    /// files (`files`, empty when they could not be read) are shown.
    pub fn on_commit_selected(&mut self, event: &CommitSelected, files: Vec<ChangedFile>)
        ensures
            final(self).spec_selected_commit() == Some(*event),
            final(self).spec_changed_files() == files@,
            final(self).spec_selected_file() is None,
            final(self).spec_file_diff() is None,
            final(self).spec_current_commit() == Some(event.oid),
            final(self).spec_title() == old(self).spec_title(),
            final(self).spec_menu_open() == old(self).spec_menu_open(),
            final(self).spec_active_pane() == old(self).spec_active_pane(),
            final(self).spec_loading_diff() == old(self).spec_loading_diff(),
    {
        self.set_selected_commit(Some(*event));
        self.load_changed_files(event, files);
    }

    /// A file of the list was clicked. An index outside the list changes nothing. Else the
    /// file is selected; without a current commit the diff panel says so, and otherwise the
    /// diff to compute is returned and shown as loading until `finish_file_diff`.
    pub fn on_file_selected(&mut self, file_index: usize) -> (r: Option<DiffRequest>)
        ensures
            file_index >= old(self).spec_changed_files().len() ==> r is None && *final(self)
                == *old(self),
            file_index < old(self).spec_changed_files().len() ==> {
                &&& final(self).spec_selected_file() == Some(file_index)
                &&& match old(self).spec_current_commit() {
                    None => {
                        &&& r is None
                        &&& final(self).spec_file_diff() == Some("No commit selected"@)
                        &&& !final(self).spec_loading_diff()
                    },
                    Some(oid) => {
                        &&& r is Some
                        &&& r->0.oid == oid
                        &&& r->0.path@ == old(self).spec_changed_files()[file_index as int].path@
                        &&& final(self).spec_file_diff() == old(self).spec_file_diff()
                        &&& final(self).spec_loading_diff()
                    },
                }
                &&& final(self).spec_changed_files() == old(self).spec_changed_files()
                &&& final(self).spec_current_commit() == old(self).spec_current_commit()
                &&& final(self).spec_selected_commit() == old(self).spec_selected_commit()
                &&& final(self).spec_title() == old(self).spec_title()
                &&& final(self).spec_menu_open() == old(self).spec_menu_open()
                &&& final(self).spec_active_pane() == old(self).spec_active_pane()
            },
    {
        if file_index >= self.changed_files.len() {
            return None;
        }
        self.selected_file = Some(file_index);
        self.loading_diff = true;
        match self.current_commit_oid {
            Some(oid) => {
                let path = self.changed_files[file_index].path.clone();
                Some(DiffRequest { oid, path })
            },
            None => {
                proof {
                    reveal_strlit("No commit selected");
                }
                self.file_diff = Some("No commit selected".to_owned());
                self.loading_diff = false;
                None
            },
        }
    }

    /// The diff asked for by `on_file_selected` is ready (or the text of why it is not).
    pub fn finish_file_diff(&mut self, diff: String)
        ensures
            final(self).spec_file_diff() == Some(diff@),
            !final(self).spec_loading_diff(),
            final(self).spec_selected_file() == old(self).spec_selected_file(),
            final(self).spec_changed_files() == old(self).spec_changed_files(),
            final(self).spec_current_commit() == old(self).spec_current_commit(),
            final(self).spec_selected_commit() == old(self).spec_selected_commit(),
            final(self).spec_title() == old(self).spec_title(),
            final(self).spec_menu_open() == old(self).spec_menu_open(),
            final(self).spec_active_pane() == old(self).spec_active_pane(),
    {
        self.file_diff = Some(diff);
        self.loading_diff = false;
    }

    /// Leaves the diff panel for the file list.
    pub fn on_back_to_file_list(&mut self)
        ensures
            final(self).spec_selected_file() is None,
            final(self).spec_file_diff() is None,
            !final(self).spec_loading_diff(),
            final(self).spec_changed_files() == old(self).spec_changed_files(),
            final(self).spec_current_commit() == old(self).spec_current_commit(),
            final(self).spec_selected_commit() == old(self).spec_selected_commit(),
            final(self).spec_title() == old(self).spec_title(),
            final(self).spec_menu_open() == old(self).spec_menu_open(),
            final(self).spec_active_pane() == old(self).spec_active_pane(),
    {
        self.selected_file = None;
        self.file_diff = None;
        self.loading_diff = false;
    }

    /// A click landed in `pane`.
    pub fn activate_pane(&mut self, pane: ActivePane)
        ensures
            final(self).spec_active_pane() == pane,
            final(self).spec_selected_file() == old(self).spec_selected_file(),
            final(self).spec_file_diff() == old(self).spec_file_diff(),
            final(self).spec_loading_diff() == old(self).spec_loading_diff(),
            final(self).spec_changed_files() == old(self).spec_changed_files(),
            final(self).spec_current_commit() == old(self).spec_current_commit(),
            final(self).spec_selected_commit() == old(self).spec_selected_commit(),
            final(self).spec_title() == old(self).spec_title(),
            final(self).spec_menu_open() == old(self).spec_menu_open(),
    {
        self.active_pane = pane;
    }

    /// The menu button was clicked: the dropdown opens or closes.
    pub fn toggle_menu(&mut self) -> (r: DropdownEvent)
        ensures
            final(self).spec_menu_open() == !old(self).spec_menu_open(),
            r == (DropdownEvent { is_open: final(self).spec_menu_open() }),
            final(self).spec_title() == old(self).spec_title(),
            final(self).spec_active_pane() == old(self).spec_active_pane(),
            final(self).spec_selected_file() == old(self).spec_selected_file(),
    {
        self.menu_bar.toggle_dropdown()
    }

    /// A click anywhere else, or on a menu entry, closes the dropdown; the event to send,
    /// if it was open.
    pub fn close_menu(&mut self) -> (r: Option<DropdownEvent>)
        ensures
            !final(self).spec_menu_open(),
            r == if old(self).spec_menu_open() {
                Some(DropdownEvent { is_open: false })
            } else {
                None
            },
            final(self).spec_title() == old(self).spec_title(),
            final(self).spec_active_pane() == old(self).spec_active_pane(),
            final(self).spec_selected_file() == old(self).spec_selected_file(),
    {
        self.menu_bar.close_dropdown()
    }

    /// What the content half shows now.
    pub fn content_view(&self) -> (r: ContentView)
        ensures
            r == self.spec_content_view(),
    {
        match self.selected_file {
            None => if self.changed_files.len() == 0 {
                ContentView::NoFiles
            } else {
                ContentView::FileList
            },
            Some(i) => if self.loading_diff {
                ContentView::Loading
            } else if i >= self.changed_files.len() {
                ContentView::InvalidSelection
            } else {
                ContentView::Diff { file: i }
            },
        }
    }
}

} // verus!
