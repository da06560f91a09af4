use parrot::context::Context;
use parrot::engine::{run_view, run_selected, update_selected, update_view};
use parrot::parser::FilterPred;
use parrot::snapshot::{EditOutcome, ExecResult, Snapshot, SnapshotData, SnapshotStatus};
use parrot::term::{separator_corner, SeparatorKind};
use parrot::view::SnapshotView;

fn snap(name: &str, cmd: &str, tags: &[&str], out: &[u8], status: SnapshotStatus) -> Snapshot {
    Snapshot {
        name: String::from(name),
        cmd: String::from(cmd),
        description: None,
        tags: tags.iter().map(|t| String::from(*t)).collect(),
        exit_code: Some(0),
        stdout: if out.is_empty() {
            None
        } else {
            Some(SnapshotData {
                name: String::from(name),
                extension: String::from(".out"),
                body: out.to_vec(),
            })
        },
        stderr: None,
        status,
    }
}

fn arena() -> Vec<Snapshot> {
    vec![
        snap("greet", "echo hi", &["smoke"], b"hi\n", SnapshotStatus::Unknown),
        snap("list", "ls", &["fs"], b"a\nb\n", SnapshotStatus::Failed),
        snap("farewell", "echo bye", &["smoke", "slow"], b"bye\n", SnapshotStatus::Passed),
    ]
}

fn result(stdout: &[u8], code: Option<i32>) -> ExecResult {
    ExecResult { stdout: stdout.to_vec(), stderr: Vec::new(), exit_code: code }
}

#[test]
fn a_fresh_view_shows_everything_and_selects_the_first() {
    let v = SnapshotView::new(arena());
    assert_eq!(v.get_view(), vec![0, 1, 2]);
    assert_eq!(v.selected_index(), Some(0));
    assert_eq!(v.get_selected().unwrap().name, "greet");
}

#[test]
fn filters_are_conjunctive_and_keep_selection_by_identity() {
    let mut v = SnapshotView::new(arena());
    v.down();
    v.down();
    assert_eq!(v.selected_index(), Some(2));
    v.apply_filter(FilterPred::ByTag(String::from("smoke")));
    assert_eq!(v.get_view(), vec![0, 2]);
    // the previously selected snapshot is still visible: kept by identity
    assert_eq!(v.selected_index(), Some(2));
    v.apply_filter(FilterPred::ByTag(String::from("slow")));
    assert_eq!(v.get_view(), vec![2]);
    assert_eq!(v.selected_index(), Some(2));
}

#[test]
fn a_filter_matching_nothing_leaves_nothing_selected() {
    let mut v = SnapshotView::new(arena());
    v.apply_filter(FilterPred::ByTag(String::from("missing")));
    assert_eq!(v.get_view(), Vec::<usize>::new());
    assert!(v.get_selected().is_none());
    assert_eq!(v.selected_index(), None);
}

#[test]
fn clear_filters_shows_the_whole_backing_collection_again() {
    let backing = arena();
    let backing_len = backing.len();
    let mut v = SnapshotView::new(backing);
    v.apply_filter(FilterPred::BySubstring(String::from("echo")));
    assert_eq!(v.get_view(), vec![0, 2]);
    v.clear_filters();
    assert_eq!(v.get_view().len(), backing_len);
    assert_eq!(v.selected_index(), Some(0));
}

#[test]
fn substring_filters_match_name_and_command() {
    let mut v = SnapshotView::new(arena());
    v.apply_filter(FilterPred::ByName(String::from("ree")));
    assert_eq!(v.get_view(), vec![0]);
    v.clear_filters();
    v.apply_filter(FilterPred::BySubstring(String::from("ls")));
    assert_eq!(v.get_view(), vec![1]);
    v.clear_filters();
    v.apply_filter(FilterPred::ByStatus(SnapshotStatus::Failed));
    assert_eq!(v.get_view(), vec![1]);
}

#[test]
fn cursor_saturates_at_both_ends() {
    let mut v = SnapshotView::new(arena());
    v.up();
    assert_eq!(v.selected_index(), Some(0));
    v.down();
    v.down();
    v.down();
    assert_eq!(v.selected_index(), Some(2));
}

#[test]
fn run_view_aggregates_with_a_logical_and() {
    let mut v = SnapshotView::new(arena());
    let results = vec![
        result(b"hi\n", Some(0)),
        result(b"a\nb\n", Some(0)),
        result(b"bye\n", Some(0)),
    ];
    assert!(run_view(&mut v, &results));
    assert_eq!(v.snaps[0].status, SnapshotStatus::Passed);
    assert_eq!(v.snaps[1].status, SnapshotStatus::Passed);
    // one failing snapshot fails the whole run
    let results = vec![
        result(b"hi\n", Some(0)),
        result(b"changed\n", Some(0)),
        result(b"bye\n", Some(0)),
    ];
    assert!(!run_view(&mut v, &results));
    assert_eq!(v.snaps[1].status, SnapshotStatus::Failed);
    assert_eq!(v.snaps[0].status, SnapshotStatus::Passed);
}

#[test]
fn update_view_counts_only_real_changes() {
    let mut v = SnapshotView::new(arena());
    let results = vec![
        result(b"hi\n", Some(0)),       // identical: no change
        result(b"fresh\n", Some(0)),    // new stdout
        result(b"bye\n", Some(3)),      // new exit code
    ];
    let count = update_view(&mut v, &results);
    assert_eq!(count, 2);
    assert_eq!(v.snaps[1].stdout.as_ref().unwrap().body, b"fresh\n".to_vec());
    assert_eq!(v.snaps[2].exit_code, Some(3));
    // every updated snapshot is fixed to Passed
    assert_eq!(v.snaps[0].status, SnapshotStatus::Passed);
    assert_eq!(v.snaps[1].status, SnapshotStatus::Passed);
    assert_eq!(v.snaps[2].status, SnapshotStatus::Passed);
}

#[test]
fn selected_operations_touch_only_the_selection() {
    let mut v = SnapshotView::new(arena());
    v.down();
    assert_eq!(run_selected(&mut v, &result(b"wrong\n", Some(0))), Some(false));
    assert_eq!(v.snaps[1].status, SnapshotStatus::Failed);
    assert_eq!(v.snaps[0].status, SnapshotStatus::Unknown);
    assert_eq!(update_selected(&mut v, &result(b"wrong\n", Some(0))), Some(true));
    assert_eq!(v.snaps[1].stdout.as_ref().unwrap().body, b"wrong\n".to_vec());
    assert_eq!(update_selected(&mut v, &result(b"wrong\n", Some(0))), Some(false));
}

#[test]
fn selected_operations_without_a_selection_do_nothing() {
    let mut v = SnapshotView::new(Vec::new());
    assert_eq!(run_selected(&mut v, &result(b"", Some(0))), None);
    assert_eq!(update_selected(&mut v, &result(b"", Some(0))), None);
}

#[test]
fn edit_selected_touches_only_the_selection() {
    let mut v = SnapshotView::new(arena());
    v.down();
    let r = v.edit_selected(&EditOutcome {
        name: Some(String::from("listing")),
        description: None,
        tags: Vec::new(),
    });
    assert_eq!(r, Some(true));
    assert_eq!(v.snaps[1].name, "listing");
    assert_eq!(v.snaps[0].name, "greet");
    let mut empty = SnapshotView::new(Vec::new());
    assert_eq!(
        empty.edit_selected(&EditOutcome { name: None, description: None, tags: Vec::new() }),
        None
    );
}

#[test]
fn a_context_wraps_a_fresh_view() {
    let c = Context::new(arena());
    assert_eq!(c.view.get_view(), vec![0, 1, 2]);
    assert_eq!(c.view.selected_index(), Some(0));
}

#[test]
fn separator_corners_follow_their_kind() {
    assert_eq!(separator_corner(&SeparatorKind::Top), '┌');
    assert_eq!(separator_corner(&SeparatorKind::Middle), '├');
    assert_eq!(separator_corner(&SeparatorKind::Bottom), '└');
    assert_eq!(separator_corner(&SeparatorKind::Standalone), '─');
}
