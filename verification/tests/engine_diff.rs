use parrot::diff::{diff, DiffLine};
use parrot::engine::{run_snapshot, to_snapshot, update_snapshot};
use parrot::snapshot::{EditOutcome, ExecResult, Snapshot, SnapshotData, SnapshotStatus};
use parrot::snapshot::{edit_snapshot, normalize_name};
use parrot::term::parse_yes_no;

fn greet_snapshot() -> Snapshot {
    Snapshot {
        name: String::from("greet"),
        cmd: String::from("echo hi"),
        description: None,
        tags: Vec::new(),
        exit_code: Some(0),
        stdout: Some(SnapshotData {
            name: String::from("greet"),
            extension: String::from(".out"),
            body: b"hi\n".to_vec(),
        }),
        stderr: None,
        status: SnapshotStatus::Unknown,
    }
}

fn result(stdout: &[u8], stderr: &[u8], code: Option<i32>) -> ExecResult {
    ExecResult { stdout: stdout.to_vec(), stderr: stderr.to_vec(), exit_code: code }
}

#[test]
fn run_matching_output_passes() {
    let mut snap = greet_snapshot();
    let pass = run_snapshot(&mut snap, &result(b"hi\n", b"", Some(0)));
    assert!(pass);
    assert_eq!(snap.status, SnapshotStatus::Passed);
    assert_eq!(snap.stdout.as_ref().unwrap().body, b"hi\n".to_vec());
}

#[test]
fn run_changed_output_fails_and_keeps_content() {
    let mut snap = greet_snapshot();
    let pass = run_snapshot(&mut snap, &result(b"bye\n", b"", Some(0)));
    assert!(!pass);
    assert_eq!(snap.status, SnapshotStatus::Failed);
    // stored content is untouched by a run
    assert_eq!(snap.stdout.as_ref().unwrap().body, b"hi\n".to_vec());
    assert_eq!(snap.exit_code, Some(0));
    // the reported diff shows one removed and one added line
    let d = diff(&snap.stdout.as_ref().unwrap().body, &b"bye\n".to_vec());
    assert_eq!(
        d,
        vec![
            DiffLine::Removed(b"hi".to_vec()),
            DiffLine::Added(b"bye".to_vec()),
            DiffLine::Unchanged(b"".to_vec()),
        ]
    );
}

#[test]
fn run_compares_exit_codes_and_missing_codes() {
    let mut snap = greet_snapshot();
    assert!(!run_snapshot(&mut snap, &result(b"hi\n", b"", Some(1))));
    assert_eq!(snap.status, SnapshotStatus::Failed);
    assert!(!run_snapshot(&mut snap, &result(b"hi\n", b"", None)));
    snap.exit_code = None;
    assert!(run_snapshot(&mut snap, &result(b"hi\n", b"", None)));
    assert_eq!(snap.status, SnapshotStatus::Passed);
}

#[test]
fn absent_stream_compares_as_empty() {
    let mut snap = greet_snapshot();
    snap.stdout = None;
    assert!(run_snapshot(&mut snap, &result(b"", b"", Some(0))));
    assert!(!run_snapshot(&mut snap, &result(b"x", b"", Some(0))));
}

#[test]
fn update_replaces_content_and_reports_change() {
    let mut snap = greet_snapshot();
    let changed = update_snapshot(&mut snap, &result(b"bye\n", b"warn\n", Some(2)));
    assert!(changed);
    assert_eq!(snap.status, SnapshotStatus::Passed);
    assert_eq!(snap.exit_code, Some(2));
    let out = snap.stdout.as_ref().unwrap();
    assert_eq!(out.body, b"bye\n".to_vec());
    assert_eq!(out.name, "greet");
    assert_eq!(out.extension, ".out");
    let err = snap.stderr.as_ref().unwrap();
    assert_eq!(err.body, b"warn\n".to_vec());
    assert_eq!(err.extension, ".err");
}

#[test]
fn update_is_idempotent() {
    let mut snap = greet_snapshot();
    let r = result(b"bye\n", b"", Some(0));
    let first = update_snapshot(&mut snap, &r);
    assert!(first);
    let second = update_snapshot(&mut snap, &r);
    assert!(!second);
}

#[test]
fn update_then_run_always_passes() {
    let mut snap = greet_snapshot();
    let r = result(b"fresh\n", b"note", None);
    update_snapshot(&mut snap, &r);
    let pass = run_snapshot(&mut snap, &r);
    assert!(pass);
    assert_eq!(snap.status, SnapshotStatus::Passed);
}

#[test]
fn update_with_empty_output_stores_no_blob() {
    let mut snap = greet_snapshot();
    let changed = update_snapshot(&mut snap, &result(b"", b"", Some(0)));
    assert!(changed);
    assert!(snap.stdout.is_none());
    assert!(snap.stderr.is_none());
}

#[test]
fn diff_of_a_blob_against_itself_is_all_unchanged_and_round_trips() {
    let a = b"alpha\nbeta\n\ngamma".to_vec();
    let d = diff(&a, &a);
    let mut rebuilt: Vec<u8> = Vec::new();
    let mut first = true;
    for line in &d {
        match line {
            DiffLine::Unchanged(t) => {
                if !first {
                    rebuilt.push(b'\n');
                }
                rebuilt.extend_from_slice(t);
                first = false;
            }
            _ => panic!("diff of a blob against itself must be all unchanged"),
        }
    }
    assert_eq!(rebuilt, a);
}

#[test]
fn diff_projections_reconstruct_both_sides() {
    let a = b"one\ntwo\nthree".to_vec();
    let b = b"one\n2\nthree\nfour".to_vec();
    let d = diff(&a, &b);
    let mut olds: Vec<Vec<u8>> = Vec::new();
    let mut news: Vec<Vec<u8>> = Vec::new();
    for line in &d {
        match line {
            DiffLine::Unchanged(t) => {
                olds.push(t.clone());
                news.push(t.clone());
            }
            DiffLine::Removed(t) => olds.push(t.clone()),
            DiffLine::Added(t) => news.push(t.clone()),
        }
    }
    assert_eq!(olds, vec![b"one".to_vec(), b"two".to_vec(), b"three".to_vec()]);
    assert_eq!(
        news,
        vec![b"one".to_vec(), b"2".to_vec(), b"three".to_vec(), b"four".to_vec()]
    );
}

#[test]
fn to_snapshot_names_blobs_and_starts_unknown() {
    let s = to_snapshot(
        String::from("demo"),
        Some(String::from("a demo")),
        vec![String::from("smoke")],
        String::from("echo demo"),
        result(b"demo\n", b"", Some(0)),
    );
    assert_eq!(s.status, SnapshotStatus::Unknown);
    let out = s.stdout.as_ref().unwrap();
    assert_eq!(out.name, "demo");
    assert_eq!(out.extension, ".out");
    assert!(s.stderr.is_none());
    assert_eq!(s.exit_code, Some(0));
}

#[test]
fn names_are_normalized_lowercase_with_separators() {
    assert_eq!(normalize_name("My Test\tCase"), "my_test_case");
    assert_eq!(normalize_name("already_fine"), "already_fine");
}

#[test]
fn edit_changes_name_and_description_field_wise() {
    let mut snap = greet_snapshot();
    // same name, same (absent) description: nothing to change
    let unchanged = edit_snapshot(
        &mut snap,
        &EditOutcome { name: Some(String::from("greet")), description: None, tags: Vec::new() },
    );
    assert!(!unchanged);
    // a new description brings the tag list along
    let changed = edit_snapshot(
        &mut snap,
        &EditOutcome {
            name: Some(String::from("hello")),
            description: Some(String::from("says hi")),
            tags: vec![String::from("smoke")],
        },
    );
    assert!(changed);
    assert_eq!(snap.name, "hello");
    assert_eq!(snap.description.as_deref(), Some("says hi"));
    assert_eq!(snap.tags, vec![String::from("smoke")]);
}

#[test]
fn yes_no_answers_accept_the_exact_table() {
    assert_eq!(parse_yes_no("yes"), Some(true));
    assert_eq!(parse_yes_no("  YE \n"), Some(true));
    assert_eq!(parse_yes_no("y"), Some(true));
    assert_eq!(parse_yes_no("No"), Some(false));
    assert_eq!(parse_yes_no("n"), Some(false));
    assert_eq!(parse_yes_no("nah"), None);
    assert_eq!(parse_yes_no("   "), None);
}
