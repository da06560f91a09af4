//! The snapshot data model: a named capture of a command's expected output,
//! together with the fresh result of one execution of that command.

use vstd::prelude::*;
use vstd::string::StrSliceExecFns;

use crate::scanner::is_space_char;
use crate::text::{lower_char, push_char, to_lower};

verus! {

/// Verdict recorded on a snapshot by the reconciliation engine.
/// It is recomputed on every run or update and never left stale.
#[derive(Clone, Copy, Debug, PartialEq, Eq, Structural)]
pub enum SnapshotStatus {
    Unknown,
    Passed,
    Failed,
}

/// A named content blob: one captured output stream.
#[derive(Clone, Debug)]
pub struct SnapshotData {
    pub name: String,
    pub extension: String,
    pub body: Vec<u8>,
}

/// Mathematical model of a `SnapshotData`.
pub ghost struct BlobModel {
    pub name: Seq<char>,
    pub extension: Seq<char>,
    pub body: Seq<u8>,
}

impl View for SnapshotData {
    type V = BlobModel;

    open spec fn view(&self) -> BlobModel {
        BlobModel { name: self.name@, extension: self.extension@, body: self.body@ }
    }
}

impl DeepView for SnapshotData {
    type V = BlobModel;

    open spec fn deep_view(&self) -> BlobModel {
        self.view()
    }
}

/// A stored snapshot: identity is the (normalized, unique) `name`; the truth
/// it holds is `cmd`'s expected `stdout`/`stderr`/`exit_code`.
/// An absent stream means the capture produced no bytes on that stream.
/// An absent `exit_code` means the process was killed and had no code.
#[derive(Clone, Debug)]
pub struct Snapshot {
    pub name: String,
    pub cmd: String,
    pub description: Option<String>,
    pub tags: Vec<String>,
    pub exit_code: Option<i32>,
    pub stdout: Option<SnapshotData>,
    pub stderr: Option<SnapshotData>,
    pub status: SnapshotStatus,
}

/// Mathematical model of a `Snapshot`.
pub ghost struct SnapshotModel {
    pub name: Seq<char>,
    pub cmd: Seq<char>,
    pub description: Option<Seq<char>>,
    pub tags: Seq<Seq<char>>,
    pub exit_code: Option<i32>,
    pub stdout: Option<BlobModel>,
    pub stderr: Option<BlobModel>,
    pub status: SnapshotStatus,
}

impl View for Snapshot {
    type V = SnapshotModel;

    open spec fn view(&self) -> SnapshotModel {
        SnapshotModel {
            name: self.name@,
            cmd: self.cmd@,
            description: self.description.deep_view(),
            tags: self.tags.deep_view(),
            exit_code: self.exit_code,
            stdout: self.stdout.deep_view(),
            stderr: self.stderr.deep_view(),
            status: self.status,
        }
    }
}

impl DeepView for Snapshot {
    type V = SnapshotModel;

    open spec fn deep_view(&self) -> SnapshotModel {
        self.view()
    }
}

/// What one execution of a command produced: both output streams and the
/// exit code, absent when the process was terminated without one.
#[derive(Clone, Debug)]
pub struct ExecResult {
    pub stdout: Vec<u8>,
    pub stderr: Vec<u8>,
    pub exit_code: Option<i32>,
}

/// Mathematical model of an `ExecResult`.
pub ghost struct ExecModel {
    pub stdout: Seq<u8>,
    pub stderr: Seq<u8>,
    pub exit_code: Option<i32>,
}

impl View for ExecResult {
    type V = ExecModel;

    open spec fn view(&self) -> ExecModel {
        ExecModel { stdout: self.stdout@, stderr: self.stderr@, exit_code: self.exit_code }
    }
}

/// One character of a normalized snapshot name: whitespace becomes an
/// underscore, an ASCII capital becomes small, anything else is kept.
pub open spec fn norm_char(c: char) -> char {
    if is_space_char(c) {
        '_'
    } else {
        lower_char(c)
    }
}

/// A normalized snapshot name, character by character.
pub open spec fn spec_normalize(s: Seq<char>) -> Seq<char> {
    Seq::new(s.len(), |i: int| norm_char(s[i]))
}

/// Normalizes a snapshot name: lowercase, whitespace to underscores.
pub fn normalize_name(name: &str) -> (r: String)
    ensures
        r@ == spec_normalize(name@),
{
    let n = name.unicode_len();
    let mut out = String::new();
    let mut i: usize = 0;
    proof {
        assert(out@ =~= spec_normalize(name@).subrange(0, 0));
    }
    while i < n
        invariant
            n == name@.len(),
            i <= n,
            out@ == spec_normalize(name@).subrange(0, i as int),
        decreases n - i,
    {
        let c = name.get_char(i);
        let d: char = if c == ' ' || c == '\t' || c == '\n' || c == '\r' {
            '_'
        } else {
            to_lower(c)
        };
        push_char(&mut out, d);
        proof {
            assert(out@ =~= spec_normalize(name@).subrange(0, i as int + 1));
        }
        i = i + 1;
    }
    proof {
        assert(spec_normalize(name@).subrange(0, n as int) =~= spec_normalize(name@));
    }
    out
}

/// What an external metadata edit handed back: a possibly new name and
/// description, and the tag list that goes with the description.
#[derive(Clone, Debug)]
pub struct EditOutcome {
    pub name: Option<String>,
    pub description: Option<String>,
    pub tags: Vec<String>,
}

/// Mathematical model of an `EditOutcome`.
pub ghost struct EditModel {
    pub name: Option<Seq<char>>,
    pub description: Option<Seq<char>>,
    pub tags: Seq<Seq<char>>,
}

impl View for EditOutcome {
    type V = EditModel;

    open spec fn view(&self) -> EditModel {
        EditModel {
            name: self.name.deep_view(),
            description: self.description.deep_view(),
            tags: self.tags.deep_view(),
        }
    }
}

/// Effect of a metadata edit: a present name that differs renames the
/// snapshot; a differing description replaces description and tags together;
/// the second component says whether anything changed.
pub open spec fn spec_edit(s: SnapshotModel, e: EditModel) -> (SnapshotModel, bool) {
    let renamed = e.name is Some && e.name->0 != s.name;
    let name = if renamed {
        e.name->0
    } else {
        s.name
    };
    let desc_changed = e.description != s.description;
    let description = if desc_changed {
        e.description
    } else {
        s.description
    };
    let tags = if desc_changed {
        e.tags
    } else {
        s.tags
    };
    (SnapshotModel { name, description, tags, ..s }, renamed || desc_changed)
}

/// Copies a tag list.
fn clone_tags(v: &Vec<String>) -> (r: Vec<String>)
    ensures
        r@ == v@,
{
    let mut r: Vec<String> = Vec::new();
    let mut i: usize = 0;
    proof {
        assert(r@ =~= v@.subrange(0, 0));
    }
    while i < v.len()
        invariant
            i <= v@.len(),
            r@ == v@.subrange(0, i as int),
        decreases v@.len() - i,
    {
        r.push(v[i].clone());
        proof {
            assert(r@ =~= v@.subrange(0, i as int + 1));
        }
        i = i + 1;
    }
    proof {
        assert(v@.subrange(0, v@.len() as int) =~= v@);
    }
    r
}

/// Applies a metadata edit to a snapshot, exactly as `spec_edit` says, and
/// returns whether anything changed.
pub fn edit_snapshot(snap: &mut Snapshot, edit: &EditOutcome) -> (changed: bool)
    ensures
        final(snap)@ == spec_edit(old(snap)@, edit@).0,
        changed == spec_edit(old(snap)@, edit@).1,
{
    let mut changed = false;
    match &edit.name {
        Some(n) => {
            if !n.eq(&snap.name) {
                snap.name = n.clone();
                changed = true;
            }
        },
        None => {},
    }
    let desc_eq = match (&edit.description, &snap.description) {
        (None, None) => true,
        (Some(a), Some(b)) => a.eq(b),
        _ => false,
    };
    if !desc_eq {
        snap.description = match &edit.description {
            Some(d) => Some(d.clone()),
            None => None,
        };
        snap.tags = clone_tags(&edit.tags);
        changed = true;
    }
    changed
}

} // verus!
