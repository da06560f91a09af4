//! The decidable parts of the terminal layer: which corner a box separator
//! gets, the answer an interactive yes/no question accepts, and a raw-mode
//! line writer. Rendering with colors and styles lives outside the library.

use vstd::prelude::*;
use vstd::string::StrSliceExecFns;

use crate::scanner::is_space_char;
use crate::text::{eq_lower, lower_seq};

verus! {

/// Where a box separator stands in a report box.
#[derive(Clone, Copy, Debug, PartialEq, Eq, Structural)]
pub enum SeparatorKind {
    Top,
    Middle,
    Bottom,
    Standalone,
}

/// The corner character a separator is drawn with.
pub fn separator_corner(kind: &SeparatorKind) -> (c: char)
    ensures
        c == (match kind {
            SeparatorKind::Top => '┌',
            SeparatorKind::Middle => '├',
            SeparatorKind::Bottom => '└',
            SeparatorKind::Standalone => '─',
        }),
{
    match kind {
        SeparatorKind::Top => '┌',
        SeparatorKind::Middle => '├',
        SeparatorKind::Bottom => '└',
        SeparatorKind::Standalone => '─',
    }
}

/// Relies on the `write!` macro over `std::io::Write`: writes the message
/// followed by a line feed and a carriage return, as raw terminal mode wants;
/// a sink error is dropped, as a best-effort terminal write.
#[verifier::external_body]
pub fn writeln<B: std::io::Write>(message: &str, buffer: &mut B) {
    let _ = write!(buffer, "{}\n\r", message);
}

/// First position at or after `i` that holds no whitespace, or the length.
pub open spec fn trim_start_idx(s: Seq<char>, i: int) -> int
    decreases s.len() - i,
{
    if !(0 <= i < s.len()) {
        s.len() as int
    } else if is_space_char(s[i]) {
        trim_start_idx(s, i + 1)
    } else {
        i
    }
}

/// Position after the last non-whitespace character strictly before `j`.
pub open spec fn trim_end_idx(s: Seq<char>, j: int) -> int
    decreases j,
{
    if j <= 0 || j > s.len() {
        0
    } else if is_space_char(s[j - 1]) {
        trim_end_idx(s, j - 1)
    } else {
        j
    }
}

/// The answer a yes/no question accepts: the line, trimmed and lowercased,
/// must read `yes`, `ye` or `y` for yes and `no` or `n` for no; anything
/// else, the empty line included, is no answer.
pub open spec fn spec_yes_no(s: Seq<char>) -> Option<bool> {
    let start = trim_start_idx(s, 0);
    let end = trim_end_idx(s, s.len() as int);
    if start >= end {
        None
    } else {
        let t = lower_seq(s.subrange(start, end));
        if t == "yes"@ || t == "ye"@ || t == "y"@ {
            Some(true)
        } else if t == "no"@ || t == "n"@ {
            Some(false)
        } else {
            None
        }
    }
}

pub proof fn lemma_trim_start_bounds(s: Seq<char>, i: int)
    requires
        0 <= i <= s.len(),
    ensures
        i <= trim_start_idx(s, i) <= s.len(),
    decreases s.len() - i,
{
    if i < s.len() && is_space_char(s[i]) {
        lemma_trim_start_bounds(s, i + 1);
    }
}

pub proof fn lemma_trim_end_bounds(s: Seq<char>, j: int)
    requires
        0 <= j <= s.len(),
    ensures
        0 <= trim_end_idx(s, j) <= j,
    decreases j,
{
    if 0 < j <= s.len() && is_space_char(s[j - 1]) {
        lemma_trim_end_bounds(s, j - 1);
    }
}

/// Reads one interactive yes/no answer, exactly as `spec_yes_no` says.
pub fn parse_yes_no(answer: &str) -> (r: Option<bool>)
    ensures
        r == spec_yes_no(answer@),
{
    let ghost s = answer@;
    let n = answer.unicode_len();
    let mut start: usize = 0;
    proof {
        lemma_trim_start_bounds(s, 0);
    }
    while start < n
        invariant
            n == s.len(),
            s == answer@,
            start <= n,
            trim_start_idx(s, 0) == trim_start_idx(s, start as int),
        ensures
            start <= n,
            trim_start_idx(s, 0) == start,
        decreases n - start,
    {
        let c = answer.get_char(start);
        if !(c == ' ' || c == '\t' || c == '\n' || c == '\r') {
            proof {
                assert(trim_start_idx(s, start as int) == start);
            }
            break;
        }
        proof {
            assert(trim_start_idx(s, start as int) == trim_start_idx(s, start as int + 1));
        }
        start = start + 1;
    }
    let mut end: usize = n;
    proof {
        lemma_trim_end_bounds(s, n as int);
    }
    while end > 0
        invariant
            n == s.len(),
            s == answer@,
            end <= n,
            trim_end_idx(s, n as int) == trim_end_idx(s, end as int),
        ensures
            end <= n,
            trim_end_idx(s, n as int) == end,
        decreases end,
    {
        let c = answer.get_char(end - 1);
        if !(c == ' ' || c == '\t' || c == '\n' || c == '\r') {
            proof {
                assert(trim_end_idx(s, end as int) == end);
            }
            break;
        }
        proof {
            assert(trim_end_idx(s, end as int) == trim_end_idx(s, end as int - 1));
        }
        end = end - 1;
    }
    if start >= end {
        return None;
    }
    let t = answer.substring_char(start, end);
    if eq_lower(t, "yes") || eq_lower(t, "ye") || eq_lower(t, "y") {
        Some(true)
    } else if eq_lower(t, "no") || eq_lower(t, "n") {
        Some(false)
    } else {
        None
    }
}

} // verus!
