//! The change-log grammar, stated over the characters of the input.
//!
//! Every production reads the input `s` from a position and returns what it
//! recognized together with the position after it, or an error kind with the
//! character index it refers to.
//!
//! The list productions recurse only when a step moved forward; each step
//! consumes at least its own line, so that test serves termination alone and
//! never decides a result.
use crate::ast::{ChangeLogView, TaskGroupView, TaskIdView, TaskView, VersionGroupView};
use crate::error::ParseErrorKind;
use vstd::prelude::*;

verus! {

/// A failure: its kind and the character index it refers to.
pub type Failure = (ParseErrorKind, int);

pub open spec fn is_upper(c: char) -> bool {
    'A' <= c && c <= 'Z'
}

pub open spec fn is_digit(c: char) -> bool {
    '0' <= c && c <= '9'
}

/// The characters that may follow the document: ASCII space, tab, line
/// feed and carriage return. Other Unicode whitespace counts as content.
pub open spec fn is_space(c: char) -> bool {
    c == ' ' || c == '\t' || c == '\n' || c == '\r'
}

/// `t` stands in `s` at `p`, ending no later than `lim`.
pub open spec fn has_tag(s: Seq<char>, p: int, t: Seq<char>, lim: int) -> bool {
    0 <= p && p + t.len() <= lim && lim <= s.len() && s.subrange(p, p + t.len()) == t
}

/// Index of the newline that ends the line holding `p`, or `lim` where none
/// comes before it.
pub open spec fn line_end(s: Seq<char>, p: int, lim: int) -> int
    decreases lim - p,
{
    if p >= lim || s[p] == '\n' {
        p
    } else {
        line_end(s, p + 1, lim)
    }
}

/// Start of the line after the one holding `p`, or `lim`.
pub open spec fn after_line(s: Seq<char>, p: int, lim: int) -> int {
    let e = line_end(s, p, lim);
    if e < lim {
        e + 1
    } else {
        lim
    }
}

/// First index from `q` that starts an empty line of a section whose body
/// starts at `b`, or the end of the input.
pub open spec fn blank_line(s: Seq<char>, b: int, q: int) -> int
    decreases s.len() - q,
{
    if q >= s.len() {
        s.len() as int
    } else if s[q] == '\n' && (q == b || s[q - 1] == '\n') {
        q
    } else {
        blank_line(s, b, q + 1)
    }
}

/// First index from `q`, before `e`, that starts a line of the form `"### "`,
/// in a body that starts at `u`; `e` where none does.
pub open spec fn next_group(s: Seq<char>, u: int, q: int, e: int) -> int
    decreases e - q,
{
    if q >= e {
        e
    } else if (q == u || s[q - 1] == '\n') && has_tag(s, q, seq!['#', '#', '#', ' '], line_end(s, q, e)) {
        q
    } else {
        next_group(s, u, q + 1, e)
    }
}

/// End of the run of uppercase letters from `p`, not beyond `lim`.
pub open spec fn upper_end(s: Seq<char>, p: int, lim: int) -> int
    decreases lim - p,
{
    if p >= lim || !is_upper(s[p]) {
        p
    } else {
        upper_end(s, p + 1, lim)
    }
}

/// End of the run of decimal digits from `p`, not beyond `lim`.
pub open spec fn digit_end(s: Seq<char>, p: int, lim: int) -> int
    decreases lim - p,
{
    if p >= lim || !is_digit(s[p]) {
        p
    } else {
        digit_end(s, p + 1, lim)
    }
}

/// The number written in decimal by the digits `s[p..q]`.
pub open spec fn digits_value(s: Seq<char>, p: int, q: int) -> nat
    decreases q - p,
{
    if q <= p {
        0
    } else {
        digits_value(s, p, q - 1) * 10 + ((s[q - 1] as u32) - 48) as nat
    }
}

/// The sub-items from `p` on, each a line `"  - item"`, appended to `acc`,
/// with the position after the last one.
pub open spec fn sub_items(s: Seq<char>, p: int, w: int, acc: Seq<Seq<char>>) -> (Seq<Seq<char>>, int)
    decreases w - p,
{
    let le = line_end(s, p, w);
    if p < w && has_tag(s, p, seq![' ', ' ', '-', ' '], le) {
        sub_items(s, after_line(s, p, w), w, acc.push(s.subrange(p + 4, le)))
    } else {
        (acc, p)
    }
}

/// A task entry `"- [PROJECT-NUMBER] description"` at `x`, with the
/// sub-items that follow it, in a task-group body that ends at `w`.
pub open spec fn task_entry(s: Seq<char>, x: int, w: int) -> Result<(TaskView, int), Failure> {
    let le = line_end(s, x, w);
    let a = x + 3;
    let ue = upper_end(s, a, le);
    let d = ue + 1;
    let de = digit_end(s, d, le);
    if !has_tag(s, x, seq!['-', ' ', '['], le) {
        Err((ParseErrorKind::MalformedTaskEntry, x))
    } else if ue == a {
        Err((ParseErrorKind::MalformedTaskId, a))
    } else if ue >= le || s[ue] != '-' {
        Err((ParseErrorKind::MalformedTaskId, ue))
    } else if de == d {
        Err((ParseErrorKind::MalformedTaskId, d))
    } else if digits_value(s, d, de) > u32::MAX {
        Err((ParseErrorKind::IntegerOverflow, d))
    } else if !has_tag(s, de, seq![']', ' '], le) {
        Err((ParseErrorKind::MalformedTaskId, de))
    } else {
        let (items, next) = sub_items(s, after_line(s, x, w), w, seq![]);
        let task = TaskView {
            id: TaskIdView { project: s.subrange(a, ue), number: digits_value(s, d, de) as u32 },
            description: s.subrange(de + 2, le),
            sub_list: if items.len() == 0 { None } else { Some(items) },
        };
        Ok((task, next))
    }
}

/// The task entries from `x` to `w`, appended to `acc`.
pub open spec fn task_entries(s: Seq<char>, x: int, w: int, acc: Seq<TaskView>) -> Result<Seq<TaskView>, Failure>
    decreases w - x,
{
    if x >= w {
        Ok(acc)
    } else {
        match task_entry(s, x, w) {
            Err(f) => Err(f),
            Ok((t, n)) => if x < n <= w {
                task_entries(s, n, w, acc.push(t))
            } else {
                Err((ParseErrorKind::MalformedTaskEntry, x))
            },
        }
    }
}

/// A task group `"### header"` at `t`, in a version body that ends at `e`,
/// with the position of the next group (or `e`).
pub open spec fn task_group(s: Seq<char>, t: int, e: int) -> Result<(TaskGroupView, int), Failure> {
    let le = line_end(s, t, e);
    let u = after_line(s, t, e);
    let w = next_group(s, u, u, e);
    if u == w {
        Err((ParseErrorKind::EmptyTaskGroup, u))
    } else {
        match task_entries(s, u, w, seq![]) {
            Err(f) => Err(f),
            Ok(entries) => Ok((TaskGroupView { header: s.subrange(t + 4, le), entries }, w)),
        }
    }
}

/// The task groups from `t` to `e`, appended to `acc`.
pub open spec fn task_groups(s: Seq<char>, t: int, e: int, acc: Seq<TaskGroupView>) -> Result<Seq<TaskGroupView>, Failure>
    decreases e - t,
{
    if t >= e {
        Ok(acc)
    } else if !has_tag(s, t, seq!['#', '#', '#', ' '], line_end(s, t, e)) {
        Err((ParseErrorKind::EmptyVersionGroup, t))
    } else {
        match task_group(s, t, e) {
            Err(f) => Err(f),
            Ok((g, n)) => if t < n <= e {
                task_groups(s, n, e, acc.push(g))
            } else {
                Err((ParseErrorKind::EmptyVersionGroup, t))
            },
        }
    }
}

/// A version section `"## version"` at `p`: its label line, then a body that
/// runs to the next empty line or the end of the input; with the position
/// where the body stops.
pub open spec fn version_group(s: Seq<char>, p: int) -> Result<(VersionGroupView, int), Failure> {
    let le = line_end(s, p, s.len() as int);
    let b = le + 1;
    let e = blank_line(s, b, b);
    if b >= s.len() {
        Err((ParseErrorKind::UnexpectedEndOfInput, s.len() as int))
    } else if s[b] == '\n' {
        Err((ParseErrorKind::EmptyVersionGroup, b))
    } else {
        match task_groups(s, b, e, seq![]) {
            Err(f) => Err(f),
            Ok(groups) => Ok((VersionGroupView { version: s.subrange(p + 3, le), task_groups: groups }, e)),
        }
    }
}

/// The version sections from `p` on, each pair separated by one empty line,
/// appended to `acc`, with the position where the list stops.
pub open spec fn version_list(s: Seq<char>, p: int, acc: Seq<VersionGroupView>) -> Result<(Seq<VersionGroupView>, int), Failure>
    decreases s.len() - p,
{
    if !has_tag(s, p, seq!['#', '#', ' '], line_end(s, p, s.len() as int)) {
        Ok((acc, p))
    } else {
        match version_group(s, p) {
            Err(f) => Err(f),
            Ok((g, e)) => if p < e <= s.len() {
                if e < s.len() && s[e] == '\n' {
                    version_list(s, e + 1, acc.push(g))
                } else {
                    Ok((acc.push(g), e))
                }
            } else {
                Err((ParseErrorKind::UnexpectedEndOfInput, p))
            },
        }
    }
}

/// Only whitespace stands in `s` from `r` on.
pub open spec fn only_space_from(s: Seq<char>, r: int) -> bool {
    forall|i: int| r <= i < s.len() ==> is_space(#[trigger] s[i])
}

/// A whole document: `"# header"`, exactly one empty line, the version sections,
/// and nothing after them but whitespace.
pub open spec fn document(s: Seq<char>) -> Result<ChangeLogView, Failure> {
    let n = s.len() as int;
    let le = line_end(s, 0, n);
    if !has_tag(s, 0, seq!['#', ' '], le) {
        Err((ParseErrorKind::MissingHeader, 0))
    } else if !(le + 1 < n && s[le + 1] == '\n') {
        Err((ParseErrorKind::MissingBlankLineAfterHeader, after_line(s, 0, n)))
    } else if le + 2 < n && s[le + 2] == '\n' {
        Err((ParseErrorKind::MissingBlankLineAfterHeader, le + 2))
    } else {
        match version_list(s, le + 2, seq![]) {
            Err(f) => Err(f),
            Ok((versions, r)) => if only_space_from(s, r) {
                Ok(ChangeLogView { header: s.subrange(2, le), versions })
            } else {
                Err((ParseErrorKind::TrailingContent, r))
            },
        }
    }
}

} // verus!
