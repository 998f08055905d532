//! The parser: one function per production of the grammar, each proved to
//! compute exactly what the production states.
use crate::ast::{strings_view, task_groups_view, tasks_view, versions_view, ChangeLog, Task, TaskGroup, TaskId, TaskGroupView, TaskView, VersionGroup, VersionGroupView};
use crate::error::{error_at, ParseError, ParseErrorKind};
use crate::grammar::{document, has_tag, line_end, sub_items, task_entries, task_entry, task_group, task_groups, version_group, version_list, Failure};
use crate::text::{find_after_line, find_blank_line, find_line_end, find_next_group, find_upper_end, only_space, read_number, slice_string, tag_at, text_chars};
use vstd::prelude::*;

verus! {

/// The sub-item lines `"  - item"` from `p` on, before `w`.
pub fn parse_sub_items(s: &Vec<char>, p: usize, w: usize) -> (r: (Vec<String>, usize))
    requires
        p <= w <= s@.len(),
    ensures
        sub_items(s@, p as int, w as int, seq![]) == (strings_view(r.0@), r.1 as int),
        p <= r.1 <= w,
{
    let tag = [' ', ' ', '-', ' '];
    assert(tag@ == seq![' ', ' ', '-', ' ']);
    let mut items: Vec<String> = Vec::new();
    let mut q = p;
    assert(strings_view(items@) =~= seq![]);
    while q < w && tag_at(s, q, &tag, find_line_end(s, q, w))
        invariant
            p <= q <= w <= s@.len(),
            tag@ == seq![' ', ' ', '-', ' '],
            sub_items(s@, q as int, w as int, strings_view(items@)) == sub_items(s@, p as int, w as int, seq![]),
        decreases w - q,
    {
        let le = find_line_end(s, q, w);
        let item = slice_string(s, q + 4, le);
        let ghost before = items@;
        items.push(item);
        assert(strings_view(items@) =~= strings_view(before).push(item@));
        q = find_after_line(s, q, w);
    }
    (items, q)
}

/// A task entry at `x` with its sub-items, in a task-group body ending at `w`.
pub fn parse_task_entry(s: &Vec<char>, x: usize, w: usize) -> (r: Result<(Task, usize), (ParseErrorKind, usize)>)
    requires
        x < w <= s@.len(),
    ensures
        match r {
            Ok((t, n)) => task_entry(s@, x as int, w as int) == Ok::<(TaskView, int), Failure>((t@, n as int)) && x < n <= w,
            Err((k, i)) => task_entry(s@, x as int, w as int) == Err::<(TaskView, int), Failure>((k, i as int)) && i <= s@.len(),
        },
{
    let open = ['-', ' ', '['];
    let close = [']', ' '];
    assert(open@ == seq!['-', ' ', '[']);
    assert(close@ == seq![']', ' ']);
    let le = find_line_end(s, x, w);
    if !tag_at(s, x, &open, le) {
        return Err((ParseErrorKind::MalformedTaskEntry, x));
    }
    let a = x + 3;
    let ue = find_upper_end(s, a, le);
    if ue == a {
        return Err((ParseErrorKind::MalformedTaskId, a));
    }
    if ue >= le || s[ue] != '-' {
        return Err((ParseErrorKind::MalformedTaskId, ue));
    }
    let d = ue + 1;
    let (de, number) = read_number(s, d, le);
    if de == d {
        return Err((ParseErrorKind::MalformedTaskId, d));
    }
    let number = match number {
        Some(n) => n,
        None => {
            return Err((ParseErrorKind::IntegerOverflow, d));
        },
    };
    if !tag_at(s, de, &close, le) {
        return Err((ParseErrorKind::MalformedTaskId, de));
    }
    let project = slice_string(s, a, ue);
    let description = slice_string(s, de + 2, le);
    let next_line = find_after_line(s, x, w);
    let (items, next) = parse_sub_items(s, next_line, w);
    let sub_list = if items.len() == 0 {
        None
    } else {
        Some(items)
    };
    let task = Task { id: TaskId { project, number }, description, sub_list };
    Ok((task, next))
}

/// The task entries of a task-group body `[x, w)`.
pub fn parse_task_entries(s: &Vec<char>, x: usize, w: usize) -> (r: Result<Vec<Task>, (ParseErrorKind, usize)>)
    requires
        x <= w <= s@.len(),
    ensures
        match r {
            Ok(v) => task_entries(s@, x as int, w as int, seq![]) == Ok::<Seq<TaskView>, Failure>(tasks_view(v@)),
            Err((k, i)) => task_entries(s@, x as int, w as int, seq![]) == Err::<Seq<TaskView>, Failure>((k, i as int)) && i <= s@.len(),
        },
{
    let mut entries: Vec<Task> = Vec::new();
    let mut q = x;
    assert(tasks_view(entries@) =~= seq![]);
    while q < w
        invariant
            x <= q <= w <= s@.len(),
            task_entries(s@, q as int, w as int, tasks_view(entries@)) == task_entries(s@, x as int, w as int, seq![]),
        decreases w - q,
    {
        match parse_task_entry(s, q, w) {
            Err(f) => {
                return Err(f);
            },
            Ok((t, n)) => {
                let ghost before = entries@;
                let ghost tv = t@;
                entries.push(t);
                assert(tasks_view(entries@) =~= tasks_view(before).push(tv));
                q = n;
            },
        }
    }
    Ok(entries)
}

/// A task group `"### header"` at `t`, in a version body ending at `e`.
/// Only called where the line at `t` starts with `"### "`: the caller tests
/// that first, and reports a body that does not begin with a group.
fn parse_task_group(s: &Vec<char>, t: usize, e: usize) -> (r: Result<(TaskGroup, usize), (ParseErrorKind, usize)>)
    requires
        t < e <= s@.len(),
        has_tag(s@, t as int, seq!['#', '#', '#', ' '], line_end(s@, t as int, e as int)),
    ensures
        match r {
            Ok((g, n)) => task_group(s@, t as int, e as int) == Ok::<(TaskGroupView, int), Failure>((g@, n as int)) && t < n <= e,
            Err((k, i)) => task_group(s@, t as int, e as int) == Err::<(TaskGroupView, int), Failure>((k, i as int)) && i <= s@.len(),
        },
{
    let le = find_line_end(s, t, e);
    let u = find_after_line(s, t, e);
    let w = find_next_group(s, u, e);
    if u == w {
        return Err((ParseErrorKind::EmptyTaskGroup, u));
    }
    let entries = match parse_task_entries(s, u, w) {
        Err(f) => {
            return Err(f);
        },
        Ok(v) => v,
    };
    let header = slice_string(s, t + 4, le);
    Ok((TaskGroup { header, entries }, w))
}

/// The task groups of a version body `[t, e)`.
fn parse_task_groups(s: &Vec<char>, t: usize, e: usize) -> (r: Result<Vec<TaskGroup>, (ParseErrorKind, usize)>)
    requires
        t <= e <= s@.len(),
    ensures
        match r {
            Ok(v) => task_groups(s@, t as int, e as int, seq![]) == Ok::<Seq<TaskGroupView>, Failure>(task_groups_view(v@)),
            Err((k, i)) => task_groups(s@, t as int, e as int, seq![]) == Err::<Seq<TaskGroupView>, Failure>((k, i as int)) && i <= s@.len(),
        },
{
    let tag = ['#', '#', '#', ' '];
    assert(tag@ == seq!['#', '#', '#', ' ']);
    let mut groups: Vec<TaskGroup> = Vec::new();
    let mut q = t;
    assert(task_groups_view(groups@) =~= seq![]);
    while q < e
        invariant
            t <= q <= e <= s@.len(),
            tag@ == seq!['#', '#', '#', ' '],
            task_groups(s@, q as int, e as int, task_groups_view(groups@)) == task_groups(s@, t as int, e as int, seq![]),
        decreases e - q,
    {
        if !tag_at(s, q, &tag, find_line_end(s, q, e)) {
            return Err((ParseErrorKind::EmptyVersionGroup, q));
        }
        match parse_task_group(s, q, e) {
            Err(f) => {
                return Err(f);
            },
            Ok((g, n)) => {
                let ghost before = groups@;
                let ghost gv = g@;
                groups.push(g);
                assert(task_groups_view(groups@) =~= task_groups_view(before).push(gv));
                q = n;
            },
        }
    }
    Ok(groups)
}

/// A version section `"## version"` at `p`, with the position where its
/// body stops.
fn parse_version_group(s: &Vec<char>, p: usize) -> (r: Result<(VersionGroup, usize), (ParseErrorKind, usize)>)
    requires
        has_tag(s@, p as int, seq!['#', '#', ' '], line_end(s@, p as int, s@.len() as int)),
    ensures
        match r {
            Ok((g, n)) => version_group(s@, p as int) == Ok::<(VersionGroupView, int), Failure>((g@, n as int)) && p < n <= s@.len(),
            Err((k, i)) => version_group(s@, p as int) == Err::<(VersionGroupView, int), Failure>((k, i as int)) && i <= s@.len(),
        },
{
    let le = find_line_end(s, p, s.len());
    if le >= s.len() || le + 1 >= s.len() {
        return Err((ParseErrorKind::UnexpectedEndOfInput, s.len()));
    }
    let b = le + 1;
    if s[b] == '\n' {
        return Err((ParseErrorKind::EmptyVersionGroup, b));
    }
    let e = find_blank_line(s, b);
    let groups = match parse_task_groups(s, b, e) {
        Err(f) => {
            return Err(f);
        },
        Ok(v) => v,
    };
    let version = slice_string(s, p + 3, le);
    Ok((VersionGroup { version, task_groups: groups }, e))
}

/// The version sections from `p` on, with the position where the list stops.
fn parse_version_list(s: &Vec<char>, p: usize) -> (r: Result<(Vec<VersionGroup>, usize), (ParseErrorKind, usize)>)
    requires
        p <= s@.len(),
    ensures
        match r {
            Ok((v, n)) => version_list(s@, p as int, seq![]) == Ok::<(Seq<VersionGroupView>, int), Failure>((versions_view(v@), n as int)) && p <= n <= s@.len(),
            Err((k, i)) => version_list(s@, p as int, seq![]) == Err::<(Seq<VersionGroupView>, int), Failure>((k, i as int)) && i <= s@.len(),
        },
{
    let tag = ['#', '#', ' '];
    assert(tag@ == seq!['#', '#', ' ']);
    let mut versions: Vec<VersionGroup> = Vec::new();
    let mut q = p;
    assert(versions_view(versions@) =~= seq![]);
    loop
        invariant
            p <= q <= s@.len(),
            tag@ == seq!['#', '#', ' '],
            version_list(s@, q as int, versions_view(versions@)) == version_list(s@, p as int, seq![]),
        decreases s@.len() - q,
    {
        if !tag_at(s, q, &tag, find_line_end(s, q, s.len())) {
            return Ok((versions, q));
        }
        match parse_version_group(s, q) {
            Err(f) => {
                return Err(f);
            },
            Ok((g, e)) => {
                let ghost before = versions@;
                let ghost gv = g@;
                versions.push(g);
                assert(versions_view(versions@) =~= versions_view(before).push(gv));
                if e < s.len() && s[e] == '\n' {
                    q = e + 1;
                } else {
                    return Ok((versions, e));
                }
            },
        }
    }
}

/// Parses a whole change-log document.
///
/// Succeeds exactly when the text is `"# header"`, one empty line, version
/// sections separated by single empty lines, and then nothing but
/// whitespace; the tree is then the model that the grammar gives. Otherwise
/// the error names the first violation and where it stands. A task number
/// with leading zeros is read in decimal (`007` is 7).
pub fn parse_changelog(input: &str) -> (r: Result<ChangeLog, ParseError>)
    ensures
        match (r, document(input@)) {
            (Ok(log), Ok(model)) => log@ == model,
            (Err(e), Err((k, i))) => 0 <= i <= input@.len() && error_at(e, input@, k, i),
            _ => false,
        },
{
    let s = text_chars(input);
    let head = ['#', ' '];
    assert(head@ == seq!['#', ' ']);
    let le = find_line_end(&s, 0, s.len());
    if !tag_at(&s, 0, &head, le) {
        return Err(ParseError::at(&s, ParseErrorKind::MissingHeader, 0));
    }
    if !(le < s.len() && le + 1 < s.len() && s[le + 1] == '\n') {
        let at = find_after_line(&s, 0, s.len());
        return Err(ParseError::at(&s, ParseErrorKind::MissingBlankLineAfterHeader, at));
    }
    if le + 2 < s.len() && s[le + 2] == '\n' {
        return Err(ParseError::at(&s, ParseErrorKind::MissingBlankLineAfterHeader, le + 2));
    }
    let (versions, stop) = match parse_version_list(&s, le + 2) {
        Err((k, i)) => {
            return Err(ParseError::at(&s, k, i));
        },
        Ok(r) => r,
    };
    if !only_space(&s, stop) {
        return Err(ParseError::at(&s, ParseErrorKind::TrailingContent, stop));
    }
    let header = slice_string(&s, 2, le);
    Ok(ChangeLog { header, versions })
}

} // verus!
