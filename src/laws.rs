//! Properties of the grammar that hold for every input.
use crate::ast::{ChangeLogView, TaskGroupView, TaskIdView, TaskView, VersionGroupView};
use crate::error::ParseErrorKind;
use crate::grammar::{after_line, blank_line, digit_end, digits_value, document, has_tag, is_digit, is_space, is_upper, line_end, only_space_from, sub_items, next_group, task_entries, task_entry, task_group, task_groups, upper_end, version_group, version_list, Failure};
use vstd::prelude::*;

verus! {

/// `line_end` stops at the first newline from `p`, or at `lim`.
proof fn lemma_line_end_at(s: Seq<char>, p: int, q: int, lim: int)
    requires
        p <= q <= lim <= s.len(),
        forall|i: int| p <= i < q ==> s[i] != '\n',
        q == lim || s[q] == '\n',
    ensures
        line_end(s, p, lim) == q,
    decreases q - p,
{
    if p < q {
        lemma_line_end_at(s, p + 1, q, lim);
    }
}

/// `upper_end` stops at the first non-uppercase character from `p`, or at `lim`.
proof fn lemma_upper_end_at(s: Seq<char>, p: int, q: int, lim: int)
    requires
        p <= q <= lim <= s.len(),
        forall|i: int| p <= i < q ==> is_upper(s[i]),
        q == lim || !is_upper(s[q]),
    ensures
        upper_end(s, p, lim) == q,
    decreases q - p,
{
    if p < q {
        lemma_upper_end_at(s, p + 1, q, lim);
    }
}

/// `digit_end` stops at the first non-digit from `p`, or at `lim`.
proof fn lemma_digit_end_at(s: Seq<char>, p: int, q: int, lim: int)
    requires
        p <= q <= lim <= s.len(),
        forall|i: int| p <= i < q ==> is_digit(s[i]),
        q == lim || !is_digit(s[q]),
    ensures
        digit_end(s, p, lim) == q,
    decreases q - p,
{
    if p < q {
        lemma_digit_end_at(s, p + 1, q, lim);
    }
}

/// The value of a run of digits depends only on the digits.
proof fn lemma_digits_value_shift(s: Seq<char>, a: int, d: Seq<char>, k: int)
    requires
        0 <= a,
        0 <= k <= d.len(),
        a + k <= s.len(),
        forall|i: int| 0 <= i < k ==> s[a + i] == d[i],
    ensures
        digits_value(s, a, a + k) == digits_value(d, 0, k),
    decreases k,
{
    if k > 0 {
        lemma_digits_value_shift(s, a, d, k - 1);
        assert(s[a + k - 1] == d[k - 1]);
    }
}

/// The sub-items collected so far stay, in order, at the front of the result,
/// and the scan never moves back.
proof fn lemma_sub_items_extend(s: Seq<char>, p: int, w: int, acc: Seq<Seq<char>>)
    ensures
        acc.len() <= sub_items(s, p, w, acc).0.len(),
        sub_items(s, p, w, acc).0.subrange(0, acc.len() as int) == acc,
    decreases w - p,
{
    let le = line_end(s, p, w);
    if p < w && has_tag(s, p, seq![' ', ' ', '-', ' '], le) {
        let next = acc.push(s.subrange(p + 4, le));
        lemma_sub_items_extend(s, after_line(s, p, w), w, next);
        let r = sub_items(s, p, w, acc).0;
        assert(r.subrange(0, acc.len() as int) =~= r.subrange(0, next.len() as int).subrange(0, acc.len() as int));
        assert(next.subrange(0, acc.len() as int) =~= acc);
    }
}

/// A document made of a header line `"# h"` and one empty line parses to
/// that header and no version section, for every header text `h` without a
/// newline.
pub proof fn header_only_document(h: Seq<char>)
    requires
        forall|i: int| 0 <= i < h.len() ==> h[i] != '\n',
    ensures
        document(seq!['#', ' '] + h + seq!['\n', '\n']) == Ok::<ChangeLogView, Failure>(ChangeLogView { header: h, versions: seq![] }),
{
    let s = seq!['#', ' '] + h + seq!['\n', '\n'];
    let n = s.len() as int;
    let le = h.len() + 2int;
    assert forall|i: int| 0 <= i < le implies s[i] != '\n' by {
        if i >= 2 {
            assert(s[i] == h[i - 2]);
        }
    }
    lemma_line_end_at(s, 0, le, n);
    assert(s.subrange(0, 2) =~= seq!['#', ' ']);
    assert(version_list(s, le + 2, seq![]) == Ok::<(Seq<crate::ast::VersionGroupView>, int), Failure>((seq![], n)));
    assert(s.subrange(2, le) =~= h);
}

/// After a header-only document, text that starts with a character that is
/// neither whitespace nor `#` is rejected as trailing content, at the index
/// where the document ended.
pub proof fn header_only_document_then_trailing_text(h: Seq<char>, g: Seq<char>)
    requires
        forall|i: int| 0 <= i < h.len() ==> h[i] != '\n',
        g.len() > 0,
        !is_space(g[0]),
        g[0] != '#',
    ensures
        document(seq!['#', ' '] + h + seq!['\n', '\n'] + g) == Err::<ChangeLogView, Failure>((ParseErrorKind::TrailingContent, h.len() + 4int)),
{
    let s = seq!['#', ' '] + h + seq!['\n', '\n'] + g;
    let n = s.len() as int;
    let le = h.len() + 2int;
    assert forall|i: int| 0 <= i < le implies s[i] != '\n' by {
        if i >= 2 {
            assert(s[i] == h[i - 2]);
        }
    }
    lemma_line_end_at(s, 0, le, n);
    assert(s.subrange(0, 2) =~= seq!['#', ' ']);
    assert(s[le + 2] == g[0]);
    let hh = seq!['#', '#', ' '];
    assert(!has_tag(s, le + 2, hh, line_end(s, le + 2, n))) by {
        if has_tag(s, le + 2, hh, line_end(s, le + 2, n)) {
            assert(s.subrange(le + 2, le + 5)[0] == hh[0]);
        }
    }
    assert(!only_space_from(s, le + 2));
}

/// A task entry `"- [P-D] desc"` on a line of its own is read with project
/// `P` and the number that the digits `D` write, for every run `P` of
/// uppercase letters and every run `D` of digits whose value fits in a `u32`.
pub proof fn task_id_fidelity(p: Seq<char>, d: Seq<char>, desc: Seq<char>)
    requires
        p.len() > 0,
        forall|i: int| 0 <= i < p.len() ==> is_upper(p[i]),
        d.len() > 0,
        forall|i: int| 0 <= i < d.len() ==> is_digit(d[i]),
        digits_value(d, 0, d.len() as int) <= u32::MAX,
        forall|i: int| 0 <= i < desc.len() ==> desc[i] != '\n',
    ensures
        task_entries(
            seq!['-', ' ', '['] + p + seq!['-'] + d + seq![']', ' '] + desc + seq!['\n'],
            0,
            (p.len() + d.len() + desc.len() + 7) as int,
            seq![],
        ) == Ok::<Seq<TaskView>, Failure>(seq![
            TaskView {
                id: TaskIdView { project: p, number: digits_value(d, 0, d.len() as int) as u32 },
                description: desc,
                sub_list: None,
            },
        ]),
{
    let s = seq!['-', ' ', '['] + p + seq!['-'] + d + seq![']', ' '] + desc + seq!['\n'];
    let w = s.len() as int;
    let ue = 3 + p.len() as int;
    let dp = ue + 1;
    let de = dp + d.len() as int;
    let le = de + 2 + desc.len() as int;
    assert(le + 1 == w);
    assert forall|i: int| 3 <= i < ue implies s[i] == p[i - 3] by {}
    assert forall|i: int| 0 <= i < d.len() implies s[dp + i] == d[i] by {}
    assert forall|i: int| de + 2 <= i < le implies s[i] == desc[i - de - 2] by {}
    assert forall|i: int| 0 <= i < le implies s[i] != '\n' by {
        if 3 <= i < ue {
            assert(is_upper(s[i]));
        } else if dp <= i < de {
            assert(s[i] == d[i - dp]);
            assert(is_digit(s[i]));
        }
    }
    lemma_line_end_at(s, 0, le, w);
    assert(s.subrange(0, 3) =~= seq!['-', ' ', '[']);
    lemma_upper_end_at(s, 3, ue, le);
    assert forall|i: int| dp <= i < de implies is_digit(s[i]) by {
        assert(s[i] == d[i - dp]);
    }
    lemma_digit_end_at(s, dp, de, le);
    lemma_digits_value_shift(s, dp, d, d.len() as int);
    assert(s.subrange(de, de + 2) =~= seq![']', ' ']);
    assert(s.subrange(3, ue) =~= p);
    assert(s.subrange(de + 2, le) =~= desc);
    assert(after_line(s, 0, w) == w);
    let t = TaskView {
        id: TaskIdView { project: p, number: digits_value(d, 0, d.len() as int) as u32 },
        description: desc,
        sub_list: None,
    };
    assert(task_entry(s, 0, w) == Ok::<(TaskView, int), Failure>((t, w)));
    assert(task_entries(s, w, w, seq![t]) == Ok::<Seq<TaskView>, Failure>(seq![t]));
    assert(seq![].push(t) =~= seq![t]);
}

/// A task entry has sub-items exactly when the line right after it is a
/// sub-item line `"  - item"`; the first of them is then that line's item.
/// A following empty line, `"### "` line or end of the body leaves none.
pub proof fn sub_item_association(s: Seq<char>, x: int, w: int)
    requires
        task_entry(s, x, w) is Ok,
    ensures
        ({
            let t = task_entry(s, x, w)->Ok_0.0;
            let p = after_line(s, x, w);
            let le = line_end(s, p, w);
            let items = sub_items(s, p, w, seq![]).0;
            &&& t.sub_list == if items.len() == 0 { None } else { Some(items) }
            &&& if p < w && has_tag(s, p, seq![' ', ' ', '-', ' '], le) {
                &&& t.sub_list is Some
                &&& t.sub_list->Some_0.len() > 0
                &&& t.sub_list->Some_0[0] == s.subrange(p + 4, le)
            } else {
                t.sub_list is None
            }
        }),
{
    let p = after_line(s, x, w);
    let le = line_end(s, p, w);
    if p < w && has_tag(s, p, seq![' ', ' ', '-', ' '], le) {
        let first = seq![s.subrange(p + 4, le)];
        assert(seq![].push(s.subrange(p + 4, le)) =~= first);
        lemma_sub_items_extend(s, after_line(s, p, w), w, first);
        let items = sub_items(s, p, w, seq![]).0;
        assert(items.subrange(0, 1)[0] == first[0]);
    }
}

/// The text of sub-item lines `"  - item"`, one per item, each ended by a
/// newline, in order.
pub open spec fn sub_item_lines(items: Seq<Seq<char>>) -> Seq<char>
    decreases items.len(),
{
    if items.len() == 0 {
        seq![]
    } else {
        seq![' ', ' ', '-', ' '] + items[0] + seq!['\n'] + sub_item_lines(items.drop_first())
    }
}

/// A run of sub-item lines is collected whole and in its order, and the scan
/// stops right after it, where the next line is not a sub-item line (an
/// empty line, a `"### "` line, another entry, or the end of the body).
pub proof fn sub_item_run(s: Seq<char>, p: int, w: int, items: Seq<Seq<char>>, acc: Seq<Seq<char>>)
    requires
        0 <= p,
        p + sub_item_lines(items).len() <= w <= s.len(),
        s.subrange(p, p + sub_item_lines(items).len()) == sub_item_lines(items),
        forall|j: int, i: int| 0 <= j < items.len() && 0 <= i < items[j].len() ==> items[j][i] != '\n',
        !({
            let q = p + sub_item_lines(items).len();
            q < w && has_tag(s, q, seq![' ', ' ', '-', ' '], line_end(s, q, w))
        }),
    ensures
        sub_items(s, p, w, acc) == (acc + items, p + sub_item_lines(items).len()),
    decreases items.len(),
{
    let lines = sub_item_lines(items);
    if items.len() == 0 {
        assert(acc + items =~= acc);
    } else {
        let it = items[0];
        let rest = items.drop_first();
        let tail = sub_item_lines(rest);
        let le = p + 4 + it.len();
        assert(lines == seq![' ', ' ', '-', ' '] + it + seq!['\n'] + tail);
        assert forall|k: int| 0 <= k < lines.len() implies s[p + k] == lines[k] by {
            assert(s.subrange(p, p + lines.len())[k] == s[p + k]);
        }
        assert forall|i: int| p <= i < le implies s[i] != '\n' by {
            assert(s[i] == lines[i - p]);
            if i >= p + 4 {
                assert(lines[i - p] == it[i - p - 4]);
            }
        }
        assert(s[le] == lines[le - p]);
        lemma_line_end_at(s, p, le, w);
        assert(s.subrange(p, p + 4) =~= seq![' ', ' ', '-', ' ']) by {
            assert forall|k: int| 0 <= k < 4 implies s.subrange(p, p + 4)[k] == seq![' ', ' ', '-', ' '][k] by {
                assert(s[p + k] == lines[k]);
            }
        }
        assert(s.subrange(p + 4, le) =~= it) by {
            assert forall|k: int| 0 <= k < it.len() implies s.subrange(p + 4, le)[k] == it[k] by {
                assert(s[p + 4 + k] == lines[4 + k]);
            }
        }
        assert(after_line(s, p, w) == le + 1);
        assert(s.subrange(le + 1, le + 1 + tail.len()) =~= tail) by {
            assert forall|k: int| 0 <= k < tail.len() implies s.subrange(le + 1, le + 1 + tail.len())[k] == tail[k] by {
                assert(s[le + 1 + k] == lines[le + 1 + k - p]);
            }
        }
        assert forall|j: int, i: int| 0 <= j < rest.len() && 0 <= i < rest[j].len() implies rest[j][i] != '\n' by {
            assert(rest[j] == items[j + 1]);
        }
        sub_item_run(s, le + 1, w, rest, acc.push(it));
        assert(acc.push(it) + rest =~= acc + items);
    }
}

/// Every task group holds a task entry.
pub open spec fn groups_have_entries(gs: Seq<TaskGroupView>) -> bool {
    forall|j: int| 0 <= j < gs.len() ==> (#[trigger] gs[j]).entries.len() > 0
}

/// Every version section holds a task group, and each of those a task entry.
pub open spec fn versions_have_groups(vs: Seq<VersionGroupView>) -> bool {
    forall|j: int|
        0 <= j < vs.len() ==> (#[trigger] vs[j]).task_groups.len() > 0 && groups_have_entries(vs[j].task_groups)
}

proof fn lemma_line_end_bounds(s: Seq<char>, p: int, lim: int)
    requires
        p <= lim,
    ensures
        p <= line_end(s, p, lim) <= lim,
    decreases lim - p,
{
    if p < lim && s[p] != '\n' {
        lemma_line_end_bounds(s, p + 1, lim);
    }
}

proof fn lemma_blank_line_bounds(s: Seq<char>, b: int, q: int)
    requires
        q <= s.len(),
    ensures
        q <= blank_line(s, b, q) <= s.len(),
    decreases s.len() - q,
{
    if q < s.len() && !(s[q] == '\n' && (q == b || s[q - 1] == '\n')) {
        lemma_blank_line_bounds(s, b, q + 1);
    }
}

proof fn lemma_next_group_bounds(s: Seq<char>, u: int, q: int, e: int)
    requires
        q <= e,
    ensures
        q <= next_group(s, u, q, e) <= e,
    decreases e - q,
{
    if q < e && !((q == u || s[q - 1] == '\n') && has_tag(s, q, seq!['#', '#', '#', ' '], line_end(s, q, e))) {
        lemma_next_group_bounds(s, u, q + 1, e);
    }
}

proof fn lemma_task_entries_grow(s: Seq<char>, x: int, w: int, acc: Seq<TaskView>)
    requires
        task_entries(s, x, w, acc) is Ok,
    ensures
        task_entries(s, x, w, acc)->Ok_0.len() >= acc.len(),
        x < w ==> task_entries(s, x, w, acc)->Ok_0.len() > acc.len(),
    decreases w - x,
{
    if x < w {
        let (t, n) = task_entry(s, x, w)->Ok_0;
        lemma_task_entries_grow(s, n, w, acc.push(t));
    }
}

proof fn lemma_task_group_has_entries(s: Seq<char>, t: int, e: int)
    requires
        t <= e,
        task_group(s, t, e) is Ok,
    ensures
        task_group(s, t, e)->Ok_0.0.entries.len() > 0,
{
    lemma_line_end_bounds(s, t, e);
    let u = after_line(s, t, e);
    lemma_next_group_bounds(s, u, u, e);
    let w = next_group(s, u, u, e);
    lemma_task_entries_grow(s, u, w, seq![]);
}

proof fn lemma_task_groups_have_entries(s: Seq<char>, t: int, e: int, acc: Seq<TaskGroupView>)
    requires
        task_groups(s, t, e, acc) is Ok,
        groups_have_entries(acc),
    ensures
        groups_have_entries(task_groups(s, t, e, acc)->Ok_0),
        t < e ==> task_groups(s, t, e, acc)->Ok_0.len() > acc.len(),
        task_groups(s, t, e, acc)->Ok_0.len() >= acc.len(),
    decreases e - t,
{
    if t < e {
        let (g, n) = task_group(s, t, e)->Ok_0;
        lemma_task_group_has_entries(s, t, e);
        let next = acc.push(g);
        assert(groups_have_entries(next)) by {
            assert forall|j: int| 0 <= j < next.len() implies (#[trigger] next[j]).entries.len() > 0 by {
                if j < acc.len() {
                    assert(next[j] == acc[j]);
                }
            }
        }
        lemma_task_groups_have_entries(s, n, e, next);
    }
}

proof fn lemma_version_group_has_groups(s: Seq<char>, p: int)
    requires
        0 <= p <= s.len(),
        version_group(s, p) is Ok,
    ensures
        version_group(s, p)->Ok_0.0.task_groups.len() > 0,
        groups_have_entries(version_group(s, p)->Ok_0.0.task_groups),
{
    let le = line_end(s, p, s.len() as int);
    let b = le + 1;
    lemma_line_end_bounds(s, p, s.len() as int);
    lemma_blank_line_bounds(s, b, b + 1);
    let e = blank_line(s, b, b);
    assert(b < e);
    lemma_task_groups_have_entries(s, b, e, seq![]);
}

proof fn lemma_version_list_well_formed(s: Seq<char>, p: int, acc: Seq<VersionGroupView>)
    requires
        0 <= p <= s.len(),
        version_list(s, p, acc) is Ok,
        versions_have_groups(acc),
    ensures
        versions_have_groups(version_list(s, p, acc)->Ok_0.0),
    decreases s.len() - p,
{
    if has_tag(s, p, seq!['#', '#', ' '], line_end(s, p, s.len() as int)) {
        let (g, e) = version_group(s, p)->Ok_0;
        lemma_version_group_has_groups(s, p);
        let next = acc.push(g);
        assert(versions_have_groups(next)) by {
            assert forall|j: int| 0 <= j < next.len() implies (#[trigger] next[j]).task_groups.len() > 0
                && groups_have_entries(next[j].task_groups) by {
                if j < acc.len() {
                    assert(next[j] == acc[j]);
                }
            }
        }
        if e < s.len() && s[e] == '\n' {
            lemma_version_list_well_formed(s, e + 1, next);
        }
    }
}

/// In every document that parses, each version section holds at least one
/// task group and each task group at least one task entry.
pub proof fn parsed_sections_are_not_empty(s: Seq<char>)
    requires
        document(s) is Ok,
    ensures
        versions_have_groups(document(s)->Ok_0.versions),
{
    let le = line_end(s, 0, s.len() as int);
    lemma_line_end_bounds(s, 0, s.len() as int);
    lemma_version_list_well_formed(s, le + 2, seq![]);
}

/// The decimal digit for `k < 10`.
pub open spec fn digit_char(k: nat) -> char {
    seq!['0', '1', '2', '3', '4', '5', '6', '7', '8', '9'][k as int]
}

/// The decimal numeral of `n`, without leading zeros.
pub open spec fn decimal(n: nat) -> Seq<char>
    decreases n,
{
    if n < 10 {
        seq![digit_char(n)]
    } else {
        decimal(n / 10).push(digit_char(n % 10))
    }
}

proof fn lemma_digit_char(k: nat)
    requires
        k < 10,
    ensures
        is_digit(digit_char(k)),
        (digit_char(k) as u32) - 48 == k,
{
    let t = seq!['0', '1', '2', '3', '4', '5', '6', '7', '8', '9'];
    assert(t[0] == '0' && t[1] == '1' && t[2] == '2' && t[3] == '3' && t[4] == '4');
    assert(t[5] == '5' && t[6] == '6' && t[7] == '7' && t[8] == '8' && t[9] == '9');
}

proof fn lemma_decimal(n: nat)
    ensures
        decimal(n).len() > 0,
        forall|i: int| 0 <= i < decimal(n).len() ==> is_digit(#[trigger] decimal(n)[i]),
        digits_value(decimal(n), 0, decimal(n).len() as int) == n,
    decreases n,
{
    if n < 10 {
        lemma_digit_char(n);
        assert(digits_value(decimal(n), 0, 0) == 0);
    } else {
        let d = decimal(n / 10);
        let c = digit_char(n % 10);
        lemma_decimal(n / 10);
        lemma_digit_char(n % 10);
        let e = d.push(c);
        assert forall|i: int| 0 <= i < e.len() implies is_digit(#[trigger] e[i]) by {
            if i < d.len() {
                assert(e[i] == d[i]);
            }
        }
        lemma_digits_value_shift(e, 0, d, d.len() as int);
        assert(digits_value(e, 0, e.len() as int) == digits_value(e, 0, d.len() as int) * 10 + ((c as u32) - 48) as nat);
        assert(n == (n / 10) * 10 + n % 10) by (nonlinear_arith);
    }
}

/// Task id fidelity for numerals: `"- [P-N] desc"`, with `N` written in
/// decimal, is read with project `P` and number `N`, for every run `P` of
/// uppercase letters and every `u32` number `N`.
pub proof fn task_id_fidelity_decimal(p: Seq<char>, n: u32, desc: Seq<char>)
    requires
        p.len() > 0,
        forall|i: int| 0 <= i < p.len() ==> is_upper(p[i]),
        forall|i: int| 0 <= i < desc.len() ==> desc[i] != '\n',
    ensures
        task_entries(
            seq!['-', ' ', '['] + p + seq!['-'] + decimal(n as nat) + seq![']', ' '] + desc + seq!['\n'],
            0,
            (p.len() + decimal(n as nat).len() + desc.len() + 7) as int,
            seq![],
        ) == Ok::<Seq<TaskView>, Failure>(seq![
            TaskView { id: TaskIdView { project: p, number: n }, description: desc, sub_list: None },
        ]),
{
    lemma_decimal(n as nat);
    task_id_fidelity(p, decimal(n as nat), desc);
}

/// `s` and `t` hold the same characters below `k`.
pub open spec fn agree(s: Seq<char>, t: Seq<char>, k: int) -> bool {
    0 <= k <= s.len() && k <= t.len() && forall|i: int| 0 <= i < k ==> s[i] == t[i]
}

proof fn lemma_agree_line_end(s: Seq<char>, t: Seq<char>, k: int, p: int, lim: int)
    requires
        agree(s, t, k),
        0 <= p,
        lim <= k,
    ensures
        line_end(s, p, lim) == line_end(t, p, lim),
    decreases lim - p,
{
    if p < lim {
        lemma_agree_line_end(s, t, k, p + 1, lim);
    }
}

proof fn lemma_upper_end_bounds(s: Seq<char>, p: int, lim: int)
    requires
        p <= lim,
    ensures
        p <= upper_end(s, p, lim) <= lim,
    decreases lim - p,
{
    if p < lim && is_upper(s[p]) {
        lemma_upper_end_bounds(s, p + 1, lim);
    }
}

proof fn lemma_digit_end_bounds(s: Seq<char>, p: int, lim: int)
    requires
        p <= lim,
    ensures
        p <= digit_end(s, p, lim) <= lim,
    decreases lim - p,
{
    if p < lim && is_digit(s[p]) {
        lemma_digit_end_bounds(s, p + 1, lim);
    }
}

proof fn lemma_agree_has_tag(s: Seq<char>, t: Seq<char>, k: int, p: int, tg: Seq<char>, lim: int)
    requires
        agree(s, t, k),
        lim <= k,
    ensures
        has_tag(s, p, tg, lim) == has_tag(t, p, tg, lim),
{
    if 0 <= p && p + tg.len() <= lim && lim >= 0 {
        assert(s.subrange(p, p + tg.len()) =~= t.subrange(p, p + tg.len()));
    }
}

proof fn lemma_agree_upper_end(s: Seq<char>, t: Seq<char>, k: int, p: int, lim: int)
    requires
        agree(s, t, k),
        0 <= p,
        lim <= k,
    ensures
        upper_end(s, p, lim) == upper_end(t, p, lim),
    decreases lim - p,
{
    if p < lim {
        lemma_agree_upper_end(s, t, k, p + 1, lim);
    }
}

proof fn lemma_agree_digits(s: Seq<char>, t: Seq<char>, k: int, p: int, lim: int)
    requires
        agree(s, t, k),
        0 <= p,
        lim <= k,
    ensures
        digit_end(s, p, lim) == digit_end(t, p, lim),
        forall|q: int| p <= q <= lim ==> digits_value(s, p, q) == digits_value(t, p, q),
    decreases lim - p,
{
    if p < lim {
        lemma_agree_digits(s, t, k, p + 1, lim);
    }
    assert forall|q: int| p <= q <= lim implies digits_value(s, p, q) == digits_value(t, p, q) by {
        lemma_agree_digits_value(s, t, k, p, q);
    }
}

proof fn lemma_agree_digits_value(s: Seq<char>, t: Seq<char>, k: int, p: int, q: int)
    requires
        agree(s, t, k),
        0 <= p,
        q <= k,
    ensures
        digits_value(s, p, q) == digits_value(t, p, q),
    decreases q - p,
{
    if p < q {
        lemma_agree_digits_value(s, t, k, p, q - 1);
    }
}

proof fn lemma_agree_next_group(s: Seq<char>, t: Seq<char>, k: int, u: int, q: int, e: int)
    requires
        agree(s, t, k),
        0 <= u <= q,
        e <= k,
    ensures
        next_group(s, u, q, e) == next_group(t, u, q, e),
    decreases e - q,
{
    if q < e {
        lemma_agree_line_end(s, t, k, q, e);
        lemma_line_end_bounds(s, q, e);
        lemma_agree_has_tag(s, t, k, q, seq!['#', '#', '#', ' '], line_end(s, q, e));
        lemma_agree_next_group(s, t, k, u, q + 1, e);
    }
}

proof fn lemma_agree_sub_items(s: Seq<char>, t: Seq<char>, k: int, p: int, w: int, acc: Seq<Seq<char>>)
    requires
        agree(s, t, k),
        0 <= p,
        w <= k,
    ensures
        sub_items(s, p, w, acc) == sub_items(t, p, w, acc),
    decreases w - p,
{
    if p < w {
        lemma_agree_line_end(s, t, k, p, w);
        lemma_line_end_bounds(s, p, w);
        let le = line_end(s, p, w);
        lemma_agree_has_tag(s, t, k, p, seq![' ', ' ', '-', ' '], le);
        if has_tag(s, p, seq![' ', ' ', '-', ' '], le) {
            assert(s.subrange(p + 4, le) =~= t.subrange(p + 4, le));
            lemma_agree_sub_items(s, t, k, after_line(s, p, w), w, acc.push(s.subrange(p + 4, le)));
        }
    }
}

proof fn lemma_agree_task_entry(s: Seq<char>, t: Seq<char>, k: int, x: int, w: int)
    requires
        agree(s, t, k),
        0 <= x <= w <= k,
    ensures
        task_entry(s, x, w) == task_entry(t, x, w),
{
    lemma_agree_line_end(s, t, k, x, w);
    lemma_line_end_bounds(s, x, w);
    let le = line_end(s, x, w);
    lemma_agree_has_tag(s, t, k, x, seq!['-', ' ', '['], le);
    if has_tag(s, x, seq!['-', ' ', '['], le) {
        lemma_agree_upper_end(s, t, k, x + 3, le);
        lemma_upper_end_bounds(s, x + 3, le);
        let ue = upper_end(s, x + 3, le);
        if ue + 1 <= le {
            lemma_agree_digits(s, t, k, ue + 1, le);
            lemma_digit_end_bounds(s, ue + 1, le);
            let de = digit_end(s, ue + 1, le);
            lemma_agree_has_tag(s, t, k, de, seq![']', ' '], le);
            assert(s.subrange(x + 3, ue) =~= t.subrange(x + 3, ue));
            if de + 2 <= le {
                assert(s.subrange(de + 2, le) =~= t.subrange(de + 2, le));
            }
            lemma_agree_line_end(s, t, k, x, w);
            lemma_agree_sub_items(s, t, k, after_line(s, x, w), w, seq![]);
        }
    }
}

proof fn lemma_agree_task_entries(s: Seq<char>, t: Seq<char>, k: int, x: int, w: int, acc: Seq<TaskView>)
    requires
        agree(s, t, k),
        0 <= x,
        w <= k,
    ensures
        task_entries(s, x, w, acc) == task_entries(t, x, w, acc),
    decreases w - x,
{
    if x < w {
        lemma_agree_task_entry(s, t, k, x, w);
        if task_entry(s, x, w) is Ok {
            let (tv, n) = task_entry(s, x, w)->Ok_0;
            if x < n <= w {
                lemma_agree_task_entries(s, t, k, n, w, acc.push(tv));
            }
        }
    }
}

proof fn lemma_agree_task_group(s: Seq<char>, t: Seq<char>, k: int, g: int, e: int)
    requires
        agree(s, t, k),
        0 <= g <= e <= k,
        g + 4 <= line_end(s, g, e),
    ensures
        task_group(s, g, e) == task_group(t, g, e),
{
    lemma_agree_line_end(s, t, k, g, e);
    lemma_line_end_bounds(s, g, e);
    let u = after_line(s, g, e);
    lemma_agree_next_group(s, t, k, u, u, e);
    lemma_next_group_bounds(s, u, u, e);
    let w = next_group(s, u, u, e);
    lemma_agree_task_entries(s, t, k, u, w, seq![]);
    let le = line_end(s, g, e);
    assert(s.subrange(g + 4, le) =~= t.subrange(g + 4, le));
}

proof fn lemma_agree_task_groups(s: Seq<char>, t: Seq<char>, k: int, g: int, e: int, acc: Seq<TaskGroupView>)
    requires
        agree(s, t, k),
        0 <= g,
        e <= k,
    ensures
        task_groups(s, g, e, acc) == task_groups(t, g, e, acc),
    decreases e - g,
{
    if g < e {
        lemma_agree_line_end(s, t, k, g, e);
        lemma_line_end_bounds(s, g, e);
        lemma_agree_has_tag(s, t, k, g, seq!['#', '#', '#', ' '], line_end(s, g, e));
        if has_tag(s, g, seq!['#', '#', '#', ' '], line_end(s, g, e)) {
            lemma_agree_task_group(s, t, k, g, e);
        }
        if has_tag(s, g, seq!['#', '#', '#', ' '], line_end(s, g, e)) && task_group(s, g, e) is Ok {
            let (gv, n) = task_group(s, g, e)->Ok_0;
            if g < n <= e {
                lemma_agree_task_groups(s, t, k, n, e, acc.push(gv));
            }
        }
    }
}

/// `t` ends with an empty line.
pub open spec fn ends_with_blank_line(t: Seq<char>) -> bool {
    t.len() >= 2 && t[t.len() - 1] == '\n' && t[t.len() - 2] == '\n'
}

/// Where the grammar stops reading a document that parses: the end of its
/// last version section's separator, or the end of the header's empty line.
pub open spec fn document_end(s: Seq<char>) -> int {
    version_list(s, line_end(s, 0, s.len() as int) + 2, seq![])->Ok_0.1
}

proof fn lemma_extend_line_end(s: Seq<char>, t: Seq<char>, p: int)
    requires
        agree(s, t, t.len() as int),
        t.len() > 0,
        t[t.len() - 1] == '\n',
        0 <= p < t.len(),
    ensures
        line_end(s, p, s.len() as int) == line_end(t, p, t.len() as int),
        line_end(t, p, t.len() as int) < t.len(),
    decreases t.len() - p,
{
    if t[p] != '\n' {
        lemma_extend_line_end(s, t, p + 1);
    }
}

proof fn lemma_extend_blank_line(s: Seq<char>, t: Seq<char>, b: int, q: int)
    requires
        agree(s, t, t.len() as int),
        ends_with_blank_line(t),
        0 <= b <= q < t.len(),
    ensures
        blank_line(s, b, q) == blank_line(t, b, q),
        blank_line(t, b, q) < t.len(),
    decreases t.len() - q,
{
    if !(t[q] == '\n' && (q == b || t[q - 1] == '\n')) {
        lemma_extend_blank_line(s, t, b, q + 1);
    }
}

proof fn lemma_extend_version_group(s: Seq<char>, t: Seq<char>, p: int)
    requires
        agree(s, t, t.len() as int),
        ends_with_blank_line(t),
        0 <= p < t.len(),
        has_tag(t, p, seq!['#', '#', ' '], line_end(t, p, t.len() as int)),
        version_group(t, p) is Ok,
    ensures
        version_group(s, p) == version_group(t, p),
        version_group(t, p)->Ok_0.1 < t.len(),
        t[version_group(t, p)->Ok_0.1] == '\n',
{
    lemma_extend_line_end(s, t, p);
    let le = line_end(t, p, t.len() as int);
    let b = le + 1;
    lemma_extend_blank_line(s, t, b, b);
    let e = blank_line(t, b, b);
    lemma_agree_task_groups(s, t, t.len() as int, b, e, seq![]);
    assert(s.subrange(p + 3, le) =~= t.subrange(p + 3, le));
    lemma_blank_line_is_newline(t, b, b);
}

proof fn lemma_blank_line_is_newline(t: Seq<char>, b: int, q: int)
    requires
        0 <= q,
        blank_line(t, b, q) < t.len(),
    ensures
        t[blank_line(t, b, q)] == '\n',
    decreases t.len() - q,
{
    if q < t.len() && !(t[q] == '\n' && (q == b || t[q - 1] == '\n')) {
        lemma_blank_line_is_newline(t, b, q + 1);
    }
}

proof fn lemma_extend_version_list(s: Seq<char>, t: Seq<char>, p: int, acc: Seq<VersionGroupView>)
    requires
        agree(s, t, t.len() as int),
        ends_with_blank_line(t),
        t.len() < s.len(),
        s[t.len() as int] != '#',
        0 <= p <= t.len(),
        version_list(t, p, acc) is Ok,
    ensures
        version_list(s, p, acc) == version_list(t, p, acc),
        version_list(t, p, acc)->Ok_0.1 <= t.len(),
    decreases t.len() - p,
{
    let hh = seq!['#', '#', ' '];
    if p == t.len() {
        if has_tag(s, p, hh, line_end(s, p, s.len() as int)) {
            assert(s.subrange(p, p + 3)[0] == hh[0]);
        }
    } else {
        lemma_extend_line_end(s, t, p);
        lemma_agree_has_tag(s, t, t.len() as int, p, hh, line_end(t, p, t.len() as int));
        if has_tag(t, p, hh, line_end(t, p, t.len() as int)) {
            lemma_extend_version_group(s, t, p);
            let (g, e) = version_group(t, p)->Ok_0;
            if p < e {
                lemma_extend_version_list(s, t, e + 1, acc.push(g));
            }
        }
    }
}

/// Text that starts with a character that is neither whitespace nor `#`,
/// put after a document that parses and ends with an empty line, is
/// rejected as trailing content, at the index where that document's grammar
/// stopped.
pub proof fn trailing_text_is_rejected(t: Seq<char>, g: Seq<char>)
    requires
        document(t) is Ok,
        ends_with_blank_line(t),
        g.len() > 0,
        !is_space(g[0]),
        g[0] != '#',
    ensures
        document(t + g) == Err::<ChangeLogView, Failure>((ParseErrorKind::TrailingContent, document_end(t))),
        document_end(t) <= t.len(),
{
    let s = t + g;
    let n = t.len() as int;
    assert(agree(s, t, n));
    assert(s[n] == g[0]);
    lemma_extend_line_end(s, t, 0);
    let le = line_end(t, 0, n);
    lemma_agree_has_tag(s, t, n, 0, seq!['#', ' '], le);
    lemma_extend_version_list(s, t, le + 2, seq![]);
    assert(!only_space_from(s, document_end(t)));
}

} // verus!
