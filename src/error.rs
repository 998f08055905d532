//! Parse errors and the location they point at.
use crate::grammar::line_end;
use crate::text::{find_line_end, slice_string};
use vstd::prelude::*;

verus! {

/// What went wrong; every kind aborts the whole parse.
#[derive(Debug, Clone, Copy, PartialEq, Eq, Structural)]
pub enum ParseErrorKind {
    /// The input does not begin with `"# "`.
    MissingHeader,
    /// The header line is not followed by a blank line.
    MissingBlankLineAfterHeader,
    /// A version section holds no task group.
    EmptyVersionGroup,
    /// A task group holds no task entry.
    EmptyTaskGroup,
    /// A bracketed task reference is not `UPPERCASE+ "-" DIGIT+` followed by `"] "`.
    MalformedTaskId,
    /// A line of a task group is neither a task entry nor a sub-item.
    MalformedTaskEntry,
    /// A task number does not fit in a `u32`.
    IntegerOverflow,
    /// Non-whitespace input remains after the last version section.
    TrailingContent,
    /// The input ends in the middle of a construct.
    UnexpectedEndOfInput,
}

/// A parse failure: its kind, where it happened, and the offending text.
/// `offset` is in bytes from the start of the input; `line` and `column`
/// count from 1, the column in characters. Each saturates at `usize::MAX`.
/// `found` holds the input from the error's position to the end of its line.
#[derive(Debug)]
pub struct ParseError {
    pub kind: ParseErrorKind,
    pub offset: usize,
    pub line: usize,
    pub column: usize,
    pub found: String,
}

/// Number of bytes that the UTF-8 encoding of `c` takes.
pub open spec fn utf8_width(c: char) -> nat {
    if (c as u32) < 0x80 {
        1
    } else if (c as u32) < 0x800 {
        2
    } else if (c as u32) < 0x10000 {
        3
    } else {
        4
    }
}

/// Byte offset of the character at index `i` of `s`.
pub open spec fn byte_offset(s: Seq<char>, i: int) -> nat
    decreases i,
{
    if i <= 0 {
        0
    } else {
        byte_offset(s, i - 1) + utf8_width(s[i - 1])
    }
}

/// Line number (from 1) of the character at index `i` of `s`.
pub open spec fn line_of(s: Seq<char>, i: int) -> nat
    decreases i,
{
    if i <= 0 {
        1
    } else {
        line_of(s, i - 1) + if s[i - 1] == '\n' { 1nat } else { 0nat }
    }
}

/// Column number (from 1, in characters) of the character at index `i` of `s`.
pub open spec fn column_of(s: Seq<char>, i: int) -> nat
    decreases i,
{
    if i <= 0 {
        1
    } else if s[i - 1] == '\n' {
        1
    } else {
        column_of(s, i - 1) + 1
    }
}

/// `n`, or `usize::MAX` where `n` is larger.
pub open spec fn clamp(n: nat) -> usize {
    if n <= usize::MAX {
        n as usize
    } else {
        usize::MAX
    }
}

/// `e` is the error of kind `kind` at character index `i` of `s`.
pub open spec fn error_at(e: ParseError, s: Seq<char>, kind: ParseErrorKind, i: int) -> bool {
    &&& e.kind == kind
    &&& e.offset == clamp(byte_offset(s, i))
    &&& e.line == clamp(line_of(s, i))
    &&& e.column == clamp(column_of(s, i))
    &&& e.found@ == s.subrange(i, line_end(s, i, s.len() as int))
}

/// The sentence that describes each kind of error.
pub open spec fn message_of(kind: ParseErrorKind) -> Seq<char> {
    match kind {
        ParseErrorKind::MissingHeader => "expected the document header `# `"@,
        ParseErrorKind::MissingBlankLineAfterHeader => "expected exactly one blank line after the header"@,
        ParseErrorKind::EmptyVersionGroup => "expected a task group `### ` in the version section"@,
        ParseErrorKind::EmptyTaskGroup => "expected a task entry in the task group"@,
        ParseErrorKind::MalformedTaskId => "expected a task id `[PROJECT-NUMBER] `"@,
        ParseErrorKind::MalformedTaskEntry => "expected a task entry `- [` or a sub-item `  - `"@,
        ParseErrorKind::IntegerOverflow => "task number does not fit in 32 bits"@,
        ParseErrorKind::TrailingContent => "expected the end of the document"@,
        ParseErrorKind::UnexpectedEndOfInput => "unexpected end of input"@,
    }
}

fn char_width(c: char) -> (w: usize)
    ensures
        w == utf8_width(c),
{
    let u = c as u32;
    if u < 0x80 {
        1
    } else if u < 0x800 {
        2
    } else if u < 0x10000 {
        3
    } else {
        4
    }
}

fn saturating_sum(a: usize, b: usize) -> (r: usize)
    ensures
        r == clamp((a + b) as nat),
{
    if a > usize::MAX - b {
        usize::MAX
    } else {
        a + b
    }
}

impl ParseError {
    /// Builds the error of kind `kind` at character index `i` of `s`,
    /// locating it in bytes, lines and columns.
    pub fn at(s: &Vec<char>, kind: ParseErrorKind, i: usize) -> (e: ParseError)
        requires
            i <= s@.len(),
        ensures
            error_at(e, s@, kind, i as int),
    {
        let mut offset: usize = 0;
        let mut line: usize = 1;
        let mut column: usize = 1;
        let mut k: usize = 0;
        while k < i
            invariant
                k <= i <= s@.len(),
                offset == clamp(byte_offset(s@, k as int)),
                line == clamp(line_of(s@, k as int)),
                column == clamp(column_of(s@, k as int)),
            decreases i - k,
        {
            let c = s[k];
            offset = saturating_sum(offset, char_width(c));
            if c == '\n' {
                line = saturating_sum(line, 1);
                column = 1;
            } else {
                column = saturating_sum(column, 1);
            }
            k = k + 1;
        }
        let end = find_line_end(s, i, s.len());
        let found = slice_string(s, i, end);
        ParseError { kind, offset, line, column, found }
    }

    /// A sentence saying what the parser expected where it failed.
    pub fn message(&self) -> (m: String)
        ensures
            m@ == message_of(self.kind),
            m@.len() > 0,
    {
        match self.kind {
            ParseErrorKind::MissingHeader => {
                proof { reveal_strlit("expected the document header `# `"); }
                String::from_str("expected the document header `# `")
            },
            ParseErrorKind::MissingBlankLineAfterHeader => {
                proof { reveal_strlit("expected exactly one blank line after the header"); }
                String::from_str("expected exactly one blank line after the header")
            },
            ParseErrorKind::EmptyVersionGroup => {
                proof { reveal_strlit("expected a task group `### ` in the version section"); }
                String::from_str("expected a task group `### ` in the version section")
            },
            ParseErrorKind::EmptyTaskGroup => {
                proof { reveal_strlit("expected a task entry in the task group"); }
                String::from_str("expected a task entry in the task group")
            },
            ParseErrorKind::MalformedTaskId => {
                proof { reveal_strlit("expected a task id `[PROJECT-NUMBER] `"); }
                String::from_str("expected a task id `[PROJECT-NUMBER] `")
            },
            ParseErrorKind::MalformedTaskEntry => {
                proof { reveal_strlit("expected a task entry `- [` or a sub-item `  - `"); }
                String::from_str("expected a task entry `- [` or a sub-item `  - `")
            },
            ParseErrorKind::IntegerOverflow => {
                proof { reveal_strlit("task number does not fit in 32 bits"); }
                String::from_str("task number does not fit in 32 bits")
            },
            ParseErrorKind::TrailingContent => {
                proof { reveal_strlit("expected the end of the document"); }
                String::from_str("expected the end of the document")
            },
            ParseErrorKind::UnexpectedEndOfInput => {
                proof { reveal_strlit("unexpected end of input"); }
                String::from_str("unexpected end of input")
            },
        }
    }
}

} // verus!
