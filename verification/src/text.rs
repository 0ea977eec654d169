//! The text of a report: how a line and a failure read when printed.

use vstd::prelude::*;
use vstd::string::*;
use crate::error::{ErrorKind, ScanError, ScanErrorView};
use crate::report::{Line, LineView};

verus! {

/// The character that stands for the digit `d`.
pub open spec fn digit(d: nat) -> char {
    if d == 0 {
        '0'
    } else if d == 1 {
        '1'
    } else if d == 2 {
        '2'
    } else if d == 3 {
        '3'
    } else if d == 4 {
        '4'
    } else if d == 5 {
        '5'
    } else if d == 6 {
        '6'
    } else if d == 7 {
        '7'
    } else if d == 8 {
        '8'
    } else {
        '9'
    }
}

/// The decimal numeral of `n`, without sign and without leading zeros.
pub open spec fn decimal(n: nat) -> Seq<char>
    decreases n,
{
    if n < 10 {
        seq![digit(n)]
    } else {
        decimal(n / 10).push(digit(n % 10))
    }
}

/// The indentation of a line at `depth`: two spaces per level.
pub open spec fn indent(depth: nat) -> Seq<char> {
    Seq::new(2 * depth, |i: int| ' ')
}

impl LineView {
    /// The line as it is printed, without the line break.
    pub open spec fn text(self) -> Seq<char> {
        match self {
            LineView::Entry { depth, path, size } => indent(depth) + path + " - "@ + decimal(size),
            LineView::Announce { depth, path } => indent(depth) + path + "/"@,
            LineView::Summary { depth, path, local } => indent(depth) + path + "/ - "@ + decimal(
                local,
            ),
            LineView::DirSum { total } => "Dirsum: "@ + decimal(total),
            LineView::Total { total } => "Total: "@ + decimal(total),
        }
    }
}

/// What a failure of kind `kind` is called in a diagnostic.
pub open spec fn kind_text(kind: ErrorKind) -> Seq<char> {
    match kind {
        ErrorKind::PathNotFound => "path not found"@,
        ErrorKind::MetadataUnavailable => "metadata unavailable"@,
        ErrorKind::DirectoryUnreadable => "directory unreadable"@,
        ErrorKind::DeepRecursionLimit => "directory nesting exceeds the limit"@,
        ErrorKind::TotalOverflow => "byte total exceeds 64 bits"@,
    }
}

impl ScanErrorView {
    /// The diagnostic: the offending path, what went wrong and, where the
    /// system said something, what it said.
    pub open spec fn message(self) -> Seq<char> {
        let head = self.path + ": "@ + kind_text(self.kind);
        if self.cause.len() == 0 {
            head
        } else {
            head + " ("@ + self.cause + ")"@
        }
    }
}

fn digit_text(d: u64) -> (text: &'static str)
    requires
        d < 10,
    ensures
        text@ == seq![digit(d as nat)],
{
    proof {
        reveal_strlit("0");
        reveal_strlit("1");
        reveal_strlit("2");
        reveal_strlit("3");
        reveal_strlit("4");
        reveal_strlit("5");
        reveal_strlit("6");
        reveal_strlit("7");
        reveal_strlit("8");
        reveal_strlit("9");
    }
    if d == 0 {
        "0"
    } else if d == 1 {
        "1"
    } else if d == 2 {
        "2"
    } else if d == 3 {
        "3"
    } else if d == 4 {
        "4"
    } else if d == 5 {
        "5"
    } else if d == 6 {
        "6"
    } else if d == 7 {
        "7"
    } else if d == 8 {
        "8"
    } else {
        "9"
    }
}

/// Appends the decimal numeral of `n` to `text`.
fn push_decimal(text: &mut String, n: u64)
    ensures
        final(text)@ == old(text)@ + decimal(n as nat),
    decreases n,
{
    if n >= 10 {
        push_decimal(text, n / 10);
    }
    text.append(digit_text(n % 10));
}

/// The indentation of a line at `depth`.
fn indentation(depth: usize) -> (text: String)
    ensures
        text@ == indent(depth as nat),
{
    let mut text = String::new();
    let mut level: usize = 0;
    while level < depth
        invariant
            level <= depth,
            text@ == indent(level as nat),
        decreases depth - level,
    {
        proof {
            reveal_strlit("  ");
        }
        text.append("  ");
        level = level + 1;
    }
    text
}

impl Line {
    /// The line as it is printed, without the line break.
    pub fn to_text(&self) -> (text: String)
        ensures
            text@ == self@.text(),
    {
        match self {
            Line::Entry { depth, path, size } => {
                let mut text = indentation(*depth);
                text.append(path.as_str());
                text.append(" - ");
                push_decimal(&mut text, *size);
                text
            },
            Line::Announce { depth, path } => {
                let mut text = indentation(*depth);
                text.append(path.as_str());
                text.append("/");
                text
            },
            Line::Summary { depth, path, local } => {
                let mut text = indentation(*depth);
                text.append(path.as_str());
                text.append("/ - ");
                push_decimal(&mut text, *local);
                text
            },
            Line::DirSum { total } => {
                let mut text = String::from_str("Dirsum: ");
                push_decimal(&mut text, *total);
                text
            },
            Line::Total { total } => {
                let mut text = String::from_str("Total: ");
                push_decimal(&mut text, *total);
                text
            },
        }
    }
}

fn kind_name(kind: ErrorKind) -> (text: &'static str)
    ensures
        text@ == kind_text(kind),
{
    match kind {
        ErrorKind::PathNotFound => "path not found",
        ErrorKind::MetadataUnavailable => "metadata unavailable",
        ErrorKind::DirectoryUnreadable => "directory unreadable",
        ErrorKind::DeepRecursionLimit => "directory nesting exceeds the limit",
        ErrorKind::TotalOverflow => "byte total exceeds 64 bits",
    }
}

impl ScanError {
    /// The diagnostic for this failure.
    pub fn message(&self) -> (text: String)
        ensures
            text@ == self@.message(),
    {
        let mut text = self.path.clone();
        text.append(": ");
        text.append(kind_name(self.kind));
        if !self.cause.as_str().is_empty() {
            text.append(" (");
            text.append(self.cause.as_str());
            text.append(")");
        }
        text
    }
}

} // verus!
