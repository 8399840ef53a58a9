//! Schema validation of a stamp's `lines`: at most twelve lines, each at most
//! forty graphemes wide. No lower bound on the number of lines, so glyph-only
//! stamps (no lines, a glyph seed) are valid.

use unicode_segmentation::UnicodeSegmentation;
use vstd::prelude::*;

use crate::text::{decimal, push_decimal};

verus! {

/// Maximum number of `lines` a stamp may carry.
pub const MAX_LINES: usize = 12;

/// Maximum grapheme width of a single stamp line.
pub const MAX_GRAPHEMES: usize = 40;

/// A schema violation: the 1-indexed offending line and a reason.
#[derive(Clone, Debug)]
pub struct LineError {
    /// 1-indexed line number the violation refers to.
    pub line: usize,
    /// Human-readable reason, e.g. `>40 graphemes (got 41)`.
    pub reason: String,
}

/// Number of extended grapheme clusters of `s`, as segmented by the
/// `unicode-segmentation` crate.
pub uninterp spec fn grapheme_count(s: Seq<char>) -> nat;

/// Counts the extended grapheme clusters of `s` with
/// `UnicodeSegmentation::graphemes(s, true).count()`. The contract only names
/// the result: the segmentation rules of Unicode Annex #29 are not restated.
#[verifier::external_body]
fn count_graphemes(s: &str) -> (n: usize)
    ensures
        n == grapheme_count(s@),
{
    s.graphemes(true).count()
}

/// Whether a single line is within the width bound.
pub open spec fn line_fits(line: Seq<char>) -> bool {
    grapheme_count(line) <= MAX_GRAPHEMES
}

/// Whether every line is within the width bound.
pub open spec fn all_lines_fit(lines: Seq<String>) -> bool {
    forall|i: int| 0 <= i < lines.len() ==> line_fits(#[trigger] lines[i]@)
}

/// Whether `lines` satisfies the schema.
pub open spec fn lines_valid(lines: Seq<String>) -> bool {
    lines.len() <= MAX_LINES && all_lines_fit(lines)
}

/// Reason text for a list of `n` lines, more than allowed.
pub open spec fn too_many_reason(n: nat) -> Seq<char> {
    "too many lines (got "@ + decimal(n) + ", max "@ + decimal(MAX_LINES as nat) + ")"@
}

/// Reason text for a line `count` graphemes wide, more than allowed.
pub open spec fn too_wide_reason(count: nat) -> Seq<char> {
    ">"@ + decimal(MAX_GRAPHEMES as nat) + " graphemes (got "@ + decimal(count) + ")"@
}

/// `e` is the error `validate_lines` reports for `lines`: too many lines is
/// reported as line `MAX_LINES + 1`; otherwise the first line that is too
/// wide, 1-indexed.
pub open spec fn reported_error(lines: Seq<String>, e: LineError) -> bool {
    if lines.len() > MAX_LINES {
        e.line == MAX_LINES + 1 && e.reason@ == too_many_reason(lines.len())
    } else {
        &&& 1 <= e.line <= lines.len()
        &&& !line_fits(lines[e.line - 1]@)
        &&& forall|j: int| 0 <= j < e.line - 1 ==> line_fits(#[trigger] lines[j]@)
        &&& e.reason@ == too_wide_reason(grapheme_count(lines[e.line - 1]@))
    }
}

/// Whether line widths (in graphemes) satisfy the schema.
pub open spec fn widths_valid(widths: Seq<usize>) -> bool {
    widths.len() <= MAX_LINES && forall|i: int| 0 <= i < widths.len() ==> #[trigger] widths[i]
        <= MAX_GRAPHEMES
}

/// `e` is the error `check_line_widths` reports for `widths`: too many lines
/// is reported as line `MAX_LINES + 1`; otherwise the first line that is too
/// wide, 1-indexed.
pub open spec fn reported_width_error(widths: Seq<usize>, e: LineError) -> bool {
    if widths.len() > MAX_LINES {
        e.line == MAX_LINES + 1 && e.reason@ == too_many_reason(widths.len())
    } else {
        &&& 1 <= e.line <= widths.len()
        &&& widths[e.line - 1] > MAX_GRAPHEMES
        &&& forall|j: int| 0 <= j < e.line - 1 ==> #[trigger] widths[j] <= MAX_GRAPHEMES
        &&& e.reason@ == too_wide_reason(widths[e.line - 1] as nat)
    }
}

/// Check the widths of a stamp's lines, given as grapheme counts in line
/// order, against the schema bounds. Too many lines is reported as line
/// `MAX_LINES + 1`; otherwise the first line wider than `MAX_GRAPHEMES`
/// graphemes is reported, 1-indexed.
pub fn check_line_widths(widths: &[usize]) -> (res: Result<(), LineError>)
    ensures
        res is Ok <==> widths_valid(widths@),
        res matches Err(e) ==> reported_width_error(widths@, e),
        res matches Err(e) ==> (1 <= e.line <= widths@.len() + 1 && e.reason@.len() > 0),
{
    let n = widths.len();
    if n > MAX_LINES {
        let mut reason = String::from_str("too many lines (got ");
        push_decimal(&mut reason, n as u64);
        reason.append(", max ");
        push_decimal(&mut reason, MAX_LINES as u64);
        reason.append(")");
        proof {
            reveal_strlit(")");
        }
        return Err(LineError { line: MAX_LINES + 1, reason });
    }
    let mut i: usize = 0;
    while i < n
        invariant
            n == widths@.len(),
            n <= MAX_LINES,
            i <= n,
            forall|j: int| 0 <= j < i ==> #[trigger] widths@[j] <= MAX_GRAPHEMES,
        decreases n - i,
    {
        let count = widths[i];
        if count > MAX_GRAPHEMES {
            let mut reason = String::from_str(">");
            push_decimal(&mut reason, MAX_GRAPHEMES as u64);
            reason.append(" graphemes (got ");
            push_decimal(&mut reason, count as u64);
            reason.append(")");
            proof {
                reveal_strlit(")");
            }
            return Err(LineError { line: i + 1, reason });
        }
        i = i + 1;
    }
    Ok(())
}

/// Validate a stamp's `lines` against the schema bounds: count each line's
/// graphemes, then check the counts.
///
/// Too many lines is reported as line `MAX_LINES + 1`; otherwise the first
/// line wider than `MAX_GRAPHEMES` graphemes is reported, 1-indexed.
pub fn validate_lines(lines: &[String]) -> (res: Result<(), LineError>)
    ensures
        res is Ok <==> lines_valid(lines@),
        res matches Err(e) ==> reported_error(lines@, e),
        res matches Err(e) ==> (1 <= e.line <= lines@.len() + 1 && e.reason@.len() > 0),
{
    let n = lines.len();
    let mut widths: Vec<usize> = Vec::new();
    let mut i: usize = 0;
    while i < n
        invariant
            n == lines@.len(),
            i <= n,
            widths@.len() == i,
            forall|j: int| 0 <= j < i ==> #[trigger] widths@[j] == grapheme_count(lines@[j]@),
        decreases n - i,
    {
        let count = count_graphemes(lines[i].as_str());
        widths.push(count);
        i = i + 1;
    }
    let res = check_line_widths(widths.as_slice());
    proof {
        assert(forall|j: int| 0 <= j < n ==> (#[trigger] widths@[j] <= MAX_GRAPHEMES) == line_fits(
            lines@[j]@,
        ));
        if widths_valid(widths@) {
            assert forall|j: int| 0 <= j < lines@.len() implies line_fits(#[trigger] lines@[j]@) by {
                assert(widths@[j] <= MAX_GRAPHEMES);
            }
        }
        if lines_valid(lines@) {
            assert forall|j: int| 0 <= j < widths@.len() implies #[trigger] widths@[j]
                <= MAX_GRAPHEMES by {
                assert(line_fits(lines@[j]@));
            }
        }
        assert(widths_valid(widths@) == lines_valid(lines@));
        if let Err(e) = &res {
            if n <= MAX_LINES {
                let k = e.line - 1;
                assert(widths@[k] == grapheme_count(lines@[k]@));
                assert forall|j: int| 0 <= j < e.line - 1 implies line_fits(
                    #[trigger] lines@[j]@,
                ) by {
                    assert(widths@[j] <= MAX_GRAPHEMES);
                }
            }
        }
    }
    res
}

impl LineError {
    /// The diagnostic text `line <n>: <reason>`.
    pub fn message(&self) -> (msg: String)
        ensures
            msg@ == "line "@ + decimal(self.line as nat) + ": "@ + self.reason@,
    {
        let mut msg = String::from_str("line ");
        push_decimal(&mut msg, self.line as u64);
        msg.append(": ");
        msg.append(self.reason.as_str());
        msg
    }
}

} // verus!
