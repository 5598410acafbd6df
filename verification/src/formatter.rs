//! Indentation reformatter for shell scripts: a single forward pass over the
//! lines of a document that keeps one nesting depth and rewrites only the
//! leading whitespace of each line.

use crate::reformat_laws::{
    lemma_reformat_idempotent, lemma_reformat_keeps_content, lemma_reformat_keeps_final_newline,
};
use crate::text::{
    contains, ends_with_newline, find_line_end, first_word, from_chars, last_word,
    leading_word_end, range_contains, range_spells, rows, skip_leading_whitespace,
    skip_trailing_whitespace, split_lines, to_chars, trailing_word_start, trim, trim_start,
};
use vstd::prelude::*;

verus! {

/// Number of spaces per nesting level.
pub const INDENT_SIZE: usize = 4;

/// `w` without one trailing semicolon, if it has one.
pub open spec fn strip_semicolon(w: Seq<char>) -> Seq<char> {
    if w.len() > 0 && w.last() == ';' {
        w.drop_last()
    } else {
        w
    }
}

/// The first word of a trimmed line, without one trailing semicolon.
pub open spec fn first_keyword(t: Seq<char>) -> Seq<char> {
    strip_semicolon(first_word(t))
}

/// The last word of a trimmed line, without one trailing semicolon.
pub open spec fn last_keyword(t: Seq<char>) -> Seq<char> {
    strip_semicolon(last_word(t))
}

/// Whether a word closes a block when it starts a line.
pub open spec fn is_dedent_word(w: Seq<char>) -> bool {
    w == "done"@ || w == "fi"@ || w == "}"@ || w == "esac"@ || w == "else"@ || w == "elif"@
}

/// Whether a word opens a block when it ends a line.
pub open spec fn is_indent_word(w: Seq<char>) -> bool {
    w == "do"@ || w == "then"@ || w == "{"@ || w == "else"@
}

/// Whether a word both closes the block before it and opens the one after.
pub open spec fn is_branch_word(w: Seq<char>) -> bool {
    w == "else"@ || w == "elif"@
}

/// Whether the trimmed line `t` is written one level shallower than the
/// line before it.
pub open spec fn dedents_before(t: Seq<char>) -> bool {
    is_dedent_word(first_keyword(t))
}

/// Whether the lines after the trimmed line `t` are written one level deeper
/// than `t` itself.
pub open spec fn indents_after(t: Seq<char>) -> bool {
    ||| is_branch_word(first_keyword(t))
    ||| is_indent_word(last_keyword(t))
    ||| (first_keyword(t) == "case"@ && !contains(t, "esac"@))
}

/// The depth at which the trimmed line `t` is written when the depth before
/// it is `level`. Closing an unopened block leaves the depth at zero.
pub open spec fn emit_level(level: int, t: Seq<char>) -> int {
    if dedents_before(t) && level > 0 {
        level - 1
    } else {
        level
    }
}

/// The depth after the trimmed line `t` when the depth before it is `level`.
/// An empty line leaves the depth as it is.
pub open spec fn next_level(level: int, t: Seq<char>) -> int {
    if t.len() == 0 {
        level
    } else if indents_after(t) {
        emit_level(level, t) + 1
    } else {
        emit_level(level, t)
    }
}

/// The leading whitespace of a line at depth `level`.
pub open spec fn indentation(level: int) -> Seq<char> {
    Seq::new((INDENT_SIZE * level) as nat, |i: int| ' ')
}

/// The text written for the trimmed line `t` when the depth before it is
/// `level`: a bare line feed for an empty line, else indentation, content
/// and line feed.
pub open spec fn render_line(level: int, t: Seq<char>) -> Seq<char> {
    if t.len() == 0 {
        seq!['\n']
    } else {
        indentation(emit_level(level, t)) + t + seq!['\n']
    }
}

/// The text written for `lines`, in order, starting at depth `level`.
pub open spec fn render_lines(lines: Seq<Seq<char>>, level: int) -> Seq<char>
    decreases lines.len(),
{
    if lines.len() == 0 {
        Seq::empty()
    } else {
        let t = trim(lines[0]);
        render_line(level, t) + render_lines(lines.drop_first(), next_level(level, t))
    }
}

/// The reformatted document: every line re-indented from depth zero, and the
/// last line feed taken off again if the document did not end in one.
pub open spec fn reformat(document: Seq<char>) -> Seq<char> {
    let out = render_lines(split_lines(document), 0);
    if !ends_with_newline(document) && ends_with_newline(out) {
        out.drop_last()
    } else {
        out
    }
}

/// What the reformatter needs to know of one line.
#[derive(Clone, Copy, Debug, PartialEq, Eq)]
pub struct LineShape {
    /// The line is written one level shallower than the line before it.
    pub dedent_before: bool,
    /// The lines after it are written one level deeper than the line itself.
    pub indent_after: bool,
}

/// End of the word in `lo..hi`, without one trailing semicolon.
fn keyword_end(chars: &Vec<char>, lo: usize, hi: usize) -> (k: usize)
    requires
        lo <= hi <= chars.len(),
    ensures
        lo <= k <= hi,
        chars@.subrange(lo as int, k as int) == strip_semicolon(
            chars@.subrange(lo as int, hi as int),
        ),
{
    if hi > lo && chars[hi - 1] == ';' {
        proof {
            assert(chars@.subrange(lo as int, hi as int).drop_last() =~= chars@.subrange(
                lo as int,
                hi - 1,
            ));
        }
        hi - 1
    } else {
        hi
    }
}

/// Classifies the trimmed line held in `lo..hi` of `chars`.
pub fn classify_line(chars: &Vec<char>, lo: usize, hi: usize) -> (shape: LineShape)
    requires
        lo <= hi <= chars.len(),
    ensures
        shape.dedent_before == dedents_before(chars@.subrange(lo as int, hi as int)),
        shape.indent_after == indents_after(chars@.subrange(lo as int, hi as int)),
{
    let ghost t = chars@.subrange(lo as int, hi as int);
    let first_end = leading_word_end(chars, lo, hi);
    let last_start = trailing_word_start(chars, lo, hi);
    proof {
        assert(first_word(t) =~= chars@.subrange(lo as int, first_end as int));
        assert(last_word(t) =~= chars@.subrange(last_start as int, hi as int));
    }
    let first_end = keyword_end(chars, lo, first_end);
    let last_end = keyword_end(chars, last_start, hi);
    let branch = range_spells(chars, lo, first_end, "else") || range_spells(
        chars,
        lo,
        first_end,
        "elif",
    );
    let dedent_before = branch || range_spells(chars, lo, first_end, "done") || range_spells(
        chars,
        lo,
        first_end,
        "fi",
    ) || range_spells(chars, lo, first_end, "}") || range_spells(chars, lo, first_end, "esac");
    let opens = range_spells(chars, last_start, last_end, "do") || range_spells(
        chars,
        last_start,
        last_end,
        "then",
    ) || range_spells(chars, last_start, last_end, "{") || range_spells(
        chars,
        last_start,
        last_end,
        "else",
    );
    let indent_after = branch || opens || (range_spells(chars, lo, first_end, "case")
        && !range_contains(chars, lo, hi, "esac"));
    LineShape { dedent_before, indent_after }
}

/// Appends the indentation of depth `level` to `out`.
fn push_indentation(out: &mut Vec<char>, level: usize)
    ensures
        final(out)@ == old(out)@ + indentation(level as int),
{
    let mut i: usize = 0;
    while i < level
        invariant
            i <= level,
            out@ == old(out)@ + indentation(i as int),
        decreases level - i,
    {
        let mut j: usize = 0;
        while j < INDENT_SIZE
            invariant
                i < level,
                j <= INDENT_SIZE,
                out@ == old(out)@ + Seq::new((INDENT_SIZE * i + j) as nat, |k: int| ' '),
            decreases INDENT_SIZE - j,
        {
            out.push(' ');
            j += 1;
            proof {
                assert(out@ =~= old(out)@ + Seq::new((INDENT_SIZE * i + j) as nat, |k: int| ' '));
            }
        }
        i += 1;
        proof {
            assert(out@ =~= old(out)@ + indentation(i as int));
        }
    }
}

/// Appends the characters `lo..hi` of `chars` to `out`.
fn push_range(out: &mut Vec<char>, chars: &Vec<char>, lo: usize, hi: usize)
    requires
        lo <= hi <= chars.len(),
    ensures
        final(out)@ == old(out)@ + chars@.subrange(lo as int, hi as int),
{
    let mut i: usize = lo;
    while i < hi
        invariant
            lo <= i <= hi <= chars.len(),
            out@ == old(out)@ + chars@.subrange(lo as int, i as int),
        decreases hi - i,
    {
        out.push(chars[i]);
        i += 1;
        proof {
            assert(out@ =~= old(out)@ + chars@.subrange(lo as int, i as int));
        }
    }
}

/// Reformats a document held as a buffer of characters.
pub fn format_chars(chars: &Vec<char>) -> (out: Vec<char>)
    ensures
        out@ == reformat(chars@),
{
    let n: usize = chars.len();
    let mut out: Vec<char> = Vec::new();
    let mut level: usize = 0;
    let mut pos: usize = 0;
    proof {
        assert(chars@.skip(0) =~= chars@);
    }
    while pos < n
        invariant
            n == chars.len(),
            pos <= n,
            level <= pos,
            render_lines(split_lines(chars@), 0) == out@ + render_lines(
                split_lines(chars@.skip(pos as int)),
                level as int,
            ),
        decreases n - pos,
    {
        let ghost rest = chars@.skip(pos as int);
        let ghost before = out@;
        let ghost level_before = level as int;
        let end = find_line_end(chars, pos);
        let lo = skip_leading_whitespace(chars, pos, end);
        let hi = skip_trailing_whitespace(chars, lo, end);
        let next: usize = if end < n {
            end + 1
        } else {
            n
        };
        let ghost line = chars@.subrange(pos as int, end as int);
        let ghost t = chars@.subrange(lo as int, hi as int);
        proof {
            assert(rest.take(end - pos) =~= line);
            assert(t == trim(line));
            if end < n {
                assert(rest.skip(end - pos + 1) =~= chars@.skip(end + 1));
                assert(split_lines(rest) == seq![line] + split_lines(chars@.skip(next as int)));
            } else {
                assert(rest =~= line);
                assert(chars@.skip(next as int) =~= Seq::<char>::empty());
                assert(split_lines(rest) =~= seq![line] + split_lines(chars@.skip(next as int)));
            }
            assert(split_lines(rest)[0] == line);
            assert(split_lines(rest).drop_first() =~= split_lines(chars@.skip(next as int)));
        }
        if lo == hi {
            out.push('\n');
            proof {
                assert(out@ =~= before + render_line(level_before, t));
            }
        } else {
            let shape = classify_line(chars, lo, hi);
            if shape.dedent_before && level > 0 {
                level -= 1;
            }
            push_indentation(&mut out, level);
            push_range(&mut out, chars, lo, hi);
            out.push('\n');
            proof {
                assert(out@ =~= before + render_line(level_before, t));
            }
            if shape.indent_after {
                level += 1;
            }
        }
        proof {
            assert(level as int == next_level(level_before, t));
            assert(render_lines(split_lines(rest), level_before) == render_line(level_before, t)
                + render_lines(split_lines(chars@.skip(next as int)), level as int));
            assert(out@ + render_lines(split_lines(chars@.skip(next as int)), level as int)
                =~= before + render_lines(split_lines(rest), level_before));
        }
        pos = next;
    }
    proof {
        assert(chars@.skip(pos as int) =~= Seq::<char>::empty());
        assert(out@ =~= render_lines(split_lines(chars@), 0));
    }
    let ends_in_newline = n > 0 && chars[n - 1] == '\n';
    if !ends_in_newline && out.len() > 0 && out[out.len() - 1] == '\n' {
        out.pop();
    }
    out
}

/// Re-indents a shell script. Every line is stripped of the whitespace
/// around it and written at four spaces per nesting level; a line that
/// starts with a closing word steps out before it is written, and a line that
/// ends in an opening word steps in after it. Empty lines stay empty. A
/// final line feed stays, and none is added after a last line that holds
/// text. Reformatting the result again changes nothing.
pub fn format_bash(content: &str) -> (formatted: String)
    ensures
        formatted@ == reformat(content@),
        reformat(formatted@) == formatted@,
        rows(formatted@).len() == rows(content@).len(),
        forall|i: int|
            0 <= i < rows(content@).len() ==> trim_start(#[trigger] rows(formatted@)[i]) == trim(
                rows(content@)[i],
            ),
        ends_with_newline(content@) ==> ends_with_newline(formatted@),
{
    proof {
        lemma_reformat_idempotent(content@);
        lemma_reformat_keeps_content(content@);
        if ends_with_newline(content@) {
            lemma_reformat_keeps_final_newline(content@);
        }
    }
    let chars = to_chars(content);
    let out = format_chars(&chars);
    from_chars(&out)
}

} // verus!
