//! What holds of every reformatted document: reformatting twice is
//! reformatting once, rows and their content are kept, the depth never
//! falls below zero, and a final line feed stays.

use crate::formatter::{
    emit_level, indentation, next_level, reformat, render_line, render_lines,
};
use crate::text::{ends_with_newline, is_whitespace, rows, split_lines, trim, trim_start};
use crate::text_lemmas::{
    all_whitespace, is_trimmed, join_rows, lemma_join_rows_push, lemma_rows_are_clean,
    lemma_rows_last, lemma_rows_of_join_rows, lemma_split_lines_by_rows, lemma_trim,
    lemma_trim_of_trimmed, lemma_trim_start_of_padded, no_newline,
};
use vstd::prelude::*;

verus! {

/// The depth before line `i` of `lines`, when the depth before the first
/// line is `level`.
pub open spec fn level_before(lines: Seq<Seq<char>>, level: int, i: nat) -> int
    decreases i,
{
    if i == 0 {
        level
    } else {
        next_level(level_before(lines, level, (i - 1) as nat), trim(lines[i - 1]))
    }
}

/// The row written for the trimmed line `t` when the depth before it is
/// `level`: what `render_line` writes, without the line feed.
pub open spec fn render_row(level: int, t: Seq<char>) -> Seq<char> {
    if t.len() == 0 {
        Seq::empty()
    } else {
        indentation(emit_level(level, t)) + t
    }
}

/// The rows written for `lines`, starting at depth `level`.
pub open spec fn rendered_rows(lines: Seq<Seq<char>>, level: int) -> Seq<Seq<char>> {
    Seq::new(
        lines.len(),
        |i: int| render_row(level_before(lines, level, i as nat), trim(lines[i])),
    )
}

/// Whether the last row of a document is not empty but holds whitespace
/// only. Such a row is written as an empty row, which a reader of lines does
/// not count.
pub open spec fn ends_in_blank_row(document: Seq<char>) -> bool {
    rows(document).last().len() > 0 && trim(rows(document).last()).len() == 0
}

/// The depth never falls below zero: not before any line and not where a
/// line is written, however many closing words come without an opening one.
pub proof fn lemma_depth_never_negative(lines: Seq<Seq<char>>, i: nat)
    ensures
        level_before(lines, 0, i) >= 0,
        forall|t: Seq<char>| emit_level(level_before(lines, 0, i), t) >= 0,
{
    lemma_level_stays_non_negative(lines, 0, i);
}

/// From a depth of at least zero, every later depth is at least zero.
pub proof fn lemma_level_stays_non_negative(lines: Seq<Seq<char>>, level: int, i: nat)
    requires
        level >= 0,
    ensures
        level_before(lines, level, i) >= 0,
    decreases i,
{
    if i > 0 {
        lemma_level_stays_non_negative(lines, level, (i - 1) as nat);
    }
}

/// The depth before a line depends on the lines before it alone: after the
/// first line it is the depth that the remaining lines reach from the depth
/// after the first.
proof fn lemma_level_shift(lines: Seq<Seq<char>>, level: int, i: nat)
    requires
        i < lines.len(),
    ensures
        level_before(lines, level, i + 1) == level_before(
            lines.drop_first(),
            next_level(level, trim(lines[0])),
            i,
        ),
    decreases i,
{
    let later = lines.drop_first();
    let next = next_level(level, trim(lines[0]));
    if i == 0 {
        assert(level_before(lines, level, 0) == level);
        assert(level_before(lines, level, 1) == next_level(
            level_before(lines, level, 0),
            trim(lines[0]),
        ));
    } else {
        lemma_level_shift(lines, level, (i - 1) as nat);
        assert(later[i - 1] == lines[i as int]);
        assert(level_before(lines, level, i + 1) == next_level(
            level_before(lines, level, i),
            trim(lines[i as int]),
        ));
        assert(level_before(later, next, i) == next_level(
            level_before(later, next, (i - 1) as nat),
            trim(later[i - 1]),
        ));
    }
}

/// The depth before a line is the same in every sequence of lines that
/// starts with the same lines.
proof fn lemma_level_of_prefix(lines: Seq<Seq<char>>, k: int, level: int, i: nat)
    requires
        i <= k <= lines.len(),
    ensures
        level_before(lines.take(k), level, i) == level_before(lines, level, i),
    decreases i,
{
    if i > 0 {
        lemma_level_of_prefix(lines, k, level, (i - 1) as nat);
    }
}

/// The rows written for all but the last line are all but the last of the
/// rows written.
proof fn lemma_rendered_rows_drop_last(lines: Seq<Seq<char>>, level: int)
    requires
        lines.len() >= 1,
    ensures
        rendered_rows(lines.drop_last(), level) == rendered_rows(lines, level).drop_last(),
{
    let front = lines.drop_last();
    assert(front =~= lines.take(lines.len() - 1));
    assert forall|i: int| 0 <= i < front.len() implies rendered_rows(front, level)[i]
        == rendered_rows(lines, level)[i] by {
        lemma_level_of_prefix(lines, lines.len() - 1, level, i as nat);
    }
    assert(rendered_rows(front, level) =~= rendered_rows(lines, level).drop_last());
}

/// The rows written after the first are the rows written for the remaining
/// lines from the depth after the first.
proof fn lemma_rendered_rows_drop_first(lines: Seq<Seq<char>>, level: int)
    requires
        lines.len() >= 1,
    ensures
        rendered_rows(lines, level)[0] == render_row(level, trim(lines[0])),
        rendered_rows(lines, level).drop_first() == rendered_rows(
            lines.drop_first(),
            next_level(level, trim(lines[0])),
        ),
{
    let later = lines.drop_first();
    let next = next_level(level, trim(lines[0]));
    assert forall|i: int| 0 <= i < later.len() implies rendered_rows(lines, level)[i + 1]
        == rendered_rows(later, next)[i] by {
        lemma_level_shift(lines, level, i as nat);
    }
    assert(rendered_rows(lines, level).drop_first() =~= rendered_rows(later, next));
}

/// The text written for lines is their rows, each followed by a line feed.
proof fn lemma_render_lines_by_rows(lines: Seq<Seq<char>>, level: int)
    ensures
        lines.len() == 0 ==> render_lines(lines, level) == Seq::<char>::empty(),
        lines.len() >= 1 ==> render_lines(lines, level) == join_rows(rendered_rows(lines, level))
            + seq!['\n'],
    decreases lines.len(),
{
    if lines.len() >= 1 {
        let t = trim(lines[0]);
        let later = lines.drop_first();
        let next = next_level(level, t);
        let all = rendered_rows(lines, level);
        lemma_rendered_rows_drop_first(lines, level);
        lemma_render_lines_by_rows(later, next);
        assert(render_line(level, t) =~= render_row(level, t) + seq!['\n']);
        if later.len() == 0 {
            assert(render_lines(lines, level) =~= all[0] + seq!['\n']);
        } else {
            assert(render_lines(lines, level) =~= join_rows(all) + seq!['\n']);
        }
    }
}

/// Indentation is whitespace without line feed.
proof fn lemma_indentation(level: int)
    ensures
        all_whitespace(indentation(level)),
        no_newline(indentation(level)),
{
    assert(is_whitespace(' '));
}

/// A written row is empty exactly if its line is; it holds no line feed if
/// the line holds none; and without the whitespace in front, or around, it
/// is the trimmed line again.
proof fn lemma_render_row(level: int, t: Seq<char>)
    requires
        is_trimmed(t),
    ensures
        render_row(level, t).len() == 0 <==> t.len() == 0,
        no_newline(t) ==> no_newline(render_row(level, t)),
        trim_start(render_row(level, t)) == t,
        trim(render_row(level, t)) == t,
{
    let pad = indentation(emit_level(level, t));
    lemma_indentation(emit_level(level, t));
    lemma_trim_of_trimmed(t);
    if t.len() > 0 {
        lemma_trim_start_of_padded(pad, t);
    }
}

/// Every written row holds what its line holds between the whitespace
/// around it, and no line feed if its line holds none.
proof fn lemma_rendered_rows(lines: Seq<Seq<char>>, level: int)
    ensures
        rendered_rows(lines, level).len() == lines.len(),
        forall|i: int|
            0 <= i < lines.len() ==> trim(#[trigger] rendered_rows(lines, level)[i]) == trim(
                lines[i],
            ),
        forall|i: int|
            0 <= i < lines.len() ==> trim_start(#[trigger] rendered_rows(lines, level)[i]) == trim(
                lines[i],
            ),
        forall|i: int|
            0 <= i < lines.len() ==> (#[trigger] rendered_rows(lines, level)[i].len() == 0
                <==> trim(lines[i]).len() == 0),
        forall|i: int|
            0 <= i < lines.len() && no_newline(lines[i]) ==> no_newline(
                #[trigger] rendered_rows(lines, level)[i],
            ),
{
    assert forall|i: int| 0 <= i < lines.len() implies {
        &&& trim(#[trigger] rendered_rows(lines, level)[i]) == trim(lines[i])
        &&& trim_start(rendered_rows(lines, level)[i]) == trim(lines[i])
        &&& (rendered_rows(lines, level)[i].len() == 0 <==> trim(lines[i]).len() == 0)
        &&& (no_newline(lines[i]) ==> no_newline(rendered_rows(lines, level)[i]))
    } by {
        lemma_trim(lines[i]);
        lemma_render_row(level_before(lines, level, i as nat), trim(lines[i]));
    }
}

/// The written rows reach the same depths as the lines they were written
/// for.
proof fn lemma_level_of_rendered(lines: Seq<Seq<char>>, level: int, i: nat)
    requires
        i <= lines.len(),
    ensures
        level_before(rendered_rows(lines, level), level, i) == level_before(lines, level, i),
    decreases i,
{
    if i > 0 {
        lemma_level_of_rendered(lines, level, (i - 1) as nat);
        lemma_rendered_rows(lines, level);
    }
}

/// Writing the written rows again changes nothing.
proof fn lemma_rendered_rows_idempotent(lines: Seq<Seq<char>>, level: int)
    ensures
        rendered_rows(rendered_rows(lines, level), level) == rendered_rows(lines, level),
{
    let once = rendered_rows(lines, level);
    let twice = rendered_rows(once, level);
    lemma_rendered_rows(lines, level);
    assert forall|i: int| 0 <= i < lines.len() implies twice[i] == once[i] by {
        lemma_level_of_rendered(lines, level, i as nat);
    }
    assert(twice =~= once);
}

/// The reformatted document is the rows of the document, each written at
/// its depth, joined by line feeds.
pub proof fn lemma_reformat_by_rows(document: Seq<char>)
    ensures
        reformat(document) == join_rows(rendered_rows(rows(document), 0)),
{
    let rs = rows(document);
    let lines = split_lines(document);
    let written = rendered_rows(rs, 0);
    lemma_rows_last(document);
    lemma_split_lines_by_rows(document);
    lemma_render_lines_by_rows(lines, 0);
    if rs.last().len() == 0 {
        lemma_rendered_rows_drop_last(rs, 0);
        assert(trim(rs.last()) =~= Seq::<char>::empty());
        assert(written.last() =~= Seq::<char>::empty());
        if lines.len() >= 1 {
            lemma_join_rows_push(written.drop_last(), written.last());
            assert(written =~= written.drop_last().push(written.last()));
            assert(rs.len() >= 2);
            assert(document.len() > 0);
            assert(reformat(document) =~= join_rows(written));
        }
    } else {
        let out = render_lines(lines, 0);
        assert(out.last() == '\n');
        assert(out.drop_last() =~= join_rows(written));
    }
}

/// Reformatting a reformatted document changes nothing.
pub proof fn lemma_reformat_idempotent(document: Seq<char>)
    ensures
        reformat(reformat(document)) == reformat(document),
{
    let written = rendered_rows(rows(document), 0);
    lemma_reformat_by_rows(document);
    lemma_reformat_by_rows(reformat(document));
    lemma_rows_of_reformat(document);
    lemma_rendered_rows_idempotent(rows(document), 0);
}

/// The rows of the reformatted document are the rows of the document, each
/// written at its depth.
pub proof fn lemma_rows_of_reformat(document: Seq<char>)
    ensures
        rows(reformat(document)) == rendered_rows(rows(document), 0),
{
    let rs = rows(document);
    lemma_reformat_by_rows(document);
    lemma_rows_are_clean(document);
    lemma_rendered_rows(rs, 0);
    lemma_rows_of_join_rows(rendered_rows(rs, 0));
}

/// The reformatted document has as many rows as the document.
pub proof fn lemma_reformat_keeps_row_count(document: Seq<char>)
    ensures
        rows(reformat(document)).len() == rows(document).len(),
{
    lemma_rows_of_reformat(document);
}

/// Reformatting changes nothing but the whitespace around each row: a row of
/// the reformatted document without its leading whitespace is the row of the
/// document without the whitespace around it.
pub proof fn lemma_reformat_keeps_content(document: Seq<char>)
    ensures
        rows(reformat(document)).len() == rows(document).len(),
        forall|i: int|
            0 <= i < rows(document).len() ==> trim_start(#[trigger] rows(reformat(document))[i])
                == trim(rows(document)[i]),
{
    lemma_rows_of_reformat(document);
    lemma_rendered_rows(rows(document), 0);
}

/// The reformatted document ends in a line feed exactly if the document has
/// a line feed and nothing but whitespace after its last one.
pub proof fn lemma_reformat_ends_with_newline(document: Seq<char>)
    ensures
        ends_with_newline(reformat(document)) <==> rows(document).len() >= 2 && trim(
            rows(document).last(),
        ).len() == 0,
{
    let rs = rows(document);
    lemma_rows_are_clean(document);
    lemma_rows_of_reformat(document);
    lemma_rendered_rows(rs, 0);
    lemma_rows_last(reformat(document));
    assert(rendered_rows(rs, 0).last() == rendered_rows(rs, 0)[rs.len() - 1]);
    if reformat(document).len() == 0 {
        assert(rows(reformat(document)).len() == 1);
    }
}

/// A document that ends in a line feed still does after reformatting, and
/// one that does not end in one still does not, unless whitespace is all
/// that follows its last line feed.
pub proof fn lemma_reformat_keeps_trailing_newline(document: Seq<char>)
    requires
        !(rows(document).len() >= 2 && ends_in_blank_row(document)),
    ensures
        ends_with_newline(reformat(document)) == ends_with_newline(document),
{
    lemma_reformat_ends_with_newline(document);
    lemma_rows_last(document);
    if rows(document).last().len() == 0 {
        assert(trim(rows(document).last()) =~= Seq::<char>::empty());
        if !ends_with_newline(document) {
            assert(rows(document).len() == 1);
        }
    }
}

/// A document that ends in a line feed still does after reformatting.
pub proof fn lemma_reformat_keeps_final_newline(document: Seq<char>)
    requires
        ends_with_newline(document),
    ensures
        ends_with_newline(reformat(document)),
{
    lemma_rows_last(document);
    lemma_reformat_keeps_trailing_newline(document);
}

/// The lines of the reformatted document, as a reader of lines counts them,
/// are as many as those of the document, and each without its leading
/// whitespace is the line of the document without the whitespace around it;
/// unless the document ends in a row of whitespace, which is written as an
/// empty row and no longer counted.
pub proof fn lemma_reformat_keeps_lines(document: Seq<char>)
    requires
        !ends_in_blank_row(document),
    ensures
        split_lines(reformat(document)).len() == split_lines(document).len(),
        forall|i: int|
            0 <= i < split_lines(document).len() ==> trim_start(
                #[trigger] split_lines(reformat(document))[i],
            ) == trim(split_lines(document)[i]),
{
    let rs = rows(document);
    lemma_rows_last(document);
    lemma_rows_of_reformat(document);
    lemma_rendered_rows(rs, 0);
    lemma_split_lines_by_rows(document);
    lemma_split_lines_by_rows(reformat(document));
    assert(rendered_rows(rs, 0).last() == rendered_rows(rs, 0)[rs.len() - 1]);
    if rs.last().len() == 0 {
        assert(trim(rs.last()) =~= Seq::<char>::empty());
    }
}

} // verus!
