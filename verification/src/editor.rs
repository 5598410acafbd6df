//! How the editor lays a document out in rows: one row for each line, and
//! one more for the empty line after a final line feed, where the cursor can
//! stand.

use crate::shell::strings_view;
use crate::text::{find_line_end, from_chars, line_end, rows, to_chars};
use vstd::prelude::*;

verus! {

/// `row` without one carriage return at its end, if it has one.
pub open spec fn strip_carriage_return(row: Seq<char>) -> Seq<char> {
    if row.len() > 0 && row.last() == '\r' {
        row.drop_last()
    } else {
        row
    }
}

/// The rows that the editor shows for a document: the text between line
/// feeds, where a carriage return before a line feed belongs to the line
/// ending and not to the row.
pub open spec fn display_rows(s: Seq<char>) -> Seq<Seq<char>>
    decreases s.len(),
{
    let k = line_end(s);
    if k >= s.len() {
        seq![s]
    } else {
        seq![strip_carriage_return(s.take(k as int))] + display_rows(s.skip(k as int + 1))
    }
}

/// The editor shows as many rows as the document has.
pub proof fn lemma_display_rows_len(s: Seq<char>)
    ensures
        display_rows(s).len() == rows(s).len(),
    decreases s.len(),
{
    let k = line_end(s);
    if k < s.len() {
        lemma_display_rows_len(s.skip(k as int + 1));
    }
}

/// Copies the characters `lo..hi` of `chars` into a string.
fn string_of_range(chars: &Vec<char>, lo: usize, hi: usize) -> (s: String)
    requires
        lo <= hi <= chars.len(),
    ensures
        s@ == chars@.subrange(lo as int, hi as int),
{
    let mut piece: Vec<char> = Vec::new();
    let mut i: usize = lo;
    while i < hi
        invariant
            lo <= i <= hi <= chars.len(),
            piece@ == chars@.subrange(lo as int, i as int),
        decreases hi - i,
    {
        piece.push(chars[i]);
        i += 1;
        proof {
            assert(piece@ =~= chars@.subrange(lo as int, i as int));
        }
    }
    from_chars(&piece)
}

/// The rows that the editor shows for a document, top to bottom. There is
/// always at least one row; a document that ends in a line feed has an empty
/// last row.
pub fn display_lines(content: &str) -> (lines: Vec<String>)
    ensures
        strings_view(lines@) == display_rows(content@),
        lines@.len() == rows(content@).len(),
        lines@.len() >= 1,
{
    let chars = to_chars(content);
    let n: usize = chars.len();
    let mut lines: Vec<String> = Vec::new();
    let mut pos: usize = 0;
    proof {
        assert(chars@.skip(0) =~= chars@);
        lemma_display_rows_len(content@);
    }
    loop
        invariant_except_break
            display_rows(chars@) == strings_view(lines@) + display_rows(chars@.skip(pos as int)),
        invariant
            n == chars.len(),
            pos <= n,
        ensures
            strings_view(lines@) == display_rows(chars@),
            lines@.len() >= 1,
        decreases n - pos,
    {
        let ghost rest = chars@.skip(pos as int);
        let ghost before = strings_view(lines@);
        let end = find_line_end(&chars, pos);
        if end >= n {
            let row = string_of_range(&chars, pos, n);
            proof {
                assert(chars@.subrange(pos as int, n as int) =~= rest);
            }
            lines.push(row);
            proof {
                assert(strings_view(lines@) =~= before + seq![rest]);
            }
            break;
        }
        let stop: usize = if end > pos && chars[end - 1] == '\r' {
            end - 1
        } else {
            end
        };
        let row = string_of_range(&chars, pos, stop);
        proof {
            let line = rest.take(end - pos);
            assert(line =~= chars@.subrange(pos as int, end as int));
            if end > pos {
                assert(line.last() == chars@[end - 1]);
                assert(line.drop_last() =~= chars@.subrange(pos as int, end - 1));
            }
            assert(row@ == strip_carriage_return(line));
            assert(rest.skip(end - pos + 1) =~= chars@.skip(end + 1));
        }
        lines.push(row);
        proof {
            assert(strings_view(lines@) =~= before + seq![row@]);
            assert(strings_view(lines@) + display_rows(chars@.skip(end + 1)) =~= before
                + display_rows(rest));
        }
        pos = end + 1;
    }
    lines
}

} // verus!
