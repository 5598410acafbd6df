//! Facts about rows, lines and trimming that the proofs about the
//! reformatter rest on.

use crate::text::{
    ends_with_newline, is_whitespace, line_end, rows, split_lines, trim, trim_end, trim_start,
};
use vstd::prelude::*;

verus! {

/// Whether `s` holds no line feed.
pub open spec fn no_newline(s: Seq<char>) -> bool {
    forall|i: int| 0 <= i < s.len() ==> s[i] != '\n'
}

/// Whether every character of `s` is whitespace.
pub open spec fn all_whitespace(s: Seq<char>) -> bool {
    forall|i: int| 0 <= i < s.len() ==> is_whitespace(s[i])
}

/// Whether `s` neither starts nor ends in whitespace.
pub open spec fn is_trimmed(s: Seq<char>) -> bool {
    s.len() == 0 || (!is_whitespace(s[0]) && !is_whitespace(s.last()))
}

/// The rows joined by line feeds: the text whose rows they are.
pub open spec fn join_rows(rs: Seq<Seq<char>>) -> Seq<char>
    decreases rs.len(),
{
    if rs.len() == 0 {
        Seq::empty()
    } else if rs.len() == 1 {
        rs[0]
    } else {
        rs[0] + seq!['\n'] + join_rows(rs.drop_first())
    }
}

/// The rows without an empty last row.
pub open spec fn without_empty_tail(rs: Seq<Seq<char>>) -> Seq<Seq<char>> {
    if rs.len() > 0 && rs.last().len() == 0 {
        rs.drop_last()
    } else {
        rs
    }
}

/// The first line feed of `s` is at index `line_end(s)`, if `s` has one.
pub proof fn lemma_line_end(s: Seq<char>)
    ensures
        line_end(s) <= s.len(),
        no_newline(s.take(line_end(s) as int)),
        line_end(s) < s.len() ==> s[line_end(s) as int] == '\n',
    decreases s.len(),
{
    if s.len() == 0 || s[0] == '\n' {
    } else {
        let tail = s.drop_first();
        lemma_line_end(tail);
        let k = line_end(tail) as int;
        let row = s.take(k + 1);
        assert forall|i: int| 0 <= i < row.len() implies row[i] != '\n' by {
            if i > 0 {
                assert(row[i] == tail.take(k)[i - 1]);
            }
        }
    }
}

/// A text without line feed is one row to its end.
pub proof fn lemma_line_end_without_newline(s: Seq<char>)
    requires
        no_newline(s),
    ensures
        line_end(s) == s.len(),
    decreases s.len(),
{
    if s.len() > 0 {
        let tail = s.drop_first();
        assert forall|i: int| 0 <= i < tail.len() implies tail[i] != '\n' by {
            assert(tail[i] == s[i + 1]);
        }
        lemma_line_end_without_newline(tail);
    }
}

/// The first row of `head`, a line feed and `rest` is `head`, if `head`
/// holds no line feed.
pub proof fn lemma_line_end_of_joined(head: Seq<char>, rest: Seq<char>)
    requires
        no_newline(head),
    ensures
        line_end(head + seq!['\n'] + rest) == head.len(),
    decreases head.len(),
{
    let s = head + seq!['\n'] + rest;
    if head.len() == 0 {
        assert(s[0] == '\n');
    } else {
        let tail = head.drop_first();
        assert(s[0] == head[0]);
        assert forall|i: int| 0 <= i < tail.len() implies tail[i] != '\n' by {
            assert(tail[i] == head[i + 1]);
        }
        assert(s.drop_first() =~= tail + seq!['\n'] + rest);
        lemma_line_end_of_joined(tail, rest);
    }
}

/// A text has at least one row, and no row holds a line feed.
pub proof fn lemma_rows_are_clean(s: Seq<char>)
    ensures
        rows(s).len() >= 1,
        forall|i: int| 0 <= i < rows(s).len() ==> no_newline(#[trigger] rows(s)[i]),
    decreases s.len(),
{
    lemma_line_end(s);
    let k = line_end(s) as int;
    if k >= s.len() {
        assert(s.take(k) =~= s);
    } else {
        let rest = s.skip(k + 1);
        lemma_rows_are_clean(rest);
        assert forall|i: int| 0 <= i < rows(s).len() implies no_newline(#[trigger] rows(s)[i]) by {
            if i > 0 {
                assert(rows(s)[i] == rows(rest)[i - 1]);
            }
        }
    }
}

/// The last row of a text is empty exactly if the text is empty or ends in a
/// line feed; in the second case the text has more than one row.
pub proof fn lemma_rows_last(s: Seq<char>)
    ensures
        rows(s).len() >= 1,
        rows(s).last().len() == 0 <==> (s.len() == 0 || ends_with_newline(s)),
        ends_with_newline(s) ==> rows(s).len() >= 2,
    decreases s.len(),
{
    lemma_line_end(s);
    let k = line_end(s) as int;
    if k >= s.len() {
        assert(s.take(k) =~= s);
    } else {
        let rest = s.skip(k + 1);
        lemma_rows_last(rest);
        assert(rows(s).last() == rows(rest).last());
        if rest.len() > 0 {
            assert(rest.last() == s.last());
        }
    }
}

/// The lines of a text are its rows without an empty last row.
pub proof fn lemma_split_lines_by_rows(s: Seq<char>)
    ensures
        split_lines(s) == without_empty_tail(rows(s)),
    decreases s.len(),
{
    lemma_line_end(s);
    let k = line_end(s) as int;
    if s.len() == 0 {
        assert(rows(s).drop_last() =~= Seq::<Seq<char>>::empty());
    } else if k >= s.len() {
    } else {
        let rest = s.skip(k + 1);
        lemma_split_lines_by_rows(rest);
        lemma_rows_last(rest);
        assert(rows(s).last() == rows(rest).last());
        if rows(rest).last().len() == 0 {
            assert(rows(s).drop_last() =~= seq![s.take(k)] + rows(rest).drop_last());
        }
    }
}

/// Rows without line feed are the rows of the text they are joined to.
pub proof fn lemma_rows_of_join_rows(rs: Seq<Seq<char>>)
    requires
        rs.len() >= 1,
        forall|i: int| 0 <= i < rs.len() ==> no_newline(#[trigger] rs[i]),
    ensures
        rows(join_rows(rs)) == rs,
    decreases rs.len(),
{
    if rs.len() == 1 {
        lemma_line_end_without_newline(rs[0]);
        assert(rows(rs[0]) =~= rs);
    } else {
        let later = rs.drop_first();
        assert forall|i: int| 0 <= i < later.len() implies no_newline(#[trigger] later[i]) by {
            assert(later[i] == rs[i + 1]);
        }
        lemma_rows_of_join_rows(later);
        let s = join_rows(rs);
        lemma_line_end_of_joined(rs[0], join_rows(later));
        let k = rs[0].len() as int;
        assert(s.take(k) =~= rs[0]);
        assert(s.skip(k + 1) =~= join_rows(later));
        assert(rows(s) =~= rs);
    }
}

/// Joining one more row adds a line feed and the row.
pub proof fn lemma_join_rows_push(rs: Seq<Seq<char>>, last: Seq<char>)
    requires
        rs.len() >= 1,
    ensures
        join_rows(rs.push(last)) == join_rows(rs) + seq!['\n'] + last,
    decreases rs.len(),
{
    let all = rs.push(last);
    if rs.len() == 1 {
        assert(all.drop_first() =~= seq![last]);
        assert(join_rows(all.drop_first()) == last);
        assert(all[0] == rs[0]);
    } else {
        let later = rs.drop_first();
        lemma_join_rows_push(later, last);
        assert(all.drop_first() =~= later.push(last));
        assert(all[0] == rs[0]);
        assert(join_rows(all) =~= join_rows(rs) + seq!['\n'] + last);
    }
}

/// What `trim_start` leaves is the end of the text and does not start in
/// whitespace; what it takes off is whitespace.
pub proof fn lemma_trim_start(s: Seq<char>)
    ensures
        trim_start(s).len() <= s.len(),
        trim_start(s) == s.skip(s.len() - trim_start(s).len()),
        all_whitespace(s.take(s.len() - trim_start(s).len())),
        trim_start(s).len() > 0 ==> !is_whitespace(trim_start(s)[0]),
    decreases s.len(),
{
    if s.len() > 0 && is_whitespace(s[0]) {
        let tail = s.drop_first();
        lemma_trim_start(tail);
        let cut = s.len() - trim_start(s).len();
        assert(tail.skip(cut - 1) =~= s.skip(cut));
        let taken = s.take(cut);
        assert forall|i: int| 0 <= i < taken.len() implies is_whitespace(taken[i]) by {
            if i > 0 {
                assert(taken[i] == tail.take(cut - 1)[i - 1]);
            }
        }
    } else {
        assert(s.skip(0) =~= s);
    }
}

/// What `trim_end` leaves is the start of the text and does not end in
/// whitespace; what it takes off is whitespace.
pub proof fn lemma_trim_end(s: Seq<char>)
    ensures
        trim_end(s).len() <= s.len(),
        trim_end(s) == s.take(trim_end(s).len() as int),
        all_whitespace(s.skip(trim_end(s).len() as int)),
        trim_end(s).len() > 0 ==> !is_whitespace(trim_end(s).last()),
    decreases s.len(),
{
    if s.len() > 0 && is_whitespace(s.last()) {
        let front = s.drop_last();
        lemma_trim_end(front);
        let keep = trim_end(s).len() as int;
        assert(front.take(keep) =~= s.take(keep));
        let taken = s.skip(keep);
        assert forall|i: int| 0 <= i < taken.len() implies is_whitespace(taken[i]) by {
            if i < taken.len() - 1 {
                assert(taken[i] == front.skip(keep)[i]);
            }
        }
    } else {
        assert(s.take(s.len() as int) =~= s);
    }
}

/// A trimmed text neither starts nor ends in whitespace, is no longer than
/// the text it was made from, and holds a line feed only if that text does.
pub proof fn lemma_trim(s: Seq<char>)
    ensures
        is_trimmed(trim(s)),
        trim(s).len() <= s.len(),
        no_newline(s) ==> no_newline(trim(s)),
{
    let inner = trim_start(s);
    lemma_trim_start(s);
    lemma_trim_end(inner);
    let t = trim(s);
    let from = s.len() - inner.len();
    if t.len() > 0 {
        assert(t[0] == inner[0]);
    }
    assert(t =~= s.subrange(from, from + t.len()));
    if no_newline(s) {
        assert forall|i: int| 0 <= i < t.len() implies t[i] != '\n' by {
            assert(t[i] == s[from + i]);
        }
    }
}

/// Trimming a text that neither starts nor ends in whitespace changes
/// nothing.
pub proof fn lemma_trim_of_trimmed(t: Seq<char>)
    requires
        is_trimmed(t),
    ensures
        trim(t) == t,
        trim_start(t) == t,
        trim_end(t) == t,
{
}

/// Whitespace in front of a text that does not start in whitespace is what
/// `trim_start` takes off.
pub proof fn lemma_trim_start_of_padded(pad: Seq<char>, t: Seq<char>)
    requires
        all_whitespace(pad),
        t.len() == 0 || !is_whitespace(t[0]),
    ensures
        trim_start(pad + t) == t,
    decreases pad.len(),
{
    let s = pad + t;
    if pad.len() == 0 {
        assert(s =~= t);
    } else {
        assert(s[0] == pad[0]);
        let later = pad.drop_first();
        assert forall|i: int| 0 <= i < later.len() implies is_whitespace(later[i]) by {
            assert(later[i] == pad[i + 1]);
        }
        assert(s.drop_first() =~= later + t);
        lemma_trim_start_of_padded(later, t);
    }
}

} // verus!
