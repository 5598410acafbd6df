//! Character-level text model: whitespace, trimming, words and line
//! splitting over sequences of Unicode scalar values, with executable
//! counterparts that work on index ranges of a character buffer.

use vstd::prelude::*;

verus! {

/// Whether `c` carries the Unicode `White_Space` property.
pub open spec fn is_whitespace(c: char) -> bool {
    let u = c as u32;
    ||| 0x09 <= u <= 0x0D
    ||| u == 0x20
    ||| u == 0x85
    ||| u == 0xA0
    ||| u == 0x1680
    ||| 0x2000 <= u <= 0x200A
    ||| u == 0x2028
    ||| u == 0x2029
    ||| u == 0x202F
    ||| u == 0x205F
    ||| u == 0x3000
}

/// Number of characters before the first line feed of `s`; all of them if
/// `s` holds no line feed.
pub open spec fn line_end(s: Seq<char>) -> nat
    decreases s.len(),
{
    if s.len() == 0 || s[0] == '\n' {
        0
    } else {
        1 + line_end(s.drop_first())
    }
}

/// The pieces of `s` between line feeds. There is always at least one row;
/// a text that ends in a line feed has an empty last row.
pub open spec fn rows(s: Seq<char>) -> Seq<Seq<char>>
    decreases s.len(),
{
    let k = line_end(s);
    if k >= s.len() {
        seq![s]
    } else {
        seq![s.take(k as int)] + rows(s.skip(k as int + 1))
    }
}

/// The lines of `s` as a line-by-line reader yields them: every line feed
/// ends a line, and a final piece without line feed is a line only if it is
/// not empty.
pub open spec fn split_lines(s: Seq<char>) -> Seq<Seq<char>>
    decreases s.len(),
{
    if s.len() == 0 {
        Seq::empty()
    } else {
        let k = line_end(s);
        if k >= s.len() {
            seq![s]
        } else {
            seq![s.take(k as int)] + split_lines(s.skip(k as int + 1))
        }
    }
}

/// `s` without its leading whitespace.
pub open spec fn trim_start(s: Seq<char>) -> Seq<char>
    decreases s.len(),
{
    if s.len() > 0 && is_whitespace(s[0]) {
        trim_start(s.drop_first())
    } else {
        s
    }
}

/// `s` without its trailing whitespace.
pub open spec fn trim_end(s: Seq<char>) -> Seq<char>
    decreases s.len(),
{
    if s.len() > 0 && is_whitespace(s.last()) {
        trim_end(s.drop_last())
    } else {
        s
    }
}

/// `s` without leading and trailing whitespace.
pub open spec fn trim(s: Seq<char>) -> Seq<char> {
    trim_end(trim_start(s))
}

/// Length of the longest prefix of `s` that holds no whitespace.
pub open spec fn leading_word_len(s: Seq<char>) -> nat
    decreases s.len(),
{
    if s.len() == 0 || is_whitespace(s[0]) {
        0
    } else {
        1 + leading_word_len(s.drop_first())
    }
}

/// Length of the longest suffix of `s` that holds no whitespace.
pub open spec fn trailing_word_len(s: Seq<char>) -> nat
    decreases s.len(),
{
    if s.len() == 0 || is_whitespace(s.last()) {
        0
    } else {
        1 + trailing_word_len(s.drop_last())
    }
}

/// The first whitespace-separated word of a trimmed text (empty for an
/// empty text).
pub open spec fn first_word(s: Seq<char>) -> Seq<char> {
    s.take(leading_word_len(s) as int)
}

/// The last whitespace-separated word of a trimmed text (empty for an empty
/// text).
pub open spec fn last_word(s: Seq<char>) -> Seq<char> {
    s.skip(s.len() - trailing_word_len(s))
}

/// Whether `needle` occurs in `s` starting at index `at`.
pub open spec fn occurs_at(s: Seq<char>, needle: Seq<char>, at: int) -> bool {
    0 <= at && at + needle.len() <= s.len() && s.subrange(at, at + needle.len()) == needle
}

/// Whether `needle` occurs somewhere in `s`.
pub open spec fn contains(s: Seq<char>, needle: Seq<char>) -> bool {
    exists|at: int| occurs_at(s, needle, at)
}

/// Whether `s` ends in a line feed.
pub open spec fn ends_with_newline(s: Seq<char>) -> bool {
    s.len() > 0 && s.last() == '\n'
}

/// `String::push` appends the character to the end of the string.
pub assume_specification[ String::push ](s: &mut String, c: char)
    ensures
        final(s)@ == old(s)@.push(c),
;

/// Executable test for the `White_Space` property.
pub fn char_is_whitespace(c: char) -> (r: bool)
    ensures
        r == is_whitespace(c),
{
    let u: u32 = c as u32;
    (0x09 <= u && u <= 0x0D) || u == 0x20 || u == 0x85 || u == 0xA0 || u == 0x1680 || (0x2000 <= u
        && u <= 0x200A) || u == 0x2028 || u == 0x2029 || u == 0x202F || u == 0x205F || u == 0x3000
}

/// Copies the characters of a string slice into a vector.
pub fn to_chars(s: &str) -> (v: Vec<char>)
    ensures
        v@ == s@,
{
    let mut v: Vec<char> = Vec::new();
    for c in it: s.chars()
        invariant
            it.seq() == s@,
            v@ == s@.take(it.index()),
    {
        v.push(c);
    }
    v
}

/// Builds a string from a buffer of characters.
pub fn from_chars(chars: &Vec<char>) -> (s: String)
    ensures
        s@ == chars@,
{
    let mut s = String::new();
    let mut i: usize = 0;
    while i < chars.len()
        invariant
            i <= chars.len(),
            s@ == chars@.take(i as int),
        decreases chars.len() - i,
    {
        s.push(chars[i]);
        i += 1;
        proof {
            assert(s@ =~= chars@.take(i as int));
        }
    }
    proof {
        assert(chars@.take(chars.len() as int) =~= chars@);
    }
    s
}

/// Index of the first line feed at or after `from`, or the length of the
/// buffer if there is none.
pub fn find_line_end(chars: &Vec<char>, from: usize) -> (end: usize)
    requires
        from <= chars.len(),
    ensures
        from <= end <= chars.len(),
        end - from == line_end(chars@.skip(from as int)),
{
    let mut i: usize = from;
    while i < chars.len() && chars[i] != '\n'
        invariant
            from <= i <= chars.len(),
            line_end(chars@.skip(from as int)) == (i - from) + line_end(chars@.skip(i as int)),
        decreases chars.len() - i,
    {
        proof {
            assert(chars@.skip(i as int).drop_first() =~= chars@.skip(i + 1));
        }
        i += 1;
    }
    i
}

/// Index of the first character in `lo..hi` that is no whitespace, or `hi`.
pub fn skip_leading_whitespace(chars: &Vec<char>, lo: usize, hi: usize) -> (k: usize)
    requires
        lo <= hi <= chars.len(),
    ensures
        lo <= k <= hi,
        chars@.subrange(k as int, hi as int) == trim_start(chars@.subrange(lo as int, hi as int)),
{
    let mut i: usize = lo;
    while i < hi && char_is_whitespace(chars[i])
        invariant
            lo <= i <= hi <= chars.len(),
            trim_start(chars@.subrange(lo as int, hi as int)) == trim_start(
                chars@.subrange(i as int, hi as int),
            ),
        decreases hi - i,
    {
        proof {
            assert(chars@.subrange(i as int, hi as int).drop_first() =~= chars@.subrange(
                i + 1,
                hi as int,
            ));
        }
        i += 1;
    }
    i
}

/// One past the index of the last character in `lo..hi` that is no
/// whitespace, or `lo`.
pub fn skip_trailing_whitespace(chars: &Vec<char>, lo: usize, hi: usize) -> (k: usize)
    requires
        lo <= hi <= chars.len(),
    ensures
        lo <= k <= hi,
        chars@.subrange(lo as int, k as int) == trim_end(chars@.subrange(lo as int, hi as int)),
{
    let mut j: usize = hi;
    while j > lo && char_is_whitespace(chars[j - 1])
        invariant
            lo <= j <= hi <= chars.len(),
            trim_end(chars@.subrange(lo as int, hi as int)) == trim_end(
                chars@.subrange(lo as int, j as int),
            ),
        decreases j - lo,
    {
        proof {
            assert(chars@.subrange(lo as int, j as int).drop_last() =~= chars@.subrange(
                lo as int,
                j - 1,
            ));
        }
        j -= 1;
    }
    j
}

/// End of the word that starts at `lo`: the index of the first whitespace in
/// `lo..hi`, or `hi`.
pub fn leading_word_end(chars: &Vec<char>, lo: usize, hi: usize) -> (k: usize)
    requires
        lo <= hi <= chars.len(),
    ensures
        lo <= k <= hi,
        k - lo == leading_word_len(chars@.subrange(lo as int, hi as int)),
{
    let mut i: usize = lo;
    while i < hi && !char_is_whitespace(chars[i])
        invariant
            lo <= i <= hi <= chars.len(),
            leading_word_len(chars@.subrange(lo as int, hi as int)) == (i - lo) + leading_word_len(
                chars@.subrange(i as int, hi as int),
            ),
        decreases hi - i,
    {
        proof {
            assert(chars@.subrange(i as int, hi as int).drop_first() =~= chars@.subrange(
                i + 1,
                hi as int,
            ));
        }
        i += 1;
    }
    i
}

/// Start of the word that ends at `hi`: one past the index of the last
/// whitespace in `lo..hi`, or `lo`.
pub fn trailing_word_start(chars: &Vec<char>, lo: usize, hi: usize) -> (k: usize)
    requires
        lo <= hi <= chars.len(),
    ensures
        lo <= k <= hi,
        hi - k == trailing_word_len(chars@.subrange(lo as int, hi as int)),
{
    let mut j: usize = hi;
    while j > lo && !char_is_whitespace(chars[j - 1])
        invariant
            lo <= j <= hi <= chars.len(),
            trailing_word_len(chars@.subrange(lo as int, hi as int)) == (hi - j)
                + trailing_word_len(chars@.subrange(lo as int, j as int)),
        decreases j - lo,
    {
        proof {
            assert(chars@.subrange(lo as int, j as int).drop_last() =~= chars@.subrange(
                lo as int,
                j - 1,
            ));
        }
        j -= 1;
    }
    j
}

/// Whether the characters in `lo..hi` spell `word`.
pub fn range_spells(chars: &Vec<char>, lo: usize, hi: usize, word: &str) -> (r: bool)
    requires
        lo <= hi <= chars.len(),
    ensures
        r == (chars@.subrange(lo as int, hi as int) == word@),
{
    let ghost s = chars@.subrange(lo as int, hi as int);
    let mut i: usize = lo;
    for c in it: word.chars()
        invariant
            it.seq() == word@,
            lo <= hi <= chars.len(),
            s == chars@.subrange(lo as int, hi as int),
            i == lo + it.index(),
            i <= hi,
            forall|j: int| 0 <= j < it.index() ==> s[j] == word@[j],
    {
        if i >= hi || chars[i] != c {
            proof {
                if i < hi {
                    assert(s[i - lo] == chars@[i as int]);
                }
            }
            return false;
        }
        i += 1;
    }
    proof {
        if i == hi {
            assert(s =~= word@);
        }
    }
    i == hi
}

/// Whether two string slices hold the same characters.
pub fn str_equals(a: &str, b: &str) -> (r: bool)
    ensures
        r == (a@ == b@),
{
    let chars = to_chars(a);
    proof {
        assert(chars@.subrange(0, chars@.len() as int) =~= chars@);
    }
    range_spells(&chars, 0, chars.len(), b)
}

/// Whether `needle` occurs somewhere in the characters `lo..hi`.
pub fn range_contains(chars: &Vec<char>, lo: usize, hi: usize, needle: &str) -> (r: bool)
    requires
        lo <= hi <= chars.len(),
    ensures
        r == contains(chars@.subrange(lo as int, hi as int), needle@),
{
    let ghost s = chars@.subrange(lo as int, hi as int);
    let mut i: usize = lo;
    loop
        invariant
            lo <= i <= hi <= chars.len(),
            s == chars@.subrange(lo as int, hi as int),
            forall|at: int| 0 <= at < i - lo ==> !occurs_at(s, needle@, at),
        decreases hi - i,
    {
        if range_starts_with(chars, i, hi, needle) {
            proof {
                assert(s.subrange(i - lo, i - lo + needle@.len()) =~= chars@.subrange(
                    i as int,
                    i + needle@.len(),
                ));
                assert(occurs_at(s, needle@, i - lo));
            }
            return true;
        }
        proof {
            if i + needle@.len() <= hi {
                assert(s.subrange(i - lo, i - lo + needle@.len()) =~= chars@.subrange(
                    i as int,
                    i + needle@.len(),
                ));
            }
        }
        if i == hi {
            return false;
        }
        i += 1;
    }
}

/// Whether the characters in `lo..hi` begin with `word`.
pub fn range_starts_with(chars: &Vec<char>, lo: usize, hi: usize, word: &str) -> (r: bool)
    requires
        lo <= hi <= chars.len(),
    ensures
        r == (lo + word@.len() <= hi && chars@.subrange(lo as int, lo + word@.len()) == word@),
{
    let mut i: usize = lo;
    for c in it: word.chars()
        invariant
            it.seq() == word@,
            lo <= hi <= chars.len(),
            i == lo + it.index(),
            i <= hi,
            forall|j: int| 0 <= j < it.index() ==> chars@[lo + j] == word@[j],
    {
        if i >= hi || chars[i] != c {
            proof {
                if lo + word@.len() <= hi {
                    assert(chars@.subrange(lo as int, lo + word@.len())[i - lo] == chars@[i as int]);
                }
            }
            return false;
        }
        i += 1;
    }
    proof {
        assert(chars@.subrange(lo as int, lo + word@.len()) =~= word@);
    }
    true
}

} // verus!
