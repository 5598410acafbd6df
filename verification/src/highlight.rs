//! Highlight classifier: cuts one line of shell source into styled regions
//! along the scope changes that a grammar-driven tokenizer reports.
//!
//! Each line is tokenized on its own, from a fresh parser state: a construct
//! that spans several lines (a here-document, a string that runs on) is not
//! followed from one line to the next.

use crate::scope::{
    apply_op, class_name, empty_stack, stack_style, style_for_stack, ClearAmount, ScopeOp,
    ScopeOpView, ScopeStack, ScopeStackView, StyleClass,
};
use syntect::parsing::ClearAmount as Cleared;
use syntect::parsing::{ParseState, ScopeStackOp, SyntaxSet};
use vstd::prelude::*;
use vstd::string::StringSliceAdditionalSpecFns;
use vstd::utf8::{
    decode_utf8, decode_utf8_split, encode_utf8, encode_utf8_decode_utf8, encode_utf8_valid_utf8,
    is_char_boundary, is_char_boundary_iff_not_is_continuation_byte,
    is_char_boundary_start_end_of_seq, valid_utf8, valid_utf8_split,
};

verus! {

/// One contiguous run of a line with the style class it is shown in.
#[derive(Clone, Debug, PartialEq, Eq)]
pub struct HighlightedRegion {
    pub text: String,
    pub class: String,
}

/// The mathematical value of a region.
pub struct RegionView {
    pub text: Seq<char>,
    pub class: Seq<char>,
}

impl View for HighlightedRegion {
    type V = RegionView;

    open spec fn view(&self) -> RegionView {
        RegionView { text: self.text@, class: self.class@ }
    }
}

/// The values of a sequence of regions.
pub open spec fn regions_view(regions: Seq<HighlightedRegion>) -> Seq<RegionView> {
    Seq::new(regions.len(), |i: int| regions[i]@)
}

/// A change to the scope stack at a byte offset of a line.
#[derive(Clone, Debug, PartialEq, Eq)]
pub struct ScopeEvent {
    pub offset: usize,
    pub op: ScopeOp,
}

/// The mathematical value of a scope event.
pub struct ScopeEventView {
    pub offset: usize,
    pub op: ScopeOpView,
}

impl View for ScopeEvent {
    type V = ScopeEventView;

    open spec fn view(&self) -> ScopeEventView {
        ScopeEventView { offset: self.offset, op: self.op@ }
    }
}

/// The values of a sequence of scope events.
pub open spec fn events_view(events: Seq<ScopeEvent>) -> Seq<ScopeEventView> {
    Seq::new(events.len(), |i: int| events[i]@)
}

/// The value of a tokenizer's answer: the events of the line, or nothing if
/// the tokenizer failed.
pub open spec fn tokens_view(tokens: Option<Vec<ScopeEvent>>) -> Option<Seq<ScopeEventView>> {
    match tokens {
        Some(events) => Some(events_view(events@)),
        None => None,
    }
}

/// The text of `line` between two byte offsets of its UTF-8 encoding.
pub open spec fn slice_text(line: Seq<char>, from: int, to: int) -> Seq<char> {
    decode_utf8(encode_utf8(line).subrange(from, to))
}

/// Whether the events can cut `line`: every offset falls between two
/// characters of the line (or at one of its ends), and no offset is smaller
/// than the one before it.
pub open spec fn well_placed(line: Seq<char>, events: Seq<ScopeEventView>) -> bool {
    &&& forall|i: int|
        0 <= i < events.len() ==> is_char_boundary(
            encode_utf8(line),
            (#[trigger] events[i]).offset as int,
        )
    &&& forall|i: int, j: int|
        0 <= i <= j < events.len() ==> (#[trigger] events[i]).offset <= (#[trigger] events[j]).offset
}

/// The region for the text between two byte offsets under a scope stack.
pub open spec fn region_between(
    line: Seq<char>,
    from: int,
    to: int,
    stack: ScopeStackView,
) -> RegionView {
    RegionView { text: slice_text(line, from, to), class: class_name(stack_style(stack.scopes)) }
}

/// The regions of `line` from byte offset `last` on, when `events` are
/// still to come and `stack` holds the scopes open at `last`. Text before an
/// event is styled by the stack as it stood before the event; the text after
/// the last event is styled by the final stack. Empty runs give no region.
pub open spec fn regions_from(
    line: Seq<char>,
    events: Seq<ScopeEventView>,
    stack: ScopeStackView,
    last: int,
) -> Seq<RegionView>
    decreases events.len(),
{
    if events.len() == 0 {
        if last < encode_utf8(line).len() {
            seq![region_between(line, last, encode_utf8(line).len() as int, stack)]
        } else {
            Seq::empty()
        }
    } else {
        let event = events[0];
        let rest = regions_from(
            line,
            events.drop_first(),
            apply_op(stack, event.op),
            event.offset as int,
        );
        if event.offset > last {
            seq![region_between(line, last, event.offset as int, stack)] + rest
        } else {
            rest
        }
    }
}

/// The whole line as one region in the plain style.
pub open spec fn plain_line(line: Seq<char>) -> Seq<RegionView> {
    seq![RegionView { text: line, class: class_name(StyleClass::Plain) }]
}

/// The regions of `line` for a tokenizer's answer. Events that can cut the
/// line give the regions between them; a failed tokenizer, or events that
/// cannot cut the line, give the whole line in the plain style.
pub open spec fn highlight(line: Seq<char>, tokens: Option<Seq<ScopeEventView>>) -> Seq<
    RegionView,
> {
    match tokens {
        Some(events) => if well_placed(line, events) {
            regions_from(line, events, empty_stack(), 0)
        } else {
            plain_line(line)
        },
        None => plain_line(line),
    }
}

/// The texts of the regions, one after the other.
pub open spec fn concat_texts(regions: Seq<RegionView>) -> Seq<char>
    decreases regions.len(),
{
    if regions.len() == 0 {
        Seq::empty()
    } else {
        regions[0].text + concat_texts(regions.drop_first())
    }
}

/// The text of a single region is the text of that region.
proof fn lemma_concat_single(region: RegionView)
    ensures
        concat_texts(seq![region]) == region.text,
{
    let only = seq![region];
    assert(only.drop_first() =~= Seq::<RegionView>::empty());
    assert(concat_texts(only.drop_first()) =~= Seq::<char>::empty());
    assert(concat_texts(only) =~= region.text);
}

/// In valid UTF-8, a character boundary stays one in the text that starts
/// at an earlier boundary.
proof fn lemma_boundary_after(bytes: Seq<u8>, from: int, to: int)
    requires
        valid_utf8(bytes),
        is_char_boundary(bytes, from),
        is_char_boundary(bytes, to),
        from <= to,
    ensures
        0 <= from <= to <= bytes.len(),
        valid_utf8(bytes.subrange(from, bytes.len() as int)),
        is_char_boundary(bytes.subrange(from, bytes.len() as int), to - from),
{
    let tail = bytes.subrange(from, bytes.len() as int);
    valid_utf8_split(bytes, from);
    if to == from {
    } else if to == bytes.len() {
        is_char_boundary_start_end_of_seq(tail);
    } else {
        is_char_boundary_iff_not_is_continuation_byte(bytes, to);
        is_char_boundary_iff_not_is_continuation_byte(tail, to - from);
    }
}

/// Text up to a boundary followed by the text after it is the whole text.
proof fn lemma_slice_text_split(line: Seq<char>, from: int, mid: int, to: int)
    requires
        is_char_boundary(encode_utf8(line), from),
        is_char_boundary(encode_utf8(line), mid),
        from <= mid <= to,
        to == encode_utf8(line).len(),
    ensures
        slice_text(line, from, to) == slice_text(line, from, mid) + slice_text(line, mid, to),
{
    let bytes = encode_utf8(line);
    encode_utf8_valid_utf8(line);
    lemma_boundary_after(bytes, from, mid);
    let tail = bytes.subrange(from, to);
    decode_utf8_split(tail, mid - from);
    assert(tail.subrange(0, mid - from) =~= bytes.subrange(from, mid));
    assert(tail.subrange(mid - from, tail.len() as int) =~= bytes.subrange(mid, to));
}

/// The regions from a boundary on spell the text from that boundary to the
/// end of the line.
proof fn lemma_regions_cover(
    line: Seq<char>,
    events: Seq<ScopeEventView>,
    stack: ScopeStackView,
    last: int,
)
    requires
        well_placed(line, events),
        is_char_boundary(encode_utf8(line), last),
        events.len() > 0 ==> last <= events[0].offset,
    ensures
        concat_texts(regions_from(line, events, stack, last)) == slice_text(
            line,
            last,
            encode_utf8(line).len() as int,
        ),
    decreases events.len(),
{
    let bytes = encode_utf8(line);
    let end = bytes.len() as int;
    encode_utf8_valid_utf8(line);
    lemma_boundary_after(bytes, last, last);
    if events.len() == 0 {
        if last < end {
            lemma_concat_single(region_between(line, last, end, stack));
        } else {
            assert(bytes.subrange(last, end) =~= Seq::<u8>::empty());
        }
    } else {
        let event = events[0];
        let later = events.drop_first();
        let offset = event.offset as int;
        assert(well_placed(line, later)) by {
            assert forall|i: int| 0 <= i < later.len() implies is_char_boundary(
                bytes,
                (#[trigger] later[i]).offset as int,
            ) by {
                assert(later[i] == events[i + 1]);
            }
            assert forall|i: int, j: int| 0 <= i <= j < later.len() implies (#[trigger] later[i]).offset
                <= (#[trigger] later[j]).offset by {
                assert(later[i] == events[i + 1]);
                assert(later[j] == events[j + 1]);
            }
        }
        if later.len() > 0 {
            assert(later[0] == events[1]);
        }
        lemma_regions_cover(line, later, apply_op(stack, event.op), offset);
        let rest = regions_from(line, later, apply_op(stack, event.op), offset);
        lemma_slice_text_split(line, last, offset, end);
        if offset > last {
            let all = seq![region_between(line, last, offset, stack)] + rest;
            assert(all.drop_first() =~= rest);
        } else {
            assert(bytes.subrange(last, offset) =~= Seq::<u8>::empty());
            assert(slice_text(line, last, end) =~= slice_text(line, last, offset) + slice_text(
                line,
                offset,
                end,
            ));
        }
    }
}

/// The texts of the regions of a line, one after the other, spell the line:
/// no character is dropped, repeated or moved, whatever the tokenizer
/// answered.
pub proof fn lemma_regions_reconstruct_line(line: Seq<char>, tokens: Option<Seq<ScopeEventView>>)
    ensures
        concat_texts(highlight(line, tokens)) == line,
{
    lemma_concat_single(RegionView { text: line, class: class_name(StyleClass::Plain) });
    if let Some(events) = tokens {
        if well_placed(line, events) {
            let bytes = encode_utf8(line);
            encode_utf8_valid_utf8(line);
            is_char_boundary_start_end_of_seq(bytes);
            lemma_regions_cover(line, events, empty_stack(), 0);
            assert(bytes.subrange(0, bytes.len() as int) =~= bytes);
            encode_utf8_decode_utf8(line);
        }
    }
}

/// Whether the events can cut the line: every offset on a character
/// boundary, none smaller than the one before it.
pub fn events_well_placed(line: &str, events: &Vec<ScopeEvent>) -> (ok: bool)
    ensures
        ok == well_placed(line@, events_view(events@)),
{
    let ghost views = events_view(events@);
    let ghost bytes = encode_utf8(line@);
    let mut last: usize = 0;
    let mut i: usize = 0;
    while i < events.len()
        invariant
            i <= events.len(),
            views == events_view(events@),
            bytes == encode_utf8(line@),
            i == 0 ==> last == 0,
            i > 0 ==> last == views[i - 1].offset,
            forall|k: int| 0 <= k < i ==> is_char_boundary(bytes, (#[trigger] views[k]).offset as int),
            forall|a: int, b: int|
                0 <= a <= b < i ==> (#[trigger] views[a]).offset <= (#[trigger] views[b]).offset,
        decreases events.len() - i,
    {
        let offset = events[i].offset;
        assert(views[i as int].offset == offset);
        if offset < last {
            assert(views[i - 1].offset > views[i as int].offset);
            return false;
        }
        if !line.is_char_boundary(offset) {
            return false;
        }
        last = offset;
        i += 1;
    }
    true
}

/// The whole line as one region in the plain style.
fn whole_line(line: &str) -> (regions: Vec<HighlightedRegion>)
    ensures
        regions_view(regions@) == plain_line(line@),
{
    let mut regions: Vec<HighlightedRegion> = Vec::new();
    regions.push(
        HighlightedRegion { text: line.to_owned(), class: StyleClass::Plain.name().to_owned() },
    );
    proof {
        assert(regions_view(regions@) =~= plain_line(line@));
    }
    regions
}

/// Cuts the line along events that can cut it.
fn cut_line(line: &str, events: &Vec<ScopeEvent>) -> (regions: Vec<HighlightedRegion>)
    requires
        well_placed(line@, events_view(events@)),
    ensures
        regions_view(regions@) == regions_from(line@, events_view(events@), empty_stack(), 0),
{
    let ghost views = events_view(events@);
    let ghost bytes = encode_utf8(line@);
    let mut stack = ScopeStack::new();
    let mut regions: Vec<HighlightedRegion> = Vec::new();
    let mut rest: &str = line;
    let mut last: usize = 0;
    let mut i: usize = 0;
    proof {
        encode_utf8_valid_utf8(line@);
        is_char_boundary_start_end_of_seq(bytes);
        assert(bytes.subrange(0, bytes.len() as int) =~= bytes);
        assert(views.skip(0) =~= views);
        assert(regions_view(regions@) =~= Seq::<RegionView>::empty());
    }
    while i < events.len()
        invariant
            i <= events.len(),
            views == events_view(events@),
            bytes == encode_utf8(line@),
            valid_utf8(bytes),
            well_placed(line@, views),
            is_char_boundary(bytes, last as int),
            last <= bytes.len(),
            i < events.len() ==> last <= views[i as int].offset,
            rest.spec_bytes() == bytes.subrange(last as int, bytes.len() as int),
            regions_from(line@, views, empty_stack(), 0) == regions_view(regions@) + regions_from(
                line@,
                views.skip(i as int),
                stack@,
                last as int,
            ),
        decreases events.len() - i,
    {
        let ghost before = regions_view(regions@);
        let ghost stack_before = stack@;
        let ghost pending = views.skip(i as int);
        let offset = events[i].offset;
        proof {
            assert(pending[0] == views[i as int]);
            assert(pending.drop_first() =~= views.skip(i + 1));
            assert(views[i as int].offset == offset);
            lemma_boundary_after(bytes, last as int, offset as int);
        }
        if offset > last {
            let (head, tail) = rest.split_at(offset - last);
            let region = HighlightedRegion {
                text: head.to_owned(),
                class: style_for_stack(&stack).name().to_owned(),
            };
            proof {
                assert(head.spec_bytes() =~= bytes.subrange(last as int, offset as int));
                assert(tail.spec_bytes() =~= bytes.subrange(offset as int, bytes.len() as int));
                encode_utf8_decode_utf8(head@);
                assert(region@ == region_between(line@, last as int, offset as int, stack_before));
            }
            regions.push(region);
            rest = tail;
            proof {
                assert(regions_view(regions@) =~= before + seq![
                    region_between(line@, last as int, offset as int, stack_before),
                ]);
            }
        }
        let _ = stack.apply(&events[i].op);
        proof {
            assert(stack@ == apply_op(stack_before, views[i as int].op));
            if i + 1 < events.len() {
                assert(views[i as int].offset <= views[i + 1].offset);
            }
        }
        last = offset;
        i += 1;
    }
    let ghost tail_regions = regions_from(line@, views.skip(i as int), stack@, last as int);
    proof {
        assert(views.skip(i as int) =~= Seq::<ScopeEventView>::empty());
        assert(views.skip(i as int).len() == 0);
        assert(line.spec_bytes() == bytes);
    }
    let total = line.as_bytes().len();
    if last < total {
        let ghost before = regions_view(regions@);
        let region = HighlightedRegion {
            text: rest.to_owned(),
            class: style_for_stack(&stack).name().to_owned(),
        };
        proof {
            encode_utf8_decode_utf8(rest@);
            assert(region@ == region_between(line@, last as int, bytes.len() as int, stack@));
        }
        regions.push(region);
        proof {
            assert(tail_regions == seq![
                region_between(line@, last as int, bytes.len() as int, stack@),
            ]);
            assert(regions_view(regions@) =~= before + tail_regions);
        }
    } else {
        proof {
            assert(tail_regions == Seq::<RegionView>::empty());
            assert(regions_view(regions@) + tail_regions =~= regions_view(regions@));
        }
    }
    regions
}

/// The regions of a line for a tokenizer's answer: the text between the
/// scope changes, each run in the style of the scopes open over it. A failed
/// tokenizer, or events that cannot cut the line, give the whole line as one
/// plain region. The texts of the regions always spell the line.
pub fn highlight_events(line: &str, tokens: Option<Vec<ScopeEvent>>) -> (regions: Vec<
    HighlightedRegion,
>)
    ensures
        regions_view(regions@) == highlight(line@, tokens_view(tokens)),
        concat_texts(regions_view(regions@)) == line@,
{
    proof {
        lemma_regions_reconstruct_line(line@, tokens_view(tokens));
    }
    match tokens {
        Some(events) => {
            if events_well_placed(line, &events) {
                cut_line(line, &events)
            } else {
                whole_line(line)
            }
        },
        None => whole_line(line),
    }
}

/// The set of grammar definitions of the tokenizer.
#[verifier::external_type_specification]
#[verifier::external_body]
pub struct ExSyntaxSet(SyntaxSet);

/// `SyntaxSet::load_defaults_newlines` builds the set of grammar definitions
/// that the tokenizer crate is shipped with. Nothing is claimed of the set.
pub assume_specification[ SyntaxSet::load_defaults_newlines ]() -> (set: SyntaxSet)
;

/// What the tokenizer answers for a line of shell source, parsed on its own
/// from a fresh state with the shell grammar of the bundled definitions: the
/// scope changes of the line in the order in which they apply, or nothing if
/// the tokenizer fails on the line.
pub uninterp spec fn shell_scope_events(line: Seq<char>) -> Option<Seq<ScopeEventView>>;

/// The shell grammar, loaded and ready to tokenize lines. Every value holds
/// the same bundled definitions, so what the tokenizer answers depends on
/// the line alone.
pub struct ShellGrammar {
    syntaxes: SyntaxSet,
}

impl ShellGrammar {
    /// Loads the bundled grammar definitions. This takes far longer than
    /// highlighting a line: load once and keep the value.
    pub fn load() -> (grammar: ShellGrammar) {
        ShellGrammar { syntaxes: SyntaxSet::load_defaults_newlines() }
    }

    /// Runs the tokenizer on one line: `SyntaxSet::find_syntax_by_extension`
    /// picks the shell grammar, `ParseState::new` makes a fresh parser state
    /// and `ParseState::parse_line` yields the scope changes of the line, each
    /// with the byte offset at which it applies. Every change is handed on
    /// as it came, its scope by the name that `Scope::build_string` gives.
    /// The answer is nothing if the grammar is missing or the parser reports
    /// an error. The contract only gives the answer its name; the name takes
    /// the line alone, as every `ShellGrammar` holds the definitions that
    /// `load` brings.
    #[verifier::external_body]
    fn scope_events(&self, line: &str) -> (tokens: Option<Vec<ScopeEvent>>)
        ensures
            tokens_view(tokens) == shell_scope_events(line@),
    {
        let syntax = self.syntaxes.find_syntax_by_extension("sh")?;
        let ops = ParseState::new(syntax).parse_line(line, &self.syntaxes).ok()?;
        let convert = |(offset, op)| ScopeEvent { offset, op: match op {
            ScopeStackOp::Push(scope) => ScopeOp::Push(scope.build_string()),
            ScopeStackOp::Pop(count) => ScopeOp::Pop(count),
            ScopeStackOp::Clear(Cleared::TopN(count)) => ScopeOp::Clear(ClearAmount::TopN(count)),
            ScopeStackOp::Clear(Cleared::All) => ScopeOp::Clear(ClearAmount::All),
            ScopeStackOp::Restore => ScopeOp::Restore,
            ScopeStackOp::Noop => ScopeOp::Noop,
        } };
        Some(ops.into_iter().map(convert).collect())
    }

    /// The styled regions of one line of shell source. The texts of the
    /// regions always spell the line.
    pub fn highlight_line(&self, line: &str) -> (regions: Vec<HighlightedRegion>)
        ensures
            regions_view(regions@) == highlight(line@, shell_scope_events(line@)),
            concat_texts(regions_view(regions@)) == line@,
    {
        let tokens = self.scope_events(line);
        highlight_events(line, tokens)
    }
}

/// The styled regions of one line of shell source, with the grammar loaded
/// for this one call. The texts of the regions always spell the line.
pub fn highlight_bash(line: String) -> (regions: Vec<HighlightedRegion>)
    ensures
        regions_view(regions@) == highlight(line@, shell_scope_events(line@)),
        concat_texts(regions_view(regions@)) == line@,
{
    let grammar = ShellGrammar::load();
    grammar.highlight_line(line.as_str())
}

} // verus!
