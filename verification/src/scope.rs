//! Scope stacks and the priority rules that pick a style class for the text
//! under a stack of lexical scopes.
//!
//! A scope is a dotted name such as `keyword.control.shell`. A tokenizer
//! reports changes to the stack of open scopes; the innermost scope that a
//! rule knows decides how the text is shown.

use crate::text::{range_starts_with, to_chars};
use vstd::prelude::*;

verus! {

/// How many of the open scopes a `Clear` sets aside.
#[derive(Clone, Copy, Debug, PartialEq, Eq)]
pub enum ClearAmount {
    /// The innermost `n` scopes, or all of them if there are fewer.
    TopN(usize),
    /// Every open scope.
    All,
}

/// A change to a scope stack.
#[derive(Clone, Debug, PartialEq, Eq)]
pub enum ScopeOp {
    /// Opens a scope.
    Push(String),
    /// Closes the innermost scopes, as many as given and as are open.
    Pop(usize),
    /// Sets scopes aside until the next `Restore`.
    Clear(ClearAmount),
    /// Reopens the scopes that the latest `Clear` set aside.
    Restore,
    /// Changes nothing.
    Noop,
}

/// A change to a scope stack with its scope name as a sequence of
/// characters.
pub enum ScopeOpView {
    Push(Seq<char>),
    Pop(usize),
    Clear(ClearAmount),
    Restore,
    Noop,
}

impl View for ScopeOp {
    type V = ScopeOpView;

    open spec fn view(&self) -> ScopeOpView {
        match *self {
            ScopeOp::Push(name) => ScopeOpView::Push(name@),
            ScopeOp::Pop(count) => ScopeOpView::Pop(count),
            ScopeOp::Clear(amount) => ScopeOpView::Clear(amount),
            ScopeOp::Restore => ScopeOpView::Restore,
            ScopeOp::Noop => ScopeOpView::Noop,
        }
    }
}

/// Why a change could not be applied to a scope stack.
#[derive(Clone, Copy, Debug, PartialEq, Eq)]
pub enum ScopeError {
    /// A `Restore` came when no scopes were set aside.
    NoClearedScopesToRestore,
}

/// The names of a sequence of scopes.
pub open spec fn scope_names(scopes: Seq<String>) -> Seq<Seq<char>> {
    Seq::new(scopes.len(), |i: int| scopes[i]@)
}

/// The names of the groups of scopes that were set aside.
pub open spec fn cleared_names(groups: Seq<Vec<String>>) -> Seq<Seq<Seq<char>>> {
    Seq::new(groups.len(), |i: int| scope_names(groups[i]@))
}

/// The mathematical value of a scope stack.
pub struct ScopeStackView {
    /// The open scopes, outermost first.
    pub scopes: Seq<Seq<char>>,
    /// The groups of scopes set aside by `Clear`, oldest first.
    pub cleared: Seq<Seq<Seq<char>>>,
}

/// The stack with nothing open and nothing set aside.
pub open spec fn empty_stack() -> ScopeStackView {
    ScopeStackView { scopes: Seq::empty(), cleared: Seq::empty() }
}

/// Number of scopes that stay open when the innermost `count` are taken from
/// `open` scopes.
pub open spec fn left_open(open: nat, count: usize) -> int {
    if count >= open {
        0
    } else {
        open - count
    }
}

/// The stack after a change, whether or not the change could be applied in
/// full. A `Restore` with nothing set aside leaves the stack as it is.
pub open spec fn apply_op(stack: ScopeStackView, op: ScopeOpView) -> ScopeStackView {
    match op {
        ScopeOpView::Push(name) => ScopeStackView { scopes: stack.scopes.push(name), ..stack },
        ScopeOpView::Pop(count) => ScopeStackView {
            scopes: stack.scopes.take(left_open(stack.scopes.len(), count)),
            ..stack
        },
        ScopeOpView::Clear(ClearAmount::TopN(count)) => {
            let keep = left_open(stack.scopes.len(), count);
            ScopeStackView {
                scopes: stack.scopes.take(keep),
                cleared: stack.cleared.push(stack.scopes.skip(keep)),
            }
        },
        ScopeOpView::Clear(ClearAmount::All) => ScopeStackView {
            scopes: Seq::empty(),
            cleared: stack.cleared.push(stack.scopes),
        },
        ScopeOpView::Restore => if stack.cleared.len() > 0 {
            ScopeStackView {
                scopes: stack.scopes + stack.cleared.last(),
                cleared: stack.cleared.drop_last(),
            }
        } else {
            stack
        },
        ScopeOpView::Noop => stack,
    }
}

/// Whether a change can be applied to a stack: all but a `Restore` with
/// nothing set aside.
pub open spec fn op_applies(stack: ScopeStackView, op: ScopeOpView) -> bool {
    op is Restore ==> stack.cleared.len() > 0
}

/// The scopes open at one point of a line, outermost first.
#[derive(Clone, Debug, PartialEq, Eq)]
pub struct ScopeStack {
    clear_stack: Vec<Vec<String>>,
    scopes: Vec<String>,
}

impl View for ScopeStack {
    type V = ScopeStackView;

    closed spec fn view(&self) -> ScopeStackView {
        ScopeStackView {
            scopes: scope_names(self.scopes@),
            cleared: cleared_names(self.clear_stack@),
        }
    }
}

impl ScopeStack {
    /// A stack with nothing open.
    pub fn new() -> (stack: ScopeStack)
        ensures
            stack@ == empty_stack(),
    {
        let stack = ScopeStack { clear_stack: Vec::new(), scopes: Vec::new() };
        proof {
            assert(stack@.scopes =~= Seq::empty());
            assert(stack@.cleared =~= Seq::empty());
        }
        stack
    }

    /// Number of open scopes.
    pub fn len(&self) -> (n: usize)
        ensures
            n == self@.scopes.len(),
    {
        self.scopes.len()
    }

    /// Whether no scope is open.
    pub fn is_empty(&self) -> (b: bool)
        ensures
            b == (self@.scopes.len() == 0),
    {
        self.scopes.len() == 0
    }

    /// The open scopes, outermost first.
    pub fn as_slice(&self) -> (scopes: &[String])
        ensures
            scope_names(scopes@) == self@.scopes,
    {
        self.scopes.as_slice()
    }

    /// Opens a scope.
    pub fn push(&mut self, name: String)
        ensures
            final(self)@ == apply_op(old(self)@, ScopeOpView::Push(name@)),
    {
        self.scopes.push(name);
        proof {
            assert(scope_names(self.scopes@) =~= scope_names(old(self).scopes@).push(name@));
        }
    }

    /// Closes the innermost scope, if one is open.
    pub fn pop(&mut self)
        ensures
            final(self)@ == apply_op(old(self)@, ScopeOpView::Pop(1)),
    {
        let _ = self.scopes.pop();
        proof {
            assert(scope_names(self.scopes@) =~= scope_names(old(self).scopes@).take(
                left_open(old(self).scopes@.len(), 1),
            ));
        }
    }

    /// Applies a change to the stack. All of a change is applied or none of
    /// it; the one change that can fail is a `Restore` with nothing set
    /// aside.
    pub fn apply(&mut self, op: &ScopeOp) -> (r: Result<(), ScopeError>)
        ensures
            final(self)@ == apply_op(old(self)@, op@),
            r is Ok <==> op_applies(old(self)@, op@),
            r is Err ==> r == Err::<(), ScopeError>(ScopeError::NoClearedScopesToRestore),
    {
        match op {
            ScopeOp::Push(name) => {
                self.push(name.clone());
                Ok(())
            },
            ScopeOp::Pop(count) => {
                let keep: usize = if *count >= self.scopes.len() {
                    0
                } else {
                    self.scopes.len() - *count
                };
                self.scopes.truncate(keep);
                proof {
                    assert(scope_names(self.scopes@) =~= scope_names(old(self).scopes@).take(
                        keep as int,
                    ));
                }
                Ok(())
            },
            ScopeOp::Clear(amount) => {
                let keep: usize = match amount {
                    ClearAmount::TopN(count) => if *count >= self.scopes.len() {
                        0
                    } else {
                        self.scopes.len() - *count
                    },
                    ClearAmount::All => 0,
                };
                let cleared = self.scopes.split_off(keep);
                self.clear_stack.push(cleared);
                proof {
                    let before = old(self)@;
                    assert(scope_names(self.scopes@) =~= before.scopes.take(keep as int));
                    assert(scope_names(cleared@) =~= before.scopes.skip(keep as int));
                    assert(before.scopes.take(0) =~= Seq::empty());
                    assert(before.scopes.skip(0) =~= before.scopes);
                    assert(cleared_names(self.clear_stack@) =~= before.cleared.push(
                        scope_names(cleared@),
                    ));
                }
                Ok(())
            },
            ScopeOp::Restore => {
                match self.clear_stack.pop() {
                    Some(mut group) => {
                        proof {
                            assert(cleared_names(self.clear_stack@) =~= old(
                                self,
                            )@.cleared.drop_last());
                            assert(scope_names(group@) == old(self)@.cleared.last());
                        }
                        self.scopes.append(&mut group);
                        proof {
                            assert(scope_names(self.scopes@) =~= old(self)@.scopes + old(
                                self,
                            )@.cleared.last());
                        }
                        Ok(())
                    },
                    None => Err(ScopeError::NoClearedScopesToRestore),
                }
            },
            ScopeOp::Noop => Ok(()),
        }
    }
}

/// Whether `scope` is `prefix` or lies below it in the hierarchy of dotted
/// names: `string.quoted` lies below `string`, `stringy` does not. Names are
/// taken as the tokenizer writes them, atoms joined by single dots.
pub open spec fn has_prefix(scope: Seq<char>, prefix: Seq<char>) -> bool {
    &&& prefix.len() <= scope.len()
    &&& scope.take(prefix.len() as int) == prefix
    &&& (scope.len() == prefix.len() || scope[prefix.len() as int] == '.')
}

/// The style classes that text can be shown in.
#[derive(Clone, Copy, Debug, PartialEq, Eq, Structural)]
pub enum StyleClass {
    /// Keywords and storage modifiers: primary colour, bold.
    Keyword,
    /// Built-in commands and function names: secondary colour, semibold.
    Support,
    /// String literals: tertiary colour.
    Literal,
    /// Comments: muted and italic.
    Comment,
    /// Variables and the punctuation that marks them.
    Variable,
    /// Constants: tertiary colour, reduced emphasis.
    Constant,
    /// Everything else: the colour of plain text.
    Plain,
}

/// The style class that the priority rules give one scope, if any rule
/// knows it. The rules are tried in a fixed order and the first match wins.
pub open spec fn scope_style(scope: Seq<char>) -> Option<StyleClass> {
    if has_prefix(scope, "keyword"@) || has_prefix(scope, "storage"@) {
        Some(StyleClass::Keyword)
    } else if has_prefix(scope, "support"@) || has_prefix(scope, "entity.name.function"@) {
        Some(StyleClass::Support)
    } else if has_prefix(scope, "string"@) {
        Some(StyleClass::Literal)
    } else if has_prefix(scope, "comment"@) {
        Some(StyleClass::Comment)
    } else if has_prefix(scope, "variable"@) || has_prefix(
        scope,
        "punctuation.definition.variable"@,
    ) {
        Some(StyleClass::Variable)
    } else if has_prefix(scope, "constant"@) {
        Some(StyleClass::Constant)
    } else {
        None
    }
}

/// The style class of text under the open `scopes` (outermost first): that
/// of the innermost scope that a rule knows, or `Plain` if there is none.
pub open spec fn stack_style(scopes: Seq<Seq<char>>) -> StyleClass
    decreases scopes.len(),
{
    if scopes.len() == 0 {
        StyleClass::Plain
    } else {
        match scope_style(scopes.last()) {
            Some(style) => style,
            None => stack_style(scopes.drop_last()),
        }
    }
}

/// The name of a style class as the display layer knows it.
pub open spec fn class_name(style: StyleClass) -> Seq<char> {
    match style {
        StyleClass::Keyword => "text-(--primary) font-bold"@,
        StyleClass::Support => "text-(--secondary) font-semibold"@,
        StyleClass::Literal => "text-(--tertiary)"@,
        StyleClass::Comment => "text-(--on-surface-variant) opacity-50 italic"@,
        StyleClass::Variable => "text-blue-400 dark:text-blue-300"@,
        StyleClass::Constant => "text-(--tertiary) opacity-80"@,
        StyleClass::Plain => "text-(--on-surface)"@,
    }
}

impl StyleClass {
    /// The name of the style class as the display layer knows it.
    pub fn name(self) -> (name: &'static str)
        ensures
            name@ == class_name(self),
    {
        match self {
            StyleClass::Keyword => "text-(--primary) font-bold",
            StyleClass::Support => "text-(--secondary) font-semibold",
            StyleClass::Literal => "text-(--tertiary)",
            StyleClass::Comment => "text-(--on-surface-variant) opacity-50 italic",
            StyleClass::Variable => "text-blue-400 dark:text-blue-300",
            StyleClass::Constant => "text-(--tertiary) opacity-80",
            StyleClass::Plain => "text-(--on-surface)",
        }
    }
}

/// Whether the scope held in `chars` is `prefix` or lies below it.
fn chars_have_prefix(chars: &Vec<char>, prefix: &str) -> (r: bool)
    ensures
        r == has_prefix(chars@, prefix@),
{
    let n = chars.len();
    if !range_starts_with(chars, 0, n, prefix) {
        proof {
            if prefix@.len() <= n {
                assert(chars@.take(prefix@.len() as int) =~= chars@.subrange(
                    0,
                    0int + prefix@.len(),
                ));
            }
        }
        return false;
    }
    proof {
        assert(chars@.take(prefix@.len() as int) =~= chars@.subrange(0, 0int + prefix@.len()));
    }
    let k = prefix.unicode_len();
    k == n || chars[k] == '.'
}

/// Whether `scope` is `prefix` or lies below it in the hierarchy of dotted
/// names.
pub fn is_prefix_of(prefix: &str, scope: &str) -> (r: bool)
    ensures
        r == has_prefix(scope@, prefix@),
{
    let chars = to_chars(scope);
    chars_have_prefix(&chars, prefix)
}

/// The style class that the priority rules give one scope, if any.
pub fn style_of_scope(scope: &str) -> (style: Option<StyleClass>)
    ensures
        style == scope_style(scope@),
{
    let chars = to_chars(scope);
    if chars_have_prefix(&chars, "keyword") || chars_have_prefix(&chars, "storage") {
        Some(StyleClass::Keyword)
    } else if chars_have_prefix(&chars, "support") || chars_have_prefix(
        &chars,
        "entity.name.function",
    ) {
        Some(StyleClass::Support)
    } else if chars_have_prefix(&chars, "string") {
        Some(StyleClass::Literal)
    } else if chars_have_prefix(&chars, "comment") {
        Some(StyleClass::Comment)
    } else if chars_have_prefix(&chars, "variable") || chars_have_prefix(
        &chars,
        "punctuation.definition.variable",
    ) {
        Some(StyleClass::Variable)
    } else if chars_have_prefix(&chars, "constant") {
        Some(StyleClass::Constant)
    } else {
        None
    }
}

/// The style class of text under a scope stack: that of the innermost scope
/// that a rule knows, or `Plain`.
pub fn style_for_stack(stack: &ScopeStack) -> (style: StyleClass)
    ensures
        style == stack_style(stack@.scopes),
{
    let ghost names = scope_names(stack.scopes@);
    let mut i: usize = stack.scopes.len();
    proof {
        assert(names.take(i as int) =~= names);
    }
    while i > 0
        invariant
            i <= stack.scopes.len(),
            names == scope_names(stack.scopes@),
            stack_style(names) == stack_style(names.take(i as int)),
        decreases i,
    {
        proof {
            assert(names.take(i as int).drop_last() =~= names.take(i - 1));
        }
        match style_of_scope(stack.scopes[i - 1].as_str()) {
            Some(style) => {
                return style;
            },
            None => {},
        }
        i -= 1;
    }
    StyleClass::Plain
}

/// The name of the style class of text under a scope stack.
pub fn get_class_for_stack(stack: &ScopeStack) -> (class: &'static str)
    ensures
        class@ == class_name(stack_style(stack@.scopes)),
{
    style_for_stack(stack).name()
}

} // verus!
