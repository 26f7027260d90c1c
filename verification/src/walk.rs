//! From the parser's walk to a `SyntaxTree`: the steps of a walk over the
//! parser's tree are laid out with their depths.

use vstd::prelude::*;
use crate::tree::{Element, ElementKind, ElementView, SyntaxTree};

verus! {

/// The code of the parser's kind for comment tokens.
pub const TOKEN_COMMENT: u16 = 0;

/// The code of the parser's kind for tokens that the tokenizer could not read.
pub const TOKEN_ERROR: u16 = 1;

/// The code of the parser's kind for tokens of white space.
pub const TOKEN_WHITESPACE: u16 = 2;

/// The code of the parser's kind for the key of an entry.
pub const NODE_KEY: u16 = 56;

/// The code of the parser's kind for identifiers.
pub const NODE_IDENT: u16 = 59;

/// The code of the parser's kind for functions.
pub const NODE_LAMBDA: u16 = 66;

/// The code of the parser's kind for attribute sets.
pub const NODE_ATTR_SET: u16 = 77;

/// The code of the parser's kind for `key = value;` entries.
pub const NODE_KEY_VALUE: u16 = 78;

/// One step of the parser's walk over its tree. The walk enters a node, takes
/// what is inside it, and leaves it; it enters and leaves each token. `kind`
/// is the code of the parser's kind, `start` a byte offset in the source.
#[derive(Clone, Debug)]
pub enum WalkStep {
    EnterNode { kind: u16, start: usize },
    EnterToken { kind: u16, start: usize, text: String },
    LeaveNode,
    LeaveToken,
}

/// The mathematical value of a `WalkStep`.
pub enum WalkStepView {
    EnterNode { kind: u16, start: nat },
    EnterToken { kind: u16, start: nat, text: Seq<char> },
    LeaveNode,
    LeaveToken,
}

impl View for WalkStep {
    type V = WalkStepView;

    open spec fn view(&self) -> WalkStepView {
        match self {
            WalkStep::EnterNode { kind, start } => WalkStepView::EnterNode {
                kind: *kind,
                start: *start as nat,
            },
            WalkStep::EnterToken { kind, start, text } => WalkStepView::EnterToken {
                kind: *kind,
                start: *start as nat,
                text: text@,
            },
            WalkStep::LeaveNode => WalkStepView::LeaveNode,
            WalkStep::LeaveToken => WalkStepView::LeaveToken,
        }
    }
}

/// The steps as values.
pub open spec fn steps_view(steps: Seq<WalkStep>) -> Seq<WalkStepView> {
    steps.map_values(|s: WalkStep| s@)
}

/// The kind of a node with the given code.
pub open spec fn node_kind(code: u16) -> ElementKind {
    if code == NODE_ATTR_SET {
        ElementKind::AttrSet
    } else if code == NODE_KEY_VALUE {
        ElementKind::KeyValue
    } else if code == NODE_KEY {
        ElementKind::Key
    } else if code == NODE_IDENT {
        ElementKind::Ident
    } else if code == NODE_LAMBDA {
        ElementKind::Lambda
    } else {
        ElementKind::OtherNode
    }
}

/// The kind of a token with the given code.
pub open spec fn token_kind(code: u16) -> ElementKind {
    if code == TOKEN_COMMENT {
        ElementKind::Comment
    } else if code == TOKEN_WHITESPACE {
        ElementKind::Whitespace
    } else if code == TOKEN_ERROR {
        ElementKind::ErrorToken
    } else {
        ElementKind::OtherToken
    }
}

/// How many nodes are open after the first `k` steps: those entered less
/// those left.
pub open spec fn open_nodes(steps: Seq<WalkStepView>, k: int) -> int
    decreases k,
{
    if k <= 0 || k > steps.len() {
        0
    } else {
        open_nodes(steps, k - 1) + match steps[k - 1] {
            WalkStepView::EnterNode { .. } => 1int,
            WalkStepView::LeaveNode => -1int,
            _ => 0int,
        }
    }
}

/// Tells whether the walk leaves no node but an open one.
pub open spec fn well_nested(steps: Seq<WalkStepView>) -> bool {
    forall|k: int|
        0 <= k < steps.len() && #[trigger] steps[k] == WalkStepView::LeaveNode ==> open_nodes(
            steps,
            k,
        ) >= 1
}

/// The elements that the first `k` steps enter, in order, each at the depth
/// that the number of open nodes gives it.
pub open spec fn outline_of(steps: Seq<WalkStepView>, k: int) -> Seq<ElementView>
    decreases k,
{
    if k <= 0 || k > steps.len() {
        Seq::<ElementView>::empty()
    } else {
        let before = outline_of(steps, k - 1);
        match steps[k - 1] {
            WalkStepView::EnterNode { kind, start } => before.push(
                ElementView {
                    kind: node_kind(kind),
                    depth: open_nodes(steps, k - 1) as nat,
                    start,
                    text: Seq::<char>::empty(),
                },
            ),
            WalkStepView::EnterToken { kind, start, text } => before.push(
                ElementView {
                    kind: token_kind(kind),
                    depth: open_nodes(steps, k - 1) as nat,
                    start,
                    text,
                },
            ),
            _ => before,
        }
    }
}

/// The tree that a walk describes, where it is well nested.
pub open spec fn tree_of(steps: Seq<WalkStepView>) -> Option<Seq<ElementView>> {
    if well_nested(steps) {
        Some(outline_of(steps, steps.len() as int))
    } else {
        None
    }
}

/// The kind of a node with the given code.
pub fn node_kind_of(code: u16) -> (kind: ElementKind)
    ensures
        kind == node_kind(code),
{
    if code == NODE_ATTR_SET {
        ElementKind::AttrSet
    } else if code == NODE_KEY_VALUE {
        ElementKind::KeyValue
    } else if code == NODE_KEY {
        ElementKind::Key
    } else if code == NODE_IDENT {
        ElementKind::Ident
    } else if code == NODE_LAMBDA {
        ElementKind::Lambda
    } else {
        ElementKind::OtherNode
    }
}

/// The kind of a token with the given code.
pub fn token_kind_of(code: u16) -> (kind: ElementKind)
    ensures
        kind == token_kind(code),
{
    if code == TOKEN_COMMENT {
        ElementKind::Comment
    } else if code == TOKEN_WHITESPACE {
        ElementKind::Whitespace
    } else if code == TOKEN_ERROR {
        ElementKind::ErrorToken
    } else {
        ElementKind::OtherToken
    }
}

impl SyntaxTree {
    /// The tree that the walk `steps` describes: its elements in the order in
    /// which the walk enters them, each as deep as nodes were open then. There
    /// is none where the walk leaves a node while none is open.
    pub fn from_steps(steps: &Vec<WalkStep>) -> (made: Option<SyntaxTree>)
        ensures
            match made {
                Some(tree) => tree_of(steps_view(steps@)) == Some(tree@),
                None => tree_of(steps_view(steps@)) is None,
            },
    {
        let ghost walk = steps_view(steps@);
        let mut elements: Vec<Element> = Vec::new();
        let mut depth: usize = 0;
        let mut k: usize = 0;
        while k < steps.len()
            invariant
                k <= steps@.len(),
                walk == steps_view(steps@),
                depth == open_nodes(walk, k as int),
                depth <= k,
                forall|j: int|
                    0 <= j < k && #[trigger] walk[j] == WalkStepView::LeaveNode ==> open_nodes(
                        walk,
                        j,
                    ) >= 1,
                elements@.map_values(|e: Element| e@) == outline_of(walk, k as int),
            decreases steps@.len() - k,
        {
            let ghost before = elements@.map_values(|e: Element| e@);
            assert(walk[k as int] == steps@[k as int]@);
            match &steps[k] {
                WalkStep::EnterNode { kind, start } => {
                    let element = Element {
                        kind: node_kind_of(*kind),
                        depth,
                        start: *start,
                        text: String::new(),
                    };
                    elements.push(element);
                    proof {
                        assert(elements@.map_values(|e: Element| e@) =~= before.push(element@));
                    }
                    depth = depth + 1;
                },
                WalkStep::EnterToken { kind, start, text } => {
                    let element = Element {
                        kind: token_kind_of(*kind),
                        depth,
                        start: *start,
                        text: text.clone(),
                    };
                    elements.push(element);
                    proof {
                        assert(elements@.map_values(|e: Element| e@) =~= before.push(element@));
                    }
                },
                WalkStep::LeaveNode => {
                    if depth == 0 {
                        return None;
                    }
                    depth = depth - 1;
                },
                WalkStep::LeaveToken => {},
            }
            k = k + 1;
        }
        Some(SyntaxTree { elements })
    }
}

} // verus!
