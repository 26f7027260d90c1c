//! The syntax tree as an outline: its nodes and tokens in source order, each
//! with its depth. The parent of an element is the nearest earlier element
//! that lies less deep, and every sequence of elements is such a tree.

use vstd::prelude::*;

verus! {

/// What an element of the tree is, as far as the search tells elements apart.
#[derive(Clone, Copy, Debug, PartialEq, Eq, Structural)]
pub enum ElementKind {
    /// A comment token.
    Comment,
    /// A token of white space.
    Whitespace,
    /// A token that the tokenizer could not read.
    ErrorToken,
    /// Any other token.
    OtherToken,
    /// The node of an attribute set.
    AttrSet,
    /// The node of one `key = value;` entry.
    KeyValue,
    /// The node of an entry's key, a path of segments.
    Key,
    /// The node of an identifier.
    Ident,
    /// The node of a function.
    Lambda,
    /// Any other node.
    OtherNode,
}

/// What an element means to a walk that looks for comments.
#[derive(Clone, Copy, Debug, PartialEq, Eq, Structural)]
pub enum TriviaClass {
    /// A comment token: its text is collected.
    Comment,
    /// Other trivia: it is passed over.
    Trivia,
    /// Anything else: the walk ends there.
    Significant,
}

/// One node or token of the tree.
#[derive(Clone, Debug)]
pub struct Element {
    /// What the element is.
    pub kind: ElementKind,
    /// How deep it lies: the root at 0, its children at 1.
    pub depth: usize,
    /// The byte offset in the source at which it begins.
    pub start: usize,
    /// The text of a token; empty for a node.
    pub text: String,
}

/// The mathematical value of an `Element`.
pub struct ElementView {
    pub kind: ElementKind,
    pub depth: nat,
    pub start: nat,
    pub text: Seq<char>,
}

impl View for Element {
    type V = ElementView;

    open spec fn view(&self) -> ElementView {
        ElementView {
            kind: self.kind,
            depth: self.depth as nat,
            start: self.start as nat,
            text: self.text@,
        }
    }
}

/// A syntax tree: its elements in source order, which is pre-order.
#[derive(Clone, Debug)]
pub struct SyntaxTree {
    pub elements: Vec<Element>,
}

impl View for SyntaxTree {
    type V = Seq<ElementView>;

    open spec fn view(&self) -> Seq<ElementView> {
        self.elements@.map_values(|e: Element| e@)
    }
}

/// Tells whether elements of this kind are tokens.
pub open spec fn is_token(kind: ElementKind) -> bool {
    kind == ElementKind::Comment || kind == ElementKind::Whitespace || kind
        == ElementKind::ErrorToken || kind == ElementKind::OtherToken
}

/// The class of a kind: comments are comments, white space and unreadable
/// tokens are trivia, all else is significant.
pub open spec fn class_of(kind: ElementKind) -> TriviaClass {
    if kind == ElementKind::Comment {
        TriviaClass::Comment
    } else if kind == ElementKind::Whitespace || kind == ElementKind::ErrorToken {
        TriviaClass::Trivia
    } else {
        TriviaClass::Significant
    }
}

/// The index of the last element before `below` that lies at depth `depth` or
/// less deep, or -1 where there is none.
pub open spec fn last_not_deeper(t: Seq<ElementView>, below: int, depth: int) -> int
    decreases below,
{
    if below <= 0 || below > t.len() {
        -1
    } else if t[below - 1].depth <= depth {
        below - 1
    } else {
        last_not_deeper(t, below - 1, depth)
    }
}

/// The previous sibling of element `i`: the nearest earlier element that is
/// not deeper, if it lies at the same depth.
pub open spec fn previous_sibling(t: Seq<ElementView>, i: int) -> Option<int> {
    if 0 <= i < t.len() {
        let j = last_not_deeper(t, i, t[i].depth as int);
        if j >= 0 && t[j].depth == t[i].depth {
            Some(j)
        } else {
            None
        }
    } else {
        None
    }
}

/// The parent of element `i`: the nearest earlier element that is less deep.
pub open spec fn parent(t: Seq<ElementView>, i: int) -> Option<int> {
    if 0 <= i < t.len() {
        let j = last_not_deeper(t, i, t[i].depth - 1);
        if j >= 0 {
            Some(j)
        } else {
            None
        }
    } else {
        None
    }
}

/// The first child of element `i`: the next element, if it lies deeper.
pub open spec fn first_child(t: Seq<ElementView>, i: int) -> Option<int> {
    if 0 <= i && i + 1 < t.len() && t[i + 1].depth > t[i].depth {
        Some(i + 1)
    } else {
        None
    }
}

/// Tells whether element `j` is a child of element `i`: it comes later and
/// deeper, and nothing between the two is less deep than `j`.
pub open spec fn is_child(t: Seq<ElementView>, i: int, j: int) -> bool {
    &&& 0 <= i < j < t.len()
    &&& t[i].depth < t[j].depth
    &&& forall|k: int| i < k < j ==> (#[trigger] t[k]).depth >= t[j].depth
}

/// The children of element `i` among the first `upto` elements, in order;
/// with `nodes_only`, its children that are nodes.
pub open spec fn children_upto(t: Seq<ElementView>, i: int, upto: int, nodes_only: bool) -> Seq<
    int,
>
    decreases upto,
{
    if upto <= 0 {
        Seq::<int>::empty()
    } else {
        let before = children_upto(t, i, upto - 1, nodes_only);
        if is_child(t, i, upto - 1) && !(nodes_only && is_token(t[upto - 1].kind)) {
            before.push(upto - 1)
        } else {
            before
        }
    }
}

/// The children of element `i` that are nodes, in order.
pub open spec fn node_children(t: Seq<ElementView>, i: int) -> Seq<int> {
    children_upto(t, i, t.len() as int, true)
}

/// What `last_not_deeper` finds lies before `below`, is not deeper than asked,
/// and nothing after it and before `below` is.
pub proof fn lemma_last_not_deeper(t: Seq<ElementView>, below: int, depth: int)
    requires
        0 <= below <= t.len(),
    ensures
        -1 <= last_not_deeper(t, below, depth) < below,
        last_not_deeper(t, below, depth) >= 0 ==> t[last_not_deeper(t, below, depth)].depth
            <= depth,
        forall|k: int|
            last_not_deeper(t, below, depth) < k < below ==> (#[trigger] t[k]).depth > depth,
    decreases below,
{
    if below > 0 && t[below - 1].depth > depth {
        lemma_last_not_deeper(t, below - 1, depth);
    }
}

impl ElementKind {
    /// Tells whether elements of this kind are tokens.
    pub fn is_token(self) -> (b: bool)
        ensures
            b == is_token(self),
    {
        self == ElementKind::Comment || self == ElementKind::Whitespace || self
            == ElementKind::ErrorToken || self == ElementKind::OtherToken
    }

    /// The class of this kind for a walk that looks for comments.
    pub fn class(self) -> (c: TriviaClass)
        ensures
            c == class_of(self),
    {
        if self == ElementKind::Comment {
            TriviaClass::Comment
        } else if self == ElementKind::Whitespace || self == ElementKind::ErrorToken {
            TriviaClass::Trivia
        } else {
            TriviaClass::Significant
        }
    }
}

impl Element {
    /// A node of the given kind, depth and offset.
    pub fn node(kind: ElementKind, depth: usize, start: usize) -> (e: Element)
        ensures
            e@ == (ElementView { kind, depth: depth as nat, start: start as nat, text: Seq::empty() }),
    {
        Element { kind, depth, start, text: String::new() }
    }

    /// A token of the given kind, depth, offset and text.
    pub fn token(kind: ElementKind, depth: usize, start: usize, text: &str) -> (e: Element)
        ensures
            e@ == (ElementView { kind, depth: depth as nat, start: start as nat, text: text@ }),
    {
        Element { kind, depth, start, text: text.to_owned() }
    }
}

impl SyntaxTree {
    /// The tree with the given elements.
    pub fn new(elements: Vec<Element>) -> (tree: SyntaxTree)
        ensures
            tree.elements == elements,
    {
        SyntaxTree { elements }
    }

    /// How many elements the tree has.
    pub fn len(&self) -> (n: usize)
        ensures
            n == self@.len(),
    {
        self.elements.len()
    }

    /// The index of the last element before `below` that lies at `depth` or
    /// less deep.
    fn nearest_not_deeper(&self, below: usize, depth: usize) -> (found: Option<usize>)
        requires
            below <= self@.len(),
        ensures
            match found {
                Some(j) => j == last_not_deeper(self@, below as int, depth as int),
                None => last_not_deeper(self@, below as int, depth as int) == -1,
            },
    {
        let mut at: usize = below;
        while at > 0
            invariant
                at <= below <= self@.len(),
                last_not_deeper(self@, at as int, depth as int) == last_not_deeper(
                    self@,
                    below as int,
                    depth as int,
                ),
            decreases at,
        {
            if self.elements[at - 1].depth <= depth {
                return Some(at - 1);
            }
            at = at - 1;
        }
        None
    }

    /// The previous sibling of element `i`, if it has one.
    pub fn previous_sibling(&self, i: usize) -> (found: Option<usize>)
        ensures
            match found {
                Some(j) => previous_sibling(self@, i as int) == Some(j as int),
                None => previous_sibling(self@, i as int) is None,
            },
    {
        if i >= self.elements.len() {
            return None;
        }
        let depth = self.elements[i].depth;
        proof {
            lemma_last_not_deeper(self@, i as int, depth as int);
        }
        match self.nearest_not_deeper(i, depth) {
            Some(j) => {
                if self.elements[j].depth == depth {
                    Some(j)
                } else {
                    None
                }
            },
            None => None,
        }
    }

    /// The parent of element `i`, if it has one.
    pub fn parent(&self, i: usize) -> (found: Option<usize>)
        ensures
            match found {
                Some(j) => parent(self@, i as int) == Some(j as int),
                None => parent(self@, i as int) is None,
            },
    {
        if i >= self.elements.len() {
            return None;
        }
        let depth = self.elements[i].depth;
        if depth == 0 {
            proof {
                lemma_last_not_deeper(self@, i as int, -1);
            }
            return None;
        }
        self.nearest_not_deeper(i, depth - 1)
    }

    /// The first child of element `i`, if it has one.
    pub fn first_child(&self, i: usize) -> (found: Option<usize>)
        ensures
            match found {
                Some(j) => first_child(self@, i as int) == Some(j as int),
                None => first_child(self@, i as int) is None,
            },
    {
        let n = self.elements.len();
        if i < n && n - i > 1 && self.elements[i + 1].depth > self.elements[i].depth {
            Some(i + 1)
        } else {
            None
        }
    }

    /// The children of element `i` that are nodes, in order.
    pub fn node_children(&self, i: usize) -> (found: Vec<usize>)
        ensures
            found@.map_values(|j: usize| j as int) == node_children(self@, i as int),
            forall|k: int| 0 <= k < found@.len() ==> (#[trigger] found@[k]) < self@.len(),
    {
        let mut found: Vec<usize> = Vec::new();
        let n = self.elements.len();
        if i >= n {
            proof {
                lemma_no_child_after(self@, i as int, 0, n as int, true);
                assert(found@.map_values(|j: usize| j as int) =~= Seq::<int>::empty());
            }
            return found;
        }
        let depth = self.elements[i].depth;
        let mut at: usize = i + 1;
        let mut level: usize = usize::MAX;
        let ghost mut lowest: int = -1;
        proof {
            lemma_no_child_after(self@, i as int, 0, i + 1, true);
            assert(found@.map_values(|j: usize| j as int) =~= Seq::<int>::empty());
        }
        while at < n && self.elements[at].depth > depth
            invariant
                i < at <= n == self@.len(),
                depth == self@[i as int].depth,
                forall|k: int| i < k < at ==> (#[trigger] self@[k]).depth > depth,
                forall|k: int| i < k < at ==> (#[trigger] self@[k]).depth >= level,
                lowest == -1 ==> at == i + 1 && level == usize::MAX,
                lowest != -1 ==> i < lowest < at && self@[lowest].depth == level,
                forall|k: int| 0 <= k < found@.len() ==> (#[trigger] found@[k]) < n,
                found@.map_values(|j: usize| j as int) == children_upto(
                    self@,
                    i as int,
                    at as int,
                    true,
                ),
            decreases n - at,
        {
            let here = self.elements[at].depth;
            let ghost before = found@.map_values(|j: usize| j as int);
            if here <= level {
                proof {
                    assert(is_child(self@, i as int, at as int));
                    lowest = at as int;
                }
                level = here;
                if !self.elements[at].kind.is_token() {
                    found.push(at);
                    proof {
                        assert(found@.map_values(|j: usize| j as int) =~= before.push(at as int));
                    }
                }
            } else {
                proof {
                    assert(self@[lowest].depth < self@[at as int].depth);
                    assert(!is_child(self@, i as int, at as int));
                }
            }
            at = at + 1;
        }
        proof {
            lemma_no_child_after(self@, i as int, at as int, n as int, true);
        }
        found
    }
}

/// Element `i` has no child from index `from` on, where `from` is not after
/// `i`, or nothing between `i` and `from` is as deep as `i` or less and the
/// element at `from` is.
pub proof fn lemma_no_child_after(
    t: Seq<ElementView>,
    i: int,
    from: int,
    upto: int,
    nodes_only: bool,
)
    requires
        0 <= from <= upto <= t.len(),
        upto <= i + 1 || (0 <= i < from && (from == t.len() || t[from].depth <= t[i].depth)),
    ensures
        children_upto(t, i, upto, nodes_only) == children_upto(
            t,
            i,
            if upto <= i + 1 {
                0
            } else {
                from
            },
            nodes_only,
        ),
    decreases upto,
{
    if upto <= i + 1 {
        if upto > 0 {
            lemma_no_child_after(t, i, 0, upto - 1, nodes_only);
            assert(!is_child(t, i, upto - 1));
        }
    } else if upto > from {
        lemma_no_child_after(t, i, from, upto - 1, nodes_only);
        let j = upto - 1;
        if is_child(t, i, j) {
            if j > from {
                assert(t[from].depth >= t[j].depth);
            }
        }
        assert(!is_child(t, i, j));
    }
}

} // verus!
