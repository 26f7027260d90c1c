//! Recovery of the comment that stands before an element of the tree.
//!
//! The walk goes backward from the element: to the previous sibling, or, where
//! there is none, up to the parent and on from there. It collects comments,
//! passes over other trivia, and ends at the first significant element or
//! where the tree does.

use vstd::prelude::*;
use crate::comment::{cleanup_comments, cleanup_text};
use crate::tree::{
    class_of, lemma_last_not_deeper, parent, previous_sibling, ElementView, SyntaxTree,
    TriviaClass,
};

verus! {

/// The element that the backward walk reaches from element `i`: its previous
/// sibling, or that of its nearest forebear that has one. There is none where
/// neither `i` nor a forebear of it has a previous sibling.
pub open spec fn step_back(t: Seq<ElementView>, i: int) -> Option<int>
    decreases i,
{
    match previous_sibling(t, i) {
        Some(sibling) => Some(sibling),
        None => match parent(t, i) {
            Some(up) => {
                if up < i {
                    step_back(t, up)
                } else {
                    None
                }
            },
            None => None,
        },
    }
}

/// The texts of the comments that stand before element `i`, the nearest one
/// first: the walk collects comments and passes over other trivia until it
/// reaches a significant element or the walk has nowhere to go.
pub open spec fn comment_run(t: Seq<ElementView>, i: int) -> Seq<Seq<char>>
    decreases i,
{
    match step_back(t, i) {
        Some(j) => {
            if 0 <= j < i {
                match class_of(t[j].kind) {
                    TriviaClass::Comment => seq![t[j].text] + comment_run(t, j),
                    TriviaClass::Trivia => comment_run(t, j),
                    TriviaClass::Significant => Seq::<Seq<char>>::empty(),
                }
            } else {
                Seq::<Seq<char>>::empty()
            }
        },
        None => Seq::<Seq<char>>::empty(),
    }
}

/// The documentation that stands before element `i`: its comments in source
/// order, normalized.
pub open spec fn recovered_doc(t: Seq<ElementView>, i: int) -> Seq<char> {
    cleanup_text(comment_run(t, i))
}

/// The parent of an element comes before it.
pub proof fn lemma_parent_is_earlier(t: Seq<ElementView>, i: int)
    ensures
        parent(t, i) matches Some(up) ==> 0 <= up < i,
{
    if 0 <= i < t.len() {
        lemma_last_not_deeper(t, i, t[i].depth - 1);
    }
}

/// The backward walk reaches an earlier element of the tree.
pub proof fn lemma_step_back_is_earlier(t: Seq<ElementView>, i: int)
    ensures
        step_back(t, i) matches Some(j) ==> 0 <= j < i && i < t.len(),
    decreases i,
{
    if 0 <= i < t.len() {
        lemma_last_not_deeper(t, i, t[i].depth as int);
        lemma_parent_is_earlier(t, i);
        match previous_sibling(t, i) {
            Some(_) => {},
            None => match parent(t, i) {
                Some(up) => {
                    lemma_step_back_is_earlier(t, up);
                },
                None => {},
            },
        }
    }
}

impl SyntaxTree {
    /// The element that the backward walk reaches from element `i`.
    pub fn step_back(&self, i: usize) -> (found: Option<usize>)
        ensures
            match found {
                Some(j) => step_back(self@, i as int) == Some(j as int),
                None => step_back(self@, i as int) is None,
            },
    {
        let mut at: usize = i;
        loop
            invariant
                at <= i,
                step_back(self@, at as int) == step_back(self@, i as int),
            decreases at,
        {
            match self.previous_sibling(at) {
                Some(sibling) => {
                    return Some(sibling);
                },
                None => {},
            }
            proof {
                lemma_parent_is_earlier(self@, at as int);
            }
            match self.parent(at) {
                Some(up) => {
                    at = up;
                },
                None => {
                    return None;
                },
            }
        }
    }
}

/// The documentation that stands before element `node` of `tree`, or nothing
/// where there is none: the comments that the backward walk from `node`
/// collects, in source order and normalized, if that text is not empty.
pub fn find_comment(tree: &SyntaxTree, node: usize) -> (found: Option<String>)
    ensures
        match found {
            Some(doc) => doc@ == recovered_doc(tree@, node as int) && doc@.len() > 0,
            None => recovered_doc(tree@, node as int).len() == 0,
        },
{
    let mut comments: Vec<String> = Vec::new();
    let mut at: usize = node;
    loop
        invariant
            at <= node,
            comment_run(tree@, node as int) == comments@.map_values(|c: String| c@) + comment_run(
                tree@,
                at as int,
            ),
        ensures
            comment_run(tree@, node as int) == comments@.map_values(|c: String| c@),
        decreases at,
    {
        proof {
            lemma_step_back_is_earlier(tree@, at as int);
        }
        let ghost so_far = comments@.map_values(|c: String| c@);
        match tree.step_back(at) {
            Some(j) => {
                match tree.elements[j].kind.class() {
                    TriviaClass::Comment => {
                        comments.push(tree.elements[j].text.clone());
                        proof {
                            let text = tree@[j as int].text;
                            assert(comments@.map_values(|c: String| c@) =~= so_far.push(text));
                            assert(so_far + (seq![text] + comment_run(tree@, j as int))
                                =~= so_far.push(text) + comment_run(tree@, j as int));
                        }
                    },
                    TriviaClass::Trivia => {},
                    TriviaClass::Significant => {
                        proof {
                            assert(so_far + Seq::<Seq<char>>::empty() =~= so_far);
                        }
                        break ;
                    },
                }
                at = j;
            },
            None => {
                proof {
                    assert(so_far + Seq::<Seq<char>>::empty() =~= so_far);
                }
                break ;
            },
        }
    }
    let doc = cleanup_comments(&comments);
    if doc.as_str().is_empty() {
        None
    } else {
        Some(doc)
    }
}

} // verus!
