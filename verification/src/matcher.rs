//! The search itself: which entries of which attribute sets are documented
//! functions whose name the pattern accepts.

use vstd::prelude::*;
use regex::Regex;
use crate::comment::lemma_cleanup_of_none;
use crate::recover::{comment_run, find_comment, recovered_doc};
use crate::tree::{first_child, is_token, node_children, ElementKind, ElementView, SyntaxTree};

verus! {

/// A compiled regular expression of the `regex` crate.
#[verifier::external_type_specification]
#[verifier::external_body]
pub struct ExRegex(Regex);

/// One match of a search.
#[derive(Clone, Debug)]
pub struct SearchResult {
    /// Name of the function.
    pub identifier: String,
    /// Its documentation, normalized; never empty.
    pub doc: String,
    /// The byte offset in the file's text at which the name begins.
    pub defined_at_start: usize,
}

/// The mathematical value of a `SearchResult`.
pub struct SearchResultView {
    pub identifier: Seq<char>,
    pub doc: Seq<char>,
    pub defined_at_start: nat,
}

impl View for SearchResult {
    type V = SearchResultView;

    open spec fn view(&self) -> SearchResultView {
        SearchResultView {
            identifier: self.identifier@,
            doc: self.doc@,
            defined_at_start: self.defined_at_start as nat,
        }
    }
}

/// The results as values.
pub open spec fn results_view(results: Seq<SearchResult>) -> Seq<SearchResultView> {
    results.map_values(|r: SearchResult| r@)
}

/// What `Regex::is_match` answers for an expression and a text.
pub uninterp spec fn regex_accepts(needle: Regex, text: Seq<char>) -> bool;

/// Calls `Regex::is_match`: tells whether the expression matches somewhere in
/// `text`. The answer depends on the expression and the text alone and is
/// named `regex_accepts`; nothing else is stated of it.
#[verifier::external_body]
fn is_match(needle: &Regex, text: &str) -> (accepted: bool)
    ensures
        accepted == regex_accepts(*needle, text@),
{
    needle.is_match(text)
}

/// The identifier that names entry `entry`, as the index of its node: the
/// entry has a key before a value that is a function, and the last segment
/// of the key's path is an identifier.
pub open spec fn function_name_node(t: Seq<ElementView>, entry: int) -> Option<int> {
    let parts = node_children(t, entry);
    if parts.len() >= 2 && t[parts[1]].kind == ElementKind::Lambda && t[parts[0]].kind
        == ElementKind::Key {
        let path = node_children(t, parts[0]);
        if path.len() >= 1 && t[path.last()].kind == ElementKind::Ident {
            Some(path.last())
        } else {
            None
        }
    } else {
        None
    }
}

/// The text of the identifier at node `ident`: that of the token with which
/// the node begins, where it begins with one and that token is not empty.
pub open spec fn identifier_text(t: Seq<ElementView>, ident: int) -> Option<Seq<char>> {
    match first_child(t, ident) {
        Some(first) => if is_token(t[first].kind) && t[first].text.len() > 0 {
            Some(t[first].text)
        } else {
            None
        },
        None => None,
    }
}

/// The name of entry `entry`, where it defines a function under a plain name.
pub open spec fn name_of_entry(t: Seq<ElementView>, entry: int) -> Option<Seq<char>> {
    match function_name_node(t, entry) {
        Some(ident) => identifier_text(t, ident),
        None => None,
    }
}

/// What the search makes of entry `entry` once the pattern has answered for
/// its name: a result where the entry defines a function under a plain name,
/// the pattern accepted that name, and documentation stands before the key;
/// nothing otherwise.
pub open spec fn entry_result_of_answer(
    t: Seq<ElementView>,
    entry: int,
    accepted: bool,
) -> Option<SearchResultView> {
    match function_name_node(t, entry) {
        Some(ident) => match identifier_text(t, ident) {
            Some(name) => {
                let key = node_children(t, entry)[0];
                let doc = recovered_doc(t, key);
                if accepted && doc.len() > 0 {
                    Some(
                        SearchResultView {
                            identifier: name,
                            doc,
                            defined_at_start: t[ident].start,
                        },
                    )
                } else {
                    None
                }
            },
            None => None,
        },
        None => None,
    }
}

/// What the search makes of entry `entry`: a result where the entry defines a
/// function under a plain name that `needle` accepts and has documentation
/// before its key, and nothing otherwise.
pub open spec fn entry_result(t: Seq<ElementView>, needle: Regex, entry: int) -> Option<
    SearchResultView,
> {
    match name_of_entry(t, entry) {
        Some(name) => entry_result_of_answer(t, entry, regex_accepts(needle, name)),
        None => None,
    }
}

/// The results of the first `upto` of `entries`, in order: one for each that is
/// a `key = value;` entry and gives one.
pub open spec fn entries_results(
    t: Seq<ElementView>,
    needle: Regex,
    entries: Seq<int>,
    upto: int,
) -> Seq<SearchResultView>
    decreases upto,
{
    if upto <= 0 || upto > entries.len() {
        Seq::<SearchResultView>::empty()
    } else {
        let before = entries_results(t, needle, entries, upto - 1);
        let entry = entries[upto - 1];
        if t[entry].kind == ElementKind::KeyValue && entry_result(t, needle, entry) is Some {
            before.push(entry_result(t, needle, entry).unwrap())
        } else {
            before
        }
    }
}

/// The results of the attribute set at node `set`: those of its entries, in
/// source order.
pub open spec fn set_results(t: Seq<ElementView>, needle: Regex, set: int) -> Seq<
    SearchResultView,
> {
    entries_results(t, needle, node_children(t, set), node_children(t, set).len() as int)
}

/// The results of the attribute sets among the first `upto` elements: set after
/// set as a pre-order walk meets them, an outer set before the sets inside it.
pub open spec fn results_upto(t: Seq<ElementView>, needle: Regex, upto: int) -> Seq<
    SearchResultView,
>
    decreases upto,
{
    if upto <= 0 || upto > t.len() {
        Seq::<SearchResultView>::empty()
    } else {
        let before = results_upto(t, needle, upto - 1);
        if t[upto - 1].kind == ElementKind::AttrSet {
            before + set_results(t, needle, upto - 1)
        } else {
            before
        }
    }
}

/// The results of a search of the whole tree.
pub open spec fn search_results(t: Seq<ElementView>, needle: Regex) -> Seq<SearchResultView> {
    results_upto(t, needle, t.len() as int)
}

/// Tells whether every result has a name that is not empty and that `needle`
/// accepts, and a documentation that is not empty.
pub open spec fn all_accepted_and_documented(
    results: Seq<SearchResultView>,
    needle: Regex,
) -> bool {
    forall|k: int|
        0 <= k < results.len() ==> {
            &&& (#[trigger] results[k]).identifier.len() > 0
            &&& regex_accepts(needle, results[k].identifier)
            &&& results[k].doc.len() > 0
        }
}

/// Every result of an entry has a name that is not empty and that the
/// pattern accepts, and a documentation that is not empty.
pub proof fn lemma_entries_accepted_and_documented(
    t: Seq<ElementView>,
    needle: Regex,
    entries: Seq<int>,
    upto: int,
)
    ensures
        all_accepted_and_documented(entries_results(t, needle, entries, upto), needle),
    decreases upto,
{
    if 0 < upto <= entries.len() {
        lemma_entries_accepted_and_documented(t, needle, entries, upto - 1);
    }
}

/// Every result of a search has a name that is not empty and that the
/// pattern accepts, and a documentation that is not empty.
pub proof fn lemma_results_accepted_and_documented(
    t: Seq<ElementView>,
    needle: Regex,
    upto: int,
)
    ensures
        all_accepted_and_documented(results_upto(t, needle, upto), needle),
    decreases upto,
{
    if 0 < upto <= t.len() {
        lemma_results_accepted_and_documented(t, needle, upto - 1);
        let set = node_children(t, upto - 1);
        lemma_entries_accepted_and_documented(t, needle, set, set.len() as int);
    }
}

/// An entry with no comment before its key gives no result, whatever its
/// name and value.
pub proof fn lemma_undocumented_entry_gives_nothing(
    t: Seq<ElementView>,
    needle: Regex,
    entry: int,
)
    requires
        comment_run(t, node_children(t, entry)[0]).len() == 0,
    ensures
        entry_result(t, needle, entry) is None,
{
    lemma_cleanup_of_none();
    assert(comment_run(t, node_children(t, entry)[0]) =~= Seq::<Seq<char>>::empty());
}

/// Two searches of one tree with one pattern give the same results in the
/// same order.
pub proof fn lemma_search_is_repeatable(
    t: Seq<ElementView>,
    needle: Regex,
    first: Seq<SearchResult>,
    second: Seq<SearchResult>,
)
    requires
        results_view(first) == search_results(t, needle),
        results_view(second) == search_results(t, needle),
    ensures
        results_view(first) == results_view(second),
        first.len() == second.len(),
        forall|k: int| 0 <= k < first.len() ==> first[k]@ == second[k]@,
{
    assert(results_view(first).len() == first.len());
    assert(results_view(second).len() == second.len());
    assert forall|k: int| 0 <= k < first.len() implies first[k]@ == second[k]@ by {
        assert(results_view(first)[k] == first[k]@);
        assert(results_view(second)[k] == second[k]@);
    }
}

/// The key of entry `entry`, the identifier that names it and the token that
/// holds the name, where the entry defines a function under a plain name.
fn name_parts(tree: &SyntaxTree, entry: usize) -> (found: Option<(usize, usize, usize)>)
    ensures
        match found {
            Some((key, ident, token)) => {
                &&& key == node_children(tree@, entry as int)[0]
                &&& function_name_node(tree@, entry as int) == Some(ident as int)
                &&& first_child(tree@, ident as int) == Some(token as int)
                &&& identifier_text(tree@, ident as int) == Some(tree@[token as int].text)
                &&& key < tree@.len() && ident < tree@.len() && token < tree@.len()
            },
            None => name_of_entry(tree@, entry as int) is None,
        },
{
    let parts = tree.node_children(entry);
    let ghost parts_view = parts@.map_values(|j: usize| j as int);
    if parts.len() < 2 {
        return None;
    }
    let key = parts[0];
    let value = parts[1];
    assert(parts_view[0] == key && parts_view[1] == value);
    if tree.elements[value].kind != ElementKind::Lambda || tree.elements[key].kind
        != ElementKind::Key {
        return None;
    }
    let path = tree.node_children(key);
    let ghost path_view = path@.map_values(|j: usize| j as int);
    if path.len() == 0 {
        return None;
    }
    let ident = path[path.len() - 1];
    assert(path_view.last() == ident);
    if tree.elements[ident].kind != ElementKind::Ident {
        return None;
    }
    let token = match tree.first_child(ident) {
        Some(first) => first,
        None => {
            return None;
        },
    };
    if !tree.elements[token].kind.is_token() || tree.elements[token].text.as_str().is_empty() {
        return None;
    }
    Some((key, ident, token))
}

/// The name of entry `entry` of `tree`, where it defines a function under a
/// plain name.
pub fn entry_name(tree: &SyntaxTree, entry: usize) -> (name: Option<String>)
    ensures
        match name {
            Some(text) => name_of_entry(tree@, entry as int) == Some(text@),
            None => name_of_entry(tree@, entry as int) is None,
        },
{
    match name_parts(tree, entry) {
        Some((_, _, token)) => Some(tree.elements[token].text.clone()),
        None => None,
    }
}

/// What the search makes of entry `entry` of `tree`, given in `accepted`
/// whether the pattern accepts the entry's name.
pub fn entry_of_answer(tree: &SyntaxTree, entry: usize, accepted: bool) -> (found: Option<
    SearchResult,
>)
    ensures
        match found {
            Some(result) => entry_result_of_answer(tree@, entry as int, accepted) == Some(
                result@,
            ),
            None => entry_result_of_answer(tree@, entry as int, accepted) is None,
        },
{
    let (key, ident, token) = match name_parts(tree, entry) {
        Some(parts) => parts,
        None => {
            return None;
        },
    };
    if !accepted {
        return None;
    }
    match find_comment(tree, key) {
        Some(doc) => Some(
            SearchResult {
                identifier: tree.elements[token].text.clone(),
                doc,
                defined_at_start: tree.elements[ident].start,
            },
        ),
        None => None,
    }
}

/// What the search makes of entry `entry` of `tree`.
pub fn visit_entry(id_needle: &Regex, tree: &SyntaxTree, entry: usize) -> (found: Option<
    SearchResult,
>)
    ensures
        match found {
            Some(result) => entry_result(tree@, *id_needle, entry as int) == Some(result@),
            None => entry_result(tree@, *id_needle, entry as int) is None,
        },
{
    match entry_name(tree, entry) {
        Some(name) => {
            let accepted = is_match(id_needle, name.as_str());
            entry_of_answer(tree, entry, accepted)
        },
        None => None,
    }
}

/// The results of the attribute set at node `set` of `tree`: one for each of
/// its entries that defines a documented function whose name `id_needle`
/// accepts, in source order.
pub fn visit_attrset(id_needle: &Regex, tree: &SyntaxTree, set: usize) -> (results: Vec<
    SearchResult,
>)
    ensures
        results_view(results@) == set_results(tree@, *id_needle, set as int),
{
    let mut results: Vec<SearchResult> = Vec::new();
    let entries = tree.node_children(set);
    let ghost entries_view = entries@.map_values(|j: usize| j as int);
    let mut k: usize = 0;
    assert(results_view(results@) =~= Seq::<SearchResultView>::empty());
    while k < entries.len()
        invariant
            k <= entries@.len(),
            entries_view == entries@.map_values(|j: usize| j as int),
            entries_view == node_children(tree@, set as int),
            forall|j: int| 0 <= j < entries@.len() ==> (#[trigger] entries@[j]) < tree@.len(),
            results_view(results@) == entries_results(
                tree@,
                *id_needle,
                entries_view,
                k as int,
            ),
        decreases entries@.len() - k,
    {
        let entry = entries[k];
        assert(entries_view[k as int] == entry);
        let ghost before = results_view(results@);
        if tree.elements[entry].kind == ElementKind::KeyValue {
            match visit_entry(id_needle, tree, entry) {
                Some(result) => {
                    results.push(result);
                    assert(results_view(results@) =~= before.push(result@));
                },
                None => {},
            }
        }
        k = k + 1;
    }
    results
}

/// Searches `tree` for functions whose name `identifier` accepts: the results
/// of every attribute set of the tree, set after set in pre-order, and within
/// a set entry after entry in source order. Every result has a name that is
/// not empty and that `identifier` accepts, and a documentation that is not
/// empty.
pub fn search_ast(identifier: &Regex, tree: &SyntaxTree) -> (results: Vec<SearchResult>)
    ensures
        results_view(results@) == search_results(tree@, *identifier),
        all_accepted_and_documented(results_view(results@), *identifier),
        forall|k: int|
            0 <= k < results@.len() ==> {
                &&& (#[trigger] results@[k]).identifier@.len() > 0
                &&& regex_accepts(*identifier, results@[k].identifier@)
                &&& results@[k].doc@.len() > 0
            },
{
    let mut results: Vec<SearchResult> = Vec::new();
    let mut at: usize = 0;
    assert(results_view(results@) =~= Seq::<SearchResultView>::empty());
    while at < tree.len()
        invariant
            at <= tree@.len(),
            results_view(results@) == results_upto(tree@, *identifier, at as int),
        decreases tree@.len() - at,
    {
        if tree.elements[at].kind == ElementKind::AttrSet {
            let mut found = visit_attrset(identifier, tree, at);
            let ghost before = results@;
            let ghost added = found@;
            results.append(&mut found);
            assert(results_view(results@) =~= results_view(before) + results_view(added));
        }
        at = at + 1;
    }
    proof {
        lemma_results_accepted_and_documented(tree@, *identifier, tree@.len() as int);
        assert forall|k: int| 0 <= k < results@.len() implies {
            &&& (#[trigger] results@[k]).identifier@.len() > 0
            &&& regex_accepts(*identifier, results@[k].identifier@)
            &&& results@[k].doc@.len() > 0
        } by {
            assert(results_view(results@)[k] == results@[k]@);
        }
    }
    results
}

} // verus!
