//! The work on one file: which files are searched, and what the search of one
//! file gives to print, once the parser has walked its text.

use vstd::prelude::*;
use vstd::string::StringSliceAdditionalSpecFns;
use regex::Regex;
use crate::matcher::{results_view, search_ast, search_results, SearchResult};
use crate::report::{blocks_text, failure_line, failure_text, format_results};
use crate::text::{chars_of, contains_chars, contains_text, ends_with, ends_with_chars};
use crate::tree::SyntaxTree;
use crate::walk::{steps_view, tree_of, WalkStep, WalkStepView};

verus! {

/// The ending of the names of source files.
pub open spec fn source_ending() -> Seq<char> {
    ".nix"@
}

/// What the path of a file must hold for the file to be searched.
pub open spec fn library_mark() -> Seq<char> {
    "lib"@
}

/// Tells whether the file at `path` is searched by default: its path ends as
/// the names of source files do, and holds the mark of a library somewhere,
/// in the file's name or in that of a directory above it.
pub open spec fn searchable(path: Seq<char>) -> bool {
    ends_with(path, source_ending()) && contains_text(path, library_mark())
}

/// Should the file at the given path be searched?
pub fn is_searchable(fname: &str) -> (b: bool)
    ensures
        b == searchable(fname@),
{
    let path = chars_of(fname);
    let ending = chars_of(".nix");
    let mark = chars_of("lib");
    ends_with_chars(&path, &ending) && contains_chars(&path, &mark)
}

/// A walk that leaves a node that it did not enter: it describes no tree.
#[derive(Clone, Copy, Debug, PartialEq, Eq)]
pub struct NestingError;

/// What a `NestingError` says of itself.
pub open spec fn nesting_message() -> Seq<char> {
    "syntax tree walk leaves a node that is not open"@
}

impl NestingError {
    /// What the error says of itself.
    pub fn message(&self) -> (text: String)
        ensures
            text@ == nesting_message(),
    {
        "syntax tree walk leaves a node that is not open".to_owned()
    }
}

/// Searches the tree that the walk `steps` describes for documented functions
/// whose name `matching` accepts. Fails where the walk describes no tree.
pub fn search_walk(steps: &Vec<WalkStep>, matching: &Regex) -> (r: Result<
    Vec<SearchResult>,
    NestingError,
>)
    ensures
        match r {
            Ok(results) => tree_of(steps_view(steps@)) matches Some(tree) && results_view(
                results@,
            ) == search_results(tree, *matching),
            Err(_) => tree_of(steps_view(steps@)) is None,
        },
{
    match SyntaxTree::from_steps(steps) {
        Some(tree) => Ok(search_ast(matching, &tree)),
        None => Err(NestingError),
    }
}

/// What the work on one file gives.
#[derive(Clone, Debug)]
pub enum FileOutcome {
    /// The blocks of the file's matches, to be printed; there is at least one.
    Matches(Vec<String>),
    /// The file has no match: nothing is printed.
    Nothing,
    /// The file could not be handled: the line that says so.
    Failure(String),
}

/// Why the file with the parser's outcome `walk` cannot be searched: the
/// parser's message, or that of a walk that describes no tree. There is no
/// reason where the walk describes a tree.
pub open spec fn failure_of(walk: Result<Seq<WalkStepView>, Seq<char>>) -> Option<Seq<char>> {
    match walk {
        Ok(steps) => if tree_of(steps) is Some {
            None
        } else {
            Some(nesting_message())
        },
        Err(message) => Some(message),
    }
}

/// The parser's outcome as a value.
pub open spec fn outcome_view(walk: Result<Vec<WalkStep>, String>) -> Result<
    Seq<WalkStepView>,
    Seq<char>,
> {
    match walk {
        Ok(steps) => Ok(steps_view(steps@)),
        Err(message) => Err(message@),
    }
}

/// Does the work on the file at `path` with the text `content`, of which the
/// parser made `walk`: the walk over its tree, or the message of its error.
/// An error, or a walk that describes no tree, gives the line that reports
/// it. Else the tree is searched for documented functions whose name
/// `matching` accepts: no match gives nothing, any other result the blocks of
/// the matches, in the order of the results.
pub fn handle_file(
    path: &str,
    content: &str,
    walk: &Result<Vec<WalkStep>, String>,
    matching: &Regex,
) -> (outcome: FileOutcome)
    ensures
        match outcome {
            FileOutcome::Matches(blocks) => outcome_view(*walk) matches Ok(steps) && tree_of(
                steps,
            ) matches Some(tree) && blocks@.len() > 0 && blocks@.map_values(|b: String| b@)
                == blocks_text(search_results(tree, *matching), path@, content.spec_bytes()),
            FileOutcome::Nothing => outcome_view(*walk) matches Ok(steps) && tree_of(
                steps,
            ) matches Some(tree) && search_results(tree, *matching).len() == 0,
            FileOutcome::Failure(line) => failure_of(outcome_view(*walk)) matches Some(reason)
                && line@ == failure_text(path@, reason),
        },
{
    match walk {
        Ok(steps) => match search_walk(steps, matching) {
            Ok(results) => {
                let formatted = format_results(&results, path, content);
                assert(formatted@.map_values(|b: String| b@).len() == results_view(
                    results@,
                ).len());
                if formatted.len() > 0 {
                    FileOutcome::Matches(formatted)
                } else {
                    FileOutcome::Nothing
                }
            },
            Err(failure) => {
                let message = failure.message();
                FileOutcome::Failure(failure_line(path, message.as_str()))
            },
        },
        Err(message) => FileOutcome::Failure(failure_line(path, message.as_str())),
    }
}

} // verus!
