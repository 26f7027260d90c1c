//! What is printed: the block of a match and the line of a failure.

use vstd::prelude::*;
use vstd::string::StringSliceAdditionalSpecFns;
use crate::matcher::{SearchResult, SearchResultView};
use crate::text::{decimal, find_line, indented, indented_text, line_number, push_decimal};

verus! {

/// How many blanks stand before each line of a documentation.
pub const DOC_INDENT: usize = 3;

/// `text` between the escape sequence that turns on white and bold and the
/// one that resets the terminal.
pub open spec fn bold_white_text(text: Seq<char>) -> Seq<char> {
    "\u{1b}[38;5;15;1m"@ + text + "\u{1b}[0m"@
}

/// The block of one match: the documentation, indented; then, on a line of
/// their own, the name in white and bold, the file's name and the number of
/// the line in `file` on which the name begins.
pub open spec fn block_text(
    result: SearchResultView,
    filename: Seq<char>,
    file: Seq<u8>,
) -> Seq<char> {
    indented_text(result.doc, DOC_INDENT as nat) + "\n"@ + bold_white_text(result.identifier)
        + " "@ + filename + ":"@ + decimal(line_number(file, result.defined_at_start as int))
        + "\n"@
}

/// The blocks of `results`, in order.
pub open spec fn blocks_text(
    results: Seq<SearchResultView>,
    filename: Seq<char>,
    file: Seq<u8>,
) -> Seq<Seq<char>> {
    results.map_values(|result: SearchResultView| block_text(result, filename, file))
}

/// The line that reports that `path` could not be handled and why.
pub open spec fn failure_text(path: Seq<char>, error: Seq<char>) -> Seq<char> {
    "Failure handling "@ + path + ": "@ + error
}

/// Calls `Colorful::white` and then `Colorful::bold` on `text` and writes the
/// result out with `to_string`: the text after the escape sequence for the
/// colour 15 of 256 with style 1, and before the sequence that resets.
#[verifier::external_body]
fn bold_white(text: &str) -> (styled: String)
    ensures
        styled@ == bold_white_text(text@),
{
    colorful::Colorful::bold(colorful::Colorful::white(text)).to_string()
}

impl SearchResult {
    /// The block that shows this match, found in the file `filename` whose
    /// text is `file`.
    pub fn format(&self, filename: &str, file: &str) -> (block: String)
        ensures
            block@ == block_text(self@, filename@, file.spec_bytes()),
    {
        let mut block = indented(self.doc.as_str(), DOC_INDENT);
        block.append("\n");
        let styled = bold_white(self.identifier.as_str());
        block.append(styled.as_str());
        block.append(" ");
        block.append(filename);
        block.append(":");
        push_decimal(find_line(file, self.defined_at_start), &mut block);
        block.append("\n");
        block
    }
}

/// The blocks of `results`, all found in the file `filename` whose text is
/// `file`, in order.
pub fn format_results(results: &Vec<SearchResult>, filename: &str, file: &str) -> (blocks: Vec<
    String,
>)
    ensures
        blocks@.map_values(|b: String| b@) == blocks_text(
            results@.map_values(|r: SearchResult| r@),
            filename@,
            file.spec_bytes(),
        ),
{
    let mut blocks: Vec<String> = Vec::new();
    let mut k: usize = 0;
    while k < results.len()
        invariant
            k <= results@.len(),
            blocks@.len() == k,
            forall|j: int|
                0 <= j < k ==> (#[trigger] blocks@[j])@ == block_text(
                    results@[j]@,
                    filename@,
                    file.spec_bytes(),
                ),
        decreases results@.len() - k,
    {
        blocks.push(results[k].format(filename, file));
        k = k + 1;
    }
    assert(blocks@.map_values(|b: String| b@) =~= blocks_text(
        results@.map_values(|r: SearchResult| r@),
        filename@,
        file.spec_bytes(),
    ));
    blocks
}

/// The line that reports that `path` could not be handled because of `error`.
pub fn failure_line(path: &str, error: &str) -> (line: String)
    ensures
        line@ == failure_text(path@, error@),
{
    let mut line = String::new();
    line.append("Failure handling ");
    line.append(path);
    line.append(": ");
    line.append(error);
    assert(line@ =~= failure_text(path@, error@));
    line
}

} // verus!
