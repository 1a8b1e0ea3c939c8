//! Reading the list of files that hold a version number.

use crate::text::{
    chars_of, line_texts, lines_of, string_of, strip_end_at, strip_start_at, text_lines, trim,
    CharClass,
};
use vstd::prelude::*;

verus! {

/// The paths that a search printed: each line of its output, without the
/// white space around it.
pub open spec fn listed_paths(output: Seq<char>) -> Seq<Seq<char>> {
    text_lines(output).map_values(|line: Seq<char>| trim(line))
}

/// The texts that `paths` hold.
pub open spec fn path_texts(paths: Seq<String>) -> Seq<Seq<char>> {
    paths.map_values(|path: String| path@)
}

/// The paths that a search printed, one for each line of its output.
pub fn listed_files(output: &str) -> (files: Vec<String>)
    ensures
        path_texts(files@) == listed_paths(output@),
{
    let text = chars_of(output);
    let lines = lines_of(text.as_slice());
    let mut files: Vec<String> = Vec::new();
    let mut k: usize = 0;
    while k < lines.len()
        invariant
            k <= lines@.len(),
            line_texts(lines@) == text_lines(output@),
            files@.len() == k,
            forall|j: int| 0 <= j < k ==> (#[trigger] files@[j])@ == trim(lines@[j]@),
        decreases lines.len() - k,
    {
        let line = lines[k].as_slice();
        let lo = strip_start_at(line, 0, line.len(), CharClass::Whitespace);
        let hi = strip_end_at(line, lo, line.len(), CharClass::Whitespace);
        assert(line@.subrange(0, line@.len() as int) =~= line@);
        files.push(string_of(&line[lo..hi]));
        k += 1;
    }
    assert(path_texts(files@) =~= listed_paths(output@)) by {
        assert forall|j: int| 0 <= j < files@.len() implies path_texts(files@)[j] == listed_paths(
            output@,
        )[j] by {
            assert(line_texts(lines@)[j] == lines@[j]@);
        }
    }
    files
}

} // verus!
