//! What the analysis reads off the source text: the lines that carry the marker by which
//! a value is passed over.

use vstd::prelude::*;
use crate::text::chars_of;
use crate::text::find_char;
use crate::text::find_char_from;
use crate::text::first_index_of;
use crate::text::lemma_first_index_of;
use crate::text::occurs_at;
use crate::text::slice_chars;

verus! {

/// The words that, in a comment at the end of a line, tell the analysis to pass over
/// the value that ends on that line.
pub open spec fn marker_text() -> Seq<char> {
    "sqint: ignore"@
}

/// Whether a line carries the marker: the words stand somewhere after its first `#`.
pub open spec fn has_ignore_marker(line: Seq<char>) -> bool {
    exists|at: int| first_index_of(line, '#') < at && occurs_at(line, marker_text(), at)
}

/// The lines of a text: what stands between its line feeds.
pub open spec fn lines_of(src: Seq<char>) -> Seq<Seq<char>>
    decreases src.len(),
{
    let end = first_index_of(src, '\n');
    if end >= src.len() {
        seq![src]
    } else {
        proof {
            lemma_first_index_of(src, '\n');
        }
        seq![src.take(end)] + lines_of(src.skip(end + 1))
    }
}

/// For each line, whether it carries the marker.
pub open spec fn marked_lines(lines: Seq<Seq<char>>) -> Seq<bool> {
    lines.map_values(|line: Seq<char>| has_ignore_marker(line))
}

/// Whether the line with this number, counted from 1, carries the marker.
pub open spec fn ignores(marked: Seq<bool>, line: usize) -> bool {
    1 <= line <= marked.len() && marked[line - 1]
}

/// What the analysis needs of the source text: for each line, whether it is marked.
#[derive(Debug, PartialEq, Eq)]
pub struct PreanalyzedFile {
    pub marked: Vec<bool>,
}

impl View for PreanalyzedFile {
    type V = Seq<bool>;

    open spec fn view(&self) -> Seq<bool> {
        self.marked@
    }
}

fn matches_at(line: &Vec<char>, words: &Vec<char>, at: usize) -> (found: bool)
    requires
        at + words.len() <= line.len(),
    ensures
        found == occurs_at(line@, words@, at as int),
{
    let mut k: usize = 0;
    while k < words.len()
        invariant
            k <= words.len(),
            at + words.len() <= line.len(),
            forall|j: int| 0 <= j < k ==> line@[at + j] == words@[j],
        decreases words.len() - k,
    {
        if line[at + k] != words[k] {
            assert(line@.subrange(at as int, at + words.len())[k as int] != words@[k as int]);
            return false;
        }
        k += 1;
    }
    assert(line@.subrange(at as int, at + words.len()) =~= words@);
    true
}

/// Tells whether a line carries the marker.
pub fn line_is_marked(line: &Vec<char>) -> (marked: bool)
    ensures
        marked == has_ignore_marker(line@),
{
    let words = chars_of("sqint: ignore");
    proof {
        reveal_strlit("sqint: ignore");
    }
    let hash = find_char(line, '#');
    if hash >= line.len() {
        return false;
    }
    let mut at: usize = hash + 1;
    while at < line.len() && line.len() - at >= words.len()
        invariant
            hash < at <= line.len(),
            words.len() == 13,
            hash == first_index_of(line@, '#'),
            words@ == marker_text(),
            forall|j: int| hash < j < at ==> !occurs_at(line@, marker_text(), j),
        decreases line.len() - at,
    {
        if matches_at(line, &words, at) {
            return true;
        }
        at += 1;
    }
    false
}

impl PreanalyzedFile {
    /// Reads the marks off a source text.
    pub fn from_src(src: &str) -> (file: PreanalyzedFile)
        ensures
            file@ == marked_lines(lines_of(src@)),
    {
        let chars = chars_of(src);
        let mut marked: Vec<bool> = Vec::new();
        let mut start: usize = 0;
        assert(chars@.skip(0) =~= chars@);
        assert(marked_lines(Seq::<Seq<char>>::empty()) =~= Seq::<bool>::empty());
        loop
            invariant
                start <= chars.len(),
                chars@ == src@,
                marked_lines(lines_of(src@)) == marked@ + marked_lines(
                    lines_of(chars@.skip(start as int)),
                ),
            decreases chars.len() - start,
        {
            let ghost rest = chars@.skip(start as int);
            let stop = find_char_from(&chars, '\n', start);
            let end: usize = stop - start;
            let line = slice_chars(&chars, start, stop);
            assert(line@ =~= rest.take(end as int));
            let ghost before = marked@;
            marked.push(line_is_marked(&line));
            if stop >= chars.len() {
                proof {
                    assert(rest.take(end as int) =~= rest);
                    assert(marked_lines(seq![rest]) =~= seq![has_ignore_marker(rest)]);
                    assert(marked@ =~= before + marked_lines(lines_of(rest)));
                }
                return PreanalyzedFile { marked };
            }
            proof {
                let later = lines_of(rest.skip(end + 1));
                assert(rest.skip(end + 1) =~= chars@.skip(start + end + 1));
                assert(marked_lines(seq![rest.take(end as int)] + later) =~= seq![
                    has_ignore_marker(rest.take(end as int)),
                ] + marked_lines(later));
                assert(before + (seq![has_ignore_marker(rest.take(end as int))] + marked_lines(
                    later,
                )) =~= marked@ + marked_lines(later));
            }
            start = start + end + 1;
        }
    }

    /// Tells whether the line with this number, counted from 1, is marked.
    pub fn is_ignored(&self, line: usize) -> (ignored: bool)
        ensures
            ignored == ignores(self@, line),
    {
        line >= 1 && line <= self.marked.len() && self.marked[line - 1]
    }
}

} // verus!
