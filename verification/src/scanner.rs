//! The pointer scanner: which patterns a rule file tracks, what to expand
//! for each, and which file names the expansions gave.
//!
//! The scanner does not touch the file system. Whoever drives it reads the
//! rule file, expands each pattern against the tree, and hands back the
//! paths that the expansion gave.

use crate::download::last_segment;
use crate::text::{
    chars_of, contains, contains_text, count_leading_slashes, final_segment, first_token,
    has_no_slash, join_path, joined, leading_slashes, lemma_final_segment_has_no_slash,
    line_spans, line_spans_of, lines, scan_from, spans_view,
};
use vstd::prelude::*;
use vstd::slice::slice_subrange;
use vstd::string::*;

verus! {

/// Why nothing can be scanned.
#[derive(Clone, Copy, Debug, PartialEq, Eq, Structural)]
pub enum ScanError {
    /// The rule file is missing or cannot be read.
    ScanFailure,
}

/// The views of `texts`.
pub open spec fn texts_view(texts: Seq<String>) -> Seq<Seq<char>> {
    texts.map_values(|text: String| text@)
}

/// What marks a line of the rule file as a tracking rule.
pub open spec fn lfs_marker() -> Seq<char> {
    "filter=lfs"@
}

/// Whether `line` is a tracking rule: it holds the marker.
pub open spec fn is_tracking_line(line: Seq<char>) -> bool {
    contains_text(line, lfs_marker())
}

/// The patterns that the rule file `attributes` tracks: the first token of
/// every line that holds the marker, in the order of the lines.
pub open spec fn tracked_patterns(attributes: Seq<char>) -> Seq<Seq<char>> {
    lines(attributes).filter(|line: Seq<char>| is_tracking_line(line)).map_values(
        |line: Seq<char>| first_token(line),
    )
}

/// The patterns that the rule file `attributes` tracks.
pub fn tracking_patterns(attributes: &str) -> (patterns: Vec<String>)
    ensures
        texts_view(patterns@) == tracked_patterns(attributes@),
{
    let chars = chars_of(attributes);
    let marker = chars_of("filter=lfs");
    let spans = line_spans_of(chars.as_slice());
    let mut patterns: Vec<String> = Vec::new();
    let mut k: usize = 0;
    let ghost all = lines(attributes@);
    let ghost tracking = |line: Seq<char>| is_tracking_line(line);
    let ghost token = |line: Seq<char>| first_token(line);
    proof {
        reveal(Seq::filter);
    }
    while k < spans.len()
        invariant
            k <= spans.len(),
            chars@ == attributes@,
            marker@ == lfs_marker(),
            spans_view(spans@) == line_spans(chars@, 0),
            forall|i: int|
                0 <= i < spans.len() ==> (#[trigger] spans[i]).0 <= spans[i].1 <= chars.len(),
            all == lines(attributes@),
            tracking == |line: Seq<char>| is_tracking_line(line),
            token == |line: Seq<char>| first_token(line),
            texts_view(patterns@) == all.take(k as int).filter(tracking).map_values(token),
        decreases spans.len() - k,
    {
        let (from, to) = spans[k];
        let line = slice_subrange(chars.as_slice(), from, to);
        proof {
            reveal(Seq::filter);
            assert(all.take(k + 1).drop_last() =~= all.take(k as int));
        }
        if contains(line, marker.as_slice()) {
            let start = scan_from(line, 0, false);
            let end = scan_from(line, start, true);
            let pattern = attributes.substring_char(from + start, from + end).to_owned();
            proof {
                reveal(Seq::filter);
                assert(pattern@ =~= first_token(line@));
                assert(texts_view(patterns@.push(pattern)) =~= texts_view(patterns@).push(
                    pattern@,
                ));
            }
            patterns.push(pattern);
        }
        k = k + 1;
    }
    assert(all.take(k as int) =~= all);
    patterns
}

/// The patterns to expand for a rule file whose text is `attributes`, or
/// that is missing (`None`): without a rule file there is nothing to scan.
pub fn scan_rules(attributes: Option<&str>) -> (rules: Result<Vec<String>, ScanError>)
    ensures
        match attributes {
            Some(text) => rules matches Ok(patterns) && texts_view(patterns@) == tracked_patterns(
                text@,
            ),
            None => rules == Err::<Vec<String>, ScanError>(ScanError::ScanFailure),
        },
{
    match attributes {
        Some(text) => Ok(tracking_patterns(text)),
        None => Err(ScanError::ScanFailure),
    }
}

/// What to expand for `pattern` in the repository at `root`: the pattern
/// below the root, whether or not it is written with a leading `/`. With an
/// empty root it is the pattern itself, without leading `/`.
pub open spec fn rooted(root: Seq<char>, pattern: Seq<char>) -> Seq<char> {
    joined(root, pattern.skip(leading_slashes(pattern)))
}

/// What to expand for the tracked pattern `pattern` in the repository at
/// `root`.
pub fn rooted_pattern(root: &str, pattern: &str) -> (glob: String)
    ensures
        glob@ == rooted(root@, pattern@),
{
    let chars = chars_of(pattern);
    let skip = count_leading_slashes(chars.as_slice());
    let relative = pattern.substring_char(skip, chars.len());
    join_path(root, relative)
}

/// What expanding one tracked pattern against the tree gave.
pub enum Expansion {
    /// The pattern is malformed, or could not be expanded. The rule is
    /// passed over.
    Failed,
    /// The entries that match: for each its path, or `None` for an entry
    /// that could not be read, which is passed over.
    Found(Vec<Option<String>>),
}

/// The file names of the paths among `entries`, in order: of each path
/// what follows its last `/`.
pub open spec fn found_names(entries: Seq<Option<String>>) -> Seq<Seq<char>> {
    entries.filter(|entry: Option<String>| entry is Some).map_values(
        |entry: Option<String>| final_segment(entry.unwrap()@),
    )
}

/// The file names that `expansion` gave.
pub open spec fn expansion_names(expansion: Expansion) -> Seq<Seq<char>> {
    match expansion {
        Expansion::Failed => Seq::empty(),
        Expansion::Found(entries) => found_names(entries@),
    }
}

/// The file names that `expansions` gave, without the directories they lie
/// in: those of the first rule, then those of the second, and so on. A file
/// that several rules match comes once for each.
pub open spec fn scanned_names(expansions: Seq<Expansion>) -> Seq<Seq<char>> {
    expansions.map_values(|expansion: Expansion| expansion_names(expansion)).flatten()
}

/// A scanned name is a file name: it holds no `/`.
pub proof fn lemma_scanned_names_are_plain(expansions: Seq<Expansion>)
    ensures
        forall|i: int|
            0 <= i < scanned_names(expansions).len() ==> has_no_slash(
                #[trigger] scanned_names(expansions)[i],
            ),
    decreases expansions.len(),
{
    let per_rule = expansions.map_values(|expansion: Expansion| expansion_names(expansion));
    if expansions.len() > 0 {
        let earlier = expansions.drop_last();
        lemma_scanned_names_are_plain(earlier);
        per_rule.lemma_flatten_and_flatten_alt_are_equivalent();
        per_rule.drop_last().lemma_flatten_and_flatten_alt_are_equivalent();
        assert(per_rule.drop_last() =~= earlier.map_values(
            |expansion: Expansion| expansion_names(expansion),
        ));
        let last = expansion_names(expansions.last());
        assert(scanned_names(expansions) =~= scanned_names(earlier) + last);
        assert forall|k: int| 0 <= k < last.len() implies has_no_slash(#[trigger] last[k]) by {
            if let Expansion::Found(entries) = expansions.last() {
                let known = entries@.filter(|entry: Option<String>| entry is Some);
                lemma_final_segment_has_no_slash(known[k].unwrap()@);
            }
        }
    }
}

/// Appends the file names among `entries` to `names`.
fn push_found(names: &mut Vec<String>, entries: &Vec<Option<String>>)
    ensures
        texts_view(final(names)@) == texts_view(old(names)@) + found_names(entries@),
{
    let ghost known = |entry: Option<String>| entry is Some;
    let ghost name = |entry: Option<String>| final_segment(entry.unwrap()@);
    let ghost start = texts_view(names@);
    let mut i: usize = 0;
    proof {
        reveal(Seq::filter);
    }
    while i < entries.len()
        invariant
            i <= entries.len(),
            known == |entry: Option<String>| entry is Some,
            name == |entry: Option<String>| final_segment(entry.unwrap()@),
            texts_view(names@) == start + entries@.take(i as int).filter(known).map_values(name),
        decreases entries.len() - i,
    {
        proof {
            reveal(Seq::filter);
            assert(entries@.take(i + 1).drop_last() =~= entries@.take(i as int));
        }
        match &entries[i] {
            Some(found) => {
                let file_name = last_segment(found.as_str());
                assert(texts_view(names@.push(file_name)) =~= texts_view(names@).push(
                    file_name@,
                ));
                names.push(file_name);
            },
            None => {},
        }
        i = i + 1;
    }
    assert(entries@.take(i as int) =~= entries@);
}

/// The file names that `expansions` gave.
pub fn pointer_names(expansions: &Vec<Expansion>) -> (names: Vec<String>)
    ensures
        texts_view(names@) == scanned_names(expansions@),
        forall|i: int| 0 <= i < names.len() ==> has_no_slash(#[trigger] names[i]@),
{
    let ghost per_rule = expansions@.map_values(|expansion: Expansion| expansion_names(expansion));
    let mut names: Vec<String> = Vec::new();
    let mut k: usize = 0;
    while k < expansions.len()
        invariant
            k <= expansions.len(),
            per_rule == expansions@.map_values(|expansion: Expansion| expansion_names(expansion)),
            texts_view(names@) == per_rule.take(k as int).flatten(),
        decreases expansions.len() - k,
    {
        proof {
            let next = per_rule.take(k + 1);
            next.lemma_flatten_and_flatten_alt_are_equivalent();
            per_rule.take(k as int).lemma_flatten_and_flatten_alt_are_equivalent();
            assert(next.drop_last() =~= per_rule.take(k as int));
        }
        match &expansions[k] {
            Expansion::Failed => {
            },
            Expansion::Found(entries) => {
                push_found(&mut names, entries);
            },
        }
        k = k + 1;
    }
    assert(per_rule.take(k as int) =~= per_rule);
    proof {
        lemma_scanned_names_are_plain(expansions@);
        assert forall|i: int| 0 <= i < names.len() implies has_no_slash(#[trigger] names[i]@) by {
            assert(names[i]@ == scanned_names(expansions@)[i]);
        }
    }
    names
}

} // verus!
