//! The pointer resolver: reads the hash that a pointer stub declares and
//! makes the download descriptor of the file it stands for.
//!
//! The resolver does not open files: it is handed the text of each stub.

use crate::download::LargeFileInformation;
use crate::text::{
    all_hex, all_hex_in, chars_of, final_segment, has_no_slash, line_spans, line_spans_of, lines,
    matches_at, scan_from, segment_start, spans_view, starts_with, trim, trim_end_index,
};
use vstd::prelude::*;
use vstd::slice::slice_subrange;
use vstd::string::*;

verus! {

/// What a hash declaration begins with.
pub open spec fn oid_prefix() -> Seq<char> {
    "oid sha256:"@
}

/// The hash that `line` declares, if it is a hash declaration: the prefix
/// `oid sha256:`, then 64 hexadecimal digits, with or without white space
/// around them.
pub open spec fn declared_hash(line: Seq<char>) -> Option<Seq<char>> {
    let hash = trim(line.skip(oid_prefix().len() as int));
    if starts_with(line, oid_prefix()) && hash.len() == 64 && all_hex(hash) {
        Some(hash)
    } else {
        None
    }
}

/// The hash that the first hash declaration among `lines` declares.
pub open spec fn first_declaration(lines: Seq<Seq<char>>) -> Option<Seq<char>>
    decreases lines.len(),
{
    if lines.len() == 0 {
        None
    } else {
        match declared_hash(lines.first()) {
            Some(hash) => Some(hash),
            None => first_declaration(lines.drop_first()),
        }
    }
}

/// The hash that the pointer stub `text` declares: that of its first hash
/// declaration. Other lines are ignored.
pub open spec fn pointer_oid(text: Seq<char>) -> Option<Seq<char>> {
    first_declaration(lines(text))
}

/// The hash that the pointer stub `content` declares, as it is written
/// there; `None` when the stub holds no hash declaration.
pub fn pointer_hash(content: &str) -> (hash: Option<String>)
    ensures
        match hash {
            Some(found) => pointer_oid(content@) == Some(found@),
            None => pointer_oid(content@) is None,
        },
{
    let chars = chars_of(content);
    let prefix = chars_of("oid sha256:");
    let spans = line_spans_of(chars.as_slice());
    let ghost all = lines(content@);
    let mut k: usize = 0;
    assert(all.skip(0) =~= all);
    while k < spans.len()
        invariant
            k <= spans.len(),
            chars@ == content@,
            prefix@ == oid_prefix(),
            spans_view(spans@) == line_spans(chars@, 0),
            forall|i: int|
                0 <= i < spans.len() ==> (#[trigger] spans[i]).0 <= spans[i].1 <= chars.len(),
            all == lines(content@),
            pointer_oid(content@) == first_declaration(all.skip(k as int)),
        decreases spans.len() - k,
    {
        let (from, to) = spans[k];
        let line = slice_subrange(chars.as_slice(), from, to);
        assert(all.skip(k as int).drop_first() =~= all.skip(k + 1));
        if matches_at(line, prefix.as_slice(), 0) {
            let rest = slice_subrange(line, prefix.len(), line.len());
            let start = scan_from(rest, 0, false);
            let end = trim_end_index(rest);
            if start < end && end - start == 64 && all_hex_in(rest, start, end) {
                let at: usize = from + prefix.len();
                let found = content.substring_char(at + start, at + end).to_owned();
                return Some(found);
            }
        }
        k = k + 1;
    }
    None
}

/// A pointer stub as it was found in the repository.
pub struct PointerFile {
    /// The name of the stub, which is the name of the file it stands for.
    pub name: String,
    /// The text of the stub; `None` when it could not be read.
    pub content: Option<String>,
}

/// Why a pointer stub gives no descriptor. Neither stops the batch.
#[derive(Clone, Copy, Debug, PartialEq, Eq, Structural)]
pub enum PointerParseFailure {
    /// The stub could not be read.
    Unreadable,
    /// The stub holds no hash declaration.
    NoDeclaration,
}

impl PointerFile {
    /// The hash that the stub declares; `None` when it could not be read
    /// or holds no hash declaration.
    pub open spec fn oid(self) -> Option<Seq<char>> {
        match self.content {
            Some(text) => pointer_oid(text@),
            None => None,
        }
    }

    /// The hash that the stub declares, or why it declares none.
    pub fn parse(&self) -> (hash: Result<String, PointerParseFailure>)
        ensures
            match hash {
                Ok(found) => self.oid() == Some(found@),
                Err(PointerParseFailure::Unreadable) => self.content is None,
                Err(PointerParseFailure::NoDeclaration) => self.content is Some && self.oid()
                    is None,
            },
    {
        match &self.content {
            Some(text) => match pointer_hash(text.as_str()) {
                Some(found) => Ok(found),
                None => Err(PointerParseFailure::NoDeclaration),
            },
            None => Err(PointerParseFailure::Unreadable),
        }
    }
}

/// Where the file `name` of the repository `repository` is served from.
pub open spec fn file_url(base_url: Seq<char>, repository: Seq<char>, name: Seq<char>) -> Seq<
    char,
> {
    base_url + "/"@ + repository + "/resolve/main/"@ + name
}

/// Where the file `name` of the repository `repository` is served from:
/// `<base_url>/<repository>/resolve/main/<name>`.
pub fn remote_url(base_url: &str, repository: &str, name: &str) -> (url: String)
    ensures
        url@ == file_url(base_url@, repository@, name@),
{
    let mut url = String::from_str(base_url);
    url.append("/");
    url.append(repository);
    url.append("/resolve/main/");
    url.append(name);
    url
}

/// The descriptors of `pointers`, each as its URL and its declared hash: one
/// for every stub that declares a hash, in the order of the stubs.
pub open spec fn resolved(
    base_url: Seq<char>,
    repository: Seq<char>,
    pointers: Seq<PointerFile>,
) -> Seq<(Seq<char>, Seq<char>)>
    decreases pointers.len(),
{
    if pointers.len() == 0 {
        Seq::empty()
    } else {
        let before = resolved(base_url, repository, pointers.drop_last());
        match pointers.last().oid() {
            Some(hash) => before.push(
                (file_url(base_url, repository, pointers.last().name@), hash),
            ),
            None => before,
        }
    }
}

/// Descriptors, each as its URL and its declared hash.
pub open spec fn descriptors_view(files: Seq<LargeFileInformation>) -> Seq<(Seq<char>, Seq<char>)> {
    files.map_values(|file: LargeFileInformation| (file.url@, file.sha256@))
}

/// The download descriptors of `pointers` in the repository `repository`
/// served at `base_url`. A stub that could not be read, or that declares no
/// hash, gives none and does not stop the others.
pub fn resolve(base_url: &str, repository: &str, pointers: &Vec<PointerFile>) -> (files: Vec<
    LargeFileInformation,
>)
    ensures
        descriptors_view(files@) == resolved(base_url@, repository@, pointers@),
{
    let mut files: Vec<LargeFileInformation> = Vec::new();
    let mut k: usize = 0;
    while k < pointers.len()
        invariant
            k <= pointers.len(),
            descriptors_view(files@) == resolved(base_url@, repository@, pointers@.take(k as int)),
        decreases pointers.len() - k,
    {
        assert(pointers@.take(k + 1).drop_last() =~= pointers@.take(k as int));
        let pointer = &pointers[k];
        match pointer.parse() {
            Ok(sha256) => {
                let url = remote_url(base_url, repository, pointer.name.as_str());
                let file = LargeFileInformation::new(url, sha256);
                files.push(file);
            },
            Err(_) => {},
        }
        k = k + 1;
    }
    assert(pointers@.take(k as int) =~= pointers@);
    files
}

/// What follows a `/` and holds none is a last segment.
pub proof fn lemma_final_segment_of_join(prefix: Seq<char>, name: Seq<char>)
    requires
        prefix.len() > 0,
        prefix.last() == '/',
        has_no_slash(name),
    ensures
        segment_start(prefix + name) == prefix.len(),
        final_segment(prefix + name) == name,
    decreases name.len(),
{
    let whole = prefix + name;
    if name.len() == 0 {
    } else {
        assert(whole.drop_last() =~= prefix + name.drop_last());
        lemma_final_segment_of_join(prefix, name.drop_last());
    }
}

/// The file of a pointer stub is stored under the stub's name: the last
/// segment of its URL is the name, for every name that holds no `/`, as the
/// names that the scanner gives do.
pub proof fn lemma_destination_is_name(base_url: Seq<char>, repository: Seq<char>, name: Seq<char>)
    requires
        has_no_slash(name),
    ensures
        final_segment(file_url(base_url, repository, name)) == name,
{
    reveal_strlit("/resolve/main/");
    let prefix = base_url + "/"@ + repository + "/resolve/main/"@;
    lemma_final_segment_of_join(prefix, name);
}

} // verus!
