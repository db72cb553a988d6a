//! The run's arguments and the download descriptors.

use crate::engine::{destinations, EngineModel, TransferEngine};
use crate::resolver::{descriptors_view, resolve, resolved, PointerFile};
use crate::scanner::{pointer_names, scanned_names, texts_view, Expansion};
use crate::text::{
    chars_of, ensure_trailing_slash, final_segment, has_no_slash, join_path, joined,
    segment_start_of, with_trailing_slash,
};
use vstd::prelude::*;
use vstd::string::*;

verus! {

/// What a run is asked to do.
pub struct DownloadArguments {
    /// The repository to mirror, as `owner/name`.
    pub repository: String,
    /// How many files may be downloading at once.
    pub tasks: usize,
    /// Where the repository lies on disk, once it has been cloned.
    pub repository_local_path: Option<String>,
}

impl DownloadArguments {
    /// Where the repository is cloned from, for a server at `endpoint`.
    pub open spec fn remote(self, endpoint: Seq<char>) -> Seq<char> {
        with_trailing_slash(endpoint) + self.repository@
    }

    /// Where the repository is cloned from, for a server at `endpoint`: the
    /// endpoint, a `/` unless it ends in one, and the repository.
    pub fn clone_url(&self, endpoint: &str) -> (url: String)
        ensures
            url@ == self.remote(endpoint@),
    {
        let mut url = ensure_trailing_slash(endpoint);
        url.append(self.repository.as_str());
        url
    }

    /// The names of the pointer stubs of the repository, from what the
    /// expansion of each tracked pattern gave: the file names of all
    /// matches, without the directories they lie in, rule after rule. A
    /// rule whose expansion failed gives none.
    pub fn read_lfs_pointers(&self, expansions: &Vec<Expansion>) -> (names: Vec<String>)
        ensures
            texts_view(names@) == scanned_names(expansions@),
            forall|i: int| 0 <= i < names.len() ==> has_no_slash(#[trigger] names[i]@),
    {
        pointer_names(expansions)
    }

    /// The download descriptors of the pointer stubs `pointers`, for a
    /// server at `base_url`: one for each stub that declares a hash, with
    /// the URL `<base_url>/<repository>/resolve/main/<name>`. The list may
    /// be empty.
    pub fn extract_lfs_urls(&self, pointers: &Vec<PointerFile>, base_url: &String) -> (files: Vec<
        LargeFileInformation,
    >)
        ensures
            descriptors_view(files@) == resolved(base_url@, self.repository@, pointers@),
    {
        resolve(base_url.as_str(), self.repository.as_str(), pointers)
    }

    /// The engine that downloads `large_file_information`, at most `tasks`
    /// files at once.
    pub fn engine(&self, large_file_information: Vec<LargeFileInformation>) -> (engine:
        TransferEngine)
        ensures
            engine@ == EngineModel::initial(
                self.tasks as nat,
                destinations(large_file_information@),
            ),
            engine@.wf(),
    {
        TransferEngine::new(self.tasks, large_file_information)
    }

    /// Where `file` is stored: under its file name, in the directory of the
    /// repository. `None` while the repository has no place on disk.
    pub fn destination_path(&self, file: &LargeFileInformation) -> (path: Option<String>)
        ensures
            match self.repository_local_path {
                Some(directory) => path matches Some(p) && p@ == joined(
                    directory@,
                    file.destination(),
                ),
                None => path is None,
            },
    {
        match &self.repository_local_path {
            Some(directory) => {
                let name = file.file_name();
                Some(join_path(directory.as_str(), name.as_str()))
            },
            None => None,
        }
    }
}

/// One large file to fetch: where it is served from and the SHA-256 hash,
/// in hexadecimal, that its content must have.
pub struct LargeFileInformation {
    pub url: String,
    pub sha256: String,
}

impl LargeFileInformation {
    /// The descriptor of the file served at `url` with the declared hash
    /// `sha256`.
    pub fn new(url: String, sha256: String) -> (file: Self)
        ensures
            file.url == url,
            file.sha256 == sha256,
    {
        LargeFileInformation { url, sha256 }
    }

    /// The name the file is stored under: the last segment of its URL.
    pub open spec fn destination(&self) -> Seq<char> {
        final_segment(self.url@)
    }

    /// The name the file is stored under: the last segment of its URL.
    pub fn file_name(&self) -> (name: String)
        ensures
            name@ == self.destination(),
    {
        last_segment(self.url.as_str())
    }
}

/// What follows the last `/` of `path`; the whole of it when it holds none.
pub fn last_segment(path: &str) -> (name: String)
    ensures
        name@ == final_segment(path@),
{
    let chars = chars_of(path);
    let start = segment_start_of(chars.as_slice());
    path.substring_char(start, chars.len()).to_owned()
}

} // verus!
