use rustyface::download::{last_segment, DownloadArguments, LargeFileInformation};
use rustyface::resolver::{pointer_hash, remote_url, resolve, PointerFile, PointerParseFailure};

const HASH: &str = "abc1230000000000000000000000000000000000000000000000000000000def";
const EMPTY: &str = "e3b0c44298fc1c149afbf4c8996fb92427ae41e4649b934ca495991b7852b855";

fn arguments() -> DownloadArguments {
    DownloadArguments {
        repository: "sentence-transformers/all-MiniLM-L6-v2".into(),
        tasks: 4,
        repository_local_path: Some("/work/all-MiniLM-L6-v2".into()),
    }
}

fn stub(name: &str, content: Option<&str>) -> PointerFile {
    PointerFile { name: name.into(), content: content.map(|c| c.to_string()) }
}

fn pairs(files: &[LargeFileInformation]) -> Vec<(String, String)> {
    files.iter().map(|f| (f.url.clone(), f.sha256.clone())).collect()
}

#[test]
fn the_declared_hash_is_read_from_the_stub() {
    let content = format!("oid sha256:{}\nsize 42\n", HASH);
    assert_eq!(pointer_hash(&content), Some(HASH.to_string()));
}

#[test]
fn the_hash_of_a_whole_pointer_file() {
    let content = format!(
        "version https://git-lfs.github.com/spec/v1\noid sha256:{}\nsize 90868376\n",
        EMPTY
    );
    assert_eq!(pointer_hash(&content), Some(EMPTY.to_string()));
    let crlf = content.replace('\n', "\r\n");
    assert_eq!(pointer_hash(&crlf), Some(EMPTY.to_string()));
    let unfinished = format!("size 1\noid sha256:{}", EMPTY);
    assert_eq!(pointer_hash(&unfinished), Some(EMPTY.to_string()));
}

#[test]
fn the_hash_is_kept_as_it_is_written() {
    let upper = HASH.to_uppercase();
    assert_eq!(pointer_hash(&format!("oid sha256:{}\n", upper)), Some(upper));
}

#[test]
fn white_space_around_the_hash_is_dropped() {
    assert_eq!(pointer_hash(&format!("oid sha256: {} \t\n", HASH)), Some(HASH.to_string()));
    assert_eq!(pointer_hash(&format!("oid sha256:{}\r", HASH)), Some(HASH.to_string()));
}

#[test]
fn the_first_declaration_counts() {
    let content = format!("oid sha256:{}\noid sha256:{}\n", HASH, EMPTY);
    assert_eq!(pointer_hash(&content), Some(HASH.to_string()));
}

#[test]
fn a_line_that_is_no_declaration_is_ignored() {
    let content = format!(
        "oid sha256:zzz\noid sha256:{}\n oid sha256:{}\noid sha512:{}\noid sha256:{}\n",
        &HASH[..63],
        HASH,
        HASH,
        EMPTY
    );
    assert_eq!(pointer_hash(&content), Some(EMPTY.to_string()));
}

#[test]
fn a_stub_without_declaration_declares_nothing() {
    assert_eq!(pointer_hash(""), None);
    assert_eq!(pointer_hash("version https://git-lfs.github.com/spec/v1\nsize 42\n"), None);
    assert_eq!(pointer_hash("oid sha256:"), None);
    assert_eq!(pointer_hash("oid sha256:abc123\nsize 42\n"), None);
    assert_eq!(pointer_hash(&format!("oid sha256:{}0\n", HASH)), None);
    assert_eq!(pointer_hash(&format!("oid sha256:{}g{}\n", &HASH[..32], &HASH[33..])), None);
    assert_eq!(pointer_hash(&format!("oid sha256:{} {}\n", &HASH[..32], &HASH[32..])), None);
    assert_eq!(pointer_hash(&format!("OID SHA256:{}\n", HASH)), None);
    assert_eq!(pointer_hash(&format!("oid  sha256:{}\n", HASH)), None);
    assert_eq!(pointer_hash("this is an ordinary file\nwith two lines\n"), None);
}

#[test]
fn a_stub_tells_why_it_declares_nothing() {
    assert_eq!(stub("a", None).parse(), Err(PointerParseFailure::Unreadable));
    assert_eq!(stub("a", Some("size 42\n")).parse(), Err(PointerParseFailure::NoDeclaration));
    assert_eq!(stub("a", Some("")).parse(), Err(PointerParseFailure::NoDeclaration));
    assert_eq!(
        stub("a", Some(&format!("oid sha256:{}\nsize 42\n", HASH))).parse(),
        Ok(HASH.to_string())
    );
}

#[test]
fn the_url_joins_base_repository_and_name() {
    assert_eq!(
        remote_url("https://hf-mirror.com", "sentence-transformers/all-MiniLM-L6-v2", "model.bin"),
        "https://hf-mirror.com/sentence-transformers/all-MiniLM-L6-v2/resolve/main/model.bin"
    );
    assert_eq!(remote_url("", "", ""), "//resolve/main/");
    assert_eq!(remote_url("h/", "r", "a/b"), "h//r/resolve/main/a/b");
}

#[test]
fn one_stub_gives_one_descriptor() {
    let pointers = vec![stub("model.bin", Some(&format!("oid sha256:{}\nsize 42\n", HASH)))];
    let files = arguments().extract_lfs_urls(&pointers, &"https://hf-mirror.com".to_string());
    assert_eq!(
        pairs(&files),
        vec![(
            "https://hf-mirror.com/sentence-transformers/all-MiniLM-L6-v2/resolve/main/model.bin"
                .to_string(),
            HASH.to_string()
        )]
    );
    assert!(files[0].sha256.eq_ignore_ascii_case(HASH));
    assert_eq!(files[0].file_name(), "model.bin");
}

#[test]
fn a_stub_that_cannot_be_resolved_does_not_stop_the_others() {
    let pointers = vec![
        stub("a.bin", Some(&format!("oid sha256:{}\nsize 1\n", HASH))),
        stub("unreadable.bin", None),
        stub("README.md", Some("# an ordinary file\n")),
        stub("b.bin", Some(&format!("version x\noid sha256:{}\n", EMPTY))),
    ];
    let files = resolve("https://h", "o/r", &pointers);
    assert_eq!(
        pairs(&files),
        vec![
            ("https://h/o/r/resolve/main/a.bin".to_string(), HASH.to_string()),
            ("https://h/o/r/resolve/main/b.bin".to_string(), EMPTY.to_string()),
        ]
    );
}

#[test]
fn no_stubs_give_no_descriptors() {
    assert!(arguments().extract_lfs_urls(&Vec::new(), &"https://hf-mirror.com".to_string()).is_empty());
    assert!(resolve("https://h", "o/r", &vec![stub("x", None), stub("y", Some(""))]).is_empty());
}

#[test]
fn a_stub_that_two_rules_matched_gives_two_descriptors() {
    let content = format!("oid sha256:{}\n", HASH);
    let pointers = vec![stub("m.bin", Some(&content)), stub("m.bin", Some(&content))];
    let files = resolve("https://h", "o/r", &pointers);
    assert_eq!(files.len(), 2);
    assert_eq!(files[0].url, files[1].url);
}

#[test]
fn the_file_is_stored_under_the_name_of_the_stub() {
    for name in ["model.bin", "pytorch_model.bin", "a b.bin", "", ".hidden", "x.tar.gz"] {
        let url = remote_url("https://hf-mirror.com", "o/r", name);
        assert_eq!(last_segment(&url), name);
        let file = LargeFileInformation::new(url, HASH.into());
        assert_eq!(file.file_name(), name);
    }
    let nested = remote_url("https://hf-mirror.com", "o/r", "sub/model.bin");
    assert_eq!(last_segment(&nested), "model.bin");
}

#[test]
fn the_last_segment_follows_the_last_slash() {
    assert_eq!(last_segment("a/b/c"), "c");
    assert_eq!(last_segment("c"), "c");
    assert_eq!(last_segment("a/b/"), "");
    assert_eq!(last_segment(""), "");
    assert_eq!(last_segment("https://host/path/файл.bin"), "файл.bin");
}

#[test]
fn the_descriptor_holds_what_it_is_made_of() {
    let file = LargeFileInformation::new("https://h/f".to_string(), HASH.to_string());
    assert_eq!(file.url, "https://h/f");
    assert_eq!(file.sha256, HASH);
}

#[test]
fn the_repository_is_cloned_from_the_endpoint() {
    let arguments = arguments();
    assert_eq!(
        arguments.clone_url("https://hf-mirror.com/"),
        "https://hf-mirror.com/sentence-transformers/all-MiniLM-L6-v2"
    );
    assert_eq!(
        arguments.clone_url("https://hf-mirror.com"),
        "https://hf-mirror.com/sentence-transformers/all-MiniLM-L6-v2"
    );
    assert_eq!(arguments.clone_url(""), "/sentence-transformers/all-MiniLM-L6-v2");
}

#[test]
fn the_file_is_stored_in_the_directory_of_the_repository() {
    let file = LargeFileInformation::new("https://h/o/r/resolve/main/model.bin".into(), HASH.into());
    assert_eq!(
        arguments().destination_path(&file),
        Some("/work/all-MiniLM-L6-v2/model.bin".to_string())
    );
    let nowhere = DownloadArguments { repository: "o/r".into(), tasks: 1, repository_local_path: None };
    assert_eq!(nowhere.destination_path(&file), None);
    let here = DownloadArguments {
        repository: "o/r".into(),
        tasks: 1,
        repository_local_path: Some(String::new()),
    };
    assert_eq!(here.destination_path(&file), Some("model.bin".to_string()));
}
