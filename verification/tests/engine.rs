use jet::cache::CacheStore;
use jet::compile::{CompileError, FileStore, RegistryStore};
use jet::expand::{
    capture_persist, download_step, make_report, match_extracts, persist_paths, populate_plan,
    read_manifest, recovery_dump, restore_writes, unpack_writes, ArchiveFormatError,
    DownloadOutcome, DownloadResult, DownloadStep, DownloadTask, ExpandOutcome, ReadOutcome,
};
use jet::archive::{read_container, unpack_selective, write_container, ArchiveEntry};
use jet::manifest::{Entry, Manifest, ProjectInfo, ScriptType, SourceEntry, SourceManifest};
use jet::modrinth::{VersionFile, VersionFileHashes};
use jet::pack::pack_entries;
use jet::Compression;

fn project() -> ProjectInfo {
    ProjectInfo {
        name: "demo".to_string(),
        description: "a demo".to_string(),
        version: "0.1.0".to_string(),
        authors: vec!["someone".to_string()],
    }
}

/// The manifest of the expansion scenario: a directory holding one literal
/// file, and a persist marker beside it.
fn scenario_manifest() -> SourceManifest {
    SourceManifest {
        project: project(),
        contents: vec![
            SourceEntry::Directory {
                name: "srv".to_string(),
                contents: vec![SourceEntry::File { name: "a.txt".to_string(), source_path: None }],
            },
            SourceEntry::Persist { name: "world".to_string() },
        ],
    }
}

fn scenario_stores() -> (FileStore, RegistryStore) {
    let mut fs = FileStore::new();
    fs.add("src/srv/a.txt".to_string(), b"abc".to_vec());
    (fs, RegistryStore::new())
}

#[test]
fn cache_second_fetch_hits_with_same_bytes() {
    let mut store = CacheStore::new();
    assert!(store.lookup("https://example.test/blob").is_none());
    let h = store.insert("https://example.test/blob", &b"hello".to_vec());
    let (bytes, addr) = store.lookup("https://example.test/blob").expect("hit");
    assert_eq!(bytes, b"hello".to_vec());
    assert_eq!(addr, h);
}

#[test]
fn cache_corrupted_blob_is_missed_and_replaced() {
    let mut store = CacheStore::new();
    store.insert("https://example.test/blob", &b"hello".to_vec());
    // corrupt the stored blob behind the alias
    store.blobs[0].1 = b"tampered".to_vec();
    assert!(store.lookup("https://example.test/blob").is_none());
    // the stale alias is gone; a fresh fetch files a new pair and hits
    store.insert("https://example.test/blob", &b"hello".to_vec());
    let (bytes, _) = store.lookup("https://example.test/blob").expect("fresh pair hits");
    assert_eq!(bytes, b"hello".to_vec());
}

#[test]
fn pack_writes_identical_content_once() {
    let source = SourceManifest {
        project: project(),
        contents: vec![
            SourceEntry::File { name: "one.bin".to_string(), source_path: None },
            SourceEntry::Directory {
                name: "d".to_string(),
                contents: vec![SourceEntry::File {
                    name: "two.bin".to_string(),
                    source_path: None,
                }],
            },
        ],
    };
    let resolved = source.resolve("src");
    let mut fs = FileStore::new();
    fs.add("src/one.bin".to_string(), b"same content".to_vec());
    fs.add("src/d/two.bin".to_string(), b"same content".to_vec());
    let entries = pack_entries(&resolved, None, &fs, &RegistryStore::new()).expect("pack");
    let blob_entries: Vec<&ArchiveEntry> =
        entries.iter().filter(|e| e.name.len() == 32).collect();
    assert_eq!(blob_entries.len(), 1);
    assert_eq!(blob_entries[0].data, b"same content".to_vec());
    assert_eq!(entries.len(), 2);
    assert_eq!(entries[0].name, "@manifest");
}

#[test]
fn pack_missing_file_is_a_compile_error() {
    let source = SourceManifest {
        project: project(),
        contents: vec![SourceEntry::File { name: "gone.txt".to_string(), source_path: None }],
    };
    let resolved = source.resolve("src");
    let err = pack_entries(&resolved, None, &FileStore::new(), &RegistryStore::new())
        .expect_err("missing file");
    assert_eq!(err, CompileError::MissingFile { path: "src/gone.txt".to_string() });
}

#[test]
fn pack_then_expand_reproduces_file_content() {
    let (fs, reg) = scenario_stores();
    let resolved = scenario_manifest().resolve("src");
    let entries = pack_entries(&resolved, None, &fs, &reg).expect("pack");
    // through the real container stream, compressed
    let bytes = write_container(&entries, Compression::Zlib).expect("container");
    let (back, errors) = read_container(&bytes, Compression::Zlib);
    assert_eq!(errors, 0);
    assert_eq!(back, entries);
    let m = read_manifest(&back).expect("manifest");
    let actions = m.as_actions("out");
    let plan = populate_plan(&actions);
    assert_eq!(plan.dirs, vec!["out/srv".to_string()]);
    assert_eq!(plan.downloads.len(), 0);
    assert_eq!(plan.pending.len(), 1);
    assert_eq!(plan.pending[0].1, "out/srv/a.txt");
    let writes = match_extracts(&back, plan.pending);
    assert_eq!(writes.len(), 1);
    assert_eq!(writes[0].path, "out/srv/a.txt");
    assert_eq!(writes[0].data, b"abc".to_vec());
}

#[test]
fn persist_content_survives_redeploy() {
    let (fs, reg) = scenario_stores();
    let resolved = scenario_manifest().resolve("src");
    let entries = pack_entries(&resolved, None, &fs, &reg).expect("pack");
    let m = read_manifest(&entries).expect("manifest");
    let actions = m.as_actions("out");
    let ppaths = persist_paths(&actions);
    assert_eq!(ppaths, vec!["out/world".to_string()]);

    // first expand: the persist path does not exist yet
    let reads = vec![("out/world".to_string(), ReadOutcome::NotFound)];
    let captured = capture_persist("out", &reads).expect("capture");
    assert_eq!(captured.len(), 0);
    let plan = populate_plan(&actions);
    let writes = match_extracts(&entries, plan.pending);
    assert_eq!(writes.len(), 1);
    assert_eq!(writes[0].path, "out/srv/a.txt");
    assert_eq!(restore_writes("out", &captured).len(), 0);

    // the user writes `world`; the second expand captures and restores it
    let reads2 = vec![(
        "out/world".to_string(),
        ReadOutcome::Found { data: b"save".to_vec() },
    )];
    let captured2 = capture_persist("out", &reads2).expect("capture");
    assert_eq!(captured2.len(), 1);
    assert_eq!(captured2[0].path, "world");
    let plan2 = populate_plan(&actions);
    let writes2 = match_extracts(&entries, plan2.pending);
    assert_eq!(writes2[0].path, "out/srv/a.txt");
    assert_eq!(writes2[0].data, b"abc".to_vec());
    let restores = restore_writes("out", &captured2);
    assert_eq!(restores.len(), 1);
    assert_eq!(restores[0].path, "out/world");
    assert_eq!(restores[0].data, b"save".to_vec());
}

#[test]
fn capture_read_error_is_fatal() {
    let reads = vec![
        ("out/a".to_string(), ReadOutcome::NotFound),
        ("out/b".to_string(), ReadOutcome::ReadError),
    ];
    let err = capture_persist("out", &reads).expect_err("fatal");
    assert_eq!(err, "out/b");
}

#[test]
fn failed_download_leaves_others_intact() {
    let mut store = CacheStore::new();
    let bad = DownloadTask {
        path: "out/bad.bin".to_string(),
        display_name: "bad".to_string(),
        url: "https://example.test/bad".to_string(),
        sha512: None,
    };
    let good = DownloadTask {
        path: "out/good.bin".to_string(),
        display_name: "good".to_string(),
        url: "https://example.test/good".to_string(),
        sha512: None,
    };
    assert!(matches!(download_step(&mut store, &bad, None), DownloadStep::NeedFetch));
    let r1 = match download_step(
        &mut store,
        &bad,
        Some(&DownloadOutcome::HttpStatus { code: 404 }),
    ) {
        DownloadStep::Done { result } => result,
        _ => panic!("expected a finished task"),
    };
    assert!(matches!(&r1, DownloadResult::FetchFailed { url } if url == &bad.url));
    assert!(matches!(download_step(&mut store, &good, None), DownloadStep::NeedFetch));
    let r2 = match download_step(
        &mut store,
        &good,
        Some(&DownloadOutcome::Fetched { body: b"payload".to_vec() }),
    ) {
        DownloadStep::Done { result } => result,
        _ => panic!("expected a finished task"),
    };
    match &r2 {
        DownloadResult::Written { write, .. } => {
            assert_eq!(write.path, "out/good.bin");
            assert_eq!(write.data, b"payload".to_vec());
        },
        _ => panic!("the good download must be written"),
    }
    let report = make_report(&vec![r1, r2], 0, true);
    assert_eq!(report.failed_downloads, vec!["https://example.test/bad".to_string()]);
    assert!(matches!(report.outcome(), ExpandOutcome::Incomplete));
    assert!(!report.is_success());
}

#[test]
fn integrity_mismatch_blocks_the_write() {
    let mut store = CacheStore::new();
    let digest_of_abc = {
        // the SHA-512 of "abc", as the registry would state it
        let hexed = "ddaf35a193617abacc417349ae20413112e6fa4e89a97ea20a9eeee64b55d39a\
2192992a274fc1a836ba3c23a3feebbd454d4423643ce80e2a9ac94fa54ca49f";
        jet::hexstr::hex_decode(hexed).expect("hex")
    };
    let task = DownloadTask {
        path: "out/checked.bin".to_string(),
        display_name: "checked".to_string(),
        url: "https://example.test/checked".to_string(),
        sha512: Some(digest_of_abc.clone()),
    };
    assert!(matches!(download_step(&mut store, &task, None), DownloadStep::NeedFetch));
    let r = match download_step(
        &mut store,
        &task,
        Some(&DownloadOutcome::Fetched { body: b"abd".to_vec() }),
    ) {
        DownloadStep::Done { result } => result,
        _ => panic!("expected a finished task"),
    };
    assert!(matches!(&r, DownloadResult::IntegrityMismatch { url } if url == &task.url));
    let report = make_report(&vec![r], 0, true);
    assert!(matches!(report.outcome(), ExpandOutcome::Incomplete));

    // matching bytes pass the same check
    let mut store2 = CacheStore::new();
    assert!(matches!(download_step(&mut store2, &task, None), DownloadStep::NeedFetch));
    let ok = match download_step(
        &mut store2,
        &task,
        Some(&DownloadOutcome::Fetched { body: b"abc".to_vec() }),
    ) {
        DownloadStep::Done { result } => result,
        _ => panic!("expected a finished task"),
    };
    assert!(matches!(&ok, DownloadResult::Written { .. }));
}

#[test]
fn second_download_of_one_url_hits_the_cache() {
    let mut store = CacheStore::new();
    let t1 = DownloadTask {
        path: "out/a.bin".to_string(),
        display_name: "a".to_string(),
        url: "https://example.test/shared".to_string(),
        sha512: None,
    };
    assert!(matches!(download_step(&mut store, &t1, None), DownloadStep::NeedFetch));
    let first = download_step(
        &mut store,
        &t1,
        Some(&DownloadOutcome::Fetched { body: b"cached".to_vec() }),
    );
    assert!(matches!(first, DownloadStep::Done { .. }));
    let t2 = DownloadTask { path: "out/b.bin".to_string(), ..t1 };
    match download_step(&mut store, &t2, None) {
        DownloadStep::Done { result: DownloadResult::Written { state, write } } => {
            assert!(matches!(state, jet::cache::CacheState::Hit { .. }));
            assert_eq!(write.path, "out/b.bin");
            assert_eq!(write.data, b"cached".to_vec());
        },
        _ => panic!("the second task must be served from the cache"),
    }
}

#[test]
fn read_manifest_rejects_bad_streams() {
    assert_eq!(read_manifest(&Vec::new()).expect_err("empty"), ArchiveFormatError::Empty);
    let wrong = vec![ArchiveEntry { name: "not-it".to_string(), data: Vec::new() }];
    assert_eq!(
        read_manifest(&wrong).expect_err("name"),
        ArchiveFormatError::FirstEntryNotManifest
    );
    let garbage = vec![ArchiveEntry { name: "@manifest".to_string(), data: vec![1, 2, 3] }];
    assert_eq!(
        read_manifest(&garbage).expect_err("decode"),
        ArchiveFormatError::Undecodable
    );
}

#[test]
fn provenance_entry_travels_and_is_found() {
    let (fs, reg) = scenario_stores();
    let resolved = scenario_manifest().resolve("src");
    let raw = b"<jetfuel/>".to_vec();
    let entries = pack_entries(&resolved, Some(&raw), &fs, &reg).expect("pack");
    assert_eq!(entries[1].name, "@jetfuel.xml");
    assert_eq!(unpack_selective(&entries, "@jetfuel.xml"), Some(raw));
    assert_eq!(unpack_selective(&entries, "@nothing"), None);
}

#[test]
fn unpack_materializes_entries_literally() {
    let (fs, reg) = scenario_stores();
    let resolved = scenario_manifest().resolve("src");
    let entries = pack_entries(&resolved, None, &fs, &reg).expect("pack");
    let writes = unpack_writes("out", &entries);
    assert_eq!(writes.len(), entries.len());
    assert_eq!(writes[0].path, "out/@manifest");
    assert_eq!(writes[1].data, b"abc".to_vec());
}

#[test]
fn recovery_dump_refuses_names_the_stream_cannot_keep() {
    let captured = vec![jet::expand::FileWrite {
        path: "./world".to_string(),
        data: b"save".to_vec(),
    }];
    let rand = vec![0u8; 16];
    assert!(recovery_dump(&captured, &rand).is_none());
}

#[test]
fn recovery_dump_holds_the_whole_capture() {
    let reads = vec![(
        "out/world".to_string(),
        ReadOutcome::Found { data: b"save".to_vec() },
    )];
    let captured = capture_persist("out", &reads).expect("capture");
    let rand = vec![0u8, 1, 2, 3, 4, 5, 6, 7, 8, 9, 10, 11, 12, 13, 14, 255];
    let (name, bytes) = recovery_dump(&captured, &rand).expect("dump");
    assert_eq!(name, "persisted.000102030405060708090a0b0c0d0eff.tar");
    let (back, errors) = read_container(&bytes, Compression::Plain);
    assert_eq!(errors, 0);
    assert_eq!(back.len(), 1);
    assert_eq!(back[0].name, "world");
    assert_eq!(back[0].data, b"save".to_vec());
}

#[test]
fn report_priorities() {
    let clean = make_report(&Vec::new(), 0, true);
    assert!(matches!(clean.outcome(), ExpandOutcome::Success));
    assert!(clean.is_success());
    let corrupted = make_report(&Vec::new(), 3, true);
    assert!(matches!(corrupted.outcome(), ExpandOutcome::Corrupted));
    let restore = make_report(&Vec::new(), 3, false);
    assert!(matches!(restore.outcome(), ExpandOutcome::RestoreFailed));
}

#[test]
fn compile_reports_unknown_registry_version() {
    let source = SourceManifest {
        project: project(),
        contents: vec![SourceEntry::Modrinth {
            project: "sodium".to_string(),
            version: "1.0".to_string(),
        }],
    };
    let resolved = source.resolve("src");
    let err = Manifest::parse(&resolved, &FileStore::new(), &RegistryStore::new())
        .expect_err("unknown");
    assert_eq!(
        err,
        CompileError::UnknownVersion {
            project: "sodium".to_string(),
            version: "1.0".to_string()
        }
    );
}

#[test]
fn compiled_manifest_round_trips_through_the_codec() {
    let (fs, reg) = scenario_stores();
    let resolved = scenario_manifest().resolve("src");
    let m = Manifest::parse(&resolved, &fs, &reg).expect("compile");
    let bytes = jet::codec::encode_manifest(&m);
    let back = jet::codec::decode_manifest(&bytes).expect("decode");
    assert_eq!(back, m);
    match &m.contents[0] {
        Entry::Directory { name, contents } => {
            assert_eq!(name, "srv");
            match &contents[0] {
                Entry::File { name, size, .. } => {
                    assert_eq!(name, "a.txt");
                    assert_eq!(*size, 3);
                },
                other => panic!("expected a file, got {:?}", other),
            }
        },
        other => panic!("expected a directory, got {:?}", other),
    }
}

#[test]
fn run_script_entries_flatten_to_two_scripts() {
    let source = SourceManifest {
        project: project(),
        contents: vec![SourceEntry::RunScript {
            name: "run.%".to_string(),
            script_type: ScriptType::Both,
            options: Vec::new(),
        }],
    };
    let resolved = source.resolve("src");
    let m = Manifest::parse(&resolved, &FileStore::new(), &RegistryStore::new())
        .expect("compile");
    let actions = m.as_actions("out");
    assert_eq!(actions.len(), 2);
    assert_eq!(actions[0].0, "out/run.sh");
    assert_eq!(actions[1].0, "out/run.bat");
    let plan = populate_plan(&actions);
    assert_eq!(plan.scripts.len(), 2);
    let sh = String::from_utf8(plan.scripts[0].data.clone()).expect("utf8");
    assert!(sh.contains("-Xmx4G"));
    assert!(sh.contains("server.jar"));
    assert!(!sh.contains("$$"));
}

#[test]
fn read_manifest_rejects_undeployable_registry_files() {
    // decodes fine, but the registry file name has no extension, so no
    // download action could be derived from it
    let mut vf = VersionFile {
        hashes: VersionFileHashes { sha512: "ab".repeat(64), sha1: "cd".repeat(20) },
        url: "https://cdn.example.test/x".to_string(),
        filename: "no-extension".to_string(),
        primary: true,
        size: 1,
        file_type: None,
    };
    let m = Manifest {
        project_info: project(),
        contents: vec![Entry::Modrinth {
            project: "p".to_string(),
            version: "v".to_string(),
            files: vec![vf.clone()],
        }],
    };
    let bytes = jet::codec::encode_manifest(&m);
    let entries = vec![ArchiveEntry { name: "@manifest".to_string(), data: bytes }];
    assert_eq!(read_manifest(&entries).expect_err("bad file name"), ArchiveFormatError::Malformed);

    // a digest that is no hex string is rejected the same way
    vf.filename = "fine.jar".to_string();
    vf.hashes.sha512 = "zz".repeat(64);
    let m2 = Manifest {
        project_info: project(),
        contents: vec![Entry::Modrinth {
            project: "p".to_string(),
            version: "v".to_string(),
            files: vec![vf],
        }],
    };
    let bytes2 = jet::codec::encode_manifest(&m2);
    let entries2 = vec![ArchiveEntry { name: "@manifest".to_string(), data: bytes2 }];
    assert_eq!(read_manifest(&entries2).expect_err("bad digest"), ArchiveFormatError::Malformed);
}

#[test]
fn distinct_contents_get_distinct_blob_names() {
    let source = SourceManifest {
        project: project(),
        contents: vec![
            SourceEntry::File { name: "one.bin".to_string(), source_path: None },
            SourceEntry::File { name: "two.bin".to_string(), source_path: None },
        ],
    };
    let resolved = source.resolve("src");
    let mut fs = FileStore::new();
    fs.add("src/one.bin".to_string(), b"first".to_vec());
    fs.add("src/two.bin".to_string(), b"second".to_vec());
    let entries = pack_entries(&resolved, None, &fs, &RegistryStore::new()).expect("pack");
    assert_eq!(entries.len(), 3);
    assert_ne!(entries[1].name, entries[2].name);
    assert_eq!(entries[1].name.len(), 32);
    assert_eq!(entries[2].name.len(), 32);
}

#[test]
fn empty_manifest_expands_to_nothing() {
    let source = SourceManifest { project: project(), contents: Vec::new() };
    let resolved = source.resolve("src");
    let entries =
        pack_entries(&resolved, None, &FileStore::new(), &RegistryStore::new()).expect("pack");
    assert_eq!(entries.len(), 1);
    let m = read_manifest(&entries).expect("manifest");
    let actions = m.as_actions("out");
    assert_eq!(actions.len(), 0);
    assert_eq!(persist_paths(&actions).len(), 0);
    let plan = populate_plan(&actions);
    assert_eq!(match_extracts(&entries, plan.pending).len(), 0);
    let report = make_report(&Vec::new(), 0, true);
    assert!(report.is_success());
}
