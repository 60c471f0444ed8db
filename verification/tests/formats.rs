use jet::actions::Action;
use jet::compile::{gc_preset, resolve_options, FileStore, RegistryStore, GC_PRESET_AIKAR};
use jet::hexstr::{hex32, hex_bytes, hex_decode};
use jet::manifest::{
    recurse_files, Entry, Manifest, Options, ProjectInfo, ScriptType, SourceEntry,
    SourceManifest, SourceRunOption,
};
use jet::compile::registry_refs;
use jet::modrinth::{project_version_url, VersionFile, VersionFileHashes};
use jet::strutil::{extension_of, join_args, join_path, relative_to, replace_all};
use jet::template::{parse_template, RUN_TEMPLATE_SH};
use jet::{parse_compression, Compression};

#[test]
fn hex_renderings() {
    assert_eq!(hex32(0), "00000000000000000000000000000000");
    assert_eq!(hex32(255), "000000000000000000000000000000ff");
    assert_eq!(hex32(0x0123456789abcdef0123456789abcdefu128), "0123456789abcdef0123456789abcdef");
    assert_eq!(hex_bytes(&vec![0xde, 0xad, 0xbe, 0xef]), "deadbeef");
    assert_eq!(hex_bytes(&Vec::new()), "");
}

#[test]
fn hex_decoding() {
    assert_eq!(hex_decode("0aff"), Some(vec![10, 255]));
    assert_eq!(hex_decode("0AFF"), Some(vec![10, 255]));
    assert_eq!(hex_decode(""), Some(Vec::new()));
    assert_eq!(hex_decode("abc"), None);
    assert_eq!(hex_decode("zz"), None);
}

#[test]
fn path_building() {
    assert_eq!(join_path("out", "srv"), "out/srv");
    assert_eq!(relative_to("out", "out/world"), "world");
    assert_eq!(relative_to("out", "elsewhere/world"), "elsewhere/world");
    assert_eq!(relative_to("out", "out"), "out");
}

#[test]
fn extensions() {
    assert_eq!(extension_of("mod.jar"), Some("jar".to_string()));
    assert_eq!(extension_of("archive.tar.gz"), Some("gz".to_string()));
    assert_eq!(extension_of("noext"), None);
    assert_eq!(extension_of("trailing."), Some("".to_string()));
}

#[test]
fn replacement() {
    assert_eq!(replace_all("a%b%", "%", "sh"), "ashbsh");
    assert_eq!(replace_all("nothing here", "%", "sh"), "nothing here");
    assert_eq!(replace_all("aaa", "aa", "b"), "ba");
    assert_eq!(join_args(&vec!["-Xmx".to_string(), "-case".to_string()]), "-Xmx -case");
    assert_eq!(join_args(&Vec::new()), "");
}

#[test]
fn template_rendering() {
    let mut opts = Options::new();
    opts.java_mem = "8G".to_string();
    opts.java_gc_opts = "-XX:+UseZGC".to_string();
    opts.java_extra_opts = vec!["-Da=1".to_string(), "-Db=2".to_string()];
    let rendered = parse_template(
        "java -Xmx$$JAVA_MEM$$ $$JAVA_GC_OPTS$$ $$JAVA_EXTRA_OPTS$$ -jar $$SERVER_JAR$$",
        &opts,
    );
    assert_eq!(rendered, "java -Xmx8G -XX:+UseZGC -Da=1 -Db=2 -jar server.jar");
    assert!(parse_template(RUN_TEMPLATE_SH, &opts).contains("-Xmx8G"));
}

#[test]
fn compression_choice() {
    assert_eq!(parse_compression(Some(Compression::Plain), Some("jpz")), Compression::Plain);
    assert_eq!(parse_compression(None, Some("jpz")), Compression::Zlib);
    assert_eq!(parse_compression(None, Some("jpk")), Compression::Plain);
    assert_eq!(parse_compression(None, None), Compression::Plain);
}

#[test]
fn gc_presets() {
    assert_eq!(gc_preset("none"), Some(""));
    assert_eq!(gc_preset("aikar"), Some(GC_PRESET_AIKAR));
    assert_eq!(gc_preset("unheard-of"), None);
    let opts = resolve_options(&vec![
        SourceRunOption::Memory { memory: "12G".to_string() },
        SourceRunOption::UseGc { preset: "zgc".to_string() },
        SourceRunOption::JavaArg("-Dx=y".to_string()),
    ]);
    assert_eq!(opts.java_mem, "12G");
    assert!(opts.java_gc_opts.contains("UseZGC"));
    assert_eq!(opts.java_extra_opts, vec!["-Dx=y".to_string()]);
    assert_eq!(opts.server_jar_rel, "server.jar");
    // an unknown preset falls back to the default preset
    let fallback = resolve_options(&vec![SourceRunOption::UseGc {
        preset: "unheard-of".to_string(),
    }]);
    assert_eq!(fallback.java_gc_opts, Options::new().java_gc_opts);
}

#[test]
fn resolution_fills_source_paths() {
    let source = SourceManifest {
        project: ProjectInfo {
            name: "p".to_string(),
            description: String::new(),
            version: "1".to_string(),
            authors: Vec::new(),
        },
        contents: vec![
            SourceEntry::Directory {
                name: "data".to_string(),
                contents: vec![
                    SourceEntry::File { name: "implicit.txt".to_string(), source_path: None },
                    SourceEntry::File {
                        name: "explicit.txt".to_string(),
                        source_path: Some("other/place.txt".to_string()),
                    },
                ],
            },
        ],
    };
    let resolved = source.resolve("base");
    match &resolved.contents[0] {
        SourceEntry::Directory { contents, .. } => {
            match &contents[0] {
                SourceEntry::File { source_path, .. } => {
                    assert_eq!(source_path.as_deref(), Some("base/data/implicit.txt"));
                },
                other => panic!("expected a file, got {:?}", other),
            }
            match &contents[1] {
                SourceEntry::File { source_path, .. } => {
                    assert_eq!(source_path.as_deref(), Some("base/data/other/place.txt"));
                },
                other => panic!("expected a file, got {:?}", other),
            }
        },
        other => panic!("expected a directory, got {:?}", other),
    }
}

#[test]
fn file_collection_and_registry_refs() {
    let tree = SourceEntry::Directory {
        name: "root".to_string(),
        contents: vec![
            SourceEntry::File { name: "a".to_string(), source_path: None },
            SourceEntry::Modrinth { project: "p1".to_string(), version: "v1".to_string() },
            SourceEntry::Directory {
                name: "inner".to_string(),
                contents: vec![
                    SourceEntry::File { name: "b".to_string(), source_path: None },
                    SourceEntry::Modrinth {
                        project: "p2".to_string(),
                        version: "v2".to_string(),
                    },
                ],
            },
        ],
    };
    let files = recurse_files(&tree);
    assert_eq!(files.len(), 2);
    let refs = registry_refs(&tree);
    assert_eq!(
        refs,
        vec![
            ("p1".to_string(), "v1".to_string()),
            ("p2".to_string(), "v2".to_string()),
        ]
    );
}

fn one_version_file() -> VersionFile {
    VersionFile {
        hashes: VersionFileHashes {
            sha512: "ab".repeat(64),
            sha1: "cd".repeat(20),
        },
        url: "https://cdn.example.test/sodium.jar".to_string(),
        filename: "sodium-fabric.jar".to_string(),
        primary: true,
        size: 1234,
        file_type: None,
    }
}

#[test]
fn registry_package_flattens_to_named_downloads() {
    let mut reg = RegistryStore::new();
    reg.add("sodium".to_string(), "1.0".to_string(), vec![one_version_file()]);
    let source = SourceManifest {
        project: ProjectInfo {
            name: "p".to_string(),
            description: String::new(),
            version: "1".to_string(),
            authors: Vec::new(),
        },
        contents: vec![SourceEntry::Modrinth {
            project: "sodium".to_string(),
            version: "1.0".to_string(),
        }],
    };
    let resolved = source.resolve("src");
    let m = Manifest::parse(&resolved, &FileStore::new(), &reg).expect("compile");
    let actions = m.as_actions("out");
    assert_eq!(actions.len(), 1);
    assert_eq!(actions[0].0, "out/sodium-1.0.jar");
    match &actions[0].1 {
        Action::Download { display_name, url, sha512 } => {
            assert_eq!(display_name, "modrinth [sodium-1.0::sodium-fabric.jar]");
            assert_eq!(url, "https://cdn.example.test/sodium.jar");
            assert_eq!(sha512.as_ref().map(|d| d.len()), Some(64));
        },
        other => panic!("expected a download, got {:?}", other),
    }
}

#[test]
fn generated_server_flattens_to_download_and_symlink() {
    let source = SourceManifest {
        project: ProjectInfo {
            name: "p".to_string(),
            description: String::new(),
            version: "1".to_string(),
            authors: Vec::new(),
        },
        contents: vec![SourceEntry::FabricServer {
            minecraft_version: "1.20.4".to_string(),
            loader_version: "0.15.6".to_string(),
            installer_version: "1.0.0".to_string(),
        }],
    };
    let resolved = source.resolve("src");
    let m = Manifest::parse(&resolved, &FileStore::new(), &RegistryStore::new())
        .expect("compile");
    let actions = m.as_actions("out");
    assert_eq!(actions.len(), 2);
    assert_eq!(actions[0].0, "out/fabric-server.1.20.4.0.15.6.1.0.0.jar");
    match &actions[0].1 {
        Action::Download { url, sha512, .. } => {
            assert_eq!(
                url,
                "https://meta.fabricmc.net/v2/versions/loader/1.20.4/0.15.6/1.0.0/server/jar"
            );
            assert!(sha512.is_none());
        },
        other => panic!("expected a download, got {:?}", other),
    }
    assert_eq!(actions[1].0, "out/server.jar");
    match &actions[1].1 {
        Action::Symlink { source } => {
            assert_eq!(source, "out/fabric-server.1.20.4.0.15.6.1.0.0.jar");
        },
        other => panic!("expected a symlink, got {:?}", other),
    }
}

#[test]
fn registry_url_shape() {
    assert_eq!(
        project_version_url("sodium", "1.0"),
        "https://api.modrinth.com/v2/project/sodium/version/1.0"
    );
}

#[test]
fn codec_covers_every_entry_kind() {
    let m = Manifest {
        project_info: ProjectInfo {
            name: "all-kinds".to_string(),
            description: "d\u{00e9}scription".to_string(),
            version: "2".to_string(),
            authors: vec!["a".to_string(), "b".to_string()],
        },
        contents: vec![
            Entry::Directory {
                name: "dir".to_string(),
                contents: vec![Entry::Persist { name: "keep".to_string() }],
            },
            Entry::File { name: "f".to_string(), hash: u128::MAX, size: 7 },
            Entry::Modrinth {
                project: "p".to_string(),
                version: "v".to_string(),
                files: vec![one_version_file()],
            },
            Entry::FabricServerJar {
                minecraft_version: "1".to_string(),
                loader_version: "2".to_string(),
                installer_version: "3".to_string(),
            },
            Entry::RunScript {
                name: "run.sh".to_string(),
                script_type: ScriptType::Bash,
                options: Options::new(),
            },
        ],
    };
    let bytes = jet::codec::encode_manifest(&m);
    assert_eq!(jet::codec::decode_manifest(&bytes).expect("decode"), m);
    // trailing bytes are rejected
    let mut longer = bytes.clone();
    longer.push(0);
    assert!(jet::codec::decode_manifest(&longer).is_none());
    // a truncated stream is rejected
    let shorter = bytes[..bytes.len() - 1].to_vec();
    assert!(jet::codec::decode_manifest(&shorter).is_none());
}

#[test]
fn container_stream_round_trips_both_ways() {
    let entries = vec![
        jet::archive::ArchiveEntry { name: "@manifest".to_string(), data: vec![1, 2, 3] },
        jet::archive::ArchiveEntry {
            name: "0123456789abcdef0123456789abcdef".to_string(),
            data: b"blob".to_vec(),
        },
    ];
    for c in [Compression::Plain, Compression::Zlib] {
        let bytes = jet::archive::write_container(&entries, c).expect("write");
        let (back, errors) = jet::archive::read_container(&bytes, c);
        assert_eq!(errors, 0);
        assert_eq!(back, entries);
    }
    // bytes that are no zlib stream at all
    let (none, errors) = jet::archive::read_container(&[0u8, 1, 2], Compression::Zlib);
    assert_eq!(none.len(), 0);
    assert_eq!(errors, 1);
}

#[test]
fn container_refuses_names_tar_would_rewrite() {
    // the stream format silently drops `.` components and repeated or
    // trailing separators; such names are refused rather than rewritten
    for bad in ["./a", "a//b", "a/", "/a", "a/./b", "..", "a/../b", ""] {
        let entries = vec![jet::archive::ArchiveEntry {
            name: bad.to_string(),
            data: b"x".to_vec(),
        }];
        assert!(
            jet::archive::write_container(&entries, Compression::Plain).is_none(),
            "{} must be refused",
            bad
        );
    }
    for good in ["a", "a/b", ".hidden", "a.b/c..d", "..a"] {
        let entries = vec![jet::archive::ArchiveEntry {
            name: good.to_string(),
            data: b"x".to_vec(),
        }];
        let bytes = jet::archive::write_container(&entries, Compression::Plain)
            .expect("a verbatim name must be accepted");
        let (back, errors) = jet::archive::read_container(&bytes, Compression::Plain);
        assert_eq!(errors, 0);
        assert_eq!(back, entries);
    }
}
