//! The engine's cross-function guarantees, stated over the specification
//! functions the public contracts use and proved once and for all: persisted
//! content survives the destructive redeploy, and a packed container
//! reproduces every embedded file at its compiled target path.

use vstd::prelude::*;
use crate::actions::{
    flatten_entries, flatten_entry, manifest_actions, modrinth_actions, ActionV,
};
use crate::compile::{compile_entries_spec, compile_entry_spec};
use crate::expand::{capture_spec, pending_spec, restore_spec, rest_of, scan_spec, ReadOutcomeV};
use crate::expand::{matched_writes, pending_minus};
use crate::hashing::hash_of;
use crate::hexstr::{hex32_of, lemma_hex32_injective, lemma_hex32_len};
use crate::manifest::{files_of_seq, resolved_entry, EntryV, SourceEntryV};
use crate::pack::{contains_name, count_name, file_data, pack_blobs, pack_entries_spec};
use crate::strutil::{joined, relative_spec};

verus! {

broadcast use vstd::seq::group_seq_axioms, vstd::std_specs::vec::group_vec_axioms;

/// A file system as a map from paths to contents, with writes applied in
/// order: the last write to a path wins.
pub open spec fn apply_writes(
    fs: Map<Seq<char>, Seq<u8>>,
    ws: Seq<(Seq<char>, Seq<u8>)>,
) -> Map<Seq<char>, Seq<u8>>
    decreases ws.len(),
{
    if ws.len() == 0 {
        fs
    } else {
        apply_writes(fs.insert(ws[0].0, ws[0].1), ws.drop_first())
    }
}

proof fn lemma_apply_writes_append(
    fs: Map<Seq<char>, Seq<u8>>,
    a: Seq<(Seq<char>, Seq<u8>)>,
    b: Seq<(Seq<char>, Seq<u8>)>,
)
    ensures
        apply_writes(fs, a + b) == apply_writes(apply_writes(fs, a), b),
    decreases a.len(),
{
    if a.len() == 0 {
        assert(a + b =~= b);
    } else {
        assert((a + b)[0] == a[0]);
        assert((a + b).drop_first() =~= a.drop_first() + b);
        lemma_apply_writes_append(fs.insert(a[0].0, a[0].1), a.drop_first(), b);
    }
}

/// When every write to a key carries the same value and at least one write
/// to it exists, that value stands at the end.
proof fn lemma_apply_writes_last(
    fs: Map<Seq<char>, Seq<u8>>,
    ws: Seq<(Seq<char>, Seq<u8>)>,
    key: Seq<char>,
    x: Seq<u8>,
)
    requires
        exists|i: int| 0 <= i < ws.len() && (#[trigger] ws[i]).0 == key,
        forall|i: int| 0 <= i < ws.len() && (#[trigger] ws[i]).0 == key ==> ws[i].1 == x,
    ensures
        apply_writes(fs, ws).contains_key(key),
        apply_writes(fs, ws)[key] == x,
    decreases ws.len(),
{
    let fs2 = fs.insert(ws[0].0, ws[0].1);
    let rest = ws.drop_first();
    assert forall|i: int| 0 <= i < rest.len() && (#[trigger] rest[i]).0 == key implies rest[i].1
        == x by {
        assert(rest[i] == ws[i + 1]);
    }
    if exists|i: int| 0 <= i < rest.len() && (#[trigger] rest[i]).0 == key {
        lemma_apply_writes_last(fs2, rest, key, x);
    } else {
        let w = choose|i: int| 0 <= i < ws.len() && (#[trigger] ws[i]).0 == key;
        assert(w == 0) by {
            if w > 0 {
                assert(rest[w - 1].0 == key);
            }
        }
        assert(fs2.contains_key(key) && fs2[key] == x);
        lemma_apply_writes_no_key(fs2, rest, key);
    }
}

/// A key no write touches keeps its value.
proof fn lemma_apply_writes_no_key(
    fs: Map<Seq<char>, Seq<u8>>,
    ws: Seq<(Seq<char>, Seq<u8>)>,
    key: Seq<char>,
)
    requires
        forall|i: int| 0 <= i < ws.len() ==> (#[trigger] ws[i]).0 != key,
        fs.contains_key(key),
    ensures
        apply_writes(fs, ws).contains_key(key),
        apply_writes(fs, ws)[key] == fs[key],
    decreases ws.len(),
{
    if ws.len() > 0 {
        assert(ws[0].0 != key);
        let rest = ws.drop_first();
        assert forall|i: int| 0 <= i < rest.len() implies (#[trigger] rest[i]).0 != key by {
            assert(rest[i] == ws[i + 1]);
        }
        lemma_apply_writes_no_key(fs.insert(ws[0].0, ws[0].1), rest, key);
    }
}

/// Joining under one base is injective in the joined name.
pub proof fn lemma_joined_injective(base: Seq<char>, a: Seq<char>, b: Seq<char>)
    requires
        joined(base, a) == joined(base, b),
    ensures
        a == b,
{
    assert(a =~= b) by {
        assert(joined(base, a).len() == base.len() + 1 + a.len());
        assert(joined(base, b).len() == base.len() + 1 + b.len());
        assert forall|i: int| 0 <= i < a.len() implies a[i] == b[i] by {
            assert(joined(base, a)[base.len() + 1 + i] == a[i]);
            assert(joined(base, b)[base.len() + 1 + i] == b[i]);
        }
    }
}

/// Capture keeps what was found: a read that found content yields a
/// captured item under the relative path, and when every read whose
/// relative path coincides found the same content, every captured item for
/// that relative path carries it.
proof fn lemma_capture_member(
    base: Seq<char>,
    reads: Seq<(Seq<char>, ReadOutcomeV)>,
    p: Seq<char>,
    x: Seq<u8>,
)
    requires
        capture_spec(base, reads) is Ok,
        exists|i: int|
            0 <= i < reads.len() && #[trigger] reads[i] == (
                p,
                ReadOutcomeV::Found { data: x },
            ),
        forall|i: int|
            0 <= i < reads.len() && relative_spec(base, (#[trigger] reads[i]).0)
                == relative_spec(base, p) ==> reads[i].1 == (ReadOutcomeV::Found { data: x }),
    ensures
        ({
            let cap = capture_spec(base, reads)->Ok_0;
            &&& exists|j: int|
                0 <= j < cap.len() && #[trigger] cap[j] == (relative_spec(base, p), x)
            &&& forall|j: int|
                0 <= j < cap.len() && (#[trigger] cap[j]).0 == relative_spec(base, p)
                    ==> cap[j].1 == x
        }),
    decreases reads.len(),
{
    let rel = relative_spec(base, p);
    let cap = capture_spec(base, reads)->Ok_0;
    let rest = reads.drop_first();
    assert forall|i: int|
        0 <= i < rest.len() && relative_spec(base, (#[trigger] rest[i]).0)
            == rel implies rest[i].1 == (ReadOutcomeV::Found { data: x }) by {
        assert(rest[i] == reads[i + 1]);
    }
    let w = choose|i: int|
        0 <= i < reads.len() && #[trigger] reads[i] == (p, ReadOutcomeV::Found { data: x });
    match reads[0].1 {
        ReadOutcomeV::ReadError => {
            assert(false);
        },
        ReadOutcomeV::NotFound => {
            assert(w != 0);
            assert(rest[w - 1] == (p, ReadOutcomeV::Found { data: x }));
            lemma_capture_member(base, rest, p, x);
        },
        ReadOutcomeV::Found { data } => {
            let caprest = capture_spec(base, rest)->Ok_0;
            assert(cap == seq![(relative_spec(base, reads[0].0), data)] + caprest);
            if w == 0 {
                assert(cap[0] == (rel, x));
                assert forall|j: int|
                    0 <= j < cap.len() && (#[trigger] cap[j]).0 == rel implies cap[j].1 == x by {
                    if j > 0 {
                        assert(cap[j] == caprest[j - 1]);
                        if exists|i: int|
                            0 <= i < rest.len() && relative_spec(base, (#[trigger] rest[i]).0)
                                == rel && rest[i].1 is Found {
                            let wi = choose|i: int|
                                0 <= i < rest.len() && relative_spec(
                                    base,
                                    (#[trigger] rest[i]).0,
                                ) == rel && rest[i].1 is Found;
                            assert(rest[wi].1 == (ReadOutcomeV::Found { data: x }));
                            assert(rest[wi] == (rest[wi].0, ReadOutcomeV::Found { data: x }));
                            lemma_capture_member(base, rest, rest[wi].0, x);
                        } else {
                            lemma_capture_no_rel(base, rest, rel);
                        }
                    }
                }
            } else {
                assert(rest[w - 1] == (p, ReadOutcomeV::Found { data: x }));
                lemma_capture_member(base, rest, p, x);
                let jw = choose|j: int|
                    0 <= j < caprest.len() && #[trigger] caprest[j] == (rel, x);
                assert(cap[jw + 1] == (rel, x));
                assert forall|j: int|
                    0 <= j < cap.len() && (#[trigger] cap[j]).0 == rel implies cap[j].1 == x by {
                    if j > 0 {
                        assert(cap[j] == caprest[j - 1]);
                    } else {
                        assert(relative_spec(base, reads[0].0) == rel);
                        assert(reads[0].1 == (ReadOutcomeV::Found { data: x }));
                    }
                }
            }
        },
    }
}

/// A relative path no read resolves to yields no captured item.
proof fn lemma_capture_no_rel(
    base: Seq<char>,
    reads: Seq<(Seq<char>, ReadOutcomeV)>,
    rel: Seq<char>,
)
    requires
        capture_spec(base, reads) is Ok,
        forall|i: int|
            0 <= i < reads.len() ==> (reads[i].1 matches ReadOutcomeV::Found { data } ==> (
            relative_spec(base, (#[trigger] reads[i]).0) != rel)),
    ensures
        ({
            let cap = capture_spec(base, reads)->Ok_0;
            forall|j: int| 0 <= j < cap.len() ==> (#[trigger] cap[j]).0 != rel
        }),
    decreases reads.len(),
{
    if reads.len() > 0 {
        let rest = reads.drop_first();
        assert forall|i: int|
            0 <= i < rest.len() implies (rest[i].1 matches ReadOutcomeV::Found { data } ==> (
            relative_spec(base, (#[trigger] rest[i]).0) != rel)) by {
            assert(rest[i] == reads[i + 1]);
        }
        match reads[0].1 {
            ReadOutcomeV::ReadError => {
                assert(false);
            },
            ReadOutcomeV::NotFound => {
                lemma_capture_no_rel(base, rest, rel);
            },
            ReadOutcomeV::Found { data } => {
                lemma_capture_no_rel(base, rest, rel);
                let cap = capture_spec(base, reads)->Ok_0;
                let caprest = capture_spec(base, rest)->Ok_0;
                assert forall|j: int| 0 <= j < cap.len() implies (#[trigger] cap[j]).0
                    != rel by {
                    if j > 0 {
                        assert(cap[j] == caprest[j - 1]);
                    }
                }
            },
        }
    }
}

/// Persist-marked content survives the destructive redeploy. A path whose
/// pre-existing content was captured before the wipe holds that content
/// again once restoration has run, whatever the populate and extract phases
/// wrote in between: the restore writes run last and carry the captured
/// bytes. The one proviso: every read whose path resolves to the same
/// relative path found those same bytes (one path is read once, so this
/// holds of any actual read list).
pub proof fn lemma_persist_round_trip(
    fs0: Map<Seq<char>, Seq<u8>>,
    base: Seq<char>,
    reads: Seq<(Seq<char>, ReadOutcomeV)>,
    between: Seq<(Seq<char>, Seq<u8>)>,
    p: Seq<char>,
    x: Seq<u8>,
)
    requires
        capture_spec(base, reads) is Ok,
        exists|i: int|
            0 <= i < reads.len() && #[trigger] reads[i] == (
                p,
                ReadOutcomeV::Found { data: x },
            ),
        forall|i: int|
            0 <= i < reads.len() && relative_spec(base, (#[trigger] reads[i]).0)
                == relative_spec(base, p) ==> reads[i].1 == (ReadOutcomeV::Found { data: x }),
    ensures
        ({
            let cap = capture_spec(base, reads)->Ok_0;
            let after = apply_writes(fs0, between + restore_spec(base, cap));
            let target = joined(base, relative_spec(base, p));
            after.contains_key(target) && after[target] == x
        }),
{
    let rel = relative_spec(base, p);
    let cap = capture_spec(base, reads)->Ok_0;
    let target = joined(base, rel);
    let rws = restore_spec(base, cap);
    lemma_capture_member(base, reads, p, x);
    lemma_apply_writes_append(fs0, between, rws);
    let jw = choose|j: int| 0 <= j < cap.len() && #[trigger] cap[j] == (rel, x);
    assert(rws[jw] == (target, x));
    assert forall|i: int| 0 <= i < rws.len() && (#[trigger] rws[i]).0 == target implies rws[i].1
        == x by {
        assert(rws[i] == (joined(base, cap[i].0), cap[i].1));
        lemma_joined_injective(base, cap[i].0, rel);
        assert(cap[i].0 == rel);
    }
    lemma_apply_writes_last(apply_writes(fs0, between), rws, target, x);
}

/// Content embedded somewhere below a root entry list: the bytes of one of
/// its file nodes.
pub open spec fn source_content(
    contents: Seq<SourceEntryV>,
    fs: Seq<(Seq<char>, Seq<u8>)>,
    d: Seq<u8>,
) -> bool {
    exists|k: int|
        0 <= k < files_of_seq(contents).len() && file_data(
            #[trigger] files_of_seq(contents)[k],
            fs,
        ) == Some(d)
}

/// Content embedded below one entry.
pub open spec fn entry_content(
    e: SourceEntryV,
    fs: Seq<(Seq<char>, Seq<u8>)>,
    d: Seq<u8>,
) -> bool {
    exists|k: int|
        0 <= k < crate::manifest::files_of(e).len() && file_data(
            #[trigger] crate::manifest::files_of(e)[k],
            fs,
        ) == Some(d)
}

/// A successful list compile succeeds entry by entry.
proof fn lemma_compile_entries_ok(
    s: Seq<SourceEntryV>,
    fs: Seq<(Seq<char>, Seq<u8>)>,
    reg: Seq<(Seq<char>, Seq<char>, Seq<crate::modrinth::VersionFileV>)>,
)
    requires
        compile_entries_spec(s, fs, reg) is Ok,
    ensures
        ({
            let ces = compile_entries_spec(s, fs, reg)->Ok_0;
            &&& ces.len() == s.len()
            &&& forall|j: int|
                0 <= j < s.len() ==> #[trigger] compile_entry_spec(s[j], fs, reg) == Ok::<
                    EntryV,
                    crate::compile::CompileErrorV,
                >(ces[j])
        }),
    decreases s.len(),
{
    if s.len() > 0 {
        let ces = compile_entries_spec(s, fs, reg)->Ok_0;
        let v0 = compile_entry_spec(s[0], fs, reg)->Ok_0;
        let rest = compile_entries_spec(s.drop_first(), fs, reg)->Ok_0;
        lemma_compile_entries_ok(s.drop_first(), fs, reg);
        assert(ces == seq![v0] + rest);
        assert forall|j: int| 0 <= j < s.len() implies #[trigger] compile_entry_spec(
            s[j],
            fs,
            reg,
        ) == Ok::<EntryV, crate::compile::CompileErrorV>(ces[j]) by {
            if j > 0 {
                assert(s.drop_first()[j - 1] == s[j]);
                assert(ces[j] == rest[j - 1]);
            }
        }
    }
}

/// An action at an index of a flattened list comes from one of the entries.
proof fn lemma_flatten_entries_index(s: Seq<EntryV>, parent: Seq<char>, i: int)
    requires
        0 <= i < flatten_entries(s, parent).len(),
    ensures
        exists|j: int, ii: int|
            #![auto]
            0 <= j < s.len() && 0 <= ii < flatten_entry(s[j], parent).len() && flatten_entries(
                s,
                parent,
            )[i] == flatten_entry(s[j], parent)[ii],
    decreases s.len(),
{
    let head = flatten_entry(s[0], parent);
    if i < head.len() {
        assert(flatten_entries(s, parent)[i] == head[i]);
    } else {
        lemma_flatten_entries_index(s.drop_first(), parent, i - head.len());
        let (j0, ii0) = choose|j: int, ii: int|
            #![auto]
            0 <= j < s.drop_first().len() && 0 <= ii < flatten_entry(
                s.drop_first()[j],
                parent,
            ).len() && flatten_entries(s.drop_first(), parent)[i - head.len()] == flatten_entry(
                s.drop_first()[j],
                parent,
            )[ii];
        assert(s.drop_first()[j0] == s[j0 + 1]);
        assert(flatten_entries(s, parent)[i] == flatten_entries(s.drop_first(), parent)[i
            - head.len()]);
    }
}

/// Registry downloads are downloads: nothing a registry package flattens to
/// is an extract action.
proof fn lemma_modrinth_no_extract(
    project: Seq<char>,
    version: Seq<char>,
    files: Seq<crate::modrinth::VersionFileV>,
    parent: Seq<char>,
    i: int,
)
    requires
        0 <= i < modrinth_actions(project, version, files, parent).len(),
    ensures
        modrinth_actions(project, version, files, parent)[i].1 is Download,
    decreases files.len(),
{
    if files.len() > 0 {
        if i > 0 {
            lemma_modrinth_no_extract(project, version, files.drop_first(), parent, i - 1);
        }
    }
}

/// Every extract action of a compiled entry records the hash and length of
/// content embedded below the source entry it was compiled from.
proof fn lemma_extract_sources_entry(
    e: SourceEntryV,
    fs: Seq<(Seq<char>, Seq<u8>)>,
    reg: Seq<(Seq<char>, Seq<char>, Seq<crate::modrinth::VersionFileV>)>,
    parent: Seq<char>,
    i: int,
)
    requires
        resolved_entry(e),
        compile_entry_spec(e, fs, reg) is Ok,
        0 <= i < flatten_entry(compile_entry_spec(e, fs, reg)->Ok_0, parent).len(),
        flatten_entry(compile_entry_spec(e, fs, reg)->Ok_0, parent)[i].1 is Extract,
    ensures
        ({
            let act = flatten_entry(compile_entry_spec(e, fs, reg)->Ok_0, parent)[i].1;
            exists|d: Seq<u8>|
                #![auto]
                entry_content(e, fs, d) && hash_of(d) == act->hash && d.len() == act->size
        }),
    decreases e,
{
    let ce = compile_entry_spec(e, fs, reg)->Ok_0;
    match e {
        SourceEntryV::File { name, source_path } => {
            let p = source_path->0;
            let d = crate::compile::store_lookup(fs, p)->0;
            assert(crate::manifest::files_of(e)[0] == e);
            assert(file_data(e, fs) == Some(d));
            assert(entry_content(e, fs, d));
        },
        SourceEntryV::Directory { name, contents } => {
            let ces = compile_entries_spec(contents, fs, reg)->Ok_0;
            let path = joined(parent, name);
            assert(ce == EntryV::Directory { name, contents: ces });
            assert(flatten_entry(ce, parent) == seq![(path, ActionV::CreateDir)]
                + flatten_entries(ces, path));
            assert(i > 0);
            let fi = i - 1;
            assert(flatten_entry(ce, parent)[i] == flatten_entries(ces, path)[fi]);
            lemma_flatten_entries_index(ces, path, fi);
            let (j0, ii0) = choose|j: int, ii: int|
                #![auto]
                0 <= j < ces.len() && 0 <= ii < flatten_entry(ces[j], path).len()
                    && flatten_entries(ces, path)[fi] == flatten_entry(ces[j], path)[ii];
            lemma_compile_entries_ok(contents, fs, reg);
            assert(compile_entry_spec(contents[j0], fs, reg) == Ok::<
                EntryV,
                crate::compile::CompileErrorV,
            >(ces[j0]));
            assert(resolved_entry(contents[j0]));
            lemma_extract_sources_entry(contents[j0], fs, reg, path, ii0);
            let d = choose|d: Seq<u8>|
                #![auto]
                entry_content(contents[j0], fs, d) && hash_of(d) == flatten_entry(
                    ces[j0],
                    path,
                )[ii0].1->hash && d.len() == flatten_entry(ces[j0], path)[ii0].1->size;
            lemma_entry_content_lift(contents, fs, j0, d);
            assert(entry_content(e, fs, d)) by {
                assert(crate::manifest::files_of(e) == files_of_seq(contents));
                let kk = choose|k: int|
                    0 <= k < files_of_seq(contents).len() && file_data(
                        #[trigger] files_of_seq(contents)[k],
                        fs,
                    ) == Some(d);
                assert(crate::manifest::files_of(e)[kk] == files_of_seq(contents)[kk]);
            }
        },
        SourceEntryV::Modrinth { project, version } => {
            let fl = crate::compile::registry_lookup(reg, project, version)->0;
            assert(ce == EntryV::Modrinth { project, version, files: fl });
            lemma_modrinth_no_extract(project, version, fl, parent, i);
            assert(false);
        },
        SourceEntryV::FabricServer { .. } => {
            assert(false);
        },
        SourceEntryV::RunScript { name, script_type, options } => {
            match script_type {
                crate::manifest::ScriptType::Bash => {
                    assert(false);
                },
                crate::manifest::ScriptType::Batch => {
                    assert(false);
                },
                crate::manifest::ScriptType::Both => {
                    assert(false);
                },
            }
        },
        SourceEntryV::Persist { .. } => {
            assert(false);
        },
    }
}

/// Content below one entry of a list is content below the list.
proof fn lemma_entry_content_lift(
    s: Seq<SourceEntryV>,
    fs: Seq<(Seq<char>, Seq<u8>)>,
    j: int,
    d: Seq<u8>,
)
    requires
        0 <= j < s.len(),
        entry_content(s[j], fs, d),
    ensures
        source_content(s, fs, d),
    decreases s.len(),
{
    let a = crate::manifest::files_of(s[0]);
    let b = files_of_seq(s.drop_first());
    if j == 0 {
        let k = choose|k: int|
            0 <= k < crate::manifest::files_of(s[0]).len() && file_data(
                #[trigger] crate::manifest::files_of(s[0])[k],
                fs,
            ) == Some(d);
        assert(files_of_seq(s)[k] == a[k]);
    } else {
        assert(s.drop_first()[j - 1] == s[j]);
        lemma_entry_content_lift(s.drop_first(), fs, j - 1, d);
        let k = choose|k: int|
            0 <= k < files_of_seq(s.drop_first()).len() && file_data(
                #[trigger] files_of_seq(s.drop_first())[k],
                fs,
            ) == Some(d);
        assert(files_of_seq(s)[a.len() + k] == b[k]);
    }
}

/// Every extract action of a compiled manifest records the hash and length
/// of content embedded in the source tree.
pub proof fn lemma_extract_sources(
    contents: Seq<SourceEntryV>,
    fs: Seq<(Seq<char>, Seq<u8>)>,
    reg: Seq<(Seq<char>, Seq<char>, Seq<crate::modrinth::VersionFileV>)>,
    base: Seq<char>,
    i: int,
)
    requires
        forall|j: int| 0 <= j < contents.len() ==> resolved_entry(#[trigger] contents[j]),
        compile_entries_spec(contents, fs, reg) is Ok,
        0 <= i < flatten_entries(compile_entries_spec(contents, fs, reg)->Ok_0, base).len(),
        flatten_entries(compile_entries_spec(contents, fs, reg)->Ok_0, base)[i].1 is Extract,
    ensures
        ({
            let act = flatten_entries(compile_entries_spec(contents, fs, reg)->Ok_0, base)[i].1;
            exists|d: Seq<u8>|
                #![auto]
                source_content(contents, fs, d) && hash_of(d) == act->hash && d.len()
                    == act->size
        }),
{
    let ces = compile_entries_spec(contents, fs, reg)->Ok_0;
    lemma_flatten_entries_index(ces, base, i);
    let (j0, ii0) = choose|j: int, ii: int|
        #![auto]
        0 <= j < ces.len() && 0 <= ii < flatten_entry(ces[j], base).len() && flatten_entries(
            ces,
            base,
        )[i] == flatten_entry(ces[j], base)[ii];
    lemma_compile_entries_ok(contents, fs, reg);
    if contents.len() == 0 {
        assert(ces =~= Seq::<EntryV>::empty());
        assert(false);
    }
    assert(compile_entry_spec(contents[j0], fs, reg) == Ok::<
        EntryV,
        crate::compile::CompileErrorV,
    >(ces[j0]));
    lemma_extract_sources_entry(contents[j0], fs, reg, base, ii0);
    let d = choose|d: Seq<u8>|
        #![auto]
        entry_content(contents[j0], fs, d) && hash_of(d) == flatten_entry(
            ces[j0],
            base,
        )[ii0].1->hash && d.len() == flatten_entry(ces[j0], base)[ii0].1->size;
    lemma_entry_content_lift(contents, fs, j0, d);
}

/// An extract action yields a pending pair carrying the hex name of its
/// hash and its target path.
proof fn lemma_pending_member(acts: Seq<(Seq<char>, ActionV)>, i: int)
    requires
        0 <= i < acts.len(),
        acts[i].1 is Extract,
    ensures
        exists|t: int|
            0 <= t < pending_spec(acts).len() && #[trigger] pending_spec(acts)[t] == (
                hex32_of(acts[i].1->Extract_hash),
                acts[i].0,
            ),
    decreases acts.len(),
{
    let head: Seq<(Seq<char>, Seq<char>)> = match acts[0].1 {
        ActionV::Extract { hash, .. } => seq![(hex32_of(hash), acts[0].0)],
        _ => Seq::empty(),
    };
    if i == 0 {
        assert(pending_spec(acts)[0] == (hex32_of(acts[0].1->Extract_hash), acts[0].0));
    } else {
        assert(acts.drop_first()[i - 1] == acts[i]);
        lemma_pending_member(acts.drop_first(), i - 1);
        let t0 = choose|t: int|
            0 <= t < pending_spec(acts.drop_first()).len() && #[trigger] pending_spec(
                acts.drop_first(),
            )[t] == (hex32_of(acts[i].1->Extract_hash), acts[i].0);
        assert(pending_spec(acts)[head.len() + t0] == pending_spec(acts.drop_first())[t0]);
    }
}

/// Every blob the fold emits is named by the hex rendering of its own
/// content hash, and carries either content already in the accumulator or
/// the bytes of one of the folded file nodes.
proof fn lemma_blobs_shape(
    nodes: Seq<SourceEntryV>,
    fs: Seq<(Seq<char>, Seq<u8>)>,
    acc: Seq<(Seq<char>, Seq<u8>)>,
    t: int,
)
    requires
        0 <= t < crate::pack::blobs_fold(nodes, fs, acc).len(),
    ensures
        ({
            let out = crate::pack::blobs_fold(nodes, fs, acc);
            (exists|u: int| 0 <= u < acc.len() && #[trigger] acc[u] == out[t]) || (out[t].0
                == hex32_of(hash_of(out[t].1)) && exists|k: int|
                0 <= k < nodes.len() && file_data(#[trigger] nodes[k], fs) == Some(out[t].1))
        }),
    decreases nodes.len(),
{
    let out = crate::pack::blobs_fold(nodes, fs, acc);
    if nodes.len() == 0 {
        assert(acc[t] == out[t]);
    } else {
        let acc2 = match file_data(nodes[0], fs) {
            Some(d) => crate::pack::add_blob(acc, d),
            None => acc,
        };
        lemma_blobs_shape(nodes.drop_first(), fs, acc2, t);
        if exists|u: int| 0 <= u < acc2.len() && #[trigger] acc2[u] == out[t] {
            let u = choose|u: int| 0 <= u < acc2.len() && #[trigger] acc2[u] == out[t];
            match file_data(nodes[0], fs) {
                Some(d) => {
                    if !contains_name(acc, hex32_of(hash_of(d))) && u == acc.len() {
                        assert(acc2[u] == (hex32_of(hash_of(d)), d));
                        assert(out[t].0 == hex32_of(hash_of(out[t].1)));
                        assert(file_data(nodes[0], fs) == Some(out[t].1));
                    } else {
                        if contains_name(acc, hex32_of(hash_of(d))) {
                            assert(acc[u] == out[t]);
                        } else {
                            assert(acc2[u] == acc[u]);
                        }
                    }
                },
                None => {
                    assert(acc[u] == out[t]);
                },
            }
        } else {
            let k = choose|k: int|
                0 <= k < nodes.drop_first().len() && file_data(
                    #[trigger] nodes.drop_first()[k],
                    fs,
                ) == Some(out[t].1);
            assert(nodes.drop_first()[k] == nodes[k + 1]);
        }
    }
}

/// Two distinct entries with one name put the count at two or more.
proof fn lemma_count_two(es: Seq<(Seq<char>, Seq<u8>)>, nm: Seq<char>, i: int, j: int)
    requires
        0 <= i < j < es.len(),
        es[i].0 == nm,
        es[j].0 == nm,
    ensures
        count_name(es, nm) >= 2,
    decreases es.len(),
{
    let rest = es.drop_first();
    if i == 0 {
        assert(rest[j - 1].0 == nm);
        lemma_count_member(rest, nm, j - 1);
    } else {
        assert(rest[i - 1].0 == nm);
        assert(rest[j - 1].0 == nm);
        lemma_count_two(rest, nm, i - 1, j - 1);
    }
}

/// An entry with a name puts the count at one or more.
proof fn lemma_count_member(es: Seq<(Seq<char>, Seq<u8>)>, nm: Seq<char>, i: int)
    requires
        0 <= i < es.len(),
        es[i].0 == nm,
    ensures
        count_name(es, nm) >= 1,
    decreases es.len(),
{
    if i > 0 {
        assert(es.drop_first()[i - 1].0 == nm);
        lemma_count_member(es.drop_first(), nm, i - 1);
    }
}

/// A pending pair for a name survives entries with other names.
proof fn lemma_minus_member(
    pending: Seq<(Seq<char>, Seq<char>)>,
    other: Seq<char>,
    nm: Seq<char>,
    path: Seq<char>,
    t: int,
)
    requires
        0 <= t < pending.len(),
        pending[t] == (nm, path),
        nm != other,
    ensures
        exists|u: int|
            0 <= u < pending_minus(pending, other).len() && #[trigger] pending_minus(
                pending,
                other,
            )[u] == (nm, path),
    decreases pending.len(),
{
    let head: Seq<(Seq<char>, Seq<char>)> = if pending[0].0 == other {
        Seq::empty()
    } else {
        seq![pending[0]]
    };
    if t == 0 {
        assert(pending_minus(pending, other)[0] == (nm, path));
    } else {
        assert(pending.drop_first()[t - 1] == pending[t]);
        lemma_minus_member(pending.drop_first(), other, nm, path, t - 1);
        let u0 = choose|u: int|
            0 <= u < pending_minus(pending.drop_first(), other).len() && #[trigger] pending_minus(
                pending.drop_first(),
                other,
            )[u] == (nm, path);
        assert(pending_minus(pending, other)[head.len() + u0] == pending_minus(
            pending.drop_first(),
            other,
        )[u0]);
    }
}

/// A pending pair matching an entry's name yields that entry's bytes as a
/// write.
proof fn lemma_matched_member(
    pending: Seq<(Seq<char>, Seq<char>)>,
    nm: Seq<char>,
    d: Seq<u8>,
    path: Seq<char>,
    t: int,
)
    requires
        0 <= t < pending.len(),
        pending[t] == (nm, path),
    ensures
        exists|w: int|
            0 <= w < matched_writes(pending, nm, d).len() && #[trigger] matched_writes(
                pending,
                nm,
                d,
            )[w] == (path, d),
    decreases pending.len(),
{
    let head: Seq<(Seq<char>, Seq<u8>)> = if pending[0].0 == nm {
        seq![(pending[0].1, d)]
    } else {
        Seq::empty()
    };
    if t == 0 {
        assert(matched_writes(pending, nm, d)[0] == (path, d));
    } else {
        assert(pending.drop_first()[t - 1] == pending[t]);
        lemma_matched_member(pending.drop_first(), nm, d, path, t - 1);
        let w0 = choose|w: int|
            0 <= w < matched_writes(pending.drop_first(), nm, d).len()
                && #[trigger] matched_writes(pending.drop_first(), nm, d)[w] == (path, d);
        assert(matched_writes(pending, nm, d)[head.len() + w0] == matched_writes(
            pending.drop_first(),
            nm,
            d,
        )[w0]);
    }
}

/// The scan serves a pending pair at the first entry bearing its name.
proof fn lemma_scan_serves(
    es: Seq<(Seq<char>, Seq<u8>)>,
    pending: Seq<(Seq<char>, Seq<char>)>,
    nm: Seq<char>,
    path: Seq<char>,
    d: Seq<u8>,
    j: int,
    t: int,
)
    requires
        0 <= j < es.len(),
        es[j] == (nm, d),
        forall|j2: int| 0 <= j2 < j ==> (#[trigger] es[j2]).0 != nm,
        0 <= t < pending.len(),
        pending[t] == (nm, path),
    ensures
        exists|w: int|
            0 <= w < scan_spec(es, pending).len() && #[trigger] scan_spec(es, pending)[w] == (
                path,
                d,
            ),
    decreases es.len(),
{
    let head = matched_writes(pending, es[0].0, es[0].1);
    if j == 0 {
        lemma_matched_member(pending, nm, d, path, t);
        let w0 = choose|w: int|
            0 <= w < matched_writes(pending, nm, d).len() && #[trigger] matched_writes(
                pending,
                nm,
                d,
            )[w] == (path, d);
        assert(scan_spec(es, pending)[w0] == head[w0]);
    } else {
        assert(es[0].0 != nm);
        lemma_minus_member(pending, es[0].0, nm, path, t);
        let u0 = choose|u: int|
            0 <= u < pending_minus(pending, es[0].0).len() && #[trigger] pending_minus(
                pending,
                es[0].0,
            )[u] == (nm, path);
        assert forall|j2: int| 0 <= j2 < j - 1 implies (#[trigger] es.drop_first()[j2]).0
            != nm by {
            assert(es.drop_first()[j2] == es[j2 + 1]);
        }
        assert(es.drop_first()[j - 1] == es[j]);
        lemma_scan_serves(es.drop_first(), pending_minus(pending, es[0].0), nm, path, d, j - 1, u0);
        let w0 = choose|w: int|
            0 <= w < scan_spec(es.drop_first(), pending_minus(pending, es[0].0)).len()
                && #[trigger] scan_spec(es.drop_first(), pending_minus(pending, es[0].0))[w] == (
                path,
                d,
            );
        assert(scan_spec(es, pending)[head.len() + w0] == scan_spec(
            es.drop_first(),
            pending_minus(pending, es[0].0),
        )[w0]);
    }
}

/// A name counted at least once appears at some index.
proof fn lemma_count_nonzero(es: Seq<(Seq<char>, Seq<u8>)>, nm: Seq<char>)
    requires
        count_name(es, nm) >= 1,
    ensures
        exists|i: int| 0 <= i < es.len() && (#[trigger] es[i]).0 == nm,
    decreases es.len(),
{
    if es[0].0 == nm {
    } else {
        lemma_count_nonzero(es.drop_first(), nm);
        let i0 = choose|i: int|
            0 <= i < es.drop_first().len() && (#[trigger] es.drop_first()[i]).0 == nm;
        assert(es[i0 + 1].0 == nm);
    }
}

/// Expanding a pack reproduces, byte for byte, every literal file entry's
/// content at its compiled target path: for each extract action of the
/// compiled manifest, the archive scan of the packed stream writes the
/// embedded source bytes whose hash the action recorded, at the action's
/// path. The manifest read back out of the stream is the packed manifest
/// itself. Left out are hash collisions: two distinct embedded contents
/// sharing one 128-bit content hash would share one deduplicated blob.
pub proof fn lemma_pack_expand_reproduces(
    sm: crate::manifest::SourceManifestV,
    prov: Option<Seq<u8>>,
    fs: Seq<(Seq<char>, Seq<u8>)>,
    reg: Seq<(Seq<char>, Seq<char>, Seq<crate::modrinth::VersionFileV>)>,
    base: Seq<char>,
    i: int,
)
    requires
        forall|j: int| 0 <= j < sm.contents.len() ==> resolved_entry(#[trigger] sm.contents[j]),
        pack_entries_spec(sm, prov, fs, reg) is Ok,
        ({
            let mv = crate::compile::compile_manifest_spec(sm, fs, reg)->Ok_0;
            crate::codec::enc_ok_manifest(mv) && crate::manifest::wf_manifest(mv)
        }),
        forall|d1: Seq<u8>, d2: Seq<u8>|
            #![trigger hash_of(d1), hash_of(d2)]
            source_content(sm.contents, fs, d1) && source_content(sm.contents, fs, d2)
                && hash_of(d1) == hash_of(d2) ==> d1 == d2,
        ({
            let mv = crate::compile::compile_manifest_spec(sm, fs, reg)->Ok_0;
            0 <= i < manifest_actions(mv, base).len() && manifest_actions(mv, base)[i].1
                is Extract
        }),
    ensures
        ({
            let es = pack_entries_spec(sm, prov, fs, reg)->Ok_0;
            let mv = crate::compile::compile_manifest_spec(sm, fs, reg)->Ok_0;
            let acts = manifest_actions(mv, base);
            let ws = scan_spec(rest_of(es), pending_spec(acts));
            &&& crate::expand::read_manifest_spec(es) == Ok::<
                crate::manifest::ManifestV,
                crate::expand::ArchiveFormatError,
            >(mv)
            &&& exists|w: int, d: Seq<u8>|
                #![auto]
                0 <= w < ws.len() && ws[w] == (acts[i].0, d) && hash_of(d) == acts[
                    i
                ].1->Extract_hash && d.len() == acts[i].1->Extract_size && source_content(
                    sm.contents,
                    fs,
                    d,
                )
        }),
{
    let mv = crate::compile::compile_manifest_spec(sm, fs, reg)->Ok_0;
    let es = pack_entries_spec(sm, prov, fs, reg)->Ok_0;
    let acts = manifest_actions(mv, base);
    let h = acts[i].1->Extract_hash;
    let sz = acts[i].1->Extract_size;
    let path = acts[i].0;
    let nm = hex32_of(h);
    let blobs = pack_blobs(sm.contents, fs);
    let head: Seq<(Seq<char>, Seq<u8>)> = seq![("@manifest"@, crate::codec::enc_manifest(mv))];
    let prov_part: Seq<(Seq<char>, Seq<u8>)> = match prov {
        Some(dd) => seq![("@jetfuel.xml"@, dd)],
        None => Seq::empty(),
    };
    assert(es == head + prov_part + blobs);
    let pl = prov_part.len() as int;
    // the embedded content the extract action speaks of
    assert(compile_entries_spec(sm.contents, fs, reg) is Ok);
    assert(mv.contents == compile_entries_spec(sm.contents, fs, reg)->Ok_0);
    lemma_extract_sources(sm.contents, fs, reg, base, i);
    let d0 = choose|d: Seq<u8>|
        #![auto]
        source_content(sm.contents, fs, d) && hash_of(d) == h && d.len() == sz;
    // the stream opens with the manifest and reads back to it
    assert(es[0] == head[0]) by {
        assert((head + prov_part)[0] == head[0]);
        assert(((head + prov_part) + blobs)[0] == (head + prov_part)[0]);
        assert(es =~= (head + prov_part) + blobs);
    }
    crate::codec::lemma_manifest_round_trip(mv);
    assert(crate::expand::read_manifest_spec(es) == Ok::<
        crate::manifest::ManifestV,
        crate::expand::ArchiveFormatError,
    >(mv));
    // the pending pair for this action
    lemma_pending_member(acts, i);
    let t = choose|t: int|
        0 <= t < pending_spec(acts).len() && #[trigger] pending_spec(acts)[t] == (nm, path);
    // the one blob the content hash names
    crate::pack::lemma_pack_single_blob(sm.contents, fs, d0);
    assert(count_name(blobs, nm) == 1);
    lemma_count_nonzero(blobs, nm);
    let jb = choose|jj: int| 0 <= jj < blobs.len() && (#[trigger] blobs[jj]).0 == nm;
    let db = blobs[jb].1;
    lemma_blobs_shape(files_of_seq(sm.contents), fs, Seq::empty(), jb);
    assert(blobs[jb].0 == hex32_of(hash_of(db)) && source_content(sm.contents, fs, db)) by {
        assert(blobs == crate::pack::blobs_fold(files_of_seq(sm.contents), fs, Seq::empty()));
    }
    lemma_hex32_injective(hash_of(db), h);
    assert(hash_of(db) == h);
    assert(db == d0);
    // the scan walks the stream after the manifest entry
    let rest = rest_of(es);
    assert(rest =~= prov_part + blobs) by {
        assert(es =~= (head + prov_part) + blobs);
        assert(es.len() == 1 + pl + blobs.len());
        let pb = prov_part + blobs;
        assert forall|j2: int| 0 <= j2 < rest.len() implies rest[j2] == pb[j2] by {
            assert(rest[j2] == es[j2 + 1]);
            assert(es[j2 + 1] == ((head + prov_part) + blobs)[j2 + 1]);
        }
    }
    let jpos = pl + jb;
    assert(rest[jpos] == blobs[jb]) by {
        assert((prov_part + blobs)[jpos] == blobs[jb]);
    }
    assert forall|j2: int| 0 <= j2 < jpos implies (#[trigger] rest[j2]).0 != nm by {
        lemma_hex32_len(h);
        if j2 < pl {
            assert(rest[j2] == prov_part[j2]);
            assert(prov_part[j2].0 == "@jetfuel.xml"@);
            assert("@jetfuel.xml"@.len() == 12) by {
                reveal_strlit("@jetfuel.xml");
            }
        } else {
            assert(rest[j2] == blobs[j2 - pl]);
            if blobs[j2 - pl].0 == nm {
                lemma_count_two(blobs, nm, j2 - pl, jb);
            }
        }
    }
    lemma_scan_serves(rest, pending_spec(acts), nm, path, db, jpos, t);
    let w0 = choose|w: int|
        0 <= w < scan_spec(rest, pending_spec(acts)).len() && #[trigger] scan_spec(
            rest,
            pending_spec(acts),
        )[w] == (path, db);
    assert(0 <= w0 < scan_spec(rest_of(es), pending_spec(acts)).len() && scan_spec(
        rest_of(es),
        pending_spec(acts),
    )[w0] == (acts[i].0, db) && hash_of(db) == acts[i].1->Extract_hash && db.len() == acts[
        i
    ].1->Extract_size && source_content(sm.contents, fs, db));
}

} // verus!
