//! Packing: a resolved source manifest is compiled and serialized into one
//! ordered entry list. The first entry is always `@manifest`; when the raw
//! declarative source is supplied it follows as `@jetfuel.xml`; every file
//! node's bytes follow once each, named by the 32-digit hex rendering of
//! their content hash — identical content at several tree locations is
//! written exactly once.

use vstd::prelude::*;
use crate::archive::{entries_v, ArchiveEntry};
use crate::codec::enc_manifest;
use crate::codec::encode_manifest;
use crate::compile::{
    compile_manifest_spec, store_lookup, CompileError, CompileErrorV, FileStore, RegistryStore,
};
use crate::hashing::hash_of;
use crate::hexstr::hex32;
use crate::hexstr::hex32_of;
use crate::manifest::{
    files_of_seq, recurse_files, resolved_entry, source_entries_view, Manifest, SourceEntry,
    SourceEntryV, SourceManifest,
};

verus! {

broadcast use vstd::seq::group_seq_axioms, vstd::std_specs::vec::group_vec_axioms;

/// The bytes a file node embeds: its source path looked up in the store.
pub open spec fn file_data(node: SourceEntryV, fs: Seq<(Seq<char>, Seq<u8>)>) -> Option<
    Seq<u8>,
> {
    match node {
        SourceEntryV::File { source_path: Some(p), .. } => store_lookup(fs, p),
        _ => None,
    }
}

/// A file node whose source path has been resolved.
pub open spec fn resolved_file_node(n: SourceEntryV) -> bool {
    match n {
        SourceEntryV::File { source_path, .. } => source_path is Some,
        _ => false,
    }
}

pub proof fn lemma_files_of_resolved(e: SourceEntryV)
    requires
        resolved_entry(e),
    ensures
        forall|k: int|
            0 <= k < crate::manifest::files_of(e).len() ==> resolved_file_node(
                #[trigger] crate::manifest::files_of(e)[k],
            ),
    decreases e,
{
    match e {
        SourceEntryV::Directory { contents, .. } => {
            lemma_files_of_seq_resolved(contents);
            assert forall|k: int|
                0 <= k < crate::manifest::files_of(e).len() implies resolved_file_node(
                #[trigger] crate::manifest::files_of(e)[k],
            ) by {
                assert(crate::manifest::files_of(e)[k] == files_of_seq(contents)[k]);
                assert(resolved_file_node(files_of_seq(contents)[k]));
            }
        },
        _ => {},
    }
}

pub proof fn lemma_files_of_seq_resolved(s: Seq<SourceEntryV>)
    requires
        forall|i: int| 0 <= i < s.len() ==> resolved_entry(#[trigger] s[i]),
    ensures
        forall|k: int|
            0 <= k < files_of_seq(s).len() ==> resolved_file_node(#[trigger] files_of_seq(s)[k]),
    decreases s,
{
    if s.len() > 0 {
        lemma_files_of_resolved(s[0]);
        assert forall|i: int| 0 <= i < s.drop_first().len() implies resolved_entry(
            #[trigger] s.drop_first()[i],
        ) by {
            assert(s.drop_first()[i] == s[i + 1]);
        }
        lemma_files_of_seq_resolved(s.drop_first());
        let a = crate::manifest::files_of(s[0]);
        let b = files_of_seq(s.drop_first());
        assert forall|k: int| 0 <= k < files_of_seq(s).len() implies resolved_file_node(
            #[trigger] files_of_seq(s)[k],
        ) by {
            if k < a.len() {
                assert(files_of_seq(s)[k] == a[k]);
            } else {
                assert(files_of_seq(s)[k] == b[k - a.len()]);
            }
        }
    }
}

/// True when the entry list holds an entry with this name.
pub open spec fn contains_name(es: Seq<(Seq<char>, Seq<u8>)>, name: Seq<char>) -> bool {
    exists|i: int| 0 <= i < es.len() && (#[trigger] es[i]).0 == name
}

/// How many entries carry this name.
pub open spec fn count_name(es: Seq<(Seq<char>, Seq<u8>)>, name: Seq<char>) -> nat
    decreases es.len(),
{
    if es.len() == 0 {
        0
    } else {
        (if es[0].0 == name {
            1nat
        } else {
            0nat
        }) + count_name(es.drop_first(), name)
    }
}

/// One blob added to the accumulator, unless its name is already there.
pub open spec fn add_blob(acc: Seq<(Seq<char>, Seq<u8>)>, data: Seq<u8>) -> Seq<
    (Seq<char>, Seq<u8>),
> {
    if contains_name(acc, hex32_of(hash_of(data))) {
        acc
    } else {
        acc.push((hex32_of(hash_of(data)), data))
    }
}

/// The blob entries of a file-node list, folded left to right with
/// deduplication by name; a node whose bytes the store does not hold is
/// passed over (compilation would already have failed on it).
pub open spec fn blobs_fold(
    nodes: Seq<SourceEntryV>,
    fs: Seq<(Seq<char>, Seq<u8>)>,
    acc: Seq<(Seq<char>, Seq<u8>)>,
) -> Seq<(Seq<char>, Seq<u8>)>
    decreases nodes.len(),
{
    if nodes.len() == 0 {
        acc
    } else {
        let acc2 = match file_data(nodes[0], fs) {
            Some(data) => add_blob(acc, data),
            None => acc,
        };
        blobs_fold(nodes.drop_first(), fs, acc2)
    }
}

/// The blob section of a pack: the deduplicated file contents of the whole
/// tree, in tree order.
pub open spec fn pack_blobs(
    contents: Seq<SourceEntryV>,
    fs: Seq<(Seq<char>, Seq<u8>)>,
) -> Seq<(Seq<char>, Seq<u8>)> {
    blobs_fold(files_of_seq(contents), fs, Seq::empty())
}

/// The whole packed entry list, or the compile failure.
pub open spec fn pack_entries_spec(
    m: crate::manifest::SourceManifestV,
    prov: Option<Seq<u8>>,
    fs: Seq<(Seq<char>, Seq<u8>)>,
    reg: Seq<(Seq<char>, Seq<char>, Seq<crate::modrinth::VersionFileV>)>,
) -> Result<Seq<(Seq<char>, Seq<u8>)>, CompileErrorV> {
    match compile_manifest_spec(m, fs, reg) {
        Err(e) => Err(e),
        Ok(mv) => Ok(
            seq![("@manifest"@, enc_manifest(mv))] + (match prov {
                Some(d) => seq![("@jetfuel.xml"@, d)],
                None => Seq::empty(),
            }) + pack_blobs(m.contents, fs),
        ),
    }
}

/// Searches an entry list for a name.
fn entries_contain(es: &Vec<ArchiveEntry>, name: &str) -> (r: bool)
    ensures
        r == contains_name(entries_v(es@), name@),
{
    let mut i: usize = 0;
    while i < es.len()
        invariant
            i <= es@.len(),
            entries_v(es@).len() == es@.len(),
            forall|j: int| 0 <= j < es@.len() ==> #[trigger] entries_v(es@)[j] == (
                es@[j].name@,
                es@[j].data@,
            ),
            forall|j: int| 0 <= j < i ==> (#[trigger] entries_v(es@)[j]).0 != name@,
        decreases es@.len() - i,
    {
        if crate::str_eq(es[i].name.as_str(), name) {
            proof {
                assert((entries_v(es@)[i as int]).0 == name@);
            }
            return true;
        }
        i = i + 1;
    }
    false
}

/// Folding one more node extends the fold of a prefix.
proof fn lemma_blobs_fold_take_step(
    nodes: Seq<SourceEntryV>,
    fs: Seq<(Seq<char>, Seq<u8>)>,
    acc: Seq<(Seq<char>, Seq<u8>)>,
    k: int,
)
    requires
        0 <= k < nodes.len(),
    ensures
        blobs_fold(nodes.take(k + 1), fs, acc) == (match file_data(nodes[k], fs) {
            Some(data) => add_blob(blobs_fold(nodes.take(k), fs, acc), data),
            None => blobs_fold(nodes.take(k), fs, acc),
        }),
    decreases k,
{
    reveal_with_fuel(blobs_fold, 3);
    if k == 0 {
        assert(nodes.take(1)[0] == nodes[0]);
        assert(nodes.take(1).drop_first() =~= Seq::<SourceEntryV>::empty());
        assert(nodes.take(0) =~= Seq::<SourceEntryV>::empty());
    } else {
        let first = nodes[0];
        let acc2 = match file_data(first, fs) {
            Some(data) => add_blob(acc, data),
            None => acc,
        };
        assert(nodes.take(k + 1)[0] == first);
        assert(nodes.take(k)[0] == first);
        assert(nodes.take(k + 1).drop_first() =~= nodes.drop_first().take(k));
        assert(nodes.take(k).drop_first() =~= nodes.drop_first().take(k - 1));
        lemma_blobs_fold_take_step(nodes.drop_first(), fs, acc2, k - 1);
        assert(nodes.drop_first()[k - 1] == nodes[k]);
    }
}

/// A fold over concatenated node lists is the fold of the second over the
/// fold of the first.
proof fn lemma_blobs_fold_append(
    a: Seq<SourceEntryV>,
    b: Seq<SourceEntryV>,
    fs: Seq<(Seq<char>, Seq<u8>)>,
    acc: Seq<(Seq<char>, Seq<u8>)>,
)
    ensures
        blobs_fold(a + b, fs, acc) == blobs_fold(b, fs, blobs_fold(a, fs, acc)),
    decreases a.len(),
{
    if a.len() == 0 {
        assert(a + b =~= b);
    } else {
        let acc2 = match file_data(a[0], fs) {
            Some(data) => add_blob(acc, data),
            None => acc,
        };
        assert((a + b)[0] == a[0]);
        assert((a + b).drop_first() =~= a.drop_first() + b);
        lemma_blobs_fold_append(a.drop_first(), b, fs, acc2);
    }
}

/// Builds the packed entry list from a resolved source manifest, the raw
/// source bytes if they are to travel along, and the two stores.
#[verifier::loop_isolation(false)]
pub fn pack_entries(
    manifest: &SourceManifest,
    prov: Option<&Vec<u8>>,
    files: &FileStore,
    registry: &RegistryStore,
) -> (r: Result<Vec<ArchiveEntry>, CompileError>)
    requires
        forall|j: int| 0 <= j < manifest@.contents.len() ==> resolved_entry(
            #[trigger] manifest@.contents[j],
        ),
    ensures
        match r {
            Ok(es) => pack_entries_spec(
                manifest@,
                match prov {
                    Some(d) => Some(d@),
                    None => None,
                },
                files@,
                registry@,
            ) == Ok::<Seq<(Seq<char>, Seq<u8>)>, CompileErrorV>(entries_v(es@))
                && crate::codec::enc_ok_manifest(
                crate::compile::compile_manifest_spec(manifest@, files@, registry@)->Ok_0,
            ),
            Err(e) => pack_entries_spec(
                manifest@,
                match prov {
                    Some(d) => Some(d@),
                    None => None,
                },
                files@,
                registry@,
            ) == Err::<Seq<(Seq<char>, Seq<u8>)>, CompileErrorV>(e@),
        },
{
    let compiled = match Manifest::parse(manifest, files, registry) {
        Ok(m) => m,
        Err(e) => {
            return Err(e);
        },
    };
    let ghost mv = compiled@;
    let data = encode_manifest(&compiled);
    let mut out: Vec<ArchiveEntry> = Vec::new();
    out.push(ArchiveEntry { name: String::from_str("@manifest"), data });
    let ghost prov_part: Seq<(Seq<char>, Seq<u8>)> = match prov {
        Some(d) => seq![("@jetfuel.xml"@, d@)],
        None => Seq::empty(),
    };
    match prov {
        Some(d) => {
            let copy = crate::compile::copy_bytes(d);
            out.push(ArchiveEntry { name: String::from_str("@jetfuel.xml"), data: copy });
        },
        None => {},
    }
    let ghost headv = seq![("@manifest"@, enc_manifest(mv))] + prov_part;
    proof {
        assert(entries_v(out@) =~= headv);
    }
    let mut blobs: Vec<ArchiveEntry> = Vec::new();
    let ghost all_contents = manifest@.contents;
    let mut i: usize = 0;
    proof {
        crate::manifest::lemma_source_entries_view_len(manifest.contents@);
        assert(all_contents.take(0) =~= Seq::<SourceEntryV>::empty());
        assert(entries_v(blobs@) =~= blobs_fold(
            files_of_seq(all_contents.take(0)),
            files@,
            Seq::empty(),
        ));
    }
    while i < manifest.contents.len()
        invariant
            i <= manifest.contents@.len(),
            entries_v(blobs@) == blobs_fold(
                files_of_seq(all_contents.take(i as int)),
                files@,
                Seq::empty(),
            ),
        decreases manifest.contents@.len() - i,
    {
        proof {
            crate::manifest::lemma_source_entries_view_index(manifest.contents@, i as int);
        }
        let nodes = recurse_files(&manifest.contents[i]);
        let ghost nodesv = crate::manifest::files_of(all_contents[i as int]);
        let ghost acc0 = blobs_fold(files_of_seq(all_contents.take(i as int)), files@, Seq::empty());
        let mut j: usize = 0;
        proof {
            crate::manifest::lemma_source_entries_view_len(nodes@);
            assert(source_entries_view(nodes@) == nodesv);
            assert(nodesv.take(0) =~= Seq::<SourceEntryV>::empty());
            lemma_files_of_resolved(all_contents[i as int]);
        }
        while j < nodes.len()
            invariant
                j <= nodes@.len(),
                nodesv.len() == nodes@.len(),
                source_entries_view(nodes@) == nodesv,
                entries_v(blobs@) == blobs_fold(nodesv.take(j as int), files@, acc0),
                forall|k: int| 0 <= k < nodesv.len() ==> resolved_file_node(
                    #[trigger] nodesv[k],
                ),
            decreases nodes@.len() - j,
        {
            proof {
                crate::manifest::lemma_source_entries_view_index(nodes@, j as int);
                assert(resolved_file_node(nodesv[j as int]));
            }
            let node = &nodes[j];
            match node {
                SourceEntry::File { name: _, source_path: Some(p) } => {
                    match files.get(p.as_str()) {
                        Some(found) => {
                            let h = crate::hashing::content_hash(found.as_slice());
                            let name = hex32(h);
                            let ghost blobspre = blobs@;
                            let ghost datav = found@;
                            if !entries_contain(&blobs, name.as_str()) {
                                blobs.push(ArchiveEntry { name, data: found });
                                proof {
                                    assert(entries_v(blobs@) =~= entries_v(blobspre).push(
                                        (hex32_of(hash_of(datav)), datav),
                                    ));
                                }
                            }
                            proof {
                                assert(entries_v(blobs@) == add_blob(
                                    entries_v(blobspre),
                                    datav,
                                ));
                            }
                        },
                        None => {},
                    }
                },
                _ => {
                    proof {
                        assert(false);
                    }
                },
            }
            j = j + 1;
            proof {
                lemma_blobs_fold_take_step(nodesv, files@, acc0, j - 1);
            }
        }
        i = i + 1;
        proof {
            assert(nodesv.take(nodesv.len() as int) =~= nodesv);
            assert(all_contents.take(i as int) =~= all_contents.take(i - 1).push(
                all_contents[i - 1],
            ));
            crate::manifest::lemma_files_of_seq_push(
                all_contents.take(i - 1),
                all_contents[i - 1],
            );
            lemma_blobs_fold_append(
                files_of_seq(all_contents.take(i - 1)),
                nodesv,
                files@,
                Seq::empty(),
            );
        }
    }
    proof {
        assert(all_contents.take(all_contents.len() as int) =~= all_contents);
    }
    let mut b = blobs;
    let ghost blobsv = entries_v(b@);
    out.append(&mut b);
    proof {
        assert(entries_v(out@) =~= headv + blobsv);
        assert(entries_v(out@) =~= seq![("@manifest"@, enc_manifest(mv))] + prov_part
            + pack_blobs(all_contents, files@));
    }
    Ok(out)
}

/// Deduplication keeps the blob names distinct: no name appears twice in a
/// fold that started from distinct names.
proof fn lemma_blobs_fold_distinct(
    nodes: Seq<SourceEntryV>,
    fs: Seq<(Seq<char>, Seq<u8>)>,
    acc: Seq<(Seq<char>, Seq<u8>)>,
    name: Seq<char>,
)
    requires
        count_name(acc, name) <= 1,
        count_name(acc, name) == 1 ==> contains_name(acc, name),
    ensures
        count_name(blobs_fold(nodes, fs, acc), name) <= 1,
        contains_name(acc, name) ==> contains_name(blobs_fold(nodes, fs, acc), name),
    decreases nodes.len(),
{
    if nodes.len() > 0 {
        let acc2 = match file_data(nodes[0], fs) {
            Some(data) => add_blob(acc, data),
            None => acc,
        };
        match file_data(nodes[0], fs) {
            Some(data) => {
                lemma_add_blob_count(acc, data, name);
            },
            None => {},
        }
        lemma_blobs_fold_distinct(nodes.drop_first(), fs, acc2, name);
    }
}

proof fn lemma_count_push(es: Seq<(Seq<char>, Seq<u8>)>, e: (Seq<char>, Seq<u8>), name: Seq<char>)
    ensures
        count_name(es.push(e), name) == count_name(es, name) + (if e.0 == name {
            1nat
        } else {
            0nat
        }),
    decreases es.len(),
{
    reveal_with_fuel(count_name, 3);
    if es.len() == 0 {
        assert(es.push(e).drop_first() =~= Seq::<(Seq<char>, Seq<u8>)>::empty());
        assert(es.push(e)[0] == e);
    } else {
        lemma_count_push(es.drop_first(), e, name);
        assert(es.push(e).drop_first() =~= es.drop_first().push(e));
        assert(es.push(e)[0] == es[0]);
    }
}

proof fn lemma_count_contains(es: Seq<(Seq<char>, Seq<u8>)>, name: Seq<char>)
    ensures
        contains_name(es, name) <==> count_name(es, name) >= 1,
    decreases es.len(),
{
    if es.len() > 0 {
        lemma_count_contains(es.drop_first(), name);
        if es[0].0 == name {
            assert(contains_name(es, name));
        } else {
            assert forall|i: int|
                0 <= i < es.drop_first().len() && (#[trigger] es.drop_first()[i]).0
                    == name implies contains_name(es, name) by {
                assert(es[i + 1].0 == name);
            }
            if contains_name(es, name) {
                let w = choose|i: int| 0 <= i < es.len() && (#[trigger] es[i]).0 == name;
                assert(es.drop_first()[w - 1].0 == name);
                assert(contains_name(es.drop_first(), name));
            }
        }
    }
}

proof fn lemma_add_blob_count(
    acc: Seq<(Seq<char>, Seq<u8>)>,
    data: Seq<u8>,
    name: Seq<char>,
)
    requires
        count_name(acc, name) <= 1,
        count_name(acc, name) == 1 ==> contains_name(acc, name),
    ensures
        count_name(add_blob(acc, data), name) <= 1,
        count_name(add_blob(acc, data), name) == 1 ==> contains_name(add_blob(acc, data), name),
        contains_name(acc, name) ==> contains_name(add_blob(acc, data), name),
{
    let nm = hex32_of(hash_of(data));
    lemma_count_contains(acc, name);
    if !contains_name(acc, nm) {
        lemma_count_push(acc, (nm, data), name);
    }
    lemma_count_contains(add_blob(acc, data), name);
    if contains_name(acc, name) {
        let w = choose|i: int| 0 <= i < acc.len() && (#[trigger] acc[i]).0 == name;
        if !contains_name(acc, nm) {
            assert(acc.push((nm, data))[w].0 == name);
        }
    }
}

/// The blob a content hash names is written into a pack at most once; and
/// once some file node carries content with that hash, exactly once. This
/// holds of content at however many tree locations, since the name depends
/// on the content alone.
pub proof fn lemma_pack_single_blob(
    contents: Seq<SourceEntryV>,
    fs: Seq<(Seq<char>, Seq<u8>)>,
    data: Seq<u8>,
)
    requires
        exists|k: int|
            0 <= k < files_of_seq(contents).len() && file_data(
                #[trigger] files_of_seq(contents)[k],
                fs,
            ) == Some(data),
    ensures
        count_name(pack_blobs(contents, fs), hex32_of(hash_of(data))) == 1,
{
    let nodes = files_of_seq(contents);
    let nm = hex32_of(hash_of(data));
    let k = choose|k: int|
        0 <= k < nodes.len() && file_data(#[trigger] nodes[k], fs) == Some(data);
    lemma_pack_blob_member(nodes, fs, Seq::empty(), k, data);
    lemma_blobs_fold_distinct(nodes, fs, Seq::empty(), nm);
    lemma_count_contains(blobs_fold(nodes, fs, Seq::empty()), nm);
}

/// Once a node carrying the content is folded in, the name stays present.
proof fn lemma_pack_blob_member(
    nodes: Seq<SourceEntryV>,
    fs: Seq<(Seq<char>, Seq<u8>)>,
    acc: Seq<(Seq<char>, Seq<u8>)>,
    k: int,
    data: Seq<u8>,
)
    requires
        0 <= k < nodes.len(),
        file_data(nodes[k], fs) == Some(data),
    ensures
        contains_name(blobs_fold(nodes, fs, acc), hex32_of(hash_of(data))),
    decreases nodes.len(),
{
    let nm = hex32_of(hash_of(data));
    let acc2 = match file_data(nodes[0], fs) {
        Some(d) => add_blob(acc, d),
        None => acc,
    };
    if k == 0 {
        assert(contains_name(acc2, nm)) by {
            if !contains_name(acc, nm) {
                assert(acc.push((nm, data))[acc.len() as int].0 == nm);
            }
        }
        lemma_fold_keeps_name(nodes.drop_first(), fs, acc2, nm);
    } else {
        assert(nodes.drop_first()[k - 1] == nodes[k]);
        lemma_pack_blob_member(nodes.drop_first(), fs, acc2, k - 1, data);
    }
}

/// A name present in the accumulator stays present through the fold.
proof fn lemma_fold_keeps_name(
    nodes: Seq<SourceEntryV>,
    fs: Seq<(Seq<char>, Seq<u8>)>,
    acc: Seq<(Seq<char>, Seq<u8>)>,
    name: Seq<char>,
)
    requires
        contains_name(acc, name),
    ensures
        contains_name(blobs_fold(nodes, fs, acc), name),
    decreases nodes.len(),
{
    if nodes.len() > 0 {
        let acc2 = match file_data(nodes[0], fs) {
            Some(d) => add_blob(acc, d),
            None => acc,
        };
        assert(contains_name(acc2, name)) by {
            let w = choose|i: int| 0 <= i < acc.len() && (#[trigger] acc[i]).0 == name;
            match file_data(nodes[0], fs) {
                Some(d) => {
                    if !contains_name(acc, hex32_of(hash_of(d))) {
                        assert(acc.push((hex32_of(hash_of(d)), d))[w].0 == name);
                    }
                },
                None => {},
            }
        }
        lemma_fold_keeps_name(nodes.drop_first(), fs, acc2, name);
    }
}

} // verus!
