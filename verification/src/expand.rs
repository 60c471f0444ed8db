//! Expansion: a container's entry list is re-materialized against a target
//! directory in strictly ordered phases. The manifest is read and checked
//! before anything is touched; persist-marked paths are captured before the
//! destructive wipe; population derives directories, scripts, symlinks,
//! downloads and pending extractions from the action list; the archive scan
//! matches content-addressed entries against the pending map; persisted
//! content is restored last. The surrounding program performs the file and
//! network work and hands every outcome back as a plain value.

use vstd::prelude::*;
use vstd::utf8::encode_utf8;
use crate::actions::{actions_view, Action, ActionV};
use crate::archive::{entries_v, ArchiveEntry};
use crate::cache::{after_lookup, insert_spec, lookup_spec, CacheState, CacheStore};
use crate::codec::{dec_manifest, decode_manifest};
use crate::hashing::{sha512_digest, sha512_of};
use crate::hexstr::{hex32, hex32_of, hex_bytes, hex_bytes_of, hex_decode};
use crate::manifest::{
    entries_view, wf_entry, wf_manifest, wf_version_file, Entry, EntryV, Manifest, ManifestV,
};
use crate::strutil::{join_path, joined, relative_spec, relative_to};
use crate::template::parse_template;

verus! {

broadcast use vstd::seq::group_seq_axioms, vstd::std_specs::vec::group_vec_axioms;

/// One file to be written: a path and its bytes.
#[derive(Debug, PartialEq, Eq)]
pub struct FileWrite {
    pub path: String,
    pub data: Vec<u8>,
}

impl View for FileWrite {
    type V = (Seq<char>, Seq<u8>);

    open spec fn view(&self) -> (Seq<char>, Seq<u8>) {
        (self.path@, self.data@)
    }
}

/// The mathematical value of a write list.
pub open spec fn writes_v(ws: Seq<FileWrite>) -> Seq<(Seq<char>, Seq<u8>)> {
    ws.map_values(|w: FileWrite| (w.path@, w.data@))
}

/// Why a container cannot be expanded at all: these abort before any target
/// mutation.
#[derive(Debug, Clone, Copy, PartialEq, Eq, Structural)]
pub enum ArchiveFormatError {
    Empty,
    FirstEntryNotManifest,
    Undecodable,
    Malformed,
}

/// What reading the manifest out of an entry list yields: the first entry
/// must be named `@manifest`, must decode, and must be well formed.
pub open spec fn read_manifest_spec(es: Seq<(Seq<char>, Seq<u8>)>) -> Result<
    ManifestV,
    ArchiveFormatError,
> {
    if es.len() == 0 {
        Err(ArchiveFormatError::Empty)
    } else if es[0].0 != "@manifest"@ {
        Err(ArchiveFormatError::FirstEntryNotManifest)
    } else {
        match dec_manifest(es[0].1) {
            None => Err(ArchiveFormatError::Undecodable),
            Some(m) => if wf_manifest(m) {
                Ok(m)
            } else {
                Err(ArchiveFormatError::Malformed)
            },
        }
    }
}

/// Checks well-formedness of one compiled entry.
#[verifier::loop_isolation(false)]
fn check_entry_wf(e: &Entry) -> (r: bool)
    ensures
        r == wf_entry(e@),
    decreases *e,
{
    match e {
        Entry::Directory { contents, .. } => {
            let mut i: usize = 0;
            proof {
                crate::manifest::lemma_entries_view_len(contents@);
            }
            while i < contents.len()
                invariant
                    i <= contents@.len(),
                    forall|j: int| 0 <= j < i ==> wf_entry(
                        #[trigger] entries_view(contents@)[j],
                    ),
                decreases contents@.len() - i,
            {
                proof {
                    crate::manifest::lemma_entries_view_index(contents@, i as int);
                }
                if !check_entry_wf(&contents[i]) {
                    proof {
                        assert(!wf_entry(entries_view(contents@)[i as int]));
                        assert(!wf_entry(e@)) by {
                            if wf_entry(e@) {
                                match e@ {
                                    EntryV::Directory { contents: cv, .. } => {
                                        assert(cv == entries_view(contents@));
                                        assert(wf_entry(cv[i as int]));
                                    },
                                    _ => {},
                                }
                            }
                        }
                    }
                    return false;
                }
                i = i + 1;
            }
            true
        },
        Entry::Modrinth { files, .. } => {
            let mut i: usize = 0;
            while i < files.len()
                invariant
                    i <= files@.len(),
                    forall|j: int| 0 <= j < i ==> wf_version_file(#[trigger] files@[j]@),
                decreases files@.len() - i,
            {
                let f = &files[i];
                let ext = crate::strutil::extension_of(f.filename.as_str());
                if ext.is_none() {
                    proof {
                        assert(!wf_entry(e@)) by {
                            if wf_entry(e@) {
                                match e@ {
                                    EntryV::Modrinth { files: fv, .. } => {
                                        assert(wf_version_file(fv[i as int]));
                                        assert(fv[i as int] == files@[i as int]@);
                                    },
                                    _ => {},
                                }
                            }
                        }
                    }
                    return false;
                }
                if f.hashes.sha512.unicode_len() != 128 || hex_decode(
                    f.hashes.sha512.as_str(),
                ).is_none() {
                    proof {
                        assert(!wf_entry(e@)) by {
                            if wf_entry(e@) {
                                match e@ {
                                    EntryV::Modrinth { files: fv, .. } => {
                                        assert(wf_version_file(fv[i as int]));
                                        assert(fv[i as int] == files@[i as int]@);
                                    },
                                    _ => {},
                                }
                            }
                        }
                    }
                    return false;
                }
                i = i + 1;
            }
            proof {
                assert(wf_entry(e@)) by {
                    match e@ {
                        EntryV::Modrinth { files: fv, .. } => {
                            assert forall|j: int| 0 <= j < fv.len() implies wf_version_file(
                                #[trigger] fv[j],
                            ) by {
                                assert(fv[j] == files@[j]@);
                            }
                        },
                        _ => {},
                    }
                }
            }
            true
        },
        _ => true,
    }
}

/// Reads the manifest out of a container's entry list (see
/// [`read_manifest_spec`]); nothing on disk may be touched before this
/// succeeds.
#[verifier::loop_isolation(false)]
pub fn read_manifest(entries: &Vec<ArchiveEntry>) -> (r: Result<Manifest, ArchiveFormatError>)
    ensures
        match r {
            Ok(m) => read_manifest_spec(entries_v(entries@)) == Ok::<
                ManifestV,
                ArchiveFormatError,
            >(m@),
            Err(e) => read_manifest_spec(entries_v(entries@)) == Err::<
                ManifestV,
                ArchiveFormatError,
            >(e),
        },
{
    let ghost es = entries_v(entries@);
    if entries.len() == 0 {
        return Err(ArchiveFormatError::Empty);
    }
    proof {
        assert(es[0] == (entries@[0].name@, entries@[0].data@));
    }
    if !crate::str_eq(entries[0].name.as_str(), "@manifest") {
        return Err(ArchiveFormatError::FirstEntryNotManifest);
    }
    let m = match decode_manifest(&entries[0].data) {
        Some(m) => m,
        None => {
            return Err(ArchiveFormatError::Undecodable);
        },
    };
    let mut i: usize = 0;
    proof {
        crate::manifest::lemma_entries_view_len(m.contents@);
    }
    while i < m.contents.len()
        invariant
            i <= m.contents@.len(),
            entries_view(m.contents@).len() == m.contents@.len(),
            forall|j: int| 0 <= j < i ==> wf_entry(#[trigger] entries_view(m.contents@)[j]),
        decreases m.contents@.len() - i,
    {
        proof {
            crate::manifest::lemma_entries_view_index(m.contents@, i as int);
        }
        if !check_entry_wf(&m.contents[i]) {
            proof {
                assert(!wf_manifest(m@)) by {
                    if wf_manifest(m@) {
                        assert(wf_entry(m@.contents[i as int]));
                    }
                }
            }
            return Err(ArchiveFormatError::Malformed);
        }
        i = i + 1;
    }
    proof {
        assert(wf_manifest(m@));
    }
    Ok(m)
}

/// The paths of the persist actions, in order.
pub open spec fn persist_paths_spec(acts: Seq<(Seq<char>, ActionV)>) -> Seq<Seq<char>>
    decreases acts.len(),
{
    if acts.len() == 0 {
        Seq::empty()
    } else {
        (if acts[0].1 is Persist {
            seq![acts[0].0]
        } else {
            Seq::empty()
        }) + persist_paths_spec(acts.drop_first())
    }
}

proof fn lemma_persist_paths_push(acts: Seq<(Seq<char>, ActionV)>, a: (Seq<char>, ActionV))
    ensures
        persist_paths_spec(acts.push(a)) == persist_paths_spec(acts) + (if a.1 is Persist {
            seq![a.0]
        } else {
            Seq::empty()
        }),
    decreases acts.len(),
{
    reveal_with_fuel(persist_paths_spec, 3);
    if acts.len() == 0 {
        assert(acts.push(a).drop_first() =~= Seq::<(Seq<char>, ActionV)>::empty());
        assert(persist_paths_spec(acts.push(a)) =~= persist_paths_spec(acts) + (
        if a.1 is Persist {
            seq![a.0]
        } else {
            Seq::empty()
        }));
    } else {
        lemma_persist_paths_push(acts.drop_first(), a);
        assert(acts.push(a).drop_first() =~= acts.drop_first().push(a));
        assert(acts.push(a)[0] == acts[0]);
        assert(persist_paths_spec(acts.push(a)) =~= persist_paths_spec(acts) + (
        if a.1 is Persist {
            seq![a.0]
        } else {
            Seq::empty()
        }));
    }
}

/// Collects the paths of the persist actions, which must be read before the
/// destructive wipe.
pub fn persist_paths(actions: &Vec<(String, Action)>) -> (r: Vec<String>)
    ensures
        r@.map_values(|s: String| s@) == persist_paths_spec(actions_view(actions@)),
{
    let ghost av = actions_view(actions@);
    let mut out: Vec<String> = Vec::new();
    let mut i: usize = 0;
    proof {
        assert(av.take(0) =~= Seq::<(Seq<char>, ActionV)>::empty());
        assert(out@.map_values(|s: String| s@) =~= persist_paths_spec(av.take(0)));
    }
    while i < actions.len()
        invariant
            i <= actions@.len(),
            av == actions_view(actions@),
            av.len() == actions@.len(),
            out@.map_values(|s: String| s@) == persist_paths_spec(av.take(i as int)),
        decreases actions@.len() - i,
    {
        let ghost outpre = out@;
        match &actions[i].1 {
            Action::Persist => {
                out.push(actions[i].0.clone());
            },
            _ => {},
        }
        i = i + 1;
        proof {
            lemma_persist_paths_push(av.take(i - 1), av[i - 1]);
            assert(av.take(i as int) =~= av.take(i - 1).push(av[i - 1]));
            assert(av[i - 1] == (actions@[i - 1].0@, actions@[i - 1].1@));
            assert(out@.map_values(|s: String| s@) =~= persist_paths_spec(av.take(i as int)));
        }
    }
    proof {
        assert(av.take(av.len() as int) =~= av);
    }
    out
}

/// What the caller found at a persist path before the wipe.
#[derive(Debug, PartialEq, Eq)]
pub enum ReadOutcome {
    Found { data: Vec<u8> },
    NotFound,
    ReadError,
}

/// The mathematical value of [`ReadOutcome`].
pub enum ReadOutcomeV {
    Found { data: Seq<u8> },
    NotFound,
    ReadError,
}

impl View for ReadOutcome {
    type V = ReadOutcomeV;

    open spec fn view(&self) -> ReadOutcomeV {
        match self {
            ReadOutcome::Found { data } => ReadOutcomeV::Found { data: data@ },
            ReadOutcome::NotFound => ReadOutcomeV::NotFound,
            ReadOutcome::ReadError => ReadOutcomeV::ReadError,
        }
    }
}

/// The captured persist state: content found is kept under its path
/// relative to the base; a path with nothing behind it is skipped; any
/// other read failure is fatal, and the first failing path is reported.
pub open spec fn capture_spec(base: Seq<char>, reads: Seq<(Seq<char>, ReadOutcomeV)>) -> Result<
    Seq<(Seq<char>, Seq<u8>)>,
    Seq<char>,
>
    decreases reads.len(),
{
    if reads.len() == 0 {
        Ok(Seq::empty())
    } else {
        match reads[0].1 {
            ReadOutcomeV::ReadError => Err(reads[0].0),
            ReadOutcomeV::NotFound => capture_spec(base, reads.drop_first()),
            ReadOutcomeV::Found { data } => match capture_spec(base, reads.drop_first()) {
                Ok(rest) => Ok(seq![(relative_spec(base, reads[0].0), data)] + rest),
                Err(p) => Err(p),
            },
        }
    }
}

/// Captures persist state out of the caller's reads (see [`capture_spec`]).
pub fn capture_persist(base: &str, reads: &Vec<(String, ReadOutcome)>) -> (r: Result<
    Vec<FileWrite>,
    String,
>)
    ensures
        match r {
            Ok(ws) => capture_spec(
                base@,
                reads@.map_values(|p: (String, ReadOutcome)| (p.0@, p.1@)),
            ) == Ok::<Seq<(Seq<char>, Seq<u8>)>, Seq<char>>(writes_v(ws@)),
            Err(p) => capture_spec(
                base@,
                reads@.map_values(|p: (String, ReadOutcome)| (p.0@, p.1@)),
            ) == Err::<Seq<(Seq<char>, Seq<u8>)>, Seq<char>>(p@),
        },
{
    let ghost rv = reads@.map_values(|p: (String, ReadOutcome)| (p.0@, p.1@));
    let mut out: Vec<FileWrite> = Vec::new();
    let mut i: usize = 0;
    proof {
        assert(rv.skip(0) =~= rv);
        assert(writes_v(out@) =~= Seq::<(Seq<char>, Seq<u8>)>::empty());
    }
    while i < reads.len()
        invariant
            i <= reads@.len(),
            rv == reads@.map_values(|p: (String, ReadOutcome)| (p.0@, p.1@)),
            rv.len() == reads@.len(),
            ({
                let done = writes_v(out@);
                match capture_spec(base@, rv.skip(i as int)) {
                    Ok(rest) => capture_spec(base@, rv) == Ok::<
                        Seq<(Seq<char>, Seq<u8>)>,
                        Seq<char>,
                    >(done + rest),
                    Err(p) => capture_spec(base@, rv) == Err::<
                        Seq<(Seq<char>, Seq<u8>)>,
                        Seq<char>,
                    >(p),
                }
            }),
        decreases reads@.len() - i,
    {
        let ghost outpre = out@;
        let ghost tail = rv.skip(i as int);
        proof {
            assert(tail[0] == rv[i as int]);
            assert(tail.drop_first() =~= rv.skip(i + 1));
        }
        match &reads[i].1 {
            ReadOutcome::ReadError => {
                return Err(reads[i].0.clone());
            },
            ReadOutcome::NotFound => {},
            ReadOutcome::Found { data } => {
                let rel = relative_to(base, reads[i].0.as_str());
                let copied = crate::compile::copy_bytes(data);
                let w = FileWrite { path: rel, data: copied };
                let ghost wv = (relative_spec(base@, rv[i as int].0), data@);
                out.push(w);
                proof {
                    assert(writes_v(out@) =~= writes_v(outpre).push(wv));
                    assert forall|rest0: Seq<(Seq<char>, Seq<u8>)>|
                        capture_spec(base@, rv.skip(i + 1)) == Ok::<
                            Seq<(Seq<char>, Seq<u8>)>,
                            Seq<char>,
                        >(rest0) implies writes_v(outpre) + (seq![wv] + rest0) =~= writes_v(
                        out@,
                    ) + rest0 by {}
                }
            },
        }
        i = i + 1;
    }
    proof {
        assert(rv.skip(rv.len() as int) =~= Seq::<(Seq<char>, ReadOutcomeV)>::empty());
        assert(writes_v(out@) + Seq::<(Seq<char>, Seq<u8>)>::empty() =~= writes_v(out@));
    }
    Ok(out)
}

/// One download to perform: where to write, what to call it, where to fetch
/// it, and the digest it must match if one was given.
#[derive(Debug, PartialEq, Eq)]
pub struct DownloadTask {
    pub path: String,
    pub display_name: String,
    pub url: String,
    pub sha512: Option<Vec<u8>>,
}

/// The mathematical value of [`DownloadTask`].
pub struct DownloadTaskV {
    pub path: Seq<char>,
    pub display_name: Seq<char>,
    pub url: Seq<char>,
    pub sha512: Option<Seq<u8>>,
}

impl View for DownloadTask {
    type V = DownloadTaskV;

    open spec fn view(&self) -> DownloadTaskV {
        DownloadTaskV {
            path: self.path@,
            display_name: self.display_name@,
            url: self.url@,
            sha512: match &self.sha512 {
                Some(d) => Some(d@),
                None => None,
            },
        }
    }
}

/// Everything the populate phase derives from the action list: directories
/// and symlinks to make, scripts already rendered, downloads to run, and
/// the pending (blob name, target path) pairs the archive scan will serve.
pub struct PopulatePlan {
    pub dirs: Vec<String>,
    pub symlinks: Vec<(String, String)>,
    pub scripts: Vec<FileWrite>,
    pub downloads: Vec<DownloadTask>,
    pub pending: Vec<(String, String)>,
}

pub open spec fn dirs_spec(acts: Seq<(Seq<char>, ActionV)>) -> Seq<Seq<char>>
    decreases acts.len(),
{
    if acts.len() == 0 {
        Seq::empty()
    } else {
        (match acts[0].1 {
            ActionV::CreateDir => seq![acts[0].0],
            _ => Seq::empty(),
        }) + dirs_spec(acts.drop_first())
    }
}

pub open spec fn symlinks_spec(acts: Seq<(Seq<char>, ActionV)>) -> Seq<(Seq<char>, Seq<char>)>
    decreases acts.len(),
{
    if acts.len() == 0 {
        Seq::empty()
    } else {
        (match acts[0].1 {
            ActionV::Symlink { source } => seq![(acts[0].0, source)],
            _ => Seq::empty(),
        }) + symlinks_spec(acts.drop_first())
    }
}

pub open spec fn scripts_spec(acts: Seq<(Seq<char>, ActionV)>) -> Seq<(Seq<char>, Seq<u8>)>
    decreases acts.len(),
{
    if acts.len() == 0 {
        Seq::empty()
    } else {
        (match acts[0].1 {
            ActionV::RunScriptTemplate { source, options } => seq![
                (acts[0].0, encode_utf8(crate::template::rendered(source, options))),
            ],
            _ => Seq::empty(),
        }) + scripts_spec(acts.drop_first())
    }
}

pub open spec fn downloads_spec(acts: Seq<(Seq<char>, ActionV)>) -> Seq<DownloadTaskV>
    decreases acts.len(),
{
    if acts.len() == 0 {
        Seq::empty()
    } else {
        (match acts[0].1 {
            ActionV::Download { display_name, url, sha512 } => seq![
                DownloadTaskV { path: acts[0].0, display_name, url, sha512 },
            ],
            _ => Seq::empty(),
        }) + downloads_spec(acts.drop_first())
    }
}

pub open spec fn pending_spec(acts: Seq<(Seq<char>, ActionV)>) -> Seq<(Seq<char>, Seq<char>)>
    decreases acts.len(),
{
    if acts.len() == 0 {
        Seq::empty()
    } else {
        (match acts[0].1 {
            ActionV::Extract { hash, .. } => seq![(hex32_of(hash), acts[0].0)],
            _ => Seq::empty(),
        }) + pending_spec(acts.drop_first())
    }
}

proof fn lemma_plan_push(acts: Seq<(Seq<char>, ActionV)>, a: (Seq<char>, ActionV))
    ensures
        dirs_spec(acts.push(a)) == dirs_spec(acts) + (match a.1 {
            ActionV::CreateDir => seq![a.0],
            _ => Seq::empty(),
        }),
        symlinks_spec(acts.push(a)) == symlinks_spec(acts) + (match a.1 {
            ActionV::Symlink { source } => seq![(a.0, source)],
            _ => Seq::empty(),
        }),
        scripts_spec(acts.push(a)) == scripts_spec(acts) + (match a.1 {
            ActionV::RunScriptTemplate { source, options } => seq![
                (a.0, encode_utf8(crate::template::rendered(source, options))),
            ],
            _ => Seq::empty(),
        }),
        downloads_spec(acts.push(a)) == downloads_spec(acts) + (match a.1 {
            ActionV::Download { display_name, url, sha512 } => seq![
                DownloadTaskV { path: a.0, display_name, url, sha512 },
            ],
            _ => Seq::empty(),
        }),
        pending_spec(acts.push(a)) == pending_spec(acts) + (match a.1 {
            ActionV::Extract { hash, .. } => seq![(hex32_of(hash), a.0)],
            _ => Seq::empty(),
        }),
    decreases acts.len(),
{
    reveal_with_fuel(dirs_spec, 3);
    reveal_with_fuel(symlinks_spec, 3);
    reveal_with_fuel(scripts_spec, 3);
    reveal_with_fuel(downloads_spec, 3);
    reveal_with_fuel(pending_spec, 3);
    if acts.len() == 0 {
        assert(acts.push(a).drop_first() =~= Seq::<(Seq<char>, ActionV)>::empty());
        assert(dirs_spec(acts.push(a)) =~= dirs_spec(acts) + (match a.1 {
            ActionV::CreateDir => seq![a.0],
            _ => Seq::empty(),
        }));
        assert(symlinks_spec(acts.push(a)) =~= symlinks_spec(acts) + (match a.1 {
            ActionV::Symlink { source } => seq![(a.0, source)],
            _ => Seq::empty(),
        }));
        assert(scripts_spec(acts.push(a)) =~= scripts_spec(acts) + (match a.1 {
            ActionV::RunScriptTemplate { source, options } => seq![
                (a.0, encode_utf8(crate::template::rendered(source, options))),
            ],
            _ => Seq::empty(),
        }));
        assert(downloads_spec(acts.push(a)) =~= downloads_spec(acts) + (match a.1 {
            ActionV::Download { display_name, url, sha512 } => seq![
                DownloadTaskV { path: a.0, display_name, url, sha512 },
            ],
            _ => Seq::empty(),
        }));
        assert(pending_spec(acts.push(a)) =~= pending_spec(acts) + (match a.1 {
            ActionV::Extract { hash, .. } => seq![(hex32_of(hash), a.0)],
            _ => Seq::empty(),
        }));
    } else {
        lemma_plan_push(acts.drop_first(), a);
        assert(acts.push(a).drop_first() =~= acts.drop_first().push(a));
        assert(acts.push(a)[0] == acts[0]);
        assert(dirs_spec(acts.push(a)) =~= dirs_spec(acts) + (match a.1 {
            ActionV::CreateDir => seq![a.0],
            _ => Seq::empty(),
        }));
        assert(symlinks_spec(acts.push(a)) =~= symlinks_spec(acts) + (match a.1 {
            ActionV::Symlink { source } => seq![(a.0, source)],
            _ => Seq::empty(),
        }));
        assert(scripts_spec(acts.push(a)) =~= scripts_spec(acts) + (match a.1 {
            ActionV::RunScriptTemplate { source, options } => seq![
                (a.0, encode_utf8(crate::template::rendered(source, options))),
            ],
            _ => Seq::empty(),
        }));
        assert(downloads_spec(acts.push(a)) =~= downloads_spec(acts) + (match a.1 {
            ActionV::Download { display_name, url, sha512 } => seq![
                DownloadTaskV { path: a.0, display_name, url, sha512 },
            ],
            _ => Seq::empty(),
        }));
        assert(pending_spec(acts.push(a)) =~= pending_spec(acts) + (match a.1 {
            ActionV::Extract { hash, .. } => seq![(hex32_of(hash), a.0)],
            _ => Seq::empty(),
        }));
    }
}

/// The view of a download task list.
pub open spec fn tasks_v(ts: Seq<DownloadTask>) -> Seq<DownloadTaskV> {
    ts.map_values(|t: DownloadTask| t@)
}

/// The view of a string pair list.
pub open spec fn pairs_v(ps: Seq<(String, String)>) -> Seq<(Seq<char>, Seq<char>)> {
    ps.map_values(|p: (String, String)| (p.0@, p.1@))
}

/// Derives the populate plan from the action list: create-directory,
/// symlink and rendered script work, the downloads, and the pending
/// extraction pairs (see the five `*_spec` functions).
#[verifier::rlimit(60)]
pub fn populate_plan(actions: &Vec<(String, Action)>) -> (r: PopulatePlan)
    ensures
        r.dirs@.map_values(|s: String| s@) == dirs_spec(actions_view(actions@)),
        pairs_v(r.symlinks@) == symlinks_spec(actions_view(actions@)),
        writes_v(r.scripts@) == scripts_spec(actions_view(actions@)),
        tasks_v(r.downloads@) == downloads_spec(actions_view(actions@)),
        pairs_v(r.pending@) == pending_spec(actions_view(actions@)),
{
    let ghost av = actions_view(actions@);
    let mut dirs: Vec<String> = Vec::new();
    let mut symlinks: Vec<(String, String)> = Vec::new();
    let mut scripts: Vec<FileWrite> = Vec::new();
    let mut downloads: Vec<DownloadTask> = Vec::new();
    let mut pending: Vec<(String, String)> = Vec::new();
    let mut i: usize = 0;
    proof {
        assert(av.take(0) =~= Seq::<(Seq<char>, ActionV)>::empty());
        assert(dirs@.map_values(|s: String| s@) =~= dirs_spec(av.take(0)));
        assert(pairs_v(symlinks@) =~= symlinks_spec(av.take(0)));
        assert(writes_v(scripts@) =~= scripts_spec(av.take(0)));
        assert(tasks_v(downloads@) =~= downloads_spec(av.take(0)));
        assert(pairs_v(pending@) =~= pending_spec(av.take(0)));
    }
    while i < actions.len()
        invariant
            i <= actions@.len(),
            av == actions_view(actions@),
            av.len() == actions@.len(),
            dirs@.map_values(|s: String| s@) == dirs_spec(av.take(i as int)),
            pairs_v(symlinks@) == symlinks_spec(av.take(i as int)),
            writes_v(scripts@) == scripts_spec(av.take(i as int)),
            tasks_v(downloads@) == downloads_spec(av.take(i as int)),
            pairs_v(pending@) == pending_spec(av.take(i as int)),
        decreases actions@.len() - i,
    {
        let ghost dpre = dirs@;
        let ghost spre = symlinks@;
        let ghost scpre = scripts@;
        let ghost dlpre = downloads@;
        let ghost ppre = pending@;
        let (path, act) = &actions[i];
        match act {
            Action::CreateDir => {
                dirs.push(path.clone());
            },
            Action::Extract { hash, size: _ } => {
                pending.push((hex32(*hash), path.clone()));
            },
            Action::Download { display_name, url, sha512 } => {
                let d = match sha512 {
                    Some(d) => Some(crate::compile::copy_bytes(d)),
                    None => None,
                };
                downloads.push(
                    DownloadTask {
                        path: path.clone(),
                        display_name: display_name.clone(),
                        url: url.clone(),
                        sha512: d,
                    },
                );
            },
            Action::Symlink { source } => {
                symlinks.push((path.clone(), source.clone()));
            },
            Action::RunScriptTemplate { source, options } => {
                let rendered_text = parse_template(source.as_str(), options);
                let data = rendered_text.as_str().as_bytes_vec();
                scripts.push(FileWrite { path: path.clone(), data });
            },
            Action::Persist => {},
        }
        i = i + 1;
        proof {
            lemma_plan_push(av.take(i - 1), av[i - 1]);
            assert(av.take(i as int) =~= av.take(i - 1).push(av[i - 1]));
            assert(av[i - 1] == (actions@[i - 1].0@, actions@[i - 1].1@));
            assert(dirs@.map_values(|s: String| s@) =~= dirs_spec(av.take(i as int)));
            assert(pairs_v(symlinks@) =~= symlinks_spec(av.take(i as int)));
            assert(writes_v(scripts@) =~= scripts_spec(av.take(i as int)));
            assert(tasks_v(downloads@) =~= downloads_spec(av.take(i as int)));
            assert(pairs_v(pending@) =~= pending_spec(av.take(i as int)));
        }
    }
    proof {
        assert(av.take(av.len() as int) =~= av);
    }
    PopulatePlan { dirs, symlinks, scripts, downloads, pending }
}

/// What the caller's network fetch returned for one URL.
#[derive(Debug, PartialEq, Eq)]
pub enum DownloadOutcome {
    Fetched { body: Vec<u8> },
    HttpStatus { code: u16 },
    TransportFailed,
}

/// The mathematical value of [`DownloadOutcome`].
pub enum DownloadOutcomeV {
    Fetched { body: Seq<u8> },
    HttpStatus { code: u16 },
    TransportFailed,
}

impl View for DownloadOutcome {
    type V = DownloadOutcomeV;

    open spec fn view(&self) -> DownloadOutcomeV {
        match self {
            DownloadOutcome::Fetched { body } => DownloadOutcomeV::Fetched { body: body@ },
            DownloadOutcome::HttpStatus { code } => DownloadOutcomeV::HttpStatus { code: *code },
            DownloadOutcome::TransportFailed => DownloadOutcomeV::TransportFailed,
        }
    }
}

/// How one download task ended.
#[derive(Debug, PartialEq, Eq)]
pub enum DownloadResult {
    Written { state: CacheState, write: FileWrite },
    FetchFailed { url: String },
    IntegrityMismatch { url: String },
}

/// What the driving loop must do next for one download task.
#[derive(Debug, PartialEq, Eq)]
pub enum DownloadStep {
    NeedFetch,
    Done { result: DownloadResult },
}

/// True when bytes pass a task's integrity requirement: no digest was
/// given, or the SHA-512 of the bytes equals it.
pub open spec fn integrity_ok(t: DownloadTaskV, data: Seq<u8>) -> bool {
    match t.sha512 {
        Some(d) => sha512_of(data) == d,
        None => true,
    }
}

/// Drives one download task through the content cache. Called first with no
/// fetch outcome: a verified cache hit finishes the task at once, otherwise
/// the stale alias is dropped and a fetch is requested. Called again with
/// the fetch outcome: fetched bytes are filed in the cache and the task
/// finishes; a failed fetch finishes the task as failed. A finished task is
/// `Written` exactly when bytes were obtained and passed the integrity
/// check; its write carries the task's path and those bytes.
pub fn download_step(
    store: &mut CacheStore,
    task: &DownloadTask,
    fetched: Option<&DownloadOutcome>,
) -> (r: DownloadStep)
    ensures
        match fetched {
            None => {
                match lookup_spec(old(store)@, task@.url) {
                    Some(found) => {
                        &&& final(store)@ == old(store)@
                        &&& r matches DownloadStep::Done { result } && (if integrity_ok(
                            task@,
                            found.0,
                        ) {
                            result matches DownloadResult::Written { state, write }
                                && state == (CacheState::Hit { hash: found.1 }) && write@ == (
                            task@.path, found.0)
                        } else {
                            result matches DownloadResult::IntegrityMismatch { url } && url@
                                == task@.url
                        })
                    },
                    None => {
                        &&& final(store)@ == after_lookup(old(store)@, task@.url)
                        &&& r is NeedFetch
                    },
                }
            },
            Some(out) => match out@ {
                DownloadOutcomeV::Fetched { body } => {
                    &&& final(store)@ == insert_spec(old(store)@, task@.url, body)
                    &&& r matches DownloadStep::Done { result } && (if integrity_ok(
                        task@,
                        body,
                    ) {
                        result matches DownloadResult::Written { state, write } && state == (
                        CacheState::Miss {
                            bytes_downloaded: body.len() as usize,
                            hash: crate::hashing::hash_of(body),
                        }) && write@ == (task@.path, body)
                    } else {
                        result matches DownloadResult::IntegrityMismatch { url } && url@
                            == task@.url
                    })
                },
                _ => {
                    &&& final(store)@ == old(store)@
                    &&& r matches DownloadStep::Done { result } && result
                        matches DownloadResult::FetchFailed { url } && url@ == task@.url
                },
            },
        },
{
    match fetched {
        None => {
            match store.lookup(task.url.as_str()) {
                Some((data, h)) => {
                    if check_integrity(task, &data) {
                        DownloadStep::Done {
                            result: DownloadResult::Written {
                                state: CacheState::Hit { hash: h },
                                write: FileWrite { path: task.path.clone(), data },
                            },
                        }
                    } else {
                        DownloadStep::Done {
                            result: DownloadResult::IntegrityMismatch {
                                url: task.url.clone(),
                            },
                        }
                    }
                },
                None => DownloadStep::NeedFetch,
            }
        },
        Some(out) => match out {
            DownloadOutcome::Fetched { body } => {
                let data = crate::compile::copy_bytes(body);
                let len = data.len();
                let h = store.insert(task.url.as_str(), &data);
                if check_integrity(task, &data) {
                    DownloadStep::Done {
                        result: DownloadResult::Written {
                            state: CacheState::Miss { bytes_downloaded: len, hash: h },
                            write: FileWrite { path: task.path.clone(), data },
                        },
                    }
                } else {
                    DownloadStep::Done {
                        result: DownloadResult::IntegrityMismatch { url: task.url.clone() },
                    }
                }
            },
            _ => DownloadStep::Done {
                result: DownloadResult::FetchFailed { url: task.url.clone() },
            },
        },
    }
}

/// Checks a task's integrity requirement against bytes.
fn check_integrity(task: &DownloadTask, data: &Vec<u8>) -> (r: bool)
    ensures
        r == integrity_ok(task@, data@),
{
    match &task.sha512 {
        Some(d) => {
            let got = sha512_digest(data.as_slice());
            bytes_eq(&got, d)
        },
        None => true,
    }
}

/// Byte-sequence equality.
pub fn bytes_eq(a: &Vec<u8>, b: &Vec<u8>) -> (r: bool)
    ensures
        r == (a@ == b@),
{
    if a.len() != b.len() {
        proof {
            assert(a@.len() != b@.len());
        }
        return false;
    }
    let mut i: usize = 0;
    while i < a.len()
        invariant
            a@.len() == b@.len(),
            i <= a@.len(),
            forall|j: int| 0 <= j < i ==> a@[j] == b@[j],
        decreases a@.len() - i,
    {
        if a[i] != b[i] {
            return false;
        }
        i = i + 1;
    }
    proof {
        assert(a@ =~= b@);
    }
    true
}

/// The writes one stream entry produces: one per pending pair whose blob
/// name matches the entry's name.
pub open spec fn matched_writes(
    pending: Seq<(Seq<char>, Seq<char>)>,
    name: Seq<char>,
    data: Seq<u8>,
) -> Seq<(Seq<char>, Seq<u8>)>
    decreases pending.len(),
{
    if pending.len() == 0 {
        Seq::empty()
    } else {
        (if pending[0].0 == name {
            seq![(pending[0].1, data)]
        } else {
            Seq::empty()
        }) + matched_writes(pending.drop_first(), name, data)
    }
}

/// The pending pairs left after an entry name has been served.
pub open spec fn pending_minus(
    pending: Seq<(Seq<char>, Seq<char>)>,
    name: Seq<char>,
) -> Seq<(Seq<char>, Seq<char>)>
    decreases pending.len(),
{
    if pending.len() == 0 {
        Seq::empty()
    } else {
        (if pending[0].0 == name {
            Seq::empty()
        } else {
            seq![pending[0]]
        }) + pending_minus(pending.drop_first(), name)
    }
}

/// The single-pass archive scan: each remaining stream entry, in order,
/// serves every pending pair bearing its name, which is then removed.
pub open spec fn scan_spec(
    es: Seq<(Seq<char>, Seq<u8>)>,
    pending: Seq<(Seq<char>, Seq<char>)>,
) -> Seq<(Seq<char>, Seq<u8>)>
    decreases es.len(),
{
    if es.len() == 0 {
        Seq::empty()
    } else {
        matched_writes(pending, es[0].0, es[0].1) + scan_spec(
            es.drop_first(),
            pending_minus(pending, es[0].0),
        )
    }
}

proof fn lemma_matched_push(
    pending: Seq<(Seq<char>, Seq<char>)>,
    p: (Seq<char>, Seq<char>),
    name: Seq<char>,
    data: Seq<u8>,
)
    ensures
        matched_writes(pending.push(p), name, data) == matched_writes(pending, name, data) + (
        if p.0 == name {
            seq![(p.1, data)]
        } else {
            Seq::empty()
        }),
        pending_minus(pending.push(p), name) == pending_minus(pending, name) + (if p.0 == name {
            Seq::empty()
        } else {
            seq![p]
        }),
    decreases pending.len(),
{
    reveal_with_fuel(matched_writes, 3);
    reveal_with_fuel(pending_minus, 3);
    if pending.len() == 0 {
        assert(pending.push(p).drop_first() =~= Seq::<(Seq<char>, Seq<char>)>::empty());
        assert(matched_writes(pending.push(p), name, data) =~= matched_writes(pending, name, data)
            + (if p.0 == name {
            seq![(p.1, data)]
        } else {
            Seq::empty()
        }));
        assert(pending_minus(pending.push(p), name) =~= pending_minus(pending, name) + (
        if p.0 == name {
            Seq::empty()
        } else {
            seq![p]
        }));
    } else {
        lemma_matched_push(pending.drop_first(), p, name, data);
        assert(pending.push(p).drop_first() =~= pending.drop_first().push(p));
        assert(pending.push(p)[0] == pending[0]);
        assert(matched_writes(pending.push(p), name, data) =~= matched_writes(pending, name, data)
            + (if p.0 == name {
            seq![(p.1, data)]
        } else {
            Seq::empty()
        }));
        assert(pending_minus(pending.push(p), name) =~= pending_minus(pending, name) + (
        if p.0 == name {
            Seq::empty()
        } else {
            seq![p]
        }));
    }
}

/// The stream entries after the first: what the archive scan walks.
pub open spec fn rest_of(es: Seq<(Seq<char>, Seq<u8>)>) -> Seq<(Seq<char>, Seq<u8>)> {
    if es.len() == 0 {
        Seq::empty()
    } else {
        es.drop_first()
    }
}

/// Runs the archive scan over the stream entries after the first one,
/// against the pending extraction pairs (see [`scan_spec`]).
#[verifier::loop_isolation(false)]
pub fn match_extracts(entries: &Vec<ArchiveEntry>, pending: Vec<(String, String)>) -> (r: Vec<
    FileWrite,
>)
    ensures
        writes_v(r@) == scan_spec(rest_of(entries_v(entries@)), pairs_v(pending@)),
{
    let ghost ev = entries_v(entries@);
    let ghost pending0 = pairs_v(pending@);
    let mut out: Vec<FileWrite> = Vec::new();
    let mut cur = pending;
    if entries.len() == 0 {
        proof {
            assert(ev.len() == 0);
            assert(writes_v(out@) =~= scan_spec(rest_of(ev), pending0));
        }
        return out;
    }
    let mut idx: usize = 1;
    proof {
        assert(ev.len() == entries@.len());
        assert forall|j: int| 0 <= j < entries@.len() implies #[trigger] ev[j] == (
            entries@[j].name@,
            entries@[j].data@,
        ) by {}
        assert(rest_of(ev) =~= ev.skip(1));
        assert(writes_v(out@) + scan_spec(ev.skip(1), pairs_v(cur@)) =~= scan_spec(
            ev.skip(1),
            pending0,
        ));
    }
    while idx < entries.len()
        invariant
            1 <= idx <= entries@.len(),
            ev == entries_v(entries@),
            ev.len() == entries@.len(),
            forall|j: int| 0 <= j < entries@.len() ==> #[trigger] ev[j] == (
                entries@[j].name@,
                entries@[j].data@,
            ),
            scan_spec(ev.skip(1), pending0) == writes_v(out@) + scan_spec(
                ev.skip(idx as int),
                pairs_v(cur@),
            ),
        decreases entries@.len() - idx,
    {
        let e = &entries[idx];
        let ghost pcur = pairs_v(cur@);
        let ghost outpre = out@;
        let mut kept: Vec<(String, String)> = Vec::new();
        let mut k: usize = 0;
        proof {
            assert(pcur.take(0) =~= Seq::<(Seq<char>, Seq<char>)>::empty());
            assert(writes_v(out@) =~= writes_v(outpre) + matched_writes(
                pcur.take(0),
                ev[idx as int].0,
                ev[idx as int].1,
            ));
            assert(pairs_v(kept@) =~= pending_minus(pcur.take(0), ev[idx as int].0));
        }
        while k < cur.len()
            invariant
                k <= cur@.len(),
                idx < entries@.len(),
                ev == entries_v(entries@),
                ev.len() == entries@.len(),
                forall|j: int| 0 <= j < entries@.len() ==> #[trigger] ev[j] == (
                    entries@[j].name@,
                    entries@[j].data@,
                ),
                pcur == pairs_v(cur@),
                pcur.len() == cur@.len(),
                writes_v(out@) == writes_v(outpre) + matched_writes(
                    pcur.take(k as int),
                    ev[idx as int].0,
                    ev[idx as int].1,
                ),
                pairs_v(kept@) == pending_minus(pcur.take(k as int), ev[idx as int].0),
            decreases cur@.len() - k,
        {
            let ghost outk = out@;
            let ghost keptk = kept@;
            if crate::str_eq(cur[k].0.as_str(), e.name.as_str()) {
                let data = crate::compile::copy_bytes(&e.data);
                let w = FileWrite { path: cur[k].1.clone(), data };
                let ghost wv = w@;
                out.push(w);
                proof {
                    assert(out@ == outk.push(out@.last()));
                    assert(out@.last()@ == wv);
                    assert(pcur[k as int] == (cur@[k as int].0@, cur@[k as int].1@));
                    assert(ev[idx as int] == (entries@[idx as int].name@, entries@[
                        idx as int
                    ].data@));
                    assert(wv == (pcur[k as int].1, ev[idx as int].1));
                    assert(writes_v(out@) =~= writes_v(outk).push(
                        (pcur[k as int].1, ev[idx as int].1),
                    ));
                }
            } else {
                kept.push((cur[k].0.clone(), cur[k].1.clone()));
                proof {
                    assert(pairs_v(kept@) =~= pairs_v(keptk).push(pcur[k as int]));
                }
            }
            k = k + 1;
            proof {
                lemma_matched_push(
                    pcur.take(k - 1),
                    pcur[k - 1],
                    ev[idx as int].0,
                    ev[idx as int].1,
                );
                assert(pcur.take(k as int) =~= pcur.take(k - 1).push(pcur[k - 1]));
                assert(pcur[k - 1] == (cur@[k - 1].0@, cur@[k - 1].1@));
                assert(writes_v(out@) =~= writes_v(outpre) + matched_writes(
                    pcur.take(k as int),
                    ev[idx as int].0,
                    ev[idx as int].1,
                ));
                assert(pairs_v(kept@) =~= pending_minus(pcur.take(k as int), ev[idx as int].0));
            }
        }
        cur = kept;
        idx = idx + 1;
        proof {
            assert(pcur.take(pcur.len() as int) =~= pcur);
            let tail = ev.skip(idx - 1);
            assert(tail[0] == ev[idx - 1]);
            assert(tail.drop_first() =~= ev.skip(idx as int));
            assert(scan_spec(tail, pcur) == matched_writes(pcur, ev[idx - 1].0, ev[idx - 1].1)
                + scan_spec(ev.skip(idx as int), pending_minus(pcur, ev[idx - 1].0)));
            assert(scan_spec(ev.skip(1), pending0) =~= writes_v(out@) + scan_spec(
                ev.skip(idx as int),
                pairs_v(cur@),
            ));
        }
    }
    proof {
        assert(ev.skip(ev.len() as int) =~= Seq::<(Seq<char>, Seq<u8>)>::empty());
        assert(writes_v(out@) + Seq::<(Seq<char>, Seq<u8>)>::empty() =~= writes_v(out@));
        assert(rest_of(ev) =~= ev.skip(1));
    }
    out
}

/// The restore writes: each captured item back at its path under the base.
pub open spec fn restore_spec(base: Seq<char>, cap: Seq<(Seq<char>, Seq<u8>)>) -> Seq<
    (Seq<char>, Seq<u8>),
> {
    cap.map_values(|c: (Seq<char>, Seq<u8>)| (joined(base, c.0), c.1))
}

/// Turns captured persist state back into writes under the target base;
/// these run after every other write of the expansion.
pub fn restore_writes(base: &str, captured: &Vec<FileWrite>) -> (r: Vec<FileWrite>)
    ensures
        writes_v(r@) == restore_spec(base@, writes_v(captured@)),
{
    let mut out: Vec<FileWrite> = Vec::new();
    let mut i: usize = 0;
    while i < captured.len()
        invariant
            i <= captured@.len(),
            out@.len() == i,
            forall|j: int| 0 <= j < i ==> #[trigger] out@[j]@ == (
                joined(base@, captured@[j]@.0),
                captured@[j]@.1,
            ),
        decreases captured@.len() - i,
    {
        let w = &captured[i];
        let path = join_path(base, w.path.as_str());
        let data = crate::compile::copy_bytes(&w.data);
        out.push(FileWrite { path, data });
        i = i + 1;
    }
    proof {
        let lhs = writes_v(out@);
        let rhs = restore_spec(base@, writes_v(captured@));
        assert forall|j: int| 0 <= j < out@.len() implies lhs[j] == rhs[j] by {
            assert(out@[j]@ == (joined(base@, captured@[j]@.0), captured@[j]@.1));
            assert(writes_v(captured@)[j] == captured@[j]@);
        }
        assert(lhs =~= rhs);
    }
    out
}

/// Serializes still-unrestored capture state into a uniquely named recovery
/// stream, so a failed restore never silently loses user data. It succeeds
/// exactly when every captured relative path is a name the stream format
/// stores verbatim and accepts.
#[verifier::loop_isolation(false)]
pub fn recovery_dump(captured: &Vec<FileWrite>, rand: &Vec<u8>) -> (r: Option<(String, Vec<u8>)>)
    ensures
        r matches Some(dump) ==> dump.0@ == "persisted."@ + hex_bytes_of(rand@) + ".tar"@
            && crate::archive::tar_parse(dump.1@).0 == writes_v(captured@)
            && crate::archive::tar_parse(dump.1@).1 == 0,
        r is Some <==> (forall|i: int|
            0 <= i < captured@.len() ==> crate::archive::tar_name_ok(
                (#[trigger] captured@[i]).path@,
            ) && crate::archive::appendable(captured@[i].path@)),
{
    let mut k: usize = 0;
    while k < captured.len()
        invariant
            k <= captured@.len(),
            forall|j: int| 0 <= j < k ==> crate::archive::tar_name_ok(
                (#[trigger] captured@[j]).path@,
            ),
        decreases captured@.len() - k,
    {
        if !crate::archive::tar_name_admissible(captured[k].path.as_str()) {
            return None;
        }
        k = k + 1;
    }
    let mut name = String::new();
    name.append("persisted.");
    let hexpart = hex_bytes(rand);
    name.append(hexpart.as_str());
    name.append(".tar");
    let mut b = crate::archive::tar_builder_new();
    let mut i: usize = 0;
    proof {
        assert(crate::archive::tar_builder_entries(b) =~= writes_v(captured@.take(0))) by {
            assert(writes_v(captured@.take(0)) =~= Seq::<(Seq<char>, Seq<u8>)>::empty());
        }
    }
    while i < captured.len()
        invariant
            i <= captured@.len(),
            crate::archive::tar_builder_entries(b) == writes_v(captured@.take(i as int)),
            forall|j: int| 0 <= j < i ==> crate::archive::appendable(
                (#[trigger] captured@[j]).path@,
            ),
        decreases captured@.len() - i,
    {
        let w = &captured[i];
        let ok = crate::archive::tar_builder_append(&mut b, w.path.as_str(), w.data.as_slice());
        if !ok {
            return None;
        }
        i = i + 1;
        proof {
            assert(writes_v(captured@.take(i as int)) =~= writes_v(
                captured@.take(i - 1),
            ).push((captured@[i - 1].path@, captured@[i - 1].data@)));
        }
    }
    proof {
        assert(captured@.take(captured@.len() as int) =~= captured@);
        assert forall|j: int|
            0 <= j < writes_v(captured@).len() implies crate::archive::tar_name_ok(
            (#[trigger] writes_v(captured@)[j]).0,
        ) by {
            assert(writes_v(captured@)[j] == (captured@[j].path@, captured@[j].data@));
        }
    }
    let bytes = match crate::archive::tar_builder_finish(b) {
        Some(x) => x,
        None => {
            proof {
                assert(false);
            }
            return None;
        },
    };
    Some((name, bytes))
}

/// The mathematical value of a download result.
pub enum DownloadResultV {
    Written { state: CacheState, write: (Seq<char>, Seq<u8>) },
    FetchFailed { url: Seq<char> },
    IntegrityMismatch { url: Seq<char> },
}

impl View for DownloadResult {
    type V = DownloadResultV;

    open spec fn view(&self) -> DownloadResultV {
        match self {
            DownloadResult::Written { state, write } => DownloadResultV::Written {
                state: *state,
                write: write@,
            },
            DownloadResult::FetchFailed { url } => DownloadResultV::FetchFailed { url: url@ },
            DownloadResult::IntegrityMismatch { url } => DownloadResultV::IntegrityMismatch {
                url: url@,
            },
        }
    }
}

/// The URLs of the download tasks that failed, in task order.
pub open spec fn failed_urls(rs: Seq<DownloadResultV>) -> Seq<Seq<char>>
    decreases rs.len(),
{
    if rs.len() == 0 {
        Seq::empty()
    } else {
        (match rs[0] {
            DownloadResultV::FetchFailed { url } => seq![url],
            DownloadResultV::IntegrityMismatch { url } => seq![url],
            _ => Seq::empty(),
        }) + failed_urls(rs.drop_first())
    }
}

proof fn lemma_failed_urls_push(rs: Seq<DownloadResultV>, r0: DownloadResultV)
    ensures
        failed_urls(rs.push(r0)) == failed_urls(rs) + (match r0 {
            DownloadResultV::FetchFailed { url } => seq![url],
            DownloadResultV::IntegrityMismatch { url } => seq![url],
            _ => Seq::empty(),
        }),
    decreases rs.len(),
{
    reveal_with_fuel(failed_urls, 3);
    if rs.len() == 0 {
        assert(rs.push(r0).drop_first() =~= Seq::<DownloadResultV>::empty());
        assert(failed_urls(rs.push(r0)) =~= failed_urls(rs) + (match r0 {
            DownloadResultV::FetchFailed { url } => seq![url],
            DownloadResultV::IntegrityMismatch { url } => seq![url],
            _ => Seq::empty(),
        }));
    } else {
        lemma_failed_urls_push(rs.drop_first(), r0);
        assert(rs.push(r0).drop_first() =~= rs.drop_first().push(r0));
        assert(rs.push(r0)[0] == rs[0]);
        assert(failed_urls(rs.push(r0)) =~= failed_urls(rs) + (match r0 {
            DownloadResultV::FetchFailed { url } => seq![url],
            DownloadResultV::IntegrityMismatch { url } => seq![url],
            _ => Seq::empty(),
        }));
    }
}

/// What one expansion reports back: the URLs whose downloads failed, the
/// archive-scan error count, and whether persist restoration failed.
#[derive(Debug, PartialEq, Eq)]
pub struct ExpandReport {
    pub failed_downloads: Vec<String>,
    pub scan_errors: usize,
    pub restore_failed: bool,
}

/// The user-visible outcome of an expansion that got past the manifest.
#[derive(Debug, Clone, Copy, PartialEq, Eq, Structural)]
pub enum ExpandOutcome {
    Success,
    Incomplete,
    Corrupted,
    RestoreFailed,
}

/// Builds the report out of the download results, the scan error count and
/// the restore outcome.
pub fn make_report(results: &Vec<DownloadResult>, scan_errors: usize, restore_ok: bool) -> (r:
    ExpandReport)
    ensures
        r.failed_downloads@.map_values(|s: String| s@) == failed_urls(
            results@.map_values(|x: DownloadResult| x@),
        ),
        r.scan_errors == scan_errors,
        r.restore_failed == !restore_ok,
{
    let ghost rv = results@.map_values(|x: DownloadResult| x@);
    let mut failed: Vec<String> = Vec::new();
    let mut i: usize = 0;
    proof {
        assert(rv.take(0) =~= Seq::<DownloadResultV>::empty());
        assert(failed@.map_values(|s: String| s@) =~= failed_urls(rv.take(0)));
    }
    while i < results.len()
        invariant
            i <= results@.len(),
            rv == results@.map_values(|x: DownloadResult| x@),
            rv.len() == results@.len(),
            failed@.map_values(|s: String| s@) == failed_urls(rv.take(i as int)),
        decreases results@.len() - i,
    {
        let ghost fpre = failed@;
        match &results[i] {
            DownloadResult::FetchFailed { url } => {
                failed.push(url.clone());
            },
            DownloadResult::IntegrityMismatch { url } => {
                failed.push(url.clone());
            },
            DownloadResult::Written { .. } => {},
        }
        i = i + 1;
        proof {
            lemma_failed_urls_push(rv.take(i - 1), rv[i - 1]);
            assert(rv.take(i as int) =~= rv.take(i - 1).push(rv[i - 1]));
            assert(rv[i - 1] == results@[i - 1]@);
            assert(failed@.map_values(|s: String| s@) =~= failed_urls(rv.take(i as int)));
        }
    }
    proof {
        assert(rv.take(rv.len() as int) =~= rv);
    }
    ExpandReport { failed_downloads: failed, scan_errors, restore_failed: !restore_ok }
}

impl ExpandReport {
    /// Full success: no download failed, the scan saw no errors, and
    /// restoration went through.
    pub fn is_success(&self) -> (r: bool)
        ensures
            r == (self.failed_downloads@.len() == 0 && self.scan_errors == 0
                && !self.restore_failed),
    {
        self.failed_downloads.len() == 0 && self.scan_errors == 0 && !self.restore_failed
    }

    /// The user-visible outcome: a restore failure outranks a corrupt
    /// archive, which outranks incomplete downloads.
    pub fn outcome(&self) -> (r: ExpandOutcome)
        ensures
            self.restore_failed ==> r is RestoreFailed,
            !self.restore_failed && self.scan_errors > 0 ==> r is Corrupted,
            !self.restore_failed && self.scan_errors == 0 && self.failed_downloads@.len() > 0
                ==> r is Incomplete,
            !self.restore_failed && self.scan_errors == 0 && self.failed_downloads@.len() == 0
                ==> r is Success,
    {
        if self.restore_failed {
            ExpandOutcome::RestoreFailed
        } else if self.scan_errors > 0 {
            ExpandOutcome::Corrupted
        } else if self.failed_downloads.len() > 0 {
            ExpandOutcome::Incomplete
        } else {
            ExpandOutcome::Success
        }
    }
}

/// The writes of a literal unpack: every stream entry under the target,
/// named as in the stream, with no network fetch and no action replay.
pub open spec fn unpack_spec(base: Seq<char>, es: Seq<(Seq<char>, Seq<u8>)>) -> Seq<
    (Seq<char>, Seq<u8>),
> {
    es.map_values(|e: (Seq<char>, Seq<u8>)| (joined(base, e.0), e.1))
}

/// Materializes a container literally (see [`unpack_spec`]).
pub fn unpack_writes(base: &str, entries: &Vec<ArchiveEntry>) -> (r: Vec<FileWrite>)
    ensures
        writes_v(r@) == unpack_spec(base@, entries_v(entries@)),
{
    let mut out: Vec<FileWrite> = Vec::new();
    let mut i: usize = 0;
    while i < entries.len()
        invariant
            i <= entries@.len(),
            out@.len() == i,
            forall|j: int| 0 <= j < i ==> #[trigger] out@[j]@ == (
                joined(base@, entries@[j].name@),
                entries@[j].data@,
            ),
        decreases entries@.len() - i,
    {
        let e = &entries[i];
        let path = join_path(base, e.name.as_str());
        let data = crate::compile::copy_bytes(&e.data);
        out.push(FileWrite { path, data });
        i = i + 1;
    }
    proof {
        let lhs = writes_v(out@);
        let rhs = unpack_spec(base@, entries_v(entries@));
        assert forall|j: int| 0 <= j < out@.len() implies lhs[j] == rhs[j] by {
            assert(out@[j]@ == (joined(base@, entries@[j].name@), entries@[j].data@));
            assert(entries_v(entries@)[j] == (entries@[j].name@, entries@[j].data@));
        }
        assert(lhs =~= rhs);
    }
    out
}

} // verus!
