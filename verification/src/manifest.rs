//! The declarative entry tree, the compiled manifest, and their mathematical
//! values. A source tree is resolved against a base directory, compiled into
//! a manifest whose file entries carry content hashes, and later flattened
//! into path-bound actions.

use vstd::prelude::*;
use crate::hexstr::hex_decode_ok;
use crate::modrinth::{VersionFile, VersionFileV};
use crate::strutil::{joined, join_path, last_dot};

verus! {

broadcast use vstd::seq::group_seq_axioms, vstd::std_specs::vec::group_vec_axioms;

/// Which run scripts a script template produces.
#[derive(Debug, Clone, Copy, PartialEq, Eq, Structural)]
pub enum ScriptType {
    Bash,
    Batch,
    Both,
}

/// Resolved options of one run script.
#[derive(Debug, Clone, PartialEq, Eq)]
pub struct Options {
    pub java_mem: String,
    pub java_gc_opts: String,
    pub java_extra_opts: Vec<String>,
    pub server_jar_rel: String,
}

/// The mathematical value of [`Options`].
pub struct OptionsV {
    pub java_mem: Seq<char>,
    pub java_gc_opts: Seq<char>,
    pub java_extra_opts: Seq<Seq<char>>,
    pub server_jar_rel: Seq<char>,
}

impl View for Options {
    type V = OptionsV;

    open spec fn view(&self) -> OptionsV {
        OptionsV {
            java_mem: self.java_mem@,
            java_gc_opts: self.java_gc_opts@,
            java_extra_opts: self.java_extra_opts@.map_values(|s: String| s@),
            server_jar_rel: self.server_jar_rel@,
        }
    }
}

/// Project metadata carried at the head of a manifest.
#[derive(Debug, Clone, PartialEq, Eq)]
pub struct ProjectInfo {
    pub name: String,
    pub description: String,
    pub version: String,
    pub authors: Vec<String>,
}

/// The mathematical value of [`ProjectInfo`].
pub struct ProjectInfoV {
    pub name: Seq<char>,
    pub description: Seq<char>,
    pub version: Seq<char>,
    pub authors: Seq<Seq<char>>,
}

impl View for ProjectInfo {
    type V = ProjectInfoV;

    open spec fn view(&self) -> ProjectInfoV {
        ProjectInfoV {
            name: self.name@,
            description: self.description@,
            version: self.version@,
            authors: self.authors@.map_values(|s: String| s@),
        }
    }
}

/// A compiled manifest node: directories own their children, files carry the
/// content hash and length computed at compile time, registry packages carry
/// their resolved file lists.
#[derive(Debug, PartialEq, Eq)]
pub enum Entry {
    Directory { name: String, contents: Vec<Entry> },
    File { name: String, hash: u128, size: usize },
    Modrinth { project: String, version: String, files: Vec<VersionFile> },
    FabricServerJar { minecraft_version: String, loader_version: String, installer_version: String },
    RunScript { name: String, script_type: ScriptType, options: Options },
    Persist { name: String },
}

/// The mathematical value of [`Entry`].
pub enum EntryV {
    Directory { name: Seq<char>, contents: Seq<EntryV> },
    File { name: Seq<char>, hash: u128, size: nat },
    Modrinth { project: Seq<char>, version: Seq<char>, files: Seq<VersionFileV> },
    FabricServerJar {
        minecraft_version: Seq<char>,
        loader_version: Seq<char>,
        installer_version: Seq<char>,
    },
    RunScript { name: Seq<char>, script_type: ScriptType, options: OptionsV },
    Persist { name: Seq<char> },
}

pub open spec fn entry_view(e: Entry) -> EntryV
    decreases e,
{
    match e {
        Entry::Directory { name, contents } => EntryV::Directory {
            name: name@,
            contents: entries_view(contents@),
        },
        Entry::File { name, hash, size } => EntryV::File {
            name: name@,
            hash,
            size: size as nat,
        },
        Entry::Modrinth { project, version, files } => EntryV::Modrinth {
            project: project@,
            version: version@,
            files: files@.map_values(|f: VersionFile| f@),
        },
        Entry::FabricServerJar { minecraft_version, loader_version, installer_version } => {
            EntryV::FabricServerJar {
                minecraft_version: minecraft_version@,
                loader_version: loader_version@,
                installer_version: installer_version@,
            }
        },
        Entry::RunScript { name, script_type, options } => EntryV::RunScript {
            name: name@,
            script_type,
            options: options@,
        },
        Entry::Persist { name } => EntryV::Persist { name: name@ },
    }
}

pub open spec fn entries_view(s: Seq<Entry>) -> Seq<EntryV>
    decreases s,
{
    if s.len() == 0 {
        Seq::empty()
    } else {
        seq![entry_view(s[0])] + entries_view(s.drop_first())
    }
}

impl View for Entry {
    type V = EntryV;

    open spec fn view(&self) -> EntryV {
        entry_view(*self)
    }
}

pub proof fn lemma_entries_view_len(s: Seq<Entry>)
    ensures
        entries_view(s).len() == s.len(),
    decreases s,
{
    if s.len() > 0 {
        lemma_entries_view_len(s.drop_first());
    }
}

pub proof fn lemma_entries_view_index(s: Seq<Entry>, i: int)
    requires
        0 <= i < s.len(),
    ensures
        entries_view(s).len() == s.len(),
        entries_view(s)[i] == entry_view(s[i]),
    decreases s,
{
    lemma_entries_view_len(s);
    if i > 0 {
        lemma_entries_view_index(s.drop_first(), i - 1);
    }
}

pub proof fn lemma_entries_view_push(s: Seq<Entry>, e: Entry)
    ensures
        entries_view(s.push(e)) == entries_view(s).push(entry_view(e)),
    decreases s,
{
    reveal_with_fuel(entries_view, 3);
    if s.len() == 0 {
        assert(s.push(e).drop_first() =~= Seq::<Entry>::empty());
        assert(entries_view(s.push(e)) =~= entries_view(s).push(entry_view(e)));
    } else {
        lemma_entries_view_push(s.drop_first(), e);
        assert(s.push(e).drop_first() =~= s.drop_first().push(e));
        assert(s.push(e)[0] == s[0]);
        assert(entries_view(s.push(e)) =~= entries_view(s).push(entry_view(e)));
    }
}

/// The compiled manifest: project metadata plus the root entries. It is
/// immutable after compilation and is the unit serialized into a container's
/// first stream entry.
#[derive(Debug, PartialEq, Eq)]
pub struct Manifest {
    pub project_info: ProjectInfo,
    pub contents: Vec<Entry>,
}

/// The mathematical value of [`Manifest`].
pub struct ManifestV {
    pub project_info: ProjectInfoV,
    pub contents: Seq<EntryV>,
}

impl View for Manifest {
    type V = ManifestV;

    open spec fn view(&self) -> ManifestV {
        ManifestV { project_info: self.project_info@, contents: entries_view(self.contents@) }
    }
}

/// A registry file can be flattened only if its name has an extension and
/// its SHA-512 digest is a well-formed 128-digit hex string.
pub open spec fn wf_version_file(f: VersionFileV) -> bool {
    &&& last_dot(f.filename) is Some
    &&& f.hashes.sha512.len() == 128
    &&& hex_decode_ok(f.hashes.sha512)
}

/// Well-formedness of a compiled entry: every registry file under it can be
/// turned into a download action.
pub open spec fn wf_entry(e: EntryV) -> bool
    decreases e,
{
    match e {
        EntryV::Directory { contents, .. } => forall|i: int|
            0 <= i < contents.len() ==> wf_entry(#[trigger] contents[i]),
        EntryV::Modrinth { files, .. } => forall|i: int|
            0 <= i < files.len() ==> wf_version_file(#[trigger] files[i]),
        _ => true,
    }
}

/// Well-formedness of a compiled manifest.
pub open spec fn wf_manifest(m: ManifestV) -> bool {
    forall|i: int| 0 <= i < m.contents.len() ==> wf_entry(#[trigger] m.contents[i])
}

/// One option of a declarative run-script node, applied in order over the
/// defaults.
#[derive(Debug, Clone, PartialEq, Eq)]
pub enum SourceRunOption {
    Memory { memory: String },
    UseGc { preset: String },
    JavaArg(String),
}

/// The mathematical value of [`SourceRunOption`].
pub enum SourceRunOptionV {
    Memory { memory: Seq<char> },
    UseGc { preset: Seq<char> },
    JavaArg(Seq<char>),
}

impl View for SourceRunOption {
    type V = SourceRunOptionV;

    open spec fn view(&self) -> SourceRunOptionV {
        match self {
            SourceRunOption::Memory { memory } => SourceRunOptionV::Memory { memory: memory@ },
            SourceRunOption::UseGc { preset } => SourceRunOptionV::UseGc { preset: preset@ },
            SourceRunOption::JavaArg(arg) => SourceRunOptionV::JavaArg(arg@),
        }
    }
}

/// A declarative manifest node, as decoded from the human-authored source.
#[derive(Debug, PartialEq, Eq)]
pub enum SourceEntry {
    Directory { name: String, contents: Vec<SourceEntry> },
    File { name: String, source_path: Option<String> },
    Modrinth { project: String, version: String },
    FabricServer { minecraft_version: String, loader_version: String, installer_version: String },
    RunScript { name: String, script_type: ScriptType, options: Vec<SourceRunOption> },
    Persist { name: String },
}

/// The mathematical value of [`SourceEntry`].
pub enum SourceEntryV {
    Directory { name: Seq<char>, contents: Seq<SourceEntryV> },
    File { name: Seq<char>, source_path: Option<Seq<char>> },
    Modrinth { project: Seq<char>, version: Seq<char> },
    FabricServer {
        minecraft_version: Seq<char>,
        loader_version: Seq<char>,
        installer_version: Seq<char>,
    },
    RunScript { name: Seq<char>, script_type: ScriptType, options: Seq<SourceRunOptionV> },
    Persist { name: Seq<char> },
}

pub open spec fn source_entry_view(e: SourceEntry) -> SourceEntryV
    decreases e,
{
    match e {
        SourceEntry::Directory { name, contents } => SourceEntryV::Directory {
            name: name@,
            contents: source_entries_view(contents@),
        },
        SourceEntry::File { name, source_path } => SourceEntryV::File {
            name: name@,
            source_path: match source_path {
                Some(p) => Some(p@),
                None => None,
            },
        },
        SourceEntry::Modrinth { project, version } => SourceEntryV::Modrinth {
            project: project@,
            version: version@,
        },
        SourceEntry::FabricServer { minecraft_version, loader_version, installer_version } => {
            SourceEntryV::FabricServer {
                minecraft_version: minecraft_version@,
                loader_version: loader_version@,
                installer_version: installer_version@,
            }
        },
        SourceEntry::RunScript { name, script_type, options } => SourceEntryV::RunScript {
            name: name@,
            script_type,
            options: options@.map_values(|o: SourceRunOption| o@),
        },
        SourceEntry::Persist { name } => SourceEntryV::Persist { name: name@ },
    }
}

pub open spec fn source_entries_view(s: Seq<SourceEntry>) -> Seq<SourceEntryV>
    decreases s,
{
    if s.len() == 0 {
        Seq::empty()
    } else {
        seq![source_entry_view(s[0])] + source_entries_view(s.drop_first())
    }
}

impl View for SourceEntry {
    type V = SourceEntryV;

    open spec fn view(&self) -> SourceEntryV {
        source_entry_view(*self)
    }
}

pub proof fn lemma_source_entries_view_len(s: Seq<SourceEntry>)
    ensures
        source_entries_view(s).len() == s.len(),
    decreases s,
{
    if s.len() > 0 {
        lemma_source_entries_view_len(s.drop_first());
    }
}

pub proof fn lemma_source_entries_view_index(s: Seq<SourceEntry>, i: int)
    requires
        0 <= i < s.len(),
    ensures
        source_entries_view(s).len() == s.len(),
        source_entries_view(s)[i] == source_entry_view(s[i]),
    decreases s,
{
    lemma_source_entries_view_len(s);
    if i > 0 {
        lemma_source_entries_view_index(s.drop_first(), i - 1);
    }
}

pub proof fn lemma_source_entries_view_push(s: Seq<SourceEntry>, e: SourceEntry)
    ensures
        source_entries_view(s.push(e)) == source_entries_view(s).push(source_entry_view(e)),
    decreases s,
{
    reveal_with_fuel(source_entries_view, 3);
    if s.len() == 0 {
        assert(s.push(e).drop_first() =~= Seq::<SourceEntry>::empty());
        assert(source_entries_view(s.push(e)) =~= source_entries_view(s).push(
            source_entry_view(e),
        ));
    } else {
        lemma_source_entries_view_push(s.drop_first(), e);
        assert(s.push(e).drop_first() =~= s.drop_first().push(e));
        assert(s.push(e)[0] == s[0]);
        assert(source_entries_view(s.push(e)) =~= source_entries_view(s).push(
            source_entry_view(e),
        ));
    }
}

/// The declarative manifest: project metadata plus the source entry tree.
#[derive(Debug, PartialEq, Eq)]
pub struct SourceManifest {
    pub project: ProjectInfo,
    pub contents: Vec<SourceEntry>,
}

/// The mathematical value of [`SourceManifest`].
pub struct SourceManifestV {
    pub project: ProjectInfoV,
    pub contents: Seq<SourceEntryV>,
}

impl View for SourceManifest {
    type V = SourceManifestV;

    open spec fn view(&self) -> SourceManifestV {
        SourceManifestV { project: self.project@, contents: source_entries_view(self.contents@) }
    }
}

/// A resolved source node against a base directory: files get their missing
/// source path filled in as `base/name`, explicit source paths are made
/// relative to the base, and directories resolve their children below
/// `base/name`.
pub open spec fn resolve_entry_spec(e: SourceEntryV, base: Seq<char>) -> SourceEntryV
    decreases e,
{
    match e {
        SourceEntryV::Directory { name, contents } => SourceEntryV::Directory {
            name,
            contents: resolve_entries_spec(contents, joined(base, name)),
        },
        SourceEntryV::File { name, source_path } => SourceEntryV::File {
            name,
            source_path: Some(
                match source_path {
                    Some(p) => joined(base, p),
                    None => joined(base, name),
                },
            ),
        },
        other => other,
    }
}

pub open spec fn resolve_entries_spec(s: Seq<SourceEntryV>, base: Seq<char>) -> Seq<SourceEntryV>
    decreases s,
{
    if s.len() == 0 {
        Seq::empty()
    } else {
        seq![resolve_entry_spec(s[0], base)] + resolve_entries_spec(s.drop_first(), base)
    }
}

/// True when every file node below `e` has a source path.
pub open spec fn resolved_entry(e: SourceEntryV) -> bool
    decreases e,
{
    match e {
        SourceEntryV::Directory { contents, .. } => forall|i: int|
            0 <= i < contents.len() ==> resolved_entry(#[trigger] contents[i]),
        SourceEntryV::File { source_path, .. } => source_path is Some,
        _ => true,
    }
}

/// Resolution leaves every file node with a source path.
pub proof fn lemma_resolve_resolved(e: SourceEntryV, base: Seq<char>)
    ensures
        resolved_entry(resolve_entry_spec(e, base)),
    decreases e,
{
    match e {
        SourceEntryV::Directory { name, contents } => {
            lemma_resolve_entries_resolved(contents, joined(base, name));
        },
        _ => {},
    }
}

pub proof fn lemma_resolve_entries_resolved(s: Seq<SourceEntryV>, base: Seq<char>)
    ensures
        resolve_entries_spec(s, base).len() == s.len(),
        forall|i: int|
            0 <= i < s.len() ==> resolved_entry(#[trigger] resolve_entries_spec(s, base)[i]),
    decreases s,
{
    if s.len() > 0 {
        lemma_resolve_resolved(s[0], base);
        lemma_resolve_entries_resolved(s.drop_first(), base);
        assert forall|i: int| 0 <= i < s.len() implies resolved_entry(
            #[trigger] resolve_entries_spec(s, base)[i],
        ) by {
            if i > 0 {
                assert(resolve_entries_spec(s, base)[i] == resolve_entries_spec(
                    s.drop_first(),
                    base,
                )[i - 1]);
            }
        }
    }
}

/// Copies a string list, field for field.
pub fn copy_strings(v: &Vec<String>) -> (r: Vec<String>)
    ensures
        r@.map_values(|s: String| s@) == v@.map_values(|s: String| s@),
        r@.len() == v@.len(),
{
    let mut r: Vec<String> = Vec::new();
    let mut i: usize = 0;
    while i < v.len()
        invariant
            i <= v@.len(),
            r@.len() == i,
            forall|j: int| 0 <= j < i ==> r@[j]@ == v@[j]@,
        decreases v@.len() - i,
    {
        r.push(v[i].clone());
        i = i + 1;
    }
    proof {
        assert(r@.map_values(|s: String| s@) =~= v@.map_values(|s: String| s@));
    }
    r
}

/// Copies a run-script option set, field for field.
pub fn copy_options(o: &Options) -> (r: Options)
    ensures
        r@ == o@,
{
    let r = Options {
        java_mem: o.java_mem.clone(),
        java_gc_opts: o.java_gc_opts.clone(),
        java_extra_opts: copy_strings(&o.java_extra_opts),
        server_jar_rel: o.server_jar_rel.clone(),
    };
    r
}

/// Copies project metadata, field for field.
pub fn copy_project_info(p: &ProjectInfo) -> (r: ProjectInfo)
    ensures
        r@ == p@,
{
    let r = ProjectInfo {
        name: p.name.clone(),
        description: p.description.clone(),
        version: p.version.clone(),
        authors: copy_strings(&p.authors),
    };
    r
}

/// Copies a run-script option list, field for field.
pub fn copy_run_options(v: &Vec<SourceRunOption>) -> (r: Vec<SourceRunOption>)
    ensures
        r@.map_values(|o: SourceRunOption| o@) == v@.map_values(|o: SourceRunOption| o@),
{
    let mut r: Vec<SourceRunOption> = Vec::new();
    let mut i: usize = 0;
    while i < v.len()
        invariant
            i <= v@.len(),
            r@.len() == i,
            forall|j: int| 0 <= j < i ==> r@[j]@ == v@[j]@,
        decreases v@.len() - i,
    {
        let c = match &v[i] {
            SourceRunOption::Memory { memory } => SourceRunOption::Memory {
                memory: memory.clone(),
            },
            SourceRunOption::UseGc { preset } => SourceRunOption::UseGc {
                preset: preset.clone(),
            },
            SourceRunOption::JavaArg(arg) => SourceRunOption::JavaArg(arg.clone()),
        };
        r.push(c);
        i = i + 1;
    }
    proof {
        assert(r@.map_values(|o: SourceRunOption| o@) =~= v@.map_values(
            |o: SourceRunOption| o@,
        ));
    }
    r
}

impl SourceEntry {
    /// Resolves this node against a base directory (see
    /// [`resolve_entry_spec`]).
    pub fn resolve(&self, base_dir: &str) -> (r: SourceEntry)
        ensures
            r@ == resolve_entry_spec(self@, base_dir@),
        decreases *self,
    {
        match self {
            SourceEntry::Directory { name, contents } => {
                let path = join_path(base_dir, name.as_str());
                let mut out: Vec<SourceEntry> = Vec::new();
                let mut i: usize = 0;
                while i < contents.len()
                    invariant
                        i <= contents@.len(),
                        path@ == joined(base_dir@, name@),
                        source_entries_view(out@) == resolve_entries_spec(
                            source_entries_view(contents@.take(i as int)),
                            path@,
                        ),
                        forall|j: int|
                            0 <= j < contents@.len() ==> (decreases_to!(*self => contents@[j])),
                    decreases contents@.len() - i,
                {
                    let child = contents[i].resolve(path.as_str());
                    let ghost outpre = out@;
                    let ghost childe = child;
                    out.push(child);
                    i = i + 1;
                    proof {
                        let pre = contents@.take(i - 1);
                        let now = contents@.take(i as int);
                        lemma_source_entries_view_push(pre, contents@[i - 1]);
                        assert(source_entries_view(now) == source_entries_view(pre).push(
                            source_entry_view(contents@[i - 1]),
                        )) by {
                            assert(now =~= pre.push(contents@[i - 1]));
                        }
                        lemma_source_entries_view_push_resolve(
                            source_entries_view(pre),
                            source_entry_view(contents@[i - 1]),
                            path@,
                        );
                        lemma_source_entries_view_push(outpre, childe);
                        assert(out@ == outpre.push(childe));
                    }
                }
                proof {
                    assert(contents@.take(contents@.len() as int) =~= contents@);
                }
                SourceEntry::Directory { name: name.clone(), contents: out }
            },
            SourceEntry::File { name, source_path } => {
                let resolved = match source_path {
                    Some(p) => join_path(base_dir, p.as_str()),
                    None => join_path(base_dir, name.as_str()),
                };
                SourceEntry::File { name: name.clone(), source_path: Some(resolved) }
            },
            SourceEntry::Modrinth { project, version } => SourceEntry::Modrinth {
                project: project.clone(),
                version: version.clone(),
            },
            SourceEntry::FabricServer {
                minecraft_version,
                loader_version,
                installer_version,
            } => SourceEntry::FabricServer {
                minecraft_version: minecraft_version.clone(),
                loader_version: loader_version.clone(),
                installer_version: installer_version.clone(),
            },
            SourceEntry::RunScript { name, script_type, options } => {
                SourceEntry::RunScript {
                    name: name.clone(),
                    script_type: *script_type,
                    options: copy_run_options(options),
                }
            },
            SourceEntry::Persist { name } => SourceEntry::Persist { name: name.clone() },
        }
    }
}

/// Appending one node distributes over resolution.
proof fn lemma_source_entries_view_push_resolve(
    s: Seq<SourceEntryV>,
    e: SourceEntryV,
    base: Seq<char>,
)
    ensures
        resolve_entries_spec(s.push(e), base) == resolve_entries_spec(s, base).push(
            resolve_entry_spec(e, base),
        ),
    decreases s,
{
    reveal_with_fuel(resolve_entries_spec, 3);
    if s.len() == 0 {
        assert(s.push(e).drop_first() =~= Seq::<SourceEntryV>::empty());
        assert(resolve_entries_spec(s.push(e), base) =~= resolve_entries_spec(s, base).push(
            resolve_entry_spec(e, base),
        ));
    } else {
        lemma_source_entries_view_push_resolve(s.drop_first(), e, base);
        assert(s.push(e).drop_first() =~= s.drop_first().push(e));
        assert(s.push(e)[0] == s[0]);
        assert(resolve_entries_spec(s.push(e), base) =~= resolve_entries_spec(s, base).push(
            resolve_entry_spec(e, base),
        ));
    }
}

impl SourceManifest {
    /// Resolves every root entry against the base directory.
    pub fn resolve(&self, base_dir: &str) -> (r: SourceManifest)
        ensures
            r@.project == self@.project,
            r@.contents == resolve_entries_spec(self@.contents, base_dir@),
    {
        let mut out: Vec<SourceEntry> = Vec::new();
        let mut i: usize = 0;
        while i < self.contents.len()
            invariant
                i <= self.contents@.len(),
                source_entries_view(out@) == resolve_entries_spec(
                    source_entries_view(self.contents@.take(i as int)),
                    base_dir@,
                ),
            decreases self.contents@.len() - i,
        {
            let child = self.contents[i].resolve(base_dir);
            let ghost outpre = out@;
            let ghost childe = child;
            out.push(child);
            i = i + 1;
            proof {
                let pre = self.contents@.take(i - 1);
                let now = self.contents@.take(i as int);
                lemma_source_entries_view_push(pre, self.contents@[i - 1]);
                assert(source_entries_view(now) == source_entries_view(pre).push(
                    source_entry_view(self.contents@[i - 1]),
                )) by {
                    assert(now =~= pre.push(self.contents@[i - 1]));
                }
                lemma_source_entries_view_push_resolve(
                    source_entries_view(pre),
                    source_entry_view(self.contents@[i - 1]),
                    base_dir@,
                );
                lemma_source_entries_view_push(outpre, childe);
                assert(out@ == outpre.push(childe));
            }
        }
        proof {
            assert(self.contents@.take(self.contents@.len() as int) =~= self.contents@);
        }
        SourceManifest { project: copy_project_info(&self.project), contents: out }
    }
}

/// The file nodes below a source node, in tree order.
pub open spec fn files_of(e: SourceEntryV) -> Seq<SourceEntryV>
    decreases e,
{
    match e {
        SourceEntryV::Directory { contents, .. } => files_of_seq(contents),
        SourceEntryV::File { .. } => seq![e],
        _ => Seq::empty(),
    }
}

pub open spec fn files_of_seq(s: Seq<SourceEntryV>) -> Seq<SourceEntryV>
    decreases s,
{
    if s.len() == 0 {
        Seq::empty()
    } else {
        files_of(s[0]) + files_of_seq(s.drop_first())
    }
}

/// Collects the file nodes below a source node, in tree order.
pub fn recurse_files(entry: &SourceEntry) -> (r: Vec<SourceEntry>)
    ensures
        source_entries_view(r@) == files_of(entry@),
    decreases *entry,
{
    match entry {
        SourceEntry::Directory { contents, .. } => {
            let mut out: Vec<SourceEntry> = Vec::new();
            let mut i: usize = 0;
            while i < contents.len()
                invariant
                    i <= contents@.len(),
                    source_entries_view(out@) == files_of_seq(
                        source_entries_view(contents@.take(i as int)),
                    ),
                    forall|j: int|
                        0 <= j < contents@.len() ==> (decreases_to!(*entry => contents@[j])),
                decreases contents@.len() - i,
            {
                let mut part = recurse_files(&contents[i]);
                let ghost outpre = out@;
                let ghost partv = part@;
                out.append(&mut part);
                i = i + 1;
                proof {
                    let pre = contents@.take(i - 1);
                    let now = contents@.take(i as int);
                    assert(now =~= pre.push(contents@[i - 1]));
                    lemma_source_entries_view_push(pre, contents@[i - 1]);
                    lemma_files_of_seq_push(
                        source_entries_view(pre),
                        source_entry_view(contents@[i - 1]),
                    );
                    lemma_source_entries_view_concat(outpre, partv);
                    assert(out@ =~= outpre + partv);
                }
            }
            proof {
                assert(contents@.take(contents@.len() as int) =~= contents@);
            }
            out
        },
        SourceEntry::File { name, source_path } => {
            let mut out: Vec<SourceEntry> = Vec::new();
            let sp = match source_path {
                Some(p) => Some(p.clone()),
                None => None,
            };
            out.push(SourceEntry::File { name: name.clone(), source_path: sp });
            proof {
                reveal_with_fuel(source_entries_view, 3);
                assert(source_entry_view(out@[0]) == entry@);
                assert(out@.drop_first() =~= Seq::<SourceEntry>::empty());
                assert(source_entries_view(out@) =~= files_of(entry@));
            }
            out
        },
        _ => {
            let out: Vec<SourceEntry> = Vec::new();
            proof {
                assert(source_entries_view(out@) =~= files_of(entry@));
            }
            out
        },
    }
}

/// Collecting files distributes over appending one node.
pub proof fn lemma_files_of_seq_push(s: Seq<SourceEntryV>, e: SourceEntryV)
    ensures
        files_of_seq(s.push(e)) == files_of_seq(s) + files_of(e),
    decreases s,
{
    reveal_with_fuel(files_of_seq, 3);
    if s.len() == 0 {
        assert(s.push(e).drop_first() =~= Seq::<SourceEntryV>::empty());
        assert(files_of_seq(s.push(e)) =~= files_of_seq(s) + files_of(e));
    } else {
        lemma_files_of_seq_push(s.drop_first(), e);
        assert(s.push(e).drop_first() =~= s.drop_first().push(e));
        assert(s.push(e)[0] == s[0]);
        assert(files_of_seq(s.push(e)) =~= files_of_seq(s) + files_of(e));
    }
}

/// Views distribute over concatenation.
pub proof fn lemma_source_entries_view_concat(a: Seq<SourceEntry>, b: Seq<SourceEntry>)
    ensures
        source_entries_view(a + b) == source_entries_view(a) + source_entries_view(b),
    decreases a,
{
    if a.len() == 0 {
        assert(a + b =~= b);
        assert(source_entries_view(a) + source_entries_view(b) =~= source_entries_view(b));
    } else {
        lemma_source_entries_view_concat(a.drop_first(), b);
        assert((a + b).drop_first() =~= a.drop_first() + b);
        assert((a + b)[0] == a[0]);
        assert(source_entries_view(a + b) =~= source_entries_view(a) + source_entries_view(b));
    }
}

} // verus!
