//! Manifest compilation: a resolved source tree is turned into a compiled
//! manifest. File nodes are read from a file store and hashed; registry
//! references are answered from a registry store; run-script options are
//! folded over the defaults. Both stores are plain values handed in by the
//! caller, so the compiler itself performs no input or output.

use vstd::prelude::*;
use crate::hashing::{content_hash, hash_of};
use crate::manifest::{
    copy_project_info, entries_view, entry_view, lemma_source_entries_view_index,
    lemma_source_entries_view_len, resolved_entry, source_entries_view, source_entry_view, Entry,
    EntryV, Manifest, Options, OptionsV, SourceEntry, SourceEntryV, SourceManifest,
    SourceRunOption, SourceRunOptionV,
};
use crate::modrinth::{VersionFile, VersionFileV};
use crate::str_eq;

verus! {

broadcast use vstd::seq::group_seq_axioms, vstd::std_specs::vec::group_vec_axioms;

/// The GC preset named `none`.
pub const GC_PRESET_NONE: &'static str = "";

/// The GC preset named `zgc`.
pub const GC_PRESET_ZGC: &'static str = "-XX:+UseZGC -XX:AllocatePrefetchStyle=1 -XX:-ZProactive";

/// The GC preset named `brucethemoose-server`, also the default.
pub const GC_PRESET_BRUCETHEMOOSE: &'static str = "-XX:+UseG1GC -XX:MaxGCPauseMillis=130 -XX:+UnlockExperimentalVMOptions -XX:+DisableExplicitGC -XX:+AlwaysPreTouch -XX:G1NewSizePercent=28 -XX:G1HeapRegionSize=16M -XX:G1ReservePercent=20 -XX:G1MixedGCCountTarget=3 -XX:InitiatingHeapOccupancyPercent=10 -XX:G1MixedGCLiveThresholdPercent=90 -XX:G1RSetUpdatingPauseTimePercent=0 -XX:SurvivorRatio=32 -XX:MaxTenuringThreshold=1 -XX:G1SATBBufferEnqueueingThresholdPercent=30 -XX:G1ConcMarkStepDurationMillis=5 -XX:G1ConcRSHotCardLimit=16 -XX:G1ConcRefinementServiceIntervalMillis=150";

/// The GC preset named `aikar`.
pub const GC_PRESET_AIKAR: &'static str = "-XX:+UseG1GC -XX:+ParallelRefProcEnabled -XX:MaxGCPauseMillis=200 -XX:+UnlockExperimentalVMOptions -XX:+DisableExplicitGC -XX:+AlwaysPreTouch -XX:G1NewSizePercent=30 -XX:G1MaxNewSizePercent=40 -XX:G1HeapRegionSize=8M -XX:G1ReservePercent=20 -XX:G1HeapWastePercent=5 -XX:G1MixedGCCountTarget=4 -XX:InitiatingHeapOccupancyPercent=15 -XX:G1MixedGCLiveThresholdPercent=90 -XX:G1RSetUpdatingPauseTimePercent=5 -XX:SurvivorRatio=32 -XX:+PerfDisableSharedMem -XX:MaxTenuringThreshold=1 -Dusing.aikars.flags=https://mcflags.emc.gs -Daikars.new.flags=true";

/// The GC flag string of a named preset, if the name is known.
pub open spec fn gc_preset_spec(name: Seq<char>) -> Option<Seq<char>> {
    if name == "none"@ {
        Some(GC_PRESET_NONE@)
    } else if name == "zgc"@ {
        Some(GC_PRESET_ZGC@)
    } else if name == "brucethemoose-server"@ {
        Some(GC_PRESET_BRUCETHEMOOSE@)
    } else if name == "aikar"@ {
        Some(GC_PRESET_AIKAR@)
    } else {
        None
    }
}

/// Looks a GC preset up by name.
pub fn gc_preset(name: &str) -> (r: Option<&'static str>)
    ensures
        r is Some <==> gc_preset_spec(name@) is Some,
        r is Some ==> gc_preset_spec(name@) == Some(r->0@),
{
    if str_eq(name, "none") {
        Some(GC_PRESET_NONE)
    } else if str_eq(name, "zgc") {
        Some(GC_PRESET_ZGC)
    } else if str_eq(name, "brucethemoose-server") {
        Some(GC_PRESET_BRUCETHEMOOSE)
    } else if str_eq(name, "aikar") {
        Some(GC_PRESET_AIKAR)
    } else {
        None
    }
}

/// The default options a run script starts from: 4G of memory, the default
/// GC preset, no extra options, `server.jar`.
pub open spec fn default_options() -> OptionsV {
    OptionsV {
        java_mem: "4G"@,
        java_gc_opts: GC_PRESET_BRUCETHEMOOSE@,
        java_extra_opts: Seq::empty(),
        server_jar_rel: "server.jar"@,
    }
}

impl Options {
    /// The default option set.
    pub fn new() -> (r: Options)
        ensures
            r@ == default_options(),
    {
        let r = Options {
            java_mem: String::from_str("4G"),
            java_gc_opts: String::from_str(GC_PRESET_BRUCETHEMOOSE),
            java_extra_opts: Vec::new(),
            server_jar_rel: String::from_str("server.jar"),
        };
        proof {
            assert(r@.java_extra_opts =~= default_options().java_extra_opts);
        }
        r
    }
}

/// One override applied over an option set: an explicit memory size replaces
/// the default, a named GC preset replaces the GC flag string (an unknown
/// name falls back to the default preset), an extra argument is appended.
pub open spec fn apply_option(o: OptionsV, so: SourceRunOptionV) -> OptionsV {
    match so {
        SourceRunOptionV::Memory { memory } => OptionsV { java_mem: memory, ..o },
        SourceRunOptionV::UseGc { preset } => OptionsV {
            java_gc_opts: match gc_preset_spec(preset) {
                Some(s) => s,
                None => GC_PRESET_BRUCETHEMOOSE@,
            },
            ..o
        },
        SourceRunOptionV::JavaArg(arg) => OptionsV {
            java_extra_opts: o.java_extra_opts.push(arg),
            ..o
        },
    }
}

/// Overrides applied in entry order.
pub open spec fn apply_options(o: OptionsV, sos: Seq<SourceRunOptionV>) -> OptionsV
    decreases sos.len(),
{
    if sos.len() == 0 {
        o
    } else {
        apply_options(apply_option(o, sos[0]), sos.drop_first())
    }
}

proof fn lemma_apply_options_push(o: OptionsV, sos: Seq<SourceRunOptionV>, e: SourceRunOptionV)
    ensures
        apply_options(o, sos.push(e)) == apply_option(apply_options(o, sos), e),
    decreases sos.len(),
{
    reveal_with_fuel(apply_options, 3);
    if sos.len() == 0 {
        assert(sos.push(e).drop_first() =~= Seq::<SourceRunOptionV>::empty());
    } else {
        lemma_apply_options_push(apply_option(o, sos[0]), sos.drop_first(), e);
        assert(sos.push(e).drop_first() =~= sos.drop_first().push(e));
        assert(sos.push(e)[0] == sos[0]);
    }
}

/// Folds a run-script option list over the defaults.
pub fn resolve_options(options: &Vec<SourceRunOption>) -> (r: Options)
    ensures
        r@ == apply_options(
            default_options(),
            options@.map_values(|o: SourceRunOption| o@),
        ),
{
    let ghost all = options@.map_values(|o: SourceRunOption| o@);
    let mut opts = Options::new();
    let mut i: usize = 0;
    proof {
        assert(all.take(0) =~= Seq::<SourceRunOptionV>::empty());
    }
    while i < options.len()
        invariant
            i <= options@.len(),
            all == options@.map_values(|o: SourceRunOption| o@),
            all.len() == options@.len(),
            opts@ == apply_options(default_options(), all.take(i as int)),
        decreases options@.len() - i,
    {
        let ghost pre = opts@;
        match &options[i] {
            SourceRunOption::Memory { memory } => {
                opts.java_mem = memory.clone();
            },
            SourceRunOption::UseGc { preset } => {
                opts.java_gc_opts = match gc_preset(preset.as_str()) {
                    Some(s) => String::from_str(s),
                    None => String::from_str(GC_PRESET_BRUCETHEMOOSE),
                };
            },
            SourceRunOption::JavaArg(arg) => {
                opts.java_extra_opts.push(arg.clone());
            },
        }
        i = i + 1;
        proof {
            lemma_apply_options_push(default_options(), all.take(i - 1), all[i - 1]);
            assert(all.take(i as int) =~= all.take(i - 1).push(all[i - 1]));
            assert(opts@ == apply_option(pre, all[i - 1])) by {
                match options@[i - 1] {
                    SourceRunOption::Memory { memory } => {},
                    SourceRunOption::UseGc { preset } => {},
                    SourceRunOption::JavaArg(arg) => {
                        assert(opts@.java_extra_opts =~= pre.java_extra_opts.push(arg@));
                    },
                }
            }
        }
    }
    proof {
        assert(all.take(all.len() as int) =~= all);
    }
    opts
}

/// A store of file contents keyed by source path; the caller reads the files
/// and hands the bytes in.
pub struct FileStore {
    pub entries: Vec<(String, Vec<u8>)>,
}

impl View for FileStore {
    type V = Seq<(Seq<char>, Seq<u8>)>;

    open spec fn view(&self) -> Seq<(Seq<char>, Seq<u8>)> {
        self.entries@.map_values(|p: (String, Vec<u8>)| (p.0@, p.1@))
    }
}

/// First-match lookup in a keyed sequence of byte strings.
pub open spec fn store_lookup(s: Seq<(Seq<char>, Seq<u8>)>, k: Seq<char>) -> Option<Seq<u8>>
    decreases s.len(),
{
    if s.len() == 0 {
        None
    } else if s[0].0 == k {
        Some(s[0].1)
    } else {
        store_lookup(s.drop_first(), k)
    }
}

/// Copies a byte string.
pub fn copy_bytes(v: &Vec<u8>) -> (r: Vec<u8>)
    ensures
        r@ == v@,
{
    let mut r: Vec<u8> = Vec::new();
    let mut i: usize = 0;
    while i < v.len()
        invariant
            i <= v@.len(),
            r@ == v@.take(i as int),
        decreases v@.len() - i,
    {
        r.push(v[i]);
        i = i + 1;
        proof {
            assert(v@.take(i as int) =~= v@.take(i - 1).push(v@[i - 1]));
        }
    }
    proof {
        assert(v@.take(v@.len() as int) =~= v@);
    }
    r
}

impl FileStore {
    /// An empty store.
    pub fn new() -> (r: FileStore)
        ensures
            r@ == Seq::<(Seq<char>, Seq<u8>)>::empty(),
    {
        let r = FileStore { entries: Vec::new() };
        proof {
            assert(r@ =~= Seq::<(Seq<char>, Seq<u8>)>::empty());
        }
        r
    }

    /// Adds one file's bytes under its source path.
    pub fn add(&mut self, path: String, data: Vec<u8>)
        ensures
            final(self)@ == old(self)@.push((path@, data@)),
    {
        let ghost pathv = path@;
        let ghost datav = data@;
        self.entries.push((path, data));
        proof {
            assert(final(self)@ =~= old(self)@.push((pathv, datav)));
        }
    }

    /// Looks a source path up, returning a copy of its bytes.
    pub fn get(&self, path: &str) -> (r: Option<Vec<u8>>)
        ensures
            match r {
                Some(data) => store_lookup(self@, path@) == Some(data@),
                None => store_lookup(self@, path@) is None,
            },
    {
        let mut i: usize = 0;
        proof {
            assert(self@.skip(0) =~= self@);
        }
        while i < self.entries.len()
            invariant
                i <= self.entries@.len(),
                self@.len() == self.entries@.len(),
                forall|j: int| 0 <= j < self@.len() ==> #[trigger] self@[j]
                    == (self.entries@[j].0@, self.entries@[j].1@),
                store_lookup(self@, path@) == store_lookup(self@.skip(i as int), path@),
            decreases self.entries@.len() - i,
        {
            let ghost tail = self@.skip(i as int);
            if str_eq(self.entries[i].0.as_str(), path) {
                proof {
                    assert(tail[0] == self@[i as int]);
                    assert(store_lookup(tail, path@) == Some(self@[i as int].1));
                }
                return Some(copy_bytes(&self.entries[i].1));
            }
            i = i + 1;
            proof {
                assert(tail[0] == self@[i - 1]);
                assert(tail.drop_first() =~= self@.skip(i as int));
            }
        }
        proof {
            assert(self@.skip(self@.len() as int) =~= Seq::<(Seq<char>, Seq<u8>)>::empty());
        }
        None
    }
}

/// A store of registry answers keyed by project and version; the caller
/// performs the queries and hands the resolved file lists in.
pub struct RegistryStore {
    pub entries: Vec<(String, String, Vec<VersionFile>)>,
}

/// The mathematical value of one registry store entry.
pub open spec fn registry_view(s: Seq<(String, String, Vec<VersionFile>)>) -> Seq<
    (Seq<char>, Seq<char>, Seq<VersionFileV>),
> {
    s.map_values(
        |p: (String, String, Vec<VersionFile>)|
            (p.0@, p.1@, p.2@.map_values(|f: VersionFile| f@)),
    )
}

impl View for RegistryStore {
    type V = Seq<(Seq<char>, Seq<char>, Seq<VersionFileV>)>;

    open spec fn view(&self) -> Seq<(Seq<char>, Seq<char>, Seq<VersionFileV>)> {
        registry_view(self.entries@)
    }
}

/// First-match lookup of a resolved (project, version) reference.
pub open spec fn registry_lookup(
    s: Seq<(Seq<char>, Seq<char>, Seq<VersionFileV>)>,
    project: Seq<char>,
    version: Seq<char>,
) -> Option<Seq<VersionFileV>>
    decreases s.len(),
{
    if s.len() == 0 {
        None
    } else if s[0].0 == project && s[0].1 == version {
        Some(s[0].2)
    } else {
        registry_lookup(s.drop_first(), project, version)
    }
}

/// Copies a registry file list, field for field.
pub fn copy_version_files(v: &Vec<VersionFile>) -> (r: Vec<VersionFile>)
    ensures
        r@.map_values(|f: VersionFile| f@) == v@.map_values(|f: VersionFile| f@),
{
    let mut r: Vec<VersionFile> = Vec::new();
    let mut i: usize = 0;
    while i < v.len()
        invariant
            i <= v@.len(),
            r@.len() == i,
            forall|j: int| 0 <= j < i ==> r@[j]@ == v@[j]@,
        decreases v@.len() - i,
    {
        let f = &v[i];
        let c = VersionFile {
            hashes: crate::modrinth::VersionFileHashes {
                sha512: f.hashes.sha512.clone(),
                sha1: f.hashes.sha1.clone(),
            },
            url: f.url.clone(),
            filename: f.filename.clone(),
            primary: f.primary,
            size: f.size,
            file_type: f.file_type,
        };
        r.push(c);
        i = i + 1;
    }
    proof {
        assert(r@.map_values(|f: VersionFile| f@) =~= v@.map_values(|f: VersionFile| f@));
    }
    r
}

impl RegistryStore {
    /// An empty store.
    pub fn new() -> (r: RegistryStore)
        ensures
            r@ == Seq::<(Seq<char>, Seq<char>, Seq<VersionFileV>)>::empty(),
    {
        let r = RegistryStore { entries: Vec::new() };
        proof {
            assert(r@ =~= Seq::<(Seq<char>, Seq<char>, Seq<VersionFileV>)>::empty());
        }
        r
    }

    /// Adds one resolved reference.
    pub fn add(&mut self, project: String, version: String, files: Vec<VersionFile>)
        ensures
            final(self)@ == old(self)@.push(
                (project@, version@, files@.map_values(|f: VersionFile| f@)),
            ),
    {
        let ghost pv = project@;
        let ghost vv = version@;
        let ghost fv = files@.map_values(|f: VersionFile| f@);
        self.entries.push((project, version, files));
        proof {
            assert(final(self)@ =~= old(self)@.push((pv, vv, fv)));
        }
    }

    /// Looks a (project, version) reference up, returning a copy of its file
    /// list.
    pub fn get(&self, project: &str, version: &str) -> (r: Option<Vec<VersionFile>>)
        ensures
            match r {
                Some(files) => registry_lookup(self@, project@, version@) == Some(
                    files@.map_values(|f: VersionFile| f@),
                ),
                None => registry_lookup(self@, project@, version@) is None,
            },
    {
        let mut i: usize = 0;
        proof {
            assert(self@.skip(0) =~= self@);
        }
        while i < self.entries.len()
            invariant
                i <= self.entries@.len(),
                self@.len() == self.entries@.len(),
                forall|j: int| 0 <= j < self@.len() ==> #[trigger] self@[j] == (
                    self.entries@[j].0@,
                    self.entries@[j].1@,
                    self.entries@[j].2@.map_values(|f: VersionFile| f@),
                ),
                registry_lookup(self@, project@, version@) == registry_lookup(
                    self@.skip(i as int),
                    project@,
                    version@,
                ),
            decreases self.entries@.len() - i,
        {
            let ghost tail = self@.skip(i as int);
            if str_eq(self.entries[i].0.as_str(), project) && str_eq(
                self.entries[i].1.as_str(),
                version,
            ) {
                proof {
                    assert(tail[0] == self@[i as int]);
                }
                return Some(copy_version_files(&self.entries[i].2));
            }
            i = i + 1;
            proof {
                assert(tail[0] == self@[i - 1]);
                assert(tail.drop_first() =~= self@.skip(i as int));
            }
        }
        proof {
            assert(self@.skip(self@.len() as int) =~= Seq::<
                (Seq<char>, Seq<char>, Seq<VersionFileV>),
            >::empty());
        }
        None
    }
}

/// A fatal compile failure: a file node whose source cannot be read, or a
/// registry reference the registry store does not answer.
#[derive(Debug, PartialEq, Eq)]
pub enum CompileError {
    MissingFile { path: String },
    UnknownVersion { project: String, version: String },
}

/// The mathematical value of [`CompileError`].
pub enum CompileErrorV {
    MissingFile { path: Seq<char> },
    UnknownVersion { project: Seq<char>, version: Seq<char> },
}

impl View for CompileError {
    type V = CompileErrorV;

    open spec fn view(&self) -> CompileErrorV {
        match self {
            CompileError::MissingFile { path } => CompileErrorV::MissingFile { path: path@ },
            CompileError::UnknownVersion { project, version } => CompileErrorV::UnknownVersion {
                project: project@,
                version: version@,
            },
        }
    }
}

/// A compiled source node: files are read from the store and hashed,
/// registry references are answered from the registry store, run-script
/// options are folded over the defaults. The first failure wins.
pub open spec fn compile_entry_spec(
    e: SourceEntryV,
    files: Seq<(Seq<char>, Seq<u8>)>,
    reg: Seq<(Seq<char>, Seq<char>, Seq<VersionFileV>)>,
) -> Result<EntryV, CompileErrorV>
    decreases e,
{
    match e {
        SourceEntryV::Directory { name, contents } => {
            match compile_entries_spec(contents, files, reg) {
                Ok(vs) => Ok(EntryV::Directory { name, contents: vs }),
                Err(err) => Err(err),
            }
        },
        SourceEntryV::File { name, source_path } => {
            let p = match source_path {
                Some(q) => q,
                None => name,
            };
            match store_lookup(files, p) {
                Some(data) => Ok(EntryV::File { name, hash: hash_of(data), size: data.len() }),
                None => Err(CompileErrorV::MissingFile { path: p }),
            }
        },
        SourceEntryV::Modrinth { project, version } => {
            match registry_lookup(reg, project, version) {
                Some(fs) => Ok(EntryV::Modrinth { project, version, files: fs }),
                None => Err(CompileErrorV::UnknownVersion { project, version }),
            }
        },
        SourceEntryV::FabricServer { minecraft_version, loader_version, installer_version } => Ok(
            EntryV::FabricServerJar { minecraft_version, loader_version, installer_version },
        ),
        SourceEntryV::RunScript { name, script_type, options } => Ok(
            EntryV::RunScript {
                name,
                script_type,
                options: apply_options(default_options(), options),
            },
        ),
        SourceEntryV::Persist { name } => Ok(EntryV::Persist { name }),
    }
}

/// Children compiled in order; the first failure wins.
pub open spec fn compile_entries_spec(
    s: Seq<SourceEntryV>,
    files: Seq<(Seq<char>, Seq<u8>)>,
    reg: Seq<(Seq<char>, Seq<char>, Seq<VersionFileV>)>,
) -> Result<Seq<EntryV>, CompileErrorV>
    decreases s,
{
    if s.len() == 0 {
        Ok(Seq::empty())
    } else {
        match compile_entry_spec(s[0], files, reg) {
            Err(err) => Err(err),
            Ok(v) => match compile_entries_spec(s.drop_first(), files, reg) {
                Err(err) => Err(err),
                Ok(vs) => Ok(seq![v] + vs),
            },
        }
    }
}

proof fn lemma_compile_entries_split(
    s: Seq<SourceEntryV>,
    files: Seq<(Seq<char>, Seq<u8>)>,
    reg: Seq<(Seq<char>, Seq<char>, Seq<VersionFileV>)>,
    i: int,
)
    requires
        0 <= i <= s.len(),
        forall|j: int| 0 <= j < i ==> #[trigger] compile_entry_spec(s[j], files, reg) is Ok,
    ensures
        i < s.len() && compile_entry_spec(s[i], files, reg) is Err ==> compile_entries_spec(
            s,
            files,
            reg,
        ) == Err::<Seq<EntryV>, CompileErrorV>(compile_entry_spec(s[i], files, reg)->Err_0),
        (i == s.len() && s.len() > 0) ==> (compile_entries_spec(s, files, reg) matches Ok(vs)
            && vs.len() == s.len() && (forall|j: int|
            0 <= j < s.len() ==> #[trigger] compile_entry_spec(s[j], files, reg) == Ok::<
                EntryV,
                CompileErrorV,
            >(vs[j]))),
        s.len() == 0 ==> compile_entries_spec(s, files, reg) == Ok::<Seq<EntryV>, CompileErrorV>(
            Seq::<EntryV>::empty(),
        ),
    decreases s.len(),
{
    if s.len() > 0 {
        if i == 0 {
            // first entry errs, or i == 0 == s.len() impossible since s.len() > 0
        } else {
            lemma_compile_entries_split(s.drop_first(), files, reg, i - 1);
            assert(forall|j: int| 0 <= j < i - 1 ==> s.drop_first()[j] == s[j + 1]);
            if i < s.len() && compile_entry_spec(s[i], files, reg) is Err {
                assert(s.drop_first()[i - 1] == s[i]);
            }
            if i == s.len() {
                let vs0 = compile_entries_spec(s.drop_first(), files, reg)->Ok_0;
                assert(compile_entry_spec(s[0], files, reg) is Ok);
                let v = compile_entry_spec(s[0], files, reg)->Ok_0;
                assert(compile_entries_spec(s, files, reg) == Ok::<Seq<EntryV>, CompileErrorV>(
                    seq![v] + vs0,
                ));
                assert forall|j: int| 0 <= j < s.len() implies #[trigger] compile_entry_spec(
                    s[j],
                    files,
                    reg,
                ) == Ok::<EntryV, CompileErrorV>((seq![v] + vs0)[j]) by {
                    if j > 0 {
                        assert(s.drop_first()[j - 1] == s[j]);
                        assert((seq![v] + vs0)[j] == vs0[j - 1]);
                    }
                }
            }
        }
    }
}

impl Entry {
    /// Compiles one resolved source node against the stores (see
    /// [`compile_entry_spec`]).
    #[verifier::loop_isolation(false)]
    pub fn parse(
        value: &SourceEntry,
        files: &FileStore,
        registry: &RegistryStore,
    ) -> (r: Result<Entry, CompileError>)
        requires
            resolved_entry(value@),
        ensures
            match r {
                Ok(e) => compile_entry_spec(value@, files@, registry@) == Ok::<
                    EntryV,
                    CompileErrorV,
                >(e@),
                Err(err) => compile_entry_spec(value@, files@, registry@) == Err::<
                    EntryV,
                    CompileErrorV,
                >(err@),
            },
        decreases *value,
    {
        match value {
            SourceEntry::Directory { name, contents } => {
                let mut out: Vec<Entry> = Vec::new();
                let mut i: usize = 0;
                proof {
                    lemma_source_entries_view_len(contents@);
                }
                while i < contents.len()
                    invariant
                        i <= contents@.len(),
                        source_entries_view(contents@).len() == contents@.len(),
                        out@.len() == i,
                        forall|j: int| 0 <= j < contents@.len() ==> resolved_entry(
                            #[trigger] source_entries_view(contents@)[j],
                        ),
                        forall|j: int| 0 <= j < i ==> #[trigger] compile_entry_spec(
                            source_entries_view(contents@)[j],
                            files@,
                            registry@,
                        ) == Ok::<EntryV, CompileErrorV>(entries_view(out@)[j]),
                        entries_view(out@).len() == i,
                        forall|j: int|
                            0 <= j < contents@.len() ==> (decreases_to!(
                                *value => contents@[j])),
                    decreases contents@.len() - i,
                {
                    proof {
                        lemma_source_entries_view_index(contents@, i as int);
                    }
                    let child = match Entry::parse(&contents[i], files, registry) {
                        Ok(c) => c,
                        Err(err) => {
                            proof {
                                lemma_compile_entries_split(
                                    source_entries_view(contents@),
                                    files@,
                                    registry@,
                                    i as int,
                                );
                                assert(compile_entries_spec(
                                    source_entries_view(contents@),
                                    files@,
                                    registry@,
                                ) == Err::<Seq<EntryV>, CompileErrorV>(err@));
                                assert(compile_entry_spec(value@, files@, registry@) == Err::<
                                    EntryV,
                                    CompileErrorV,
                                >(err@));
                            }
                            return Err(err);
                        },
                    };
                    let ghost outpre = out@;
                    let ghost childe = child;
                    out.push(child);
                    i = i + 1;
                    proof {
                        crate::manifest::lemma_entries_view_push(outpre, childe);
                        assert(out@ == outpre.push(childe));
                        assert forall|j: int| 0 <= j < i implies #[trigger] compile_entry_spec(
                            source_entries_view(contents@)[j],
                            files@,
                            registry@,
                        ) == Ok::<EntryV, CompileErrorV>(entries_view(out@)[j]) by {
                            if j < i - 1 {
                                assert(entries_view(out@)[j] == entries_view(outpre)[j]);
                            } else {
                                assert(entries_view(out@)[j] == entry_view(childe));
                            }
                        }
                    }
                }
                proof {
                    lemma_compile_entries_split(
                        source_entries_view(contents@),
                        files@,
                        registry@,
                        contents@.len() as int,
                    );
                    if contents@.len() > 0 {
                        let vs = compile_entries_spec(
                            source_entries_view(contents@),
                            files@,
                            registry@,
                        )->Ok_0;
                        assert forall|j: int| 0 <= j < contents@.len() implies entries_view(
                            out@,
                        )[j] == vs[j] by {
                            assert(compile_entry_spec(
                                source_entries_view(contents@)[j],
                                files@,
                                registry@,
                            ) == Ok::<EntryV, CompileErrorV>(entries_view(out@)[j]));
                        }
                        assert(entries_view(out@) =~= vs);
                    } else {
                        assert(entries_view(out@) =~= Seq::<EntryV>::empty());
                    }
                }
                Ok(Entry::Directory { name: name.clone(), contents: out })
            },
            SourceEntry::File { name, source_path } => {
                let p: &String = match source_path {
                    Some(p) => p,
                    None => {
                        proof {
                            assert(false);
                        }
                        name
                    },
                };
                match files.get(p.as_str()) {
                    Some(data) => {
                        let hash = content_hash(data.as_slice());
                        let size = data.len();
                        Ok(Entry::File { name: name.clone(), hash, size })
                    },
                    None => Err(CompileError::MissingFile { path: p.clone() }),
                }
            },
            SourceEntry::Modrinth { project, version } => {
                match registry.get(project.as_str(), version.as_str()) {
                    Some(fs) => Ok(
                        Entry::Modrinth {
                            project: project.clone(),
                            version: version.clone(),
                            files: fs,
                        },
                    ),
                    None => Err(
                        CompileError::UnknownVersion {
                            project: project.clone(),
                            version: version.clone(),
                        },
                    ),
                }
            },
            SourceEntry::FabricServer {
                minecraft_version,
                loader_version,
                installer_version,
            } => Ok(
                Entry::FabricServerJar {
                    minecraft_version: minecraft_version.clone(),
                    loader_version: loader_version.clone(),
                    installer_version: installer_version.clone(),
                },
            ),
            SourceEntry::RunScript { name, script_type, options } => Ok(
                Entry::RunScript {
                    name: name.clone(),
                    script_type: *script_type,
                    options: resolve_options(options),
                },
            ),
            SourceEntry::Persist { name } => Ok(Entry::Persist { name: name.clone() }),
        }
    }
}

/// A compiled manifest, or the first compile failure.
pub open spec fn compile_manifest_spec(
    m: crate::manifest::SourceManifestV,
    files: Seq<(Seq<char>, Seq<u8>)>,
    reg: Seq<(Seq<char>, Seq<char>, Seq<VersionFileV>)>,
) -> Result<crate::manifest::ManifestV, CompileErrorV> {
    match compile_entries_spec(m.contents, files, reg) {
        Ok(vs) => Ok(crate::manifest::ManifestV { project_info: m.project, contents: vs }),
        Err(err) => Err(err),
    }
}

impl Manifest {
    /// Compiles a resolved source manifest against the stores (see
    /// [`compile_manifest_spec`]).
    pub fn parse(
        value: &SourceManifest,
        files: &FileStore,
        registry: &RegistryStore,
    ) -> (r: Result<Manifest, CompileError>)
        requires
            forall|j: int| 0 <= j < value@.contents.len() ==> resolved_entry(
                #[trigger] value@.contents[j],
            ),
        ensures
            match r {
                Ok(m) => compile_manifest_spec(value@, files@, registry@) == Ok::<
                    crate::manifest::ManifestV,
                    CompileErrorV,
                >(m@),
                Err(err) => compile_manifest_spec(value@, files@, registry@) == Err::<
                    crate::manifest::ManifestV,
                    CompileErrorV,
                >(err@),
            },
    {
        let mut out: Vec<Entry> = Vec::new();
        let mut i: usize = 0;
        proof {
            lemma_source_entries_view_len(value.contents@);
        }
        while i < value.contents.len()
            invariant
                i <= value.contents@.len(),
                source_entries_view(value.contents@).len() == value.contents@.len(),
                source_entries_view(value.contents@) == value@.contents,
                out@.len() == i,
                forall|j: int| 0 <= j < value@.contents.len() ==> resolved_entry(
                    #[trigger] value@.contents[j],
                ),
                forall|j: int| 0 <= j < i ==> #[trigger] compile_entry_spec(
                    value@.contents[j],
                    files@,
                    registry@,
                ) == Ok::<EntryV, CompileErrorV>(entries_view(out@)[j]),
                entries_view(out@).len() == i,
            decreases value.contents@.len() - i,
        {
            proof {
                lemma_source_entries_view_index(value.contents@, i as int);
            }
            let child = match Entry::parse(&value.contents[i], files, registry) {
                Ok(c) => c,
                Err(err) => {
                    proof {
                        lemma_compile_entries_split(value@.contents, files@, registry@, i as int);
                    }
                    return Err(err);
                },
            };
            let ghost outpre = out@;
            let ghost childe = child;
            out.push(child);
            i = i + 1;
            proof {
                crate::manifest::lemma_entries_view_push(outpre, childe);
                assert(out@ == outpre.push(childe));
                assert forall|j: int| 0 <= j < i implies #[trigger] compile_entry_spec(
                    value@.contents[j],
                    files@,
                    registry@,
                ) == Ok::<EntryV, CompileErrorV>(entries_view(out@)[j]) by {
                    if j < i - 1 {
                        assert(entries_view(out@)[j] == entries_view(outpre)[j]);
                    } else {
                        assert(entries_view(out@)[j] == entry_view(childe));
                    }
                }
            }
        }
        proof {
            lemma_compile_entries_split(
                value@.contents,
                files@,
                registry@,
                value@.contents.len() as int,
            );
            if value@.contents.len() > 0 {
                let vs = compile_entries_spec(value@.contents, files@, registry@)->Ok_0;
                assert forall|j: int| 0 <= j < value@.contents.len() implies entries_view(out@)[j]
                    == vs[j] by {
                    assert(compile_entry_spec(value@.contents[j], files@, registry@) == Ok::<
                        EntryV,
                        CompileErrorV,
                    >(entries_view(out@)[j]));
                }
                assert(entries_view(out@) =~= vs);
            } else {
                assert(entries_view(out@) =~= Seq::<EntryV>::empty());
            }
        }
        Ok(Manifest { project_info: copy_project_info(&value.project), contents: out })
    }
}

/// The registry references below a source node, in tree order.
pub open spec fn refs_of(e: SourceEntryV) -> Seq<(Seq<char>, Seq<char>)>
    decreases e,
{
    match e {
        SourceEntryV::Directory { contents, .. } => refs_of_seq(contents),
        SourceEntryV::Modrinth { project, version } => seq![(project, version)],
        _ => Seq::empty(),
    }
}

pub open spec fn refs_of_seq(s: Seq<SourceEntryV>) -> Seq<(Seq<char>, Seq<char>)>
    decreases s,
{
    if s.len() == 0 {
        Seq::empty()
    } else {
        refs_of(s[0]) + refs_of_seq(s.drop_first())
    }
}

proof fn lemma_refs_of_seq_push(s: Seq<SourceEntryV>, e: SourceEntryV)
    ensures
        refs_of_seq(s.push(e)) == refs_of_seq(s) + refs_of(e),
    decreases s,
{
    reveal_with_fuel(refs_of_seq, 3);
    if s.len() == 0 {
        assert(s.push(e).drop_first() =~= Seq::<SourceEntryV>::empty());
        assert(refs_of_seq(s.push(e)) =~= refs_of_seq(s) + refs_of(e));
    } else {
        lemma_refs_of_seq_push(s.drop_first(), e);
        assert(s.push(e).drop_first() =~= s.drop_first().push(e));
        assert(s.push(e)[0] == s[0]);
        assert(refs_of_seq(s.push(e)) =~= refs_of_seq(s) + refs_of(e));
    }
}

/// Collects the registry references below a source node, in tree order, so
/// the caller can resolve them all before compiling.
pub fn registry_refs(entry: &SourceEntry) -> (r: Vec<(String, String)>)
    ensures
        r@.map_values(|p: (String, String)| (p.0@, p.1@)) == refs_of(entry@),
    decreases *entry,
{
    match entry {
        SourceEntry::Directory { contents, .. } => {
            let mut out: Vec<(String, String)> = Vec::new();
            let mut i: usize = 0;
            proof {
                assert(out@.map_values(|p: (String, String)| (p.0@, p.1@)) =~= refs_of_seq(
                    source_entries_view(contents@.take(0)),
                )) by {
                    assert(contents@.take(0) =~= Seq::<SourceEntry>::empty());
                }
            }
            while i < contents.len()
                invariant
                    i <= contents@.len(),
                    out@.map_values(|p: (String, String)| (p.0@, p.1@)) == refs_of_seq(
                        source_entries_view(contents@.take(i as int)),
                    ),
                    forall|j: int|
                        0 <= j < contents@.len() ==> (decreases_to!(
                            *entry => contents@[j])),
                decreases contents@.len() - i,
            {
                let mut part = registry_refs(&contents[i]);
                let ghost outpre = out@;
                let ghost partv = part@;
                out.append(&mut part);
                i = i + 1;
                proof {
                    let pre = contents@.take(i - 1);
                    let now = contents@.take(i as int);
                    crate::manifest::lemma_source_entries_view_push(pre, contents@[i - 1]);
                    assert(source_entries_view(now) == source_entries_view(pre).push(
                        source_entry_view(contents@[i - 1]),
                    )) by {
                        assert(now =~= pre.push(contents@[i - 1]));
                    }
                    lemma_refs_of_seq_push(
                        source_entries_view(pre),
                        source_entry_view(contents@[i - 1]),
                    );
                    assert(out@ =~= outpre + partv);
                    assert(out@.map_values(|p: (String, String)| (p.0@, p.1@)) =~= outpre
                        .map_values(|p: (String, String)| (p.0@, p.1@)) + partv.map_values(
                        |p: (String, String)| (p.0@, p.1@),
                    ));
                }
            }
            proof {
                assert(contents@.take(contents@.len() as int) =~= contents@);
            }
            out
        },
        SourceEntry::Modrinth { project, version } => {
            let mut out: Vec<(String, String)> = Vec::new();
            out.push((project.clone(), version.clone()));
            proof {
                assert(out@.map_values(|p: (String, String)| (p.0@, p.1@)) =~= refs_of(entry@));
            }
            out
        },
        _ => {
            let out: Vec<(String, String)> = Vec::new();
            proof {
                assert(out@.map_values(|p: (String, String)| (p.0@, p.1@)) =~= refs_of(entry@));
            }
            out
        },
    }
}

} // verus!
