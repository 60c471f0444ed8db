//! Flattening: a compiled manifest becomes an ordered list of path-bound
//! actions. A directory's CreateDir precedes the actions of its children;
//! registry packages emit one download per resolved file; a `both`
//! run-script expands into two rendered scripts.

use vstd::prelude::*;
use crate::hexstr::hex_decode_of;
use crate::manifest::{
    entries_view, entry_view, lemma_entries_view_index, lemma_entries_view_len, wf_entry,
    wf_manifest, wf_version_file, Entry, EntryV, Manifest, Options, OptionsV, ScriptType,
};
use crate::modrinth::{VersionFile, VersionFileV};
use crate::strutil::{extension_of, join_path, joined, last_dot, replace_all, replaced};
use crate::template::{RUN_TEMPLATE_BAT, RUN_TEMPLATE_SH};

verus! {

broadcast use vstd::seq::group_seq_axioms, vstd::std_specs::vec::group_vec_axioms;

/// One path-bound unit of work derived from a compiled manifest.
#[derive(Debug, PartialEq, Eq)]
pub enum Action {
    CreateDir,
    Extract { hash: u128, size: usize },
    Download { display_name: String, url: String, sha512: Option<Vec<u8>> },
    Symlink { source: String },
    RunScriptTemplate { source: String, options: Options },
    Persist,
}

/// The mathematical value of [`Action`].
pub enum ActionV {
    CreateDir,
    Extract { hash: u128, size: nat },
    Download { display_name: Seq<char>, url: Seq<char>, sha512: Option<Seq<u8>> },
    Symlink { source: Seq<char> },
    RunScriptTemplate { source: Seq<char>, options: OptionsV },
    Persist,
}

impl View for Action {
    type V = ActionV;

    open spec fn view(&self) -> ActionV {
        match self {
            Action::CreateDir => ActionV::CreateDir,
            Action::Extract { hash, size } => ActionV::Extract { hash: *hash, size: *size as nat },
            Action::Download { display_name, url, sha512 } => ActionV::Download {
                display_name: display_name@,
                url: url@,
                sha512: match sha512 {
                    Some(d) => Some(d@),
                    None => None,
                },
            },
            Action::Symlink { source } => ActionV::Symlink { source: source@ },
            Action::RunScriptTemplate { source, options } => ActionV::RunScriptTemplate {
                source: source@,
                options: options@,
            },
            Action::Persist => ActionV::Persist,
        }
    }
}

/// The view of a path-bound action list.
pub open spec fn actions_view(v: Seq<(String, Action)>) -> Seq<(Seq<char>, ActionV)> {
    v.map_values(|p: (String, Action)| (p.0@, p.1@))
}

/// The archive entry name of a registry file: `project-version.ext`.
pub open spec fn modrinth_target_name(
    project: Seq<char>,
    version: Seq<char>,
    filename: Seq<char>,
) -> Seq<char> {
    project + "-"@ + version + "."@ + (match last_dot(filename) {
        Some(i) => filename.skip(i + 1),
        None => Seq::<char>::empty(),
    })
}

/// The display label of a registry download.
pub open spec fn modrinth_display(
    project: Seq<char>,
    version: Seq<char>,
    filename: Seq<char>,
) -> Seq<char> {
    "modrinth ["@ + project + "-"@ + version + "::"@ + filename + "]"@
}

/// The file name of a generated server artifact.
pub open spec fn fabric_server_name(
    mc: Seq<char>,
    loader: Seq<char>,
    installer: Seq<char>,
) -> Seq<char> {
    "fabric-server."@ + mc + "."@ + loader + "."@ + installer + ".jar"@
}

/// The URL of a generated server artifact.
pub open spec fn fabric_url(mc: Seq<char>, loader: Seq<char>, installer: Seq<char>) -> Seq<char> {
    "https://meta.fabricmc.net/v2/versions/loader/"@ + mc + "/"@ + loader + "/"@ + installer
        + "/server/jar"@
}

/// The display label of a generated server download.
pub open spec fn fabric_display(
    mc: Seq<char>,
    loader: Seq<char>,
    installer: Seq<char>,
) -> Seq<char> {
    "fabric server ["@ + mc + "-"@ + loader + ", installer "@ + installer + "]"@
}

/// The download actions of a registry package, one per resolved file.
pub open spec fn modrinth_actions(
    project: Seq<char>,
    version: Seq<char>,
    files: Seq<VersionFileV>,
    parent: Seq<char>,
) -> Seq<(Seq<char>, ActionV)>
    decreases files.len(),
{
    if files.len() == 0 {
        Seq::empty()
    } else {
        let f = files[0];
        seq![
            (
                joined(parent, modrinth_target_name(project, version, f.filename)),
                ActionV::Download {
                    display_name: modrinth_display(project, version, f.filename),
                    url: f.url,
                    sha512: Some(hex_decode_of(f.hashes.sha512)),
                },
            ),
        ] + modrinth_actions(project, version, files.drop_first(), parent)
    }
}

/// The actions of one compiled entry below a parent path, in order.
pub open spec fn flatten_entry(e: EntryV, parent: Seq<char>) -> Seq<(Seq<char>, ActionV)>
    decreases e,
{
    match e {
        EntryV::Directory { name, contents } => {
            let path = joined(parent, name);
            seq![(path, ActionV::CreateDir)] + flatten_entries(contents, path)
        },
        EntryV::File { name, hash, size } => seq![
            (joined(parent, name), ActionV::Extract { hash, size }),
        ],
        EntryV::Modrinth { project, version, files } => modrinth_actions(
            project,
            version,
            files,
            parent,
        ),
        EntryV::FabricServerJar { minecraft_version, loader_version, installer_version } => {
            let server = joined(
                parent,
                fabric_server_name(minecraft_version, loader_version, installer_version),
            );
            seq![
                (
                    server,
                    ActionV::Download {
                        display_name: fabric_display(
                            minecraft_version,
                            loader_version,
                            installer_version,
                        ),
                        url: fabric_url(minecraft_version, loader_version, installer_version),
                        sha512: None,
                    },
                ),
                (joined(parent, "server.jar"@), ActionV::Symlink { source: server }),
            ]
        },
        EntryV::RunScript { name, script_type, options } => match script_type {
            ScriptType::Bash => seq![
                (
                    joined(parent, name),
                    ActionV::RunScriptTemplate { source: RUN_TEMPLATE_SH@, options },
                ),
            ],
            ScriptType::Batch => seq![
                (
                    joined(parent, name),
                    ActionV::RunScriptTemplate { source: RUN_TEMPLATE_BAT@, options },
                ),
            ],
            ScriptType::Both => seq![
                (
                    joined(parent, replaced(name, "%"@, "sh"@)),
                    ActionV::RunScriptTemplate { source: RUN_TEMPLATE_SH@, options },
                ),
                (
                    joined(parent, replaced(name, "%"@, "bat"@)),
                    ActionV::RunScriptTemplate { source: RUN_TEMPLATE_BAT@, options },
                ),
            ],
        },
        EntryV::Persist { name } => seq![(joined(parent, name), ActionV::Persist)],
    }
}

/// The actions of a sequence of entries, in order.
pub open spec fn flatten_entries(s: Seq<EntryV>, parent: Seq<char>) -> Seq<(Seq<char>, ActionV)>
    decreases s,
{
    if s.len() == 0 {
        Seq::empty()
    } else {
        flatten_entry(s[0], parent) + flatten_entries(s.drop_first(), parent)
    }
}

/// The full ordered action list of a compiled manifest against a base
/// directory.
pub open spec fn manifest_actions(m: crate::manifest::ManifestV, base: Seq<char>) -> Seq<
    (Seq<char>, ActionV),
> {
    flatten_entries(m.contents, base)
}

pub proof fn lemma_flatten_entries_push(s: Seq<EntryV>, e: EntryV, parent: Seq<char>)
    ensures
        flatten_entries(s.push(e), parent) == flatten_entries(s, parent) + flatten_entry(
            e,
            parent,
        ),
    decreases s,
{
    reveal_with_fuel(flatten_entries, 3);
    if s.len() == 0 {
        assert(s.push(e).drop_first() =~= Seq::<EntryV>::empty());
        assert(flatten_entries(s.push(e), parent) =~= flatten_entries(s, parent) + flatten_entry(
            e,
            parent,
        ));
    } else {
        lemma_flatten_entries_push(s.drop_first(), e, parent);
        assert(s.push(e).drop_first() =~= s.drop_first().push(e));
        assert(s.push(e)[0] == s[0]);
        assert(flatten_entries(s.push(e), parent) =~= flatten_entries(s, parent) + flatten_entry(
            e,
            parent,
        ));
    }
}

proof fn lemma_modrinth_actions_push(
    project: Seq<char>,
    version: Seq<char>,
    files: Seq<VersionFileV>,
    f: VersionFileV,
    parent: Seq<char>,
)
    ensures
        modrinth_actions(project, version, files.push(f), parent) == modrinth_actions(
            project,
            version,
            files,
            parent,
        ) + modrinth_actions(project, version, seq![f], parent),
    decreases files.len(),
{
    reveal_with_fuel(modrinth_actions, 3);
    if files.len() == 0 {
        assert(files.push(f).drop_first() =~= Seq::<VersionFileV>::empty());
        assert(seq![f].drop_first() =~= Seq::<VersionFileV>::empty());
        assert(modrinth_actions(project, version, files.push(f), parent) =~= modrinth_actions(
            project,
            version,
            files,
            parent,
        ) + modrinth_actions(project, version, seq![f], parent));
    } else {
        lemma_modrinth_actions_push(project, version, files.drop_first(), f, parent);
        assert(files.push(f).drop_first() =~= files.drop_first().push(f));
        assert(files.push(f)[0] == files[0]);
        assert(modrinth_actions(project, version, files.push(f), parent) =~= modrinth_actions(
            project,
            version,
            files,
            parent,
        ) + modrinth_actions(project, version, seq![f], parent));
    }
}

/// Builds `project-version.ext` for a registry file.
fn modrinth_target_name_exec(project: &str, version: &str, filename: &str) -> (r: String)
    requires
        last_dot(filename@) is Some,
    ensures
        r@ == modrinth_target_name(project@, version@, filename@),
{
    let ext = match extension_of(filename) {
        Some(e) => e,
        None => {
            proof {
                assert(false);
            }
            String::new()
        },
    };
    let mut r = String::new();
    r.append(project);
    r.append("-");
    r.append(version);
    r.append(".");
    r.append(ext.as_str());
    proof {
        assert(r@ =~= modrinth_target_name(project@, version@, filename@));
    }
    r
}

/// Builds the display label of a registry download.
fn modrinth_display_exec(project: &str, version: &str, filename: &str) -> (r: String)
    ensures
        r@ == modrinth_display(project@, version@, filename@),
{
    let mut r = String::new();
    r.append("modrinth [");
    r.append(project);
    r.append("-");
    r.append(version);
    r.append("::");
    r.append(filename);
    r.append("]");
    proof {
        assert(r@ =~= modrinth_display(project@, version@, filename@));
    }
    r
}

/// Emits the download actions of a registry package.
fn emit_modrinth(
    project: &str,
    version: &str,
    files: &Vec<VersionFile>,
    parent: &str,
    out: &mut Vec<(String, Action)>,
)
    requires
        forall|j: int| 0 <= j < files@.len() ==> wf_version_file(#[trigger] files@[j]@),
    ensures
        actions_view(final(out)@) == actions_view(old(out)@) + modrinth_actions(
            project@,
            version@,
            files@.map_values(|f: VersionFile| f@),
            parent@,
        ),
{
    let ghost fl = files@.map_values(|f: VersionFile| f@);
    let ghost base = out@;
    let mut i: usize = 0;
    proof {
        assert(fl.take(0) =~= Seq::<VersionFileV>::empty());
        assert(actions_view(out@) =~= actions_view(base) + modrinth_actions(
            project@,
            version@,
            fl.take(0),
            parent@,
        ));
    }
    while i < files.len()
        invariant
            i <= files@.len(),
            fl == files@.map_values(|f: VersionFile| f@),
            fl.len() == files@.len(),
            forall|j: int| 0 <= j < fl.len() ==> wf_version_file(#[trigger] fl[j]),
            actions_view(out@) == actions_view(base) + modrinth_actions(
                project@,
                version@,
                fl.take(i as int),
                parent@,
            ),
        decreases files@.len() - i,
    {
        let f = &files[i];
        proof {
            assert(fl[i as int] == files@[i as int]@);
            assert(wf_version_file(fl[i as int]));
        }
        let name = modrinth_target_name_exec(project, version, f.filename.as_str());
        let path = join_path(parent, name.as_str());
        let display = modrinth_display_exec(project, version, f.filename.as_str());
        let digest = match crate::hexstr::hex_decode(f.hashes.sha512.as_str()) {
            Some(d) => d,
            None => {
                proof {
                    assert(false);
                }
                Vec::new()
            },
        };
        let url = f.url.clone();
        let ghost outpre = out@;
        let act = Action::Download { display_name: display, url, sha512: Some(digest) };
        let ghost actg = act;
        let ghost pathg = path;
        out.push((path, act));
        i = i + 1;
        proof {
            lemma_modrinth_actions_push(project@, version@, fl.take(i - 1), fl[i - 1], parent@);
            assert(fl.take(i as int) =~= fl.take(i - 1).push(fl[i - 1]));
            reveal_with_fuel(modrinth_actions, 2);
            assert(modrinth_actions(project@, version@, seq![fl[i - 1]], parent@) =~= seq![
                (
                    joined(parent@, modrinth_target_name(project@, version@, fl[i - 1].filename)),
                    ActionV::Download {
                        display_name: modrinth_display(project@, version@, fl[i - 1].filename),
                        url: fl[i - 1].url,
                        sha512: Some(hex_decode_of(fl[i - 1].hashes.sha512)),
                    },
                ),
            ]) by {
                assert(seq![fl[i - 1]].drop_first() =~= Seq::<VersionFileV>::empty());
            }
            assert(actions_view(out@) =~= actions_view(outpre).push((pathg@, actg@)));
            assert(actions_view(out@) =~= actions_view(base) + modrinth_actions(
                project@,
                version@,
                fl.take(i as int),
                parent@,
            ));
        }
    }
    proof {
        assert(fl.take(fl.len() as int) =~= fl);
    }
}

/// Emits the actions of one compiled entry below a parent path.
#[verifier::loop_isolation(false)]
fn emit_entry(e: &Entry, parent: &str, out: &mut Vec<(String, Action)>)
    requires
        wf_entry(e@),
    ensures
        actions_view(final(out)@) == actions_view(old(out)@) + flatten_entry(e@, parent@),
    decreases *e,
{
    match e {
        Entry::Directory { name, contents } => {
            let path = join_path(parent, name.as_str());
            let ghost base = out@;
            out.push((path.clone(), Action::CreateDir));
            let ghost pathv = path@;
            proof {
                lemma_entries_view_len(contents@);
                assert(entries_view(contents@).take(0) =~= Seq::<EntryV>::empty());
                assert(actions_view(out@) =~= actions_view(base).push(
                    (pathv, ActionV::CreateDir),
                ));
                assert(actions_view(out@) =~= actions_view(base) + seq![
                    (pathv, ActionV::CreateDir),
                ] + flatten_entries(entries_view(contents@).take(0), pathv));
            }
            let mut i: usize = 0;
            while i < contents.len()
                invariant
                    i <= contents@.len(),
                    actions_view(out@) == actions_view(base) + seq![(pathv, ActionV::CreateDir)]
                        + flatten_entries(entries_view(contents@).take(i as int), pathv),
                decreases contents@.len() - i,
            {
                proof {
                    lemma_entries_view_index(contents@, i as int);
                }
                emit_entry(&contents[i], path.as_str(), out);
                i = i + 1;
                proof {
                    lemma_flatten_entries_push(
                        entries_view(contents@).take(i - 1),
                        entries_view(contents@)[i - 1],
                        pathv,
                    );
                    assert(entries_view(contents@).take(i as int) =~= entries_view(
                        contents@,
                    ).take(i - 1).push(entries_view(contents@)[i - 1]));
                }
            }
            proof {
                assert(entries_view(contents@).take(contents@.len() as int) =~= entries_view(
                    contents@,
                ));
                assert(actions_view(out@) =~= actions_view(base) + flatten_entry(e@, parent@));
            }
        },
        Entry::File { name, hash, size } => {
            let path = join_path(parent, name.as_str());
            let ghost base = out@;
            out.push((path, Action::Extract { hash: *hash, size: *size }));
            proof {
                assert(actions_view(out@) =~= actions_view(base) + flatten_entry(e@, parent@));
            }
        },
        Entry::Modrinth { project, version, files } => {
            proof {
                assert(e@ == EntryV::Modrinth {
                    project: project@,
                    version: version@,
                    files: files@.map_values(|f: VersionFile| f@),
                });
                assert forall|j: int| 0 <= j < files@.len() implies wf_version_file(
                    files@[j]@,
                ) by {
                    assert(files@.map_values(|f: VersionFile| f@)[j] == files@[j]@);
                    assert(wf_version_file(files@.map_values(|f: VersionFile| f@)[j]));
                }
            }
            emit_modrinth(project.as_str(), version.as_str(), files, parent, out);
        },
        Entry::FabricServerJar { minecraft_version, loader_version, installer_version } => {
            let mut sname = String::new();
            sname.append("fabric-server.");
            sname.append(minecraft_version.as_str());
            sname.append(".");
            sname.append(loader_version.as_str());
            sname.append(".");
            sname.append(installer_version.as_str());
            sname.append(".jar");
            let server = join_path(parent, sname.as_str());
            let mut url = String::new();
            url.append("https://meta.fabricmc.net/v2/versions/loader/");
            url.append(minecraft_version.as_str());
            url.append("/");
            url.append(loader_version.as_str());
            url.append("/");
            url.append(installer_version.as_str());
            url.append("/server/jar");
            let mut display = String::new();
            display.append("fabric server [");
            display.append(minecraft_version.as_str());
            display.append("-");
            display.append(loader_version.as_str());
            display.append(", installer ");
            display.append(installer_version.as_str());
            display.append("]");
            proof {
                assert(sname@ =~= fabric_server_name(
                    minecraft_version@,
                    loader_version@,
                    installer_version@,
                ));
                assert(url@ =~= fabric_url(
                    minecraft_version@,
                    loader_version@,
                    installer_version@,
                ));
                assert(display@ =~= fabric_display(
                    minecraft_version@,
                    loader_version@,
                    installer_version@,
                ));
            }
            let ghost base = out@;
            out.push(
                (
                    server.clone(),
                    Action::Download { display_name: display, url, sha512: None },
                ),
            );
            let link = join_path(parent, "server.jar");
            out.push((link, Action::Symlink { source: server }));
            proof {
                reveal_strlit("server.jar");
                assert(actions_view(out@) =~= actions_view(base) + flatten_entry(e@, parent@));
            }
        },
        Entry::RunScript { name, script_type, options } => {
            let ghost base = out@;
            match script_type {
                ScriptType::Bash => {
                    let path = join_path(parent, name.as_str());
                    out.push(
                        (
                            path,
                            Action::RunScriptTemplate {
                                source: String::from_str(RUN_TEMPLATE_SH),
                                options: crate::manifest::copy_options(options),
                            },
                        ),
                    );
                    proof {
                        assert(actions_view(out@) =~= actions_view(base) + flatten_entry(
                            e@,
                            parent@,
                        ));
                    }
                },
                ScriptType::Batch => {
                    let path = join_path(parent, name.as_str());
                    out.push(
                        (
                            path,
                            Action::RunScriptTemplate {
                                source: String::from_str(RUN_TEMPLATE_BAT),
                                options: crate::manifest::copy_options(options),
                            },
                        ),
                    );
                    proof {
                        assert(actions_view(out@) =~= actions_view(base) + flatten_entry(
                            e@,
                            parent@,
                        ));
                    }
                },
                ScriptType::Both => {
                    proof {
                        reveal_strlit("%");
                    }
                    let sh_name = replace_all(name.as_str(), "%", "sh");
                    let bat_name = replace_all(name.as_str(), "%", "bat");
                    let sh_path = join_path(parent, sh_name.as_str());
                    let bat_path = join_path(parent, bat_name.as_str());
                    out.push(
                        (
                            sh_path,
                            Action::RunScriptTemplate {
                                source: String::from_str(RUN_TEMPLATE_SH),
                                options: crate::manifest::copy_options(options),
                            },
                        ),
                    );
                    out.push(
                        (
                            bat_path,
                            Action::RunScriptTemplate {
                                source: String::from_str(RUN_TEMPLATE_BAT),
                                options: crate::manifest::copy_options(options),
                            },
                        ),
                    );
                    proof {
                        assert(actions_view(out@) =~= actions_view(base) + flatten_entry(
                            e@,
                            parent@,
                        ));
                    }
                },
            }
        },
        Entry::Persist { name } => {
            let path = join_path(parent, name.as_str());
            let ghost base = out@;
            out.push((path, Action::Persist));
            proof {
                assert(actions_view(out@) =~= actions_view(base) + flatten_entry(e@, parent@));
            }
        },
    }
}

impl Manifest {
    /// The full ordered action list of this manifest against a base
    /// directory (see [`manifest_actions`]).
    pub fn as_actions(&self, base_dir: &str) -> (r: Vec<(String, Action)>)
        requires
            wf_manifest(self@),
        ensures
            actions_view(r@) == manifest_actions(self@, base_dir@),
    {
        let mut out: Vec<(String, Action)> = Vec::new();
        let mut i: usize = 0;
        proof {
            lemma_entries_view_len(self.contents@);
            assert(actions_view(out@) =~= flatten_entries(
                entries_view(self.contents@).take(0),
                base_dir@,
            )) by {
                assert(entries_view(self.contents@).take(0) =~= Seq::<EntryV>::empty());
            }
        }
        while i < self.contents.len()
            invariant
                i <= self.contents@.len(),
                entries_view(self.contents@).len() == self.contents@.len(),
                wf_manifest(self@),
                actions_view(out@) == flatten_entries(
                    entries_view(self.contents@).take(i as int),
                    base_dir@,
                ),
            decreases self.contents@.len() - i,
        {
            proof {
                lemma_entries_view_index(self.contents@, i as int);
                assert(wf_entry(self@.contents[i as int]));
                assert(wf_entry(entry_view(self.contents@[i as int])));
            }
            emit_entry(&self.contents[i], base_dir, &mut out);
            i = i + 1;
            proof {
                lemma_flatten_entries_push(
                    entries_view(self.contents@).take(i - 1),
                    entries_view(self.contents@)[i - 1],
                    base_dir@,
                );
                assert(entries_view(self.contents@).take(i as int) =~= entries_view(
                    self.contents@,
                ).take(i - 1).push(entries_view(self.contents@)[i - 1]));
            }
        }
        proof {
            assert(entries_view(self.contents@).take(self.contents@.len() as int) =~= entries_view(
                self.contents@,
            ));
        }
        out
    }
}

} // verus!
