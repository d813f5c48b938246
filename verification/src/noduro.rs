use vstd::prelude::*;

use crate::manifest::{Command, EnvAction, Environtment, Package};
use crate::strutil::{chars_of, string_from_chars, vec_range, join_path, path_join};

verus! {

/// One installed application: its display name, its version where it
/// is known, and where it lives.
#[derive(Debug, Clone)]
pub struct Application {
    pub name: String,
    pub version: Option<String>,
    pub path: String,
}

impl Application {
    pub fn new(name: String, version: Option<String>, path: String) -> (r: Application)
        ensures
            r.name == name,
            r.version == version,
            r.path == path,
    {
        Application { name, version, path }
    }
}

/// Whether `s` begins with `p`.
pub open spec fn starts_with(s: Seq<char>, p: Seq<char>) -> bool {
    s.len() >= p.len() && s.take(p.len() as int) == p
}

/// Decides `starts_with` on strings.
pub fn str_starts_with(s: &str, p: &str) -> (r: bool)
    ensures
        r == starts_with(s@, p@),
{
    let sn = s.unicode_len();
    let pn = p.unicode_len();
    if sn < pn {
        return false;
    }
    let mut i: usize = 0;
    while i < pn
        invariant
            sn == s@.len(),
            pn == p@.len(),
            pn <= sn,
            i <= pn,
            forall|j: int| 0 <= j < i ==> s@[j] == p@[j],
        decreases pn - i,
    {
        if s.get_char(i) != p.get_char(i) {
            proof {
                assert(s@.take(pn as int)[i as int] == s@[i as int]);
            }
            return false;
        }
        i = i + 1;
    }
    proof {
        assert(s@.take(pn as int) =~= p@);
    }
    true
}

/// What an application looks like in contracts: its fields' characters.
pub ghost struct AppShape {
    pub name: Seq<char>,
    pub version: Option<Seq<char>>,
    pub path: Seq<char>,
}

impl View for Application {
    type V = AppShape;

    open spec fn view(&self) -> AppShape {
        AppShape {
            name: self.name@,
            version: match self.version {
                Some(v) => Some(v@),
                None => None,
            },
            path: self.path@,
        }
    }
}

impl DeepView for Application {
    type V = AppShape;

    open spec fn deep_view(&self) -> AppShape {
        self.view()
    }
}

/// What the filter makes of one installed application: a known tool is
/// kept, with its version read from its name and its path narrowed to
/// the executable directory where one is expected; Houdini and unknown
/// names are passed over. A narrowed path is kept only where it is a
/// known directory.
pub open spec fn filter_one(a: AppShape, dirs: Seq<Seq<char>>) -> Option<AppShape> {
    if starts_with(a.name, "ZBrush "@) {
        Some(AppShape { name: a.name, version: Some(a.name.skip(7)), path: a.path })
    } else if starts_with(a.name, "Autodesk Maya "@) {
        let version = a.name.skip(14);
        let p2 = path_join(path_join(a.path, "Maya"@ + version), "bin"@);
        if dirs.contains(p2) {
            Some(AppShape { name: a.name, version: Some(version), path: p2 })
        } else {
            None
        }
    } else if starts_with(a.name, "Shotgun RV "@) {
        let p2 = path_join(a.path, "bin"@);
        if dirs.contains(p2) {
            Some(AppShape { name: a.name, version: Some(a.name.skip(11)), path: p2 })
        } else {
            None
        }
    } else if starts_with(a.name, "OpenRV"@) || starts_with(a.name, "PureRef"@) || starts_with(
        a.name,
        "Adobe Photoshop"@,
    ) || starts_with(a.name, "Nuke"@) || starts_with(a.name, "Adobe Illustrator"@) {
        Some(a)
    } else {
        None
    }
}

pub open spec fn filter_apps_spec(apps: Seq<AppShape>, dirs: Seq<Seq<char>>) -> Seq<AppShape>
    decreases apps.len(),
{
    if apps.len() == 0 {
        Seq::empty()
    } else {
        (match filter_one(apps[0], dirs) {
            Some(a) => seq![a],
            None => Seq::<AppShape>::empty(),
        }) + filter_apps_spec(apps.skip(1), dirs)
    }
}

/// Picks the known tools out of a list of installed applications.
/// `existing_dirs` names the directories known to exist, against which
/// narrowed paths are checked.
pub fn filter_apps(apps: &Vec<Application>, existing_dirs: &Vec<String>) -> (r: Vec<Application>)
    requires
        forall|i: int|
            0 <= i < apps@.len() && starts_with((#[trigger] apps@[i])@.name, "ZBrush"@)
                ==> starts_with(apps@[i]@.name, "ZBrush "@),
        forall|i: int|
            0 <= i < apps@.len() && starts_with((#[trigger] apps@[i])@.name, "Autodesk Maya"@)
                ==> starts_with(apps@[i]@.name, "Autodesk Maya "@),
        forall|i: int|
            0 <= i < apps@.len() && starts_with((#[trigger] apps@[i])@.name, "Shotgun RV"@)
                ==> starts_with(apps@[i]@.name, "Shotgun RV "@),
    ensures
        r.deep_view() == filter_apps_spec(apps.deep_view(), existing_dirs.deep_view()),
{
    let ghost apps_v = apps.deep_view();
    let ghost dirs_v = existing_dirs.deep_view();
    let ghost target = filter_apps_spec(apps_v, dirs_v);
    let mut out: Vec<Application> = Vec::new();
    let mut i: usize = 0;
    proof {
        assert(apps_v.skip(0) =~= apps_v);
        assert(out.deep_view() + filter_apps_spec(apps_v, dirs_v) =~= target);
    }
    while i < apps.len()
        invariant
            i <= apps@.len(),
            apps_v == apps.deep_view(),
            apps_v.len() == apps@.len(),
            dirs_v == existing_dirs.deep_view(),
            forall|k: int|
                0 <= k < apps@.len() && starts_with((#[trigger] apps@[k])@.name, "ZBrush"@)
                    ==> starts_with(apps@[k]@.name, "ZBrush "@),
            forall|k: int|
                0 <= k < apps@.len() && starts_with((#[trigger] apps@[k])@.name, "Autodesk Maya"@)
                    ==> starts_with(apps@[k]@.name, "Autodesk Maya "@),
            forall|k: int|
                0 <= k < apps@.len() && starts_with((#[trigger] apps@[k])@.name, "Shotgun RV"@)
                    ==> starts_with(apps@[k]@.name, "Shotgun RV "@),
            target == filter_apps_spec(apps_v, dirs_v),
            target == out.deep_view() + filter_apps_spec(apps_v.skip(i as int), dirs_v),
        decreases apps@.len() - i,
    {
        let ghost rest = apps_v.skip(i as int);
        proof {
            assert(rest[0] == apps_v[i as int]);
            assert(apps_v[i as int] == apps@[i as int]@);
            assert(rest.skip(1) =~= apps_v.skip(i as int + 1));
        }
        let a = &apps[i];
        let ghost prev = out.deep_view();
        proof {
            reveal_strlit("ZBrush");
            reveal_strlit("ZBrush ");
            reveal_strlit("Autodesk Maya");
            reveal_strlit("Autodesk Maya ");
            reveal_strlit("Shotgun RV");
            reveal_strlit("Shotgun RV ");
            if starts_with(a.name@, "ZBrush "@) {
                assert(a.name@.take(6) =~= "ZBrush"@);
            }
            if starts_with(a.name@, "Autodesk Maya "@) {
                assert(a.name@.take(13) =~= "Autodesk Maya"@);
            }
            if starts_with(a.name@, "Shotgun RV "@) {
                assert(a.name@.take(10) =~= "Shotgun RV"@);
            }
        }
        let kept: Option<Application> = if str_starts_with(a.name.as_str(), "ZBrush") {
            let nc = chars_of(a.name.as_str());
            proof {
                reveal_strlit("ZBrush");
                reveal_strlit("ZBrush ");
            }
            let version = string_from_chars(&vec_range(&nc, 7, nc.len()));
            proof {
                assert(version@ =~= a.name@.skip(7));
            }
            Some(Application { name: a.name.clone(), version: Some(version), path: a.path.clone() })
        } else if str_starts_with(a.name.as_str(), "Autodesk Maya") {
            let nc = chars_of(a.name.as_str());
            proof {
                reveal_strlit("Autodesk Maya");
                reveal_strlit("Autodesk Maya ");
            }
            let version = string_from_chars(&vec_range(&nc, 14, nc.len()));
            proof {
                assert(version@ =~= a.name@.skip(14));
            }
            let folder = "Maya".to_owned().concat(version.as_str());
            let p2 = join_path(join_path(a.path.as_str(), folder.as_str()).as_str(), "bin");
            if dir_known(existing_dirs, p2.as_str()) {
                Some(
                    Application {
                        name: a.name.clone(),
                        version: Some(version),
                        path: p2,
                    },
                )
            } else {
                None
            }
        } else if str_starts_with(a.name.as_str(), "Shotgun RV") {
            let nc = chars_of(a.name.as_str());
            proof {
                reveal_strlit("Shotgun RV");
                reveal_strlit("Shotgun RV ");
            }
            let p2 = join_path(a.path.as_str(), "bin");
            if dir_known(existing_dirs, p2.as_str()) {
                let version = string_from_chars(&vec_range(&nc, 11, nc.len()));
                proof {
                    assert(version@ =~= a.name@.skip(11));
                }
                Some(
                    Application {
                        name: a.name.clone(),
                        version: Some(version),
                        path: p2,
                    },
                )
            } else {
                None
            }
        } else if str_starts_with(a.name.as_str(), "OpenRV") || str_starts_with(
            a.name.as_str(),
            "PureRef",
        ) || str_starts_with(a.name.as_str(), "Adobe Photoshop") || str_starts_with(
            a.name.as_str(),
            "Nuke",
        ) || str_starts_with(a.name.as_str(), "Adobe Illustrator") {
            let version = match &a.version {
                Some(v) => Some(v.clone()),
                None => None,
            };
            Some(Application { name: a.name.clone(), version, path: a.path.clone() })
        } else {
            None
        };
        match kept {
            Some(k) => {
                let ghost kv = k@;
                out.push(k);
                proof {
                    assert(out.deep_view() =~= prev.push(kv));
                    assert(filter_one(rest[0], dirs_v) == Some(kv));
                    assert(out.deep_view() + filter_apps_spec(apps_v.skip(i as int + 1), dirs_v)
                        =~= target);
                }
            },
            None => {
                proof {
                    assert(filter_one(rest[0], dirs_v) is None);
                    assert(out.deep_view() + filter_apps_spec(apps_v.skip(i as int + 1), dirs_v)
                        =~= target);
                }
            },
        }
        i = i + 1;
    }
    proof {
        assert(filter_apps_spec(apps_v.skip(apps_v.len() as int), dirs_v) =~= Seq::<
            AppShape,
        >::empty());
        assert(out.deep_view() =~= target);
    }
    out
}

/// Whether `p` stands among the known directories.
fn dir_known(existing_dirs: &Vec<String>, p: &str) -> (r: bool)
    ensures
        r == existing_dirs.deep_view().contains(p@),
{
    let mut i: usize = 0;
    let mut found = false;
    while i < existing_dirs.len()
        invariant
            i <= existing_dirs@.len(),
            found == exists|j: int|
                0 <= j < i && existing_dirs.deep_view()[j] == p@,
        decreases existing_dirs@.len() - i,
    {
        if crate::strutil::str_eq(existing_dirs[i].as_str(), p) {
            proof {
                assert(existing_dirs.deep_view()[i as int] == existing_dirs@[i as int]@);
            }
            found = true;
        }
        i = i + 1;
    }
    found
}

/// The environment block name a Houdini install contributes.
pub open spec fn houdini_env_name(version: Seq<char>) -> Seq<char> {
    "houdinibin"@ + version
}

/// The command name a Houdini install contributes: `houdini`, the first
/// two characters of the version, and its fourth.
pub open spec fn houdini_cmd_name(version: Seq<char>) -> Seq<char> {
    "houdini"@ + version.take(2) + seq![version[3]]
}

/// A manifest's environment blocks, by name, down to plain values.
pub open spec fn env_views_of(p: Package) -> Map<Seq<char>, (Seq<char>, Seq<char>, Option<
    EnvAction,
>)> {
    p.env_map_of().map_values(|e: Environtment| (e.variable@, e.value@, e.action))
}

/// A manifest's commands, by name, down to plain values.
pub open spec fn cmd_views_of(p: Package) -> Map<Seq<char>, (Seq<char>, Option<Seq<Seq<char>>>)> {
    p.cmd_map_of().map_values(
        |c: Command| (
            c.command@,
            match c.env {
                Some(v) => Some(v.deep_view()),
                None => None,
            },
        ),
    )
}

/// What one pass over the applications adds to the tools manifest:
/// every Houdini install contributes a PATH block appending its `bin`
/// directory, and a command running `houdini` under that block.
pub open spec fn dcc_fold(
    em: Map<Seq<char>, (Seq<char>, Seq<char>, Option<EnvAction>)>,
    cm: Map<Seq<char>, (Seq<char>, Option<Seq<Seq<char>>>)>,
    apps: Seq<AppShape>,
) -> (Map<Seq<char>, (Seq<char>, Seq<char>, Option<EnvAction>)>, Map<
    Seq<char>,
    (Seq<char>, Option<Seq<Seq<char>>>),
>)
    decreases apps.len(),
{
    if apps.len() == 0 {
        (em, cm)
    } else if starts_with(apps[0].name, "Houdini"@) && apps[0].version is Some {
        let version = apps[0].version->0;
        let em2 = em.insert(
            houdini_env_name(version),
            ("PATH"@, path_join(apps[0].path, "bin"@), Some(EnvAction::Append)),
        );
        let cm2 = cm.insert(
            houdini_cmd_name(version),
            ("houdini"@, Some(seq![houdini_env_name(version)])),
        );
        dcc_fold(em2, cm2, apps.skip(1))
    } else {
        dcc_fold(em, cm, apps.skip(1))
    }
}

/// Grows the tools manifest from the installed applications: one
/// environment block and one command per Houdini install; the
/// metadata and everything else stands unchanged.
pub fn dcc_package_from_apps(base: Package, apps: &Vec<Application>) -> (r: Package)
    requires
        base.wf(),
        forall|i: int|
            0 <= i < apps@.len() && starts_with((#[trigger] apps@[i])@.name, "Houdini"@) ==> (
            apps@[i].version matches Some(v) && v@.len() >= 4),
    ensures
        r.wf(),
        r.package_info == base.package_info,
        r.dependencies == base.dependencies,
        r.examples == base.examples,
        ({
            let folded = dcc_fold(env_views_of(base), cmd_views_of(base), apps.deep_view());
            env_views_of(r) == folded.0 && cmd_views_of(r) == folded.1
        }),
{
    let ghost apps_v = apps.deep_view();
    let ghost target = dcc_fold(env_views_of(base), cmd_views_of(base), apps_v);
    let mut package = base;
    let mut i: usize = 0;
    proof {
        assert(apps_v.skip(0) =~= apps_v);
    }
    while i < apps.len()
        invariant
            i <= apps@.len(),
            apps_v == apps.deep_view(),
            apps_v.len() == apps@.len(),
            forall|k: int|
                0 <= k < apps@.len() && starts_with((#[trigger] apps@[k])@.name, "Houdini"@) ==> (
                apps@[k].version matches Some(v) && v@.len() >= 4),
            package.wf(),
            package.package_info == base.package_info,
            package.dependencies == base.dependencies,
            package.examples == base.examples,
            target == dcc_fold(env_views_of(base), cmd_views_of(base), apps_v),
            target == dcc_fold(env_views_of(package), cmd_views_of(package), apps_v.skip(i as int)),
        decreases apps@.len() - i,
    {
        let ghost rest = apps_v.skip(i as int);
        proof {
            assert(rest[0] == apps_v[i as int]);
            assert(apps_v[i as int] == apps@[i as int]@);
            assert(rest.skip(1) =~= apps_v.skip(i as int + 1));
        }
        let a = &apps[i];
        if str_starts_with(a.name.as_str(), "Houdini") {
            proof {
                reveal_strlit("Houdini");
            }
            let version = match &a.version {
                Some(v) => v.clone(),
                None => String::new(),
            };
            let bin_path = join_path(a.path.as_str(), "bin");
            let env_name = "houdinibin".to_owned().concat(version.as_str());
            let env = Environtment::from(
                "PATH".to_owned(),
                bin_path,
                Some(EnvAction::Append),
            );
            let ghost em0 = env_views_of(package);
            let ghost cm0 = cmd_views_of(package);
            package.append_env(env_name.as_str(), env);
            proof {
                assert(env_views_of(package) =~= em0.insert(
                    houdini_env_name(rest[0].version->0),
                    ("PATH"@, path_join(rest[0].path, "bin"@), Some(EnvAction::Append)),
                ));
                assert(cmd_views_of(package) =~= cm0);
            }
            let vc = chars_of(version.as_str());
            let mut cmd_name_chars = chars_of("houdini");
            cmd_name_chars.push(vc[0]);
            cmd_name_chars.push(vc[1]);
            cmd_name_chars.push(vc[3]);
            let command_name = string_from_chars(&cmd_name_chars);
            proof {
                reveal_strlit("houdini");
                assert(command_name@ =~= houdini_cmd_name(rest[0].version->0));
            }
            let mut env_list: Vec<String> = Vec::new();
            env_list.push(env_name);
            let command = Command::from("houdini".to_owned(), Some(env_list));
            let ghost em1 = env_views_of(package);
            package.append_command(command_name.as_str(), command);
            proof {
                assert(env_list@.len() == 1);
                assert(env_list.deep_view() =~= seq![houdini_env_name(rest[0].version->0)]);
                assert(cmd_views_of(package) =~= cm0.insert(
                    houdini_cmd_name(rest[0].version->0),
                    ("houdini"@, Some(seq![houdini_env_name(rest[0].version->0)])),
                ));
                assert(env_views_of(package) =~= em1);
            }
        }
        i = i + 1;
    }
    proof {
        assert(dcc_fold(
            env_views_of(package),
            cmd_views_of(package),
            apps_v.skip(apps_v.len() as int),
        ) == (env_views_of(package), cmd_views_of(package)));
    }
    package
}

} // verus!
