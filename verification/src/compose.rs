use vstd::prelude::*;

use crate::VatError;
use crate::manifest::{Environtment, EnvAction, Package};
use crate::strutil::{chars_of, string_from_chars, str_eq};

verus! {

/// The map denoted by an ordered list of variable bindings: the latest
/// binding for a variable wins.
pub open spec fn env_entries_view(s: Seq<(String, String)>) -> Map<Seq<char>, Seq<char>>
    decreases s.len(),
{
    if s.len() == 0 {
        Map::empty()
    } else {
        env_entries_view(s.drop_last()).insert(s.last().0@, s.last().1@)
    }
}

/// A map from OS variable names to values, built up binding by binding.
#[derive(Debug)]
pub struct EnvMap {
    pub entries: Vec<(String, String)>,
}

impl View for EnvMap {
    type V = Map<Seq<char>, Seq<char>>;

    open spec fn view(&self) -> Map<Seq<char>, Seq<char>> {
        env_entries_view(self.entries@)
    }
}

proof fn lemma_env_take_agree(s: Seq<(String, String)>, i: int, k: Seq<char>)
    requires
        0 <= i <= s.len(),
        forall|j: int| i <= j < s.len() ==> s[j].0@ != k,
    ensures
        env_entries_view(s).dom().contains(k) == env_entries_view(s.take(i)).dom().contains(k),
        env_entries_view(s).dom().contains(k) ==> env_entries_view(s)[k] == env_entries_view(
            s.take(i),
        )[k],
    decreases s.len() - i,
{
    if i == s.len() {
        assert(s.take(i) =~= s);
    } else {
        assert(s.take(s.len() - 1).take(i) =~= s.take(i));
        assert(s.last().0@ != k);
        lemma_env_take_agree(s.drop_last(), i, k);
    }
}

impl EnvMap {
    pub fn new() -> (r: EnvMap)
        ensures
            r@ == Map::<Seq<char>, Seq<char>>::empty(),
            r.entries@.len() == 0,
    {
        EnvMap { entries: Vec::new() }
    }

    /// Binds `variable` to `value`; any earlier binding is shadowed.
    pub fn insert(&mut self, variable: String, value: String)
        ensures
            final(self)@ == old(self)@.insert(variable@, value@),
    {
        self.entries.push((variable, value));
        proof {
            assert(self.entries@.drop_last() =~= old(self).entries@);
        }
    }

    /// The value bound to `variable`, if any.
    pub fn get(&self, variable: &str) -> (r: Option<&String>)
        ensures
            match r {
                Some(v) => self@.dom().contains(variable@) && v@ == self@[variable@],
                None => !self@.dom().contains(variable@),
            },
    {
        let n = self.entries.len();
        let mut i: usize = n;
        while i > 0
            invariant
                i <= n,
                n == self.entries@.len(),
                forall|j: int| i <= j < n ==> self.entries@[j].0@ != variable@,
            decreases i,
        {
            i = i - 1;
            if str_eq(self.entries[i].0.as_str(), variable) {
                proof {
                    lemma_env_take_agree(self.entries@, i + 1, variable@);
                    assert(env_entries_view(self.entries@.take(i + 1)).dom().contains(variable@));
                    assert(self.entries@.take(i + 1).drop_last() =~= self.entries@.take(i as int));
                }
                return Some(&self.entries[i].1);
            }
        }
        proof {
            lemma_env_take_agree(self.entries@, 0, variable@);
            assert(self.entries@.take(0) =~= Seq::<(String, String)>::empty());
        }
        None
    }
}

/// `value` with every occurrence of `{root}` replaced by `root`,
/// scanning left to right.
pub open spec fn subst_root(value: Seq<char>, root: Seq<char>) -> Seq<char>
    decreases value.len(),
{
    if value.len() >= 6 && value.take(6) == "{root}"@ {
        root + subst_root(value.skip(6), root)
    } else if value.len() == 0 {
        value
    } else {
        seq![value[0]] + subst_root(value.skip(1), root)
    }
}

impl Package {
    /// Substitutes the resolved root path for `{root}` in a declared value.
    pub fn parse_root_path(value: &str, root_path: &str) -> (r: String)
        ensures
            r@ == subst_root(value@, root_path@),
    {
        let vc = chars_of(value);
        let rc = chars_of(root_path);
        let n = vc.len();
        let mut out: Vec<char> = Vec::new();
        let mut i: usize = 0;
        proof {
            reveal_strlit("{root}");
            assert(value@.skip(0) =~= value@);
            assert(out@ + subst_root(value@, root_path@) =~= subst_root(value@, root_path@));
        }
        while i < n
            invariant
                i <= n,
                n == vc@.len(),
                vc@ == value@,
                rc@ == root_path@,
                subst_root(value@, root_path@) == out@ + subst_root(value@.skip(i as int),
                    root_path@),
            decreases n - i,
        {
            proof {
                reveal_strlit("{root}");
            }
            let ghost rest = value@.skip(i as int);
            if n - i >= 6 && vc[i] == '{' && vc[i + 1] == 'r' && vc[i + 2] == 'o' && vc[i + 3]
                == 'o' && vc[i + 4] == 't' && vc[i + 5] == '}' {
                proof {
                    assert forall|j: int| 0 <= j < 6 implies rest.take(6)[j] == "{root}"@[j] by {
                        assert(rest.take(6)[j] == value@[i + j]);
                    }
                    assert(rest.take(6) =~= "{root}"@);
                    assert(rest.skip(6) =~= value@.skip(i as int + 6));
                }
                let mut k: usize = 0;
                let ghost out0 = out@;
                while k < rc.len()
                    invariant
                        k <= rc@.len(),
                        out@ == out0 + rc@.take(k as int),
                    decreases rc@.len() - k,
                {
                    out.push(rc[k]);
                    k = k + 1;
                    assert(out@ =~= out0 + rc@.take(k as int));
                }
                proof {
                    assert(rc@.take(rc@.len() as int) =~= rc@);
                }
                i = i + 6;
            } else {
                proof {
                    if rest.len() >= 6 && rest.take(6) == "{root}"@ {
                        assert(rest.take(6)[0] == value@[i as int]);
                        assert(rest.take(6)[1] == value@[i + 1]);
                        assert(rest.take(6)[2] == value@[i + 2]);
                        assert(rest.take(6)[3] == value@[i + 3]);
                        assert(rest.take(6)[4] == value@[i + 4]);
                        assert(rest.take(6)[5] == value@[i + 5]);
                        assert(false);
                    }
                    assert(rest[0] == value@[i as int]);
                    assert(rest.skip(1) =~= value@.skip(i as int + 1));
                }
                out.push(vc[i]);
                i = i + 1;
            }
        }
        proof {
            assert(value@.skip(n as int) =~= Seq::<char>::empty());
            assert(out@ =~= subst_root(value@, root_path@));
        }
        string_from_chars(&out)
    }
}

/// The value a block starts from: what the composition has bound so
/// far, else the caller-observed starting environment, else empty.
pub open spec fn cur_value(
    m: Map<Seq<char>, Seq<char>>,
    base: Map<Seq<char>, Seq<char>>,
    var: Seq<char>,
) -> Seq<char> {
    if m.dom().contains(var) {
        m[var]
    } else if base.dom().contains(var) {
        base[var]
    } else {
        Seq::empty()
    }
}

/// Whether a block passes the PATH rule: a block that writes `PATH`
/// must substitute to a directory known to exist.
pub open spec fn block_ok(e: Environtment, root: Seq<char>, dirs: Seq<Seq<char>>) -> bool {
    e.action is None || e.variable@ != "PATH"@ || dirs.contains(subst_root(e.value@, root))
}

/// One block applied to the composition map.
pub open spec fn apply_block(
    m: Map<Seq<char>, Seq<char>>,
    base: Map<Seq<char>, Seq<char>>,
    root: Seq<char>,
    e: Environtment,
) -> Map<Seq<char>, Seq<char>> {
    let nv = subst_root(e.value@, root);
    match e.action {
        None => m,
        Some(EnvAction::Define) => m.insert(e.variable@, nv),
        Some(EnvAction::Append) => m.insert(
            e.variable@,
            cur_value(m, base, e.variable@) + ";"@ + nv,
        ),
        Some(EnvAction::Prepend) => m.insert(
            e.variable@,
            nv + ";"@ + cur_value(m, base, e.variable@),
        ),
    }
}

/// Applies the blocks named by an explicit subset, in the given order;
/// names without a block are passed over. The flag is false where a
/// block broke the PATH rule; the map holds what was applied before it.
pub open spec fn apply_names(
    m: Map<Seq<char>, Seq<char>>,
    base: Map<Seq<char>, Seq<char>>,
    root: Seq<char>,
    p: Package,
    names: Seq<Seq<char>>,
    dirs: Seq<Seq<char>>,
) -> (Map<Seq<char>, Seq<char>>, bool)
    decreases names.len(),
{
    if names.len() == 0 {
        (m, true)
    } else if p.env_map_of().dom().contains(names[0]) {
        let e = p.env_map_of()[names[0]];
        if !block_ok(e, root, dirs) {
            (m, false)
        } else {
            apply_names(apply_block(m, base, root, e), base, root, p, names.skip(1), dirs)
        }
    } else {
        apply_names(m, base, root, p, names.skip(1), dirs)
    }
}

/// Applies every declared block, in the order they stand in the
/// manifest — alphabetical, for a well-formed one.
pub open spec fn apply_all(
    m: Map<Seq<char>, Seq<char>>,
    base: Map<Seq<char>, Seq<char>>,
    root: Seq<char>,
    blocks: Seq<(String, Environtment)>,
    dirs: Seq<Seq<char>>,
) -> (Map<Seq<char>, Seq<char>>, bool)
    decreases blocks.len(),
{
    if blocks.len() == 0 {
        (m, true)
    } else if !block_ok(blocks[0].1, root, dirs) {
        (m, false)
    } else {
        apply_all(apply_block(m, base, root, blocks[0].1), base, root, blocks.skip(1), dirs)
    }
}

/// One package's contribution: its named subset where one is given,
/// else all its declared blocks.
pub open spec fn apply_package(
    m: Map<Seq<char>, Seq<char>>,
    base: Map<Seq<char>, Seq<char>>,
    p: Package,
    root: Seq<char>,
    envs: Option<Vec<String>>,
    dirs: Seq<Seq<char>>,
) -> (Map<Seq<char>, Seq<char>>, bool) {
    match envs {
        Some(names) => apply_names(m, base, root, p, names.deep_view(), dirs),
        None => match p.environment {
            Some(blocks) => apply_all(m, base, root, blocks@, dirs),
            None => (m, true),
        },
    }
}

impl Package {
    fn apply_one_block(
        &self,
        environment_variables: &mut EnvMap,
        e: &Environtment,
        root_path: &str,
        base: &EnvMap,
        existing_dirs: &Vec<String>,
    ) -> (r: bool)
        ensures
            r == block_ok(*e, root_path@, existing_dirs.deep_view()),
            r ==> final(environment_variables)@ == apply_block(
                old(environment_variables)@,
                base@,
                root_path@,
                *e,
            ),
            !r ==> final(environment_variables)@ == old(environment_variables)@,
    {
        let action = match e.action {
            Some(a) => a,
            None => {
                return true;
            },
        };
        let new_value = Package::parse_root_path(e.value.as_str(), root_path);
        if str_eq(e.variable.as_str(), "PATH") {
            let mut found = false;
            let mut i: usize = 0;
            while i < existing_dirs.len()
                invariant
                    i <= existing_dirs@.len(),
                    found == exists|j: int|
                        0 <= j < i && existing_dirs.deep_view()[j] == new_value@,
                decreases existing_dirs@.len() - i,
            {
                if str_eq(existing_dirs[i].as_str(), new_value.as_str()) {
                    proof {
                        assert(existing_dirs.deep_view()[i as int] == existing_dirs@[i as int]@);
                    }
                    found = true;
                }
                i = i + 1;
            }
            if !found {
                proof {
                    assert(!existing_dirs.deep_view().contains(new_value@));
                }
                return false;
            }
            proof {
                assert(existing_dirs.deep_view().contains(new_value@));
            }
        }
        let current = match environment_variables.get(e.variable.as_str()) {
            Some(v) => v.clone(),
            None => match base.get(e.variable.as_str()) {
                Some(v) => v.clone(),
                None => String::new(),
            },
        };
        proof {
            assert(current@ == cur_value(environment_variables@, base@, e.variable@));
        }
        match action {
            EnvAction::Define => {
                environment_variables.insert(e.variable.clone(), new_value);
            },
            EnvAction::Append => {
                let joined = current.concat(";").concat(new_value.as_str());
                proof {
                    assert(joined@ =~= cur_value(old(environment_variables)@, base@, e.variable@)
                        + ";"@ + subst_root(e.value@, root_path@));
                }
                environment_variables.insert(e.variable.clone(), joined);
            },
            EnvAction::Prepend => {
                let joined = new_value.concat(";").concat(current.as_str());
                proof {
                    assert(joined@ =~= subst_root(e.value@, root_path@) + ";"@ + cur_value(
                        old(environment_variables)@,
                        base@,
                        e.variable@,
                    ));
                }
                environment_variables.insert(e.variable.clone(), joined);
            },
        }
        true
    }

    /// Resolves this package's environment blocks into the composition
    /// map: the blocks named by `envs` in that order, else every
    /// declared block in manifest order. A block that writes `PATH`
    /// with a value that is no known directory stops the work; what
    /// was applied before it stays applied, and the caller discards
    /// the map.
    pub fn process_env(
        &self,
        environment_variables: &mut EnvMap,
        envs: &Option<Vec<String>>,
        root_path: &str,
        base: &EnvMap,
        existing_dirs: &Vec<String>,
    ) -> (r: Result<(), VatError>)
        ensures
            ({
                let step = apply_package(
                    old(environment_variables)@,
                    base@,
                    *self,
                    root_path@,
                    *envs,
                    existing_dirs.deep_view(),
                );
                final(environment_variables)@ == step.0 && r == (if step.1 {
                    Ok::<(), VatError>(())
                } else {
                    Err::<(), VatError>(VatError::InvalidEnvironmentPath)
                })
            }),
    {
        let ghost base_v = base@;
        let ghost root_v = root_path@;
        let ghost dirs_v = existing_dirs.deep_view();
        match envs {
            Some(names) => {
                let ghost names_v = names.deep_view();
                let ghost target = apply_names(
                    old(environment_variables)@,
                    base_v,
                    root_v,
                    *self,
                    names_v,
                    dirs_v,
                );
                let mut i: usize = 0;
                proof {
                    assert(names_v.skip(0) =~= names_v);
                }
                while i < names.len()
                    invariant
                        i <= names@.len(),
                        *envs matches Some(nn) && nn.deep_view() == names_v,
                        names_v == names.deep_view(),
                        names_v.len() == names@.len(),
                        base_v == base@,
                        root_v == root_path@,
                        dirs_v == existing_dirs.deep_view(),
                        target == apply_names(
                            old(environment_variables)@,
                            base_v,
                            root_v,
                            *self,
                            names_v,
                            dirs_v,
                        ),
                        target == apply_names(
                            environment_variables@,
                            base_v,
                            root_v,
                            *self,
                            names_v.skip(i as int),
                            dirs_v,
                        ),
                    decreases names@.len() - i,
                {
                    let ghost pre = environment_variables@;
                    let ghost rest = names_v.skip(i as int);
                    proof {
                        assert(rest[0] == names_v[i as int]);
                        assert(names_v[i as int] == names@[i as int]@);
                        assert(rest.skip(1) =~= names_v.skip(i as int + 1));
                    }
                    match self.get_env(names[i].as_str()) {
                        Some(e) => {
                            let e_ref = e;
                            if !self.apply_one_block(
                                environment_variables,
                                e_ref,
                                root_path,
                                base,
                                existing_dirs,
                            ) {
                                return Err(VatError::InvalidEnvironmentPath);
                            }
                        },
                        None => {},
                    }
                    i = i + 1;
                }
                proof {
                    assert(names_v.skip(names_v.len() as int).len() == 0);
                }
                Ok(())
            },
            None => {
                match &self.environment {
                    Some(blocks) => {
                        let ghost blocks_v = blocks@;
                        let ghost target = apply_all(
                            old(environment_variables)@,
                            base_v,
                            root_v,
                            blocks_v,
                            dirs_v,
                        );
                        let mut i: usize = 0;
                        proof {
                            assert(blocks_v.skip(0) =~= blocks_v);
                        }
                        while i < blocks.len()
                            invariant
                                i <= blocks_v.len(),
                                *envs is None,
                                self.environment matches Some(b) && b@ == blocks_v,
                                blocks@ == blocks_v,
                                base_v == base@,
                                root_v == root_path@,
                                dirs_v == existing_dirs.deep_view(),
                                target == apply_all(
                                    old(environment_variables)@,
                                    base_v,
                                    root_v,
                                    blocks_v,
                                    dirs_v,
                                ),
                                target == apply_all(
                                    environment_variables@,
                                    base_v,
                                    root_v,
                                    blocks_v.skip(i as int),
                                    dirs_v,
                                ),
                            decreases blocks_v.len() - i,
                        {
                            let ghost rest = blocks_v.skip(i as int);
                            proof {
                                assert(rest[0] == blocks_v[i as int]);
                                assert(rest.skip(1) =~= blocks_v.skip(i as int + 1));
                            }
                            let e_ref = &blocks[i].1;
                            if !self.apply_one_block(
                                environment_variables,
                                e_ref,
                                root_path,
                                base,
                                existing_dirs,
                            ) {
                                return Err(VatError::InvalidEnvironmentPath);
                            }
                            i = i + 1;
                        }
                        proof {
                            assert(blocks_v.skip(blocks_v.len() as int).len() == 0);
                        }
                        Ok(())
                    },
                    None => Ok(()),
                }
            },
        }
    }
}

/// Composes an ordered list of resolved packages — each a manifest, its
/// root path, and an optional block subset — over the starting
/// environment `base`, into one map of variable bindings.
pub open spec fn compose_spec(
    m: Map<Seq<char>, Seq<char>>,
    base: Map<Seq<char>, Seq<char>>,
    items: Seq<(Package, String, Option<Vec<String>>)>,
    dirs: Seq<Seq<char>>,
) -> (Map<Seq<char>, Seq<char>>, bool)
    decreases items.len(),
{
    if items.len() == 0 {
        (m, true)
    } else {
        let step = apply_package(m, base, items[0].0, items[0].1@, items[0].2, dirs);
        if !step.1 {
            (step.0, false)
        } else {
            compose_spec(step.0, base, items.skip(1), dirs)
        }
    }
}

/// Composes the packages' environment declarations, first to last, into
/// a fresh map. The composition is deterministic in its inputs; it
/// fails as a whole with `InvalidEnvironmentPath` where any applied
/// block writes `PATH` with a value that is not a known directory.
pub fn compose(
    items: &Vec<(Package, String, Option<Vec<String>>)>,
    base: &EnvMap,
    existing_dirs: &Vec<String>,
) -> (r: Result<EnvMap, VatError>)
    ensures
        ({
            let out = compose_spec(
                Map::<Seq<char>, Seq<char>>::empty(),
                base@,
                items@,
                existing_dirs.deep_view(),
            );
            match r {
                Ok(em) => out.1 && em@ == out.0,
                Err(e) => !out.1 && e == VatError::InvalidEnvironmentPath,
            }
        }),
{
    let ghost base_v = base@;
    let ghost dirs_v = existing_dirs.deep_view();
    let ghost target = compose_spec(Map::<Seq<char>, Seq<char>>::empty(), base_v, items@, dirs_v);
    let mut out = EnvMap::new();
    let mut i: usize = 0;
    proof {
        assert(items@.skip(0) =~= items@);
    }
    while i < items.len()
        invariant
            i <= items@.len(),
            base_v == base@,
            dirs_v == existing_dirs.deep_view(),
            target == compose_spec(
                Map::<Seq<char>, Seq<char>>::empty(),
                base_v,
                items@,
                dirs_v,
            ),
            target == compose_spec(out@, base_v, items@.skip(i as int), dirs_v),
        decreases items@.len() - i,
    {
        let ghost rest = items@.skip(i as int);
        proof {
            assert(rest[0] == items@[i as int]);
            assert(rest.skip(1) =~= items@.skip(i as int + 1));
        }
        let item = &items[i];
        match item.0.process_env(&mut out, &item.2, item.1.as_str(), base, existing_dirs) {
            Ok(_) => {},
            Err(_) => {
                return Err(VatError::InvalidEnvironmentPath);
            },
        }
        i = i + 1;
    }
    proof {
        assert(items@.skip(items@.len() as int).len() == 0);
    }
    Ok(out)
}

} // verus!
