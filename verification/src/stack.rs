use vstd::prelude::*;

use crate::VatError;
use crate::assoc::{assoc_map, assoc_get_str, assoc_set_str, assoc_remove_str, keys_distinct};
use crate::strutil::{join_path, path_join, str_eq};

verus! {

/// One package appended to a stack: its reference parts and the
/// environment blocks to apply.
#[derive(Debug, Clone)]
pub struct AppendStackPackage {
    pub package_name: String,
    pub package_version: String,
    pub env: Vec<String>,
}

/// A saved launch: a primary package, its command, and the packages
/// appended to its environment.
#[derive(Debug, Clone)]
pub struct Stack {
    pub name: String,
    pub icon: Option<String>,
    pub icon_id: Option<String>,
    pub package_name: Option<String>,
    pub package_version: Option<String>,
    pub command: Option<String>,
    pub append: Vec<AppendStackPackage>,
}

/// The saved stacks, by name, with the order they were added in.
#[derive(Debug)]
pub struct Stacks {
    pub stacks: Vec<(String, Stack)>,
    pub order: Vec<String>,
}

impl Stacks {
    pub open spec fn stacks_map(&self) -> Map<Seq<char>, Stack> {
        assoc_map(self.stacks@)
    }

    pub open spec fn wf(&self) -> bool {
        keys_distinct(self.stacks@)
    }

    /// Where the stacks document lives under the application directory.
    pub fn stacks_config_path(app_dir: &str) -> (r: String)
        ensures
            r@ == path_join(app_dir@, "stacks.toml"@),
    {
        join_path(app_dir, "stacks.toml")
    }

    /// Adds a stack under its own name and appends the name to the
    /// order.
    pub fn append_stack(&mut self, stack: Stack)
        requires
            old(self).wf(),
        ensures
            final(self).wf(),
            final(self).stacks_map() == old(self).stacks_map().insert(stack.name@, stack),
            final(self).order@.len() == old(self).order@.len() + 1,
            final(self).order@.last()@ == stack.name@,
            forall|j: int| 0 <= j < old(self).order@.len() ==> final(self).order@[j] == old(self).order@[j],
    {
        let name = stack.name.clone();
        let order_name = stack.name.clone();
        assoc_set_str(&mut self.stacks, name, stack);
        self.order.push(order_name);
    }

    /// Takes a stack out of the map and its name's first occurrence
    /// out of the order.
    pub fn remove_stack(&mut self, name: &str)
        requires
            old(self).wf(),
            exists|j: int| 0 <= j < old(self).order@.len() && old(self).order@[j]@ == name@,
        ensures
            final(self).wf(),
            final(self).stacks_map() == old(self).stacks_map().remove(name@),
            exists|j: int|
                0 <= j < old(self).order@.len() && old(self).order@[j]@ == name@ && (forall|k: int|
                    0 <= k < j ==> old(self).order@[k]@ != name@) && final(self).order@ == old(self).order@.remove(j),
    {
        assoc_remove_str(&mut self.stacks, name);
        let mut i: usize = 0;
        proof {
            let j = choose|j: int|
                0 <= j < old(self).order@.len() && old(self).order@[j]@ == name@;
            assert(0 <= j < self.order@.len() && self.order@[j]@ == name@);
        }
        while i < self.order.len()
            invariant
                i <= self.order@.len(),
                self.order@ == old(self).order@,
                self.stacks_map() == old(self).stacks_map().remove(name@),
                keys_distinct(self.stacks@),
                forall|k: int| 0 <= k < i ==> self.order@[k]@ != name@,
                exists|j: int| 0 <= j < self.order@.len() && self.order@[j]@ == name@,
            decreases self.order@.len() - i,
        {
            if str_eq(self.order[i].as_str(), name) {
                self.order.remove(i);
                proof {
                    assert(0 <= i < old(self).order@.len() && old(self).order@[i as int]@ == name@
                        && (forall|k: int| 0 <= k < i ==> old(self).order@[k]@ != name@)
                        && final(self).order@ == old(self).order@.remove(i as int));
                }
                return ;
            }
            i = i + 1;
        }
        proof {
            assert(false);
        }
    }

    /// Binds a stack under `name`, replacing what was there; the order
    /// is untouched.
    pub fn update_stack(&mut self, name: &str, stack: Stack)
        requires
            old(self).wf(),
        ensures
            final(self).wf(),
            final(self).stacks_map() == old(self).stacks_map().insert(name@, stack),
            final(self).order == old(self).order,
    {
        assoc_set_str(&mut self.stacks, name.to_owned(), stack);
    }

    /// The stack under `name`, if any.
    pub fn get_stack(&self, name: &str) -> (r: Option<&Stack>)
        ensures
            match r {
                Some(s) => self.stacks_map().dom().contains(name@) && *s == self.stacks_map()[
                    name@],
                None => !self.stacks_map().dom().contains(name@),
            },
    {
        assoc_get_str(&self.stacks, name)
    }

    pub fn get_order(&self) -> (r: &Vec<String>)
        ensures
            r == self.order,
    {
        &self.order
    }
}

/// The environment list of an appended package, joined for a reference
/// string: every name followed by a comma.
pub open spec fn joined_env_list(envs: Seq<Seq<char>>) -> Seq<char>
    decreases envs.len(),
{
    if envs.len() == 0 {
        Seq::empty()
    } else {
        envs[0] + ","@ + joined_env_list(envs.skip(1))
    }
}

/// The reference string an appended package contributes:
/// `name/version`, with `[env1,env2,]` where blocks are named.
pub open spec fn append_ref(a: AppendStackPackage) -> Seq<char> {
    if a.env@.len() == 0 {
        path_join(a.package_name@, a.package_version@)
    } else {
        path_join(a.package_name@, a.package_version@) + "["@ + joined_env_list(a.env.deep_view())
            + "]"@
    }
}

impl Stack {
    /// The reference strings a stack launches with: the primary
    /// package's `name/version`, and one reference per appended
    /// package.
    pub fn reference_strings(&self) -> (r: (String, Vec<String>))
        requires
            self.package_name is Some,
            self.package_version is Some,
        ensures
            r.0@ == path_join(self.package_name->0@, self.package_version->0@),
            r.1.deep_view() == self.append@.map_values(|a: AppendStackPackage| append_ref(a)),
    {
        let main_ref = match (&self.package_name, &self.package_version) {
            (Some(n), Some(v)) => join_path(n.as_str(), v.as_str()),
            _ => String::new(),
        };
        let ghost target = self.append@.map_values(|a: AppendStackPackage| append_ref(a));
        let mut out: Vec<String> = Vec::new();
        let mut i: usize = 0;
        while i < self.append.len()
            invariant
                i <= self.append@.len(),
                target == self.append@.map_values(|a: AppendStackPackage| append_ref(a)),
                out.deep_view() == target.take(i as int),
            decreases self.append@.len() - i,
        {
            let a = &self.append[i];
            let base = join_path(a.package_name.as_str(), a.package_version.as_str());
            let one = if a.env.len() > 0 {
                let mut joined = base.concat("[");
                let ghost envs_v = a.env.deep_view();
                let mut k: usize = 0;
                proof {
                    assert(envs_v.skip(0) =~= envs_v);
                }
                while k < a.env.len()
                    invariant
                        k <= a.env@.len(),
                        envs_v == a.env.deep_view(),
                        envs_v.len() == a.env@.len(),
                        joined@ == path_join(a.package_name@, a.package_version@) + "["@
                            + joined_env_list(envs_v.take(k as int)),
                    decreases a.env@.len() - k,
                {
                    joined = joined.concat(a.env[k].as_str()).concat(",");
                    k = k + 1;
                    proof {
                        lemma_joined_env_snoc(envs_v.take(k as int - 1), envs_v[k as int - 1]);
                        assert(envs_v.take(k as int - 1).push(envs_v[k as int - 1]) =~= envs_v.take(
                            k as int,
                        ));
                        assert(envs_v[k as int - 1] == a.env@[k as int - 1]@);
                    }
                }
                proof {
                    assert(envs_v.take(envs_v.len() as int) =~= envs_v);
                }
                joined.concat("]")
            } else {
                base
            };
            let ghost prev = out.deep_view();
            let ghost one_v = one@;
            out.push(one);
            proof {
                assert(out.deep_view() =~= prev.push(one_v));
                assert(one_v =~= append_ref(self.append@[i as int]));
                assert(out.deep_view() =~= target.take(i as int + 1));
            }
            i = i + 1;
        }
        proof {
            assert(target.take(target.len() as int) =~= target);
        }
        (main_ref, out)
    }
}

/// Appending one name extends the joined list by that name and a comma.
proof fn lemma_joined_env_snoc(envs: Seq<Seq<char>>, e: Seq<char>)
    ensures
        joined_env_list(envs.push(e)) == joined_env_list(envs) + e + ","@,
    decreases envs.len(),
{
    let t = envs.push(e);
    if envs.len() == 0 {
        assert(t[0] == e);
        assert(t.skip(1) =~= Seq::<Seq<char>>::empty());
        assert(joined_env_list(Seq::<Seq<char>>::empty()) =~= Seq::<char>::empty());
        assert(joined_env_list(t) =~= e + ","@);
        assert(joined_env_list(envs) + e + ","@ =~= e + ","@);
    } else {
        assert(t[0] == envs[0]);
        assert(t.skip(1) =~= envs.skip(1).push(e));
        lemma_joined_env_snoc(envs.skip(1), e);
        assert(joined_env_list(t) =~= joined_env_list(envs) + e + ","@);
    }
}

} // verus!
