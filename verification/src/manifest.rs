use vstd::prelude::*;

use crate::assoc::{assoc_map, assoc_get_str, assoc_set_str, assoc_set_sorted, keys_distinct,
    keys_sorted};
use crate::version::Version;

verus! {

/// One environment block: a target OS variable, a template value that
/// may hold the `{root}` placeholder, and how the value is applied.
#[derive(Debug, Clone)]
pub struct Environtment {
    pub variable: String,
    pub value: String,
    pub action: Option<EnvAction>,
}

/// How a declared value changes a variable: overwrite, or join with
/// the current value on one side.
#[derive(Debug, Clone, Copy, PartialEq, Eq, Structural)]
pub enum EnvAction {
    Prepend,
    Append,
    Define,
}

/// A command a package offers: the executable, and which environment
/// blocks to apply (absent: all of them).
#[derive(Debug, Clone)]
pub struct Command {
    pub command: String,
    pub env: Option<Vec<String>>,
}

#[derive(Debug, Clone)]
pub struct Dependencies {
    pub dependencies: Vec<String>,
}

#[derive(Debug, Clone)]
pub struct Example {
    pub name: String,
    pub path: String,
}

/// The metadata of one package.
#[derive(Debug, Clone)]
pub struct PackageInfo {
    pub name: String,
    pub version: Version,
    pub version_message: Option<String>,
    pub description: Option<String>,
    pub authors: Vec<String>,
    pub repository: Option<String>,
}

/// A package manifest: metadata, declared environment blocks, and
/// commands. Environment blocks are kept sorted by name, so walking
/// them visits names in alphabetical order; command names are unique.
#[derive(Debug, Clone)]
pub struct Package {
    pub package_info: PackageInfo,
    pub dependencies: Option<Dependencies>,
    pub environment: Option<Vec<(String, Environtment)>>,
    pub command: Option<Vec<(String, Command)>>,
    pub examples: Option<Vec<Example>>,
}

impl PackageInfo {
    /// Fresh metadata under `name`, at version 0.0.0.
    pub fn from(name: String) -> (r: PackageInfo)
        ensures
            r.name@ == name@,
            r.version == Version::spec_new(0, 0, 0),
            r.version_message is None,
            r.description is None,
            r.authors@.len() == 0,
            r.repository is None,
    {
        PackageInfo {
            name,
            version: Version::new(0, 0, 0),
            version_message: None,
            description: None,
            authors: Vec::new(),
            repository: None,
        }
    }
}

impl Environtment {
    /// The default block: define PATH as `{root}/bin`.
    pub fn new() -> (r: Environtment)
        ensures
            r.variable@ == "PATH"@,
            r.value@ == "{root}/bin"@,
            r.action == Some(EnvAction::Define),
    {
        Environtment {
            variable: "PATH".to_owned(),
            value: "{root}/bin".to_owned(),
            action: Some(EnvAction::Define),
        }
    }

    pub fn from(variable: String, value: String, action: Option<EnvAction>) -> (r: Environtment)
        ensures
            r.variable == variable,
            r.value == value,
            r.action == action,
    {
        Environtment { variable, value, action }
    }
}

impl Command {
    pub fn from(command: String, env: Option<Vec<String>>) -> (r: Command)
        ensures
            r.command == command,
            r.env == env,
    {
        Command { command, env }
    }
}

impl Default for Dependencies {
    fn default() -> (r: Dependencies)
        ensures
            r.dependencies@.len() == 0,
    {
        Dependencies { dependencies: Vec::new() }
    }
}

impl Package {
    /// The manifest's environment blocks as a map from block name to block.
    pub open spec fn env_map_of(&self) -> Map<Seq<char>, Environtment> {
        match self.environment {
            Some(e) => assoc_map(e@),
            None => Map::empty(),
        }
    }

    /// The manifest's commands as a map from command name to command.
    pub open spec fn cmd_map_of(&self) -> Map<Seq<char>, Command> {
        match self.command {
            Some(c) => assoc_map(c@),
            None => Map::empty(),
        }
    }

    /// Well-formedness: environment block names are strictly sorted
    /// (hence unique), command names are unique.
    pub open spec fn wf(&self) -> bool {
        &&& match self.environment {
            Some(e) => keys_sorted(e@),
            None => true,
        }
        &&& match self.command {
            Some(c) => keys_distinct(c@),
            None => true,
        }
    }

    pub fn from_package_info(package_info: PackageInfo) -> (r: Package)
        ensures
            r.package_info == package_info,
            r.dependencies is None,
            r.environment is None,
            r.command is None,
            r.examples is None,
            r.wf(),
    {
        Package {
            package_info,
            dependencies: None,
            environment: None,
            command: None,
            examples: None,
        }
    }

    /// A fresh manifest for a package called `name`.
    pub fn default(name: String) -> (r: Package)
        ensures
            r.package_info.name@ == name@,
            r.package_info.version == Version::spec_new(0, 0, 0),
            r.dependencies is None,
            r.environment is None,
            r.command is None,
            r.examples is None,
            r.wf(),
    {
        Package {
            package_info: PackageInfo::from(name),
            dependencies: None,
            environment: None,
            command: None,
            examples: None,
        }
    }

    pub fn get_name(&self) -> (r: &str)
        ensures
            r@ == self.package_info.name@,
    {
        self.package_info.name.as_str()
    }

    pub fn get_version(&self) -> (r: &Version)
        ensures
            *r == self.package_info.version,
    {
        &self.package_info.version
    }

    pub fn get_current_version(&self) -> (r: Version)
        ensures
            r == self.package_info.version,
    {
        self.package_info.version
    }

    pub fn get_version_message(&self) -> (r: Option<&str>)
        ensures
            match r {
                Some(m) => self.package_info.version_message matches Some(v) && m@ == v@,
                None => self.package_info.version_message is None,
            },
    {
        match &self.package_info.version_message {
            Some(m) => Some(m.as_str()),
            None => None,
        }
    }

    pub fn set_version_message(&mut self, message: String)
        ensures
            final(self).package_info.version_message == Some(message),
            final(self).package_info.name == old(self).package_info.name,
            final(self).package_info.version == old(self).package_info.version,
            final(self).package_info.description == old(self).package_info.description,
            final(self).package_info.authors == old(self).package_info.authors,
            final(self).package_info.repository == old(self).package_info.repository,
            final(self).dependencies == old(self).dependencies,
            final(self).environment == old(self).environment,
            final(self).command == old(self).command,
            final(self).examples == old(self).examples,
    {
        self.package_info.version_message = Some(message);
    }

    /// Bumps the version: the highest flagged component rises by one and
    /// the lower components reset; with no flag the version is unchanged.
    pub fn increment_version(&mut self, major: bool, minor: bool, patch: bool)
        requires
            major ==> old(self).package_info.version.major < u64::MAX,
            !major && minor ==> old(self).package_info.version.minor < u64::MAX,
            !major && !minor && patch ==> old(self).package_info.version.patch < u64::MAX,
        ensures
            final(self).package_info.version == (if major {
                Version::spec_new((old(self).package_info.version.major + 1) as u64, 0, 0)
            } else if minor {
                Version::spec_new(
                    old(self).package_info.version.major,
                    (old(self).package_info.version.minor + 1) as u64,
                    0,
                )
            } else if patch {
                Version::spec_new(
                    old(self).package_info.version.major,
                    old(self).package_info.version.minor,
                    (old(self).package_info.version.patch + 1) as u64,
                )
            } else {
                old(self).package_info.version
            }),
            final(self).package_info.name == old(self).package_info.name,
            final(self).package_info.version_message == old(self).package_info.version_message,
            final(self).environment == old(self).environment,
            final(self).command == old(self).command,
    {
        let v = self.package_info.version;
        if major {
            self.package_info.version = Version::new(v.major + 1, 0, 0);
        } else if minor {
            self.package_info.version = Version::new(v.major, v.minor + 1, 0);
        } else if patch {
            self.package_info.version = Version::new(v.major, v.minor, v.patch + 1);
        }
    }

    /// Binds an environment block under `env_name`, replacing any block
    /// already there; block names stay sorted.
    pub fn append_env(&mut self, env_name: &str, env: Environtment)
        requires
            old(self).wf(),
        ensures
            final(self).wf(),
            final(self).env_map_of() == old(self).env_map_of().insert(env_name@, env),
            final(self).package_info == old(self).package_info,
            final(self).command == old(self).command,
            final(self).dependencies == old(self).dependencies,
            final(self).examples == old(self).examples,
    {
        if self.environment.is_none() {
            self.environment = Some(Vec::new());
            proof {
                assert(assoc_map(Seq::<(String, Environtment)>::empty()) =~= Map::<
                    Seq<char>,
                    Environtment,
                >::empty());
            }
        }
        match &mut self.environment {
            Some(e) => {
                assoc_set_sorted(e, env_name.to_owned(), env);
            },
            None => {},
        }
    }

    /// Binds a command under `command_name`, replacing any command
    /// already there; command names stay unique.
    pub fn append_command(&mut self, command_name: &str, command: Command)
        requires
            old(self).wf(),
        ensures
            final(self).wf(),
            final(self).cmd_map_of() == old(self).cmd_map_of().insert(command_name@, command),
            final(self).package_info == old(self).package_info,
            final(self).environment == old(self).environment,
            final(self).dependencies == old(self).dependencies,
            final(self).examples == old(self).examples,
    {
        if self.command.is_none() {
            self.command = Some(Vec::new());
            proof {
                assert(assoc_map(Seq::<(String, Command)>::empty()) =~= Map::<
                    Seq<char>,
                    Command,
                >::empty());
            }
        }
        match &mut self.command {
            Some(c) => {
                assoc_set_str(c, command_name.to_owned(), command);
            },
            None => {},
        }
    }

    /// The environment block under `env_name`, if any.
    pub fn get_env(&self, env_name: &str) -> (r: Option<&Environtment>)
        ensures
            match r {
                Some(e) => self.env_map_of().dom().contains(env_name@) && *e
                    == self.env_map_of().index(env_name@),
                None => !self.env_map_of().dom().contains(env_name@),
            },
    {
        match &self.environment {
            Some(e) => assoc_get_str(e, env_name),
            None => None,
        }
    }

    /// The command under `cmd_name`, if any.
    pub fn get_cmd(&self, cmd_name: &str) -> (r: Option<&Command>)
        ensures
            match r {
                Some(c) => self.cmd_map_of().dom().contains(cmd_name@) && *c
                    == self.cmd_map_of().index(cmd_name@),
                None => !self.cmd_map_of().dom().contains(cmd_name@),
            },
    {
        match &self.command {
            Some(c) => assoc_get_str(c, cmd_name),
            None => None,
        }
    }
}

} // verus!
