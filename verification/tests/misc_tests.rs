use vat::VatError;
use vat::git::GitTags;
use vat::manifest::{Command, EnvAction, Environtment, Package, PackageInfo};
use vat::noduro::{Application, dcc_package_from_apps, filter_apps};
use vat::registry::{Registry, RegistryLock};
use vat::stack::{AppendStackPackage, Stack, Stacks};
use vat::strutil::path_file_name;
use vat::version::Version;

#[test]
fn lock_write_takes_and_releases_both_flags() {
    let mut lock = RegistryLock::new();
    assert!(!lock.is_read_locked());
    assert!(!lock.is_write_locked());
    lock.lock_write();
    assert!(lock.is_read_locked());
    assert!(lock.is_write_locked());
    lock.unlock_write();
    assert!(!lock.is_read_locked());
    assert!(!lock.is_write_locked());
}

#[test]
fn a_second_writer_observes_contention() {
    // one process takes the lock; another, checking before locking,
    // sees it held and must abort
    let mut holder = RegistryLock::new();
    holder.lock_write();
    let mut contender = holder;
    assert!(contender.is_read_locked());
    assert_eq!(contender.try_lock_write().unwrap_err(), VatError::RegistryLocked);

    let mut free = RegistryLock::new();
    free.try_lock_write().unwrap();
    assert!(free.is_write_locked());
}

#[test]
fn read_lock_flags_only_read() {
    let mut lock = RegistryLock::new();
    lock.lock_read();
    assert!(lock.is_read_locked());
    assert!(!lock.is_write_locked());
    lock.unlock_read();
    assert!(!lock.is_read_locked());
}

#[test]
fn increment_resets_lower_components() {
    let mut p = Package::default("p".to_string());
    p.package_info.version = Version::new(1, 2, 3);
    p.increment_version(true, false, false);
    assert_eq!(p.get_current_version(), Version::new(2, 0, 0));

    p.package_info.version = Version::new(1, 2, 3);
    p.increment_version(false, true, false);
    assert_eq!(p.get_current_version(), Version::new(1, 3, 0));

    p.package_info.version = Version::new(1, 2, 3);
    p.increment_version(false, false, true);
    assert_eq!(p.get_current_version(), Version::new(1, 2, 4));

    p.package_info.version = Version::new(1, 2, 3);
    p.increment_version(false, false, false);
    assert_eq!(p.get_current_version(), Version::new(1, 2, 3));
}

#[test]
fn manifest_blocks_and_commands_replace_by_name() {
    let mut p = Package::from_package_info(PackageInfo::from("p".to_string()));
    assert_eq!(p.get_name(), "p");
    assert!(p.get_env("b").is_none());

    p.append_env("b", Environtment::from("V".to_string(), "1".to_string(), None));
    p.append_env("b", Environtment::from("V".to_string(), "2".to_string(), None));
    assert_eq!(p.get_env("b").unwrap().value, "2");

    p.append_command("run", Command::from("one".to_string(), None));
    p.append_command("run", Command::from("two".to_string(), None));
    assert_eq!(p.get_cmd("run").unwrap().command, "two");
    assert!(p.get_cmd("ghost").is_none());
}

#[test]
fn version_message_is_kept() {
    let mut p = Package::default("p".to_string());
    assert!(p.get_version_message().is_none());
    p.set_version_message("done".to_string());
    assert_eq!(p.get_version_message(), Some("done"));
}

#[test]
fn git_tags_keep_only_semantic_versions() {
    let tags = vec![
        "0.1.0".to_string(),
        "not-a-version".to_string(),
        "0.2.0".to_string(),
        "0.1.5".to_string(),
    ];
    let parsed = GitTags::new(&tags);
    assert_eq!(parsed.tags.len(), 3);
    assert_eq!(parsed.get_latest(), Some(Version::new(0, 2, 0)));
    assert_eq!(GitTags::new(&Vec::new()).get_latest(), None);
}

#[test]
fn registry_requires_a_description() {
    let mut registry = Registry::default();
    let bare = Package::default("p".to_string());
    assert_eq!(
        registry.add_package(bare, "/ws/p".to_string()).unwrap_err(),
        VatError::IoError
    );

    let mut documented = Package::default("p".to_string());
    documented.package_info.description = Some("a tool".to_string());
    registry.add_package(documented, "/ws/p".to_string()).unwrap();
    let entry = registry.get_package("p").unwrap();
    assert_eq!(entry.path, "/ws/p");
    assert_eq!(entry.description, "a tool");

    let mut again = Package::default("p".to_string());
    again.package_info.description = Some("again".to_string());
    assert_eq!(
        registry.add_package(again, "/other".to_string()).unwrap_err(),
        VatError::WorkspaceMismatch
    );

    assert_eq!(
        registry.remove_package("ghost").unwrap_err(),
        VatError::PackageNotFound
    );
    registry.remove_package("p").unwrap();
    assert!(registry.get_package("p").is_none());
}

#[test]
fn stacks_keep_names_and_order() {
    let mut stacks = Stacks { stacks: Vec::new(), order: Vec::new() };
    let stack = Stack {
        name: "render".to_string(),
        icon: None,
        icon_id: None,
        package_name: Some("p".to_string()),
        package_version: Some("1.0.0".to_string()),
        command: Some("go".to_string()),
        append: Vec::new(),
    };
    stacks.append_stack(stack);
    assert_eq!(stacks.get_order(), &vec!["render".to_string()]);
    assert_eq!(stacks.get_stack("render").unwrap().command, Some("go".to_string()));

    let replacement = Stack {
        name: "render".to_string(),
        icon: None,
        icon_id: None,
        package_name: Some("p".to_string()),
        package_version: Some("2.0.0".to_string()),
        command: Some("go2".to_string()),
        append: Vec::new(),
    };
    stacks.update_stack("render", replacement);
    assert_eq!(stacks.get_stack("render").unwrap().command, Some("go2".to_string()));

    stacks.remove_stack("render");
    assert!(stacks.get_stack("render").is_none());
    assert!(stacks.get_order().is_empty());
}

#[test]
fn stack_reference_strings_carry_versions_and_envs() {
    let stack = Stack {
        name: "s".to_string(),
        icon: None,
        icon_id: None,
        package_name: Some("main".to_string()),
        package_version: Some("1.0.0".to_string()),
        command: Some("go".to_string()),
        append: vec![
            AppendStackPackage {
                package_name: "extra".to_string(),
                package_version: "2.0.0".to_string(),
                env: vec!["e1".to_string(), "e2".to_string()],
            },
            AppendStackPackage {
                package_name: "plain".to_string(),
                package_version: "0.1.0".to_string(),
                env: Vec::new(),
            },
        ],
    };
    let (main_ref, appends) = stack.reference_strings();
    assert_eq!(main_ref, "main/1.0.0");
    assert_eq!(appends, vec!["extra/2.0.0[e1,e2,]".to_string(), "plain/0.1.0".to_string()]);
}

#[test]
fn filter_keeps_known_tools_and_narrows_paths() {
    let apps = vec![
        Application::new("ZBrush 2024".to_string(), None, "/apps/zbrush".to_string()),
        Application::new("Autodesk Maya 2025".to_string(), None, "/apps/autodesk".to_string()),
        Application::new("Shotgun RV 7.0".to_string(), None, "/apps/rv".to_string()),
        Application::new("OpenRV".to_string(), None, "/apps/openrv".to_string()),
        Application::new("Houdini 20.5.123".to_string(), None, "/apps/houdini".to_string()),
        Application::new("Randomapp".to_string(), None, "/apps/random".to_string()),
    ];
    let dirs = vec!["/apps/autodesk/Maya2025/bin".to_string()];
    let kept = filter_apps(&apps, &dirs);
    assert_eq!(kept.len(), 3);
    assert_eq!(kept[0].name, "ZBrush 2024");
    assert_eq!(kept[0].version, Some("2024".to_string()));
    assert_eq!(kept[1].name, "Autodesk Maya 2025");
    assert_eq!(kept[1].path, "/apps/autodesk/Maya2025/bin");
    // Shotgun RV's bin directory is unknown, so it is dropped
    assert_eq!(kept[2].name, "OpenRV");
}

#[test]
fn houdini_installs_become_blocks_and_commands() {
    let base = Package::default("dcc".to_string());
    let apps = vec![
        Application::new(
            "Houdini".to_string(),
            Some("20.5.123".to_string()),
            "/apps/houdini20".to_string(),
        ),
    ];
    let tools = dcc_package_from_apps(base, &apps);
    let env = tools.get_env("houdinibin20.5.123").unwrap();
    assert_eq!(env.variable, "PATH");
    assert_eq!(env.value, "/apps/houdini20/bin");
    assert!(matches!(env.action, Some(EnvAction::Append)));
    let cmd = tools.get_cmd("houdini205").unwrap();
    assert_eq!(cmd.command, "houdini");
    assert_eq!(cmd.env, Some(vec!["houdinibin20.5.123".to_string()]));
}

#[test]
fn file_name_is_the_last_path_component() {
    assert_eq!(path_file_name("/a/b/c"), "c");
    assert_eq!(path_file_name("plain"), "plain");
    assert_eq!(path_file_name("/a/b/"), "");
}
