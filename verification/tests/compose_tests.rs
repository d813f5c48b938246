use vat::VatError;
use vat::compose::{EnvMap, compose};
use vat::manifest::{EnvAction, Environtment, Package};

fn block(variable: &str, value: &str, action: Option<EnvAction>) -> Environtment {
    Environtment::from(variable.to_string(), value.to_string(), action)
}

#[test]
fn define_then_append_keeps_order() {
    // package A defines VAR from its root; appended package B appends.
    let mut a = Package::default("a".to_string());
    a.append_env("blockA", block("VAR", "{root}/bin", Some(EnvAction::Define)));
    let mut b = Package::default("b".to_string());
    b.append_env("blockB", block("VAR", "{root}/lib", Some(EnvAction::Append)));

    let items = vec![
        (a, "/A".to_string(), None),
        (b, "/B".to_string(), None),
    ];
    let out = compose(&items, &EnvMap::new(), &Vec::new()).unwrap();
    assert_eq!(out.get("VAR").unwrap(), "/A/bin;/B/lib");
}

#[test]
fn prepend_puts_the_new_value_first() {
    let mut a = Package::default("a".to_string());
    a.append_env("b1", block("VAR", "x", Some(EnvAction::Define)));
    let mut b = Package::default("b".to_string());
    b.append_env("b1", block("VAR", "y", Some(EnvAction::Prepend)));
    let items = vec![
        (a, "/A".to_string(), None),
        (b, "/B".to_string(), None),
    ];
    let out = compose(&items, &EnvMap::new(), &Vec::new()).unwrap();
    assert_eq!(out.get("VAR").unwrap(), "y;x");
}

#[test]
fn define_overwrites() {
    let mut a = Package::default("a".to_string());
    a.append_env("b1", block("VAR", "x", Some(EnvAction::Define)));
    a.append_env("b2", block("VAR", "y", Some(EnvAction::Define)));
    let items = vec![(a, "/A".to_string(), None)];
    let out = compose(&items, &EnvMap::new(), &Vec::new()).unwrap();
    assert_eq!(out.get("VAR").unwrap(), "y");
}

#[test]
fn untouched_variables_seed_from_the_starting_environment() {
    let mut a = Package::default("a".to_string());
    a.append_env("b1", block("VAR", "new", Some(EnvAction::Append)));
    let mut base = EnvMap::new();
    base.insert("VAR".to_string(), "inherited".to_string());
    let items = vec![(a, "/A".to_string(), None)];
    let out = compose(&items, &base, &Vec::new()).unwrap();
    assert_eq!(out.get("VAR").unwrap(), "inherited;new");
}

#[test]
fn blocks_apply_in_alphabetical_order() {
    // inserted out of order; walked alphabetically by block name
    let mut a = Package::default("a".to_string());
    a.append_env("z_last", block("VAR", "2", Some(EnvAction::Append)));
    a.append_env("a_first", block("VAR", "1", Some(EnvAction::Define)));
    let items = vec![(a, "/A".to_string(), None)];
    let out = compose(&items, &EnvMap::new(), &Vec::new()).unwrap();
    assert_eq!(out.get("VAR").unwrap(), "1;2");
}

#[test]
fn explicit_subset_selects_and_orders_blocks() {
    let mut a = Package::default("a".to_string());
    a.append_env("one", block("VAR", "1", Some(EnvAction::Define)));
    a.append_env("two", block("VAR", "2", Some(EnvAction::Append)));
    a.append_env("three", block("OTHER", "x", Some(EnvAction::Define)));
    let subset = Some(vec!["one".to_string(), "two".to_string()]);
    let items = vec![(a, "/A".to_string(), subset)];
    let out = compose(&items, &EnvMap::new(), &Vec::new()).unwrap();
    assert_eq!(out.get("VAR").unwrap(), "1;2");
    assert!(out.get("OTHER").is_none());
}

#[test]
fn unknown_subset_names_are_passed_over() {
    let mut a = Package::default("a".to_string());
    a.append_env("one", block("VAR", "1", Some(EnvAction::Define)));
    let subset = Some(vec!["ghost".to_string(), "one".to_string()]);
    let items = vec![(a, "/A".to_string(), subset)];
    let out = compose(&items, &EnvMap::new(), &Vec::new()).unwrap();
    assert_eq!(out.get("VAR").unwrap(), "1");
}

#[test]
fn a_path_block_needs_a_known_directory() {
    let mut a = Package::default("a".to_string());
    a.append_env("b1", block("PATH", "{root}/bin", Some(EnvAction::Define)));
    let items = vec![(a, "/A".to_string(), None)];
    let r = compose(&items, &EnvMap::new(), &Vec::new());
    assert_eq!(r.unwrap_err(), VatError::InvalidEnvironmentPath);

    let mut b = Package::default("b".to_string());
    b.append_env("b1", block("PATH", "{root}/bin", Some(EnvAction::Define)));
    let items = vec![(b, "/A".to_string(), None)];
    let dirs = vec!["/A/bin".to_string()];
    let out = compose(&items, &EnvMap::new(), &dirs).unwrap();
    assert_eq!(out.get("PATH").unwrap(), "/A/bin");
}

#[test]
fn a_block_without_an_action_changes_nothing() {
    let mut a = Package::default("a".to_string());
    a.append_env("b1", block("VAR", "x", None));
    let items = vec![(a, "/A".to_string(), None)];
    let out = compose(&items, &EnvMap::new(), &Vec::new()).unwrap();
    assert!(out.get("VAR").is_none());
}

#[test]
fn root_placeholder_substitutes_everywhere() {
    let s = Package::parse_root_path("{root}/x/{root}", "/r");
    assert_eq!(s, "/r/x//r");
    assert_eq!(Package::parse_root_path("plain", "/r"), "plain");
    assert_eq!(Package::parse_root_path("", "/r"), "");
    assert_eq!(Package::parse_root_path("{root{root}}", "/r"), "{root/r}");
}

#[test]
fn composition_is_deterministic() {
    let build = || {
        let mut a = Package::default("a".to_string());
        a.append_env("b1", block("VAR", "{root}/bin", Some(EnvAction::Define)));
        vec![(a, "/A".to_string(), None)]
    };
    let one = compose(&build(), &EnvMap::new(), &Vec::new()).unwrap();
    let two = compose(&build(), &EnvMap::new(), &Vec::new()).unwrap();
    assert_eq!(one.get("VAR").unwrap(), two.get("VAR").unwrap());
}
