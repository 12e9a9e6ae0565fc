use castagne_rs::global::{CastagneGlobal, HitConfirmed, ModuleLoader, VersionInfo, PRORATION_SCALE};
use castagne_rs::memory::MemoryValue;
use castagne_rs::str_map::StrMap;

fn ints(pairs: &[(&str, i32)]) -> StrMap<i32> {
    let mut m = StrMap::new();
    for (k, v) in pairs {
        m.insert(k.to_string(), *v);
    }
    m
}

fn texts(pairs: &[(&str, &str)]) -> StrMap<String> {
    let mut m = StrMap::new();
    for (k, v) in pairs {
        m.insert(k.to_string(), v.to_string());
    }
    m
}

fn values(pairs: Vec<(&str, MemoryValue)>) -> StrMap<MemoryValue> {
    let mut m = StrMap::new();
    for (k, v) in pairs {
        m.insert(k.to_string(), v);
    }
    m
}

#[test]
fn global_version_and_lines() {
    let g = CastagneGlobal::new();
    let v = g.get_version_info();
    assert_eq!(v.version.as_deref(), Some("0.1.0"));
    assert_eq!(v.version_name, "Castagne-RS Experimental");
    assert_eq!(VersionInfo::default().branch, "main");
    assert_eq!(g.log("hello"), "[Castagne] hello");
    assert_eq!(g.error("oops"), "[Castagne] ! oops");
    assert_eq!(PRORATION_SCALE, 1000);
    assert_ne!(HitConfirmed::Nothing, HitConfirmed::Hit);
}

#[test]
fn global_flags() {
    let mut flags = vec!["A".to_string(), "B".to_string(), "A".to_string()];
    assert!(CastagneGlobal::has_flag("B", &flags));
    CastagneGlobal::set_flag("B", &mut flags);
    assert_eq!(flags.len(), 3);
    CastagneGlobal::set_flag("C", &mut flags);
    assert_eq!(flags, vec!["A", "B", "A", "C"]);
    CastagneGlobal::unset_flag("A", &mut flags);
    assert_eq!(flags, vec!["B", "C"]);
    assert!(!CastagneGlobal::has_flag("A", &flags));
}

#[test]
fn global_values_from_literals_or_variables() {
    let vars = ints(&[("Speed", 7), ("Zero", 0)]);
    assert_eq!(CastagneGlobal::get_int("12", &vars), 12);
    assert_eq!(CastagneGlobal::get_int("-3", &vars), -3);
    assert_eq!(CastagneGlobal::get_int("Speed", &vars), 7);
    assert_eq!(CastagneGlobal::get_int("Missing", &vars), 0);
    // No trimming: a padded number is looked up as a name.
    assert_eq!(CastagneGlobal::get_int(" 5", &vars), 0);
    assert!(CastagneGlobal::get_bool("Speed", &vars));
    assert!(!CastagneGlobal::get_bool("Zero", &vars));
    assert!(!CastagneGlobal::get_bool("-1", &vars));
    let names = texts(&[("Hero", "Ryu")]);
    assert_eq!(CastagneGlobal::get_str_var("Hero", &names), "Ryu");
    assert_eq!(CastagneGlobal::get_str_var("Villain", &names), "Villain");
    assert_eq!(CastagneGlobal::get_str("x"), "x");
}

#[test]
fn global_fuse_data() {
    let mut base = ints(&[("a", 1), ("b", 2)]);
    CastagneGlobal::fuse_data_overwrite(&mut base, &ints(&[("b", 20), ("c", 30)]));
    assert_eq!(base.get("b"), Some(&20));
    assert_eq!(base.get("c"), Some(&30));
    let mut base = ints(&[("a", 1), ("b", 2)]);
    CastagneGlobal::fuse_data_no_overwrite(&mut base, &ints(&[("b", 20), ("c", 30)]));
    assert_eq!(base.get("b"), Some(&2));
    assert_eq!(base.get("c"), Some(&30));
}

#[test]
fn global_fuse_data_move_with_prefix() {
    let mut base = ints(&[("Attack", 1), ("_Attack", 2), ("Other", 9)]);
    CastagneGlobal::fuse_data_move_with_prefix(&mut base, &ints(&[("Attack", 3)]), "_");
    assert_eq!(base.get("Attack"), Some(&3));
    assert_eq!(base.get("_Attack"), Some(&1));
    assert_eq!(base.get("__Attack"), Some(&2));
    assert_eq!(base.get("Other"), Some(&9));
    assert_eq!(base.len(), 4);
    // A key not yet present is simply added.
    let mut base = ints(&[("x", 1)]);
    CastagneGlobal::fuse_data_move_with_prefix(&mut base, &ints(&[("y", 2)]), "");
    assert_eq!(base.len(), 2);
}

#[test]
fn global_comparisons() {
    let a = values(vec![("x", MemoryValue::Int(1)), ("y", MemoryValue::Str("s".to_string()))]);
    let b = values(vec![("y", MemoryValue::Str("s".to_string())), ("x", MemoryValue::Int(1))]);
    let c = values(vec![("x", MemoryValue::Int(2)), ("y", MemoryValue::Str("s".to_string()))]);
    assert!(CastagneGlobal::are_dictionaries_equal(&a, &b));
    assert!(!CastagneGlobal::are_dictionaries_equal(&a, &c));
    assert!(!CastagneGlobal::are_dictionaries_equal(&a, &values(vec![("x", MemoryValue::Int(1))])));
    assert!(CastagneGlobal::are_arrays_equal(&[1, 2, 3], &[1, 2, 3]));
    assert!(!CastagneGlobal::are_arrays_equal(&[1, 2, 3], &[1, 2]));
    assert!(!CastagneGlobal::are_arrays_equal(&[1, 2, 3], &[1, 2, 4]));
}

#[test]
fn global_split_string_to_array() {
    assert_eq!(CastagneGlobal::split_string_to_array("a, b ,c", ","), vec!["a", "b", "c"]);
    assert_eq!(CastagneGlobal::split_string_to_array("a,,b, ", ","), vec!["a", "b"]);
    assert!(CastagneGlobal::split_string_to_array("", ",").is_empty());
    assert_eq!(CastagneGlobal::split_string_to_array("one::two", "::"), vec!["one", "two"]);
    assert_eq!(CastagneGlobal::split_string_to_array("aaa", "aa"), vec!["a"]);
    assert_eq!(CastagneGlobal::split_string_to_array("a b", ""), vec!["a", "b"]);
    assert_eq!(CastagneGlobal::split_string_to_array("no separator", ";"), vec!["no separator"]);
}

#[test]
fn global_battle_init_data() {
    let mut data: StrMap<StrMap<String>> = StrMap::new();
    data.insert("global".to_string(), texts(&[("Stage", "Dojo")]));
    data.insert("player_0".to_string(), texts(&[("Character", "Baston")]));
    data.insert("player_1_entity_2".to_string(), texts(&[("State", "Idle")]));
    assert_eq!(CastagneGlobal::battle_init_data_get_value(&data, "Stage", None, None), Some("Dojo".to_string()));
    assert_eq!(
        CastagneGlobal::battle_init_data_get_value(&data, "Character", Some(0), None),
        Some("Baston".to_string())
    );
    assert_eq!(
        CastagneGlobal::battle_init_data_get_value(&data, "State", Some(1), Some(2)),
        Some("Idle".to_string())
    );
    assert_eq!(CastagneGlobal::battle_init_data_get_value(&data, "State", None, Some(2)), None);
    assert_eq!(CastagneGlobal::battle_init_data_get_value(&data, "Missing", None, None), None);
    assert!(CastagneGlobal::battle_init_data_get_player(&data, 0).is_some());
    assert!(CastagneGlobal::battle_init_data_get_player(&data, 1).is_none());
    assert!(CastagneGlobal::battle_init_data_get_entity(&data, 1, 2).is_some());
}

#[test]
fn global_module_loader_loads_nothing() {
    let mut loader = ModuleLoader::new();
    assert_eq!(loader.load_modules("res://"), Ok(Vec::new()));
    assert_eq!(loader.load_single_module("res://m.gd"), Ok(String::new()));
    assert_eq!(loader.get_loaded_modules().len(), 0);
}
