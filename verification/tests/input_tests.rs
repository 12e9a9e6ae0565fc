use castagne_rs::input::{
    CastagneInput, GameInputType, InputDeviceType, InputListsByType, InputSchema,
    InputSchemaEntry, PhysicalInput, PhysicalInputType, SocdType,
};
use castagne_rs::str_map::StrMap;

fn physical(name: &str, input_type: PhysicalInputType) -> PhysicalInput {
    PhysicalInput {
        name: name.to_string(),
        input_type,
        game_input_names: None,
        keyboard_inputs: Vec::new(),
        controller_inputs: Vec::new(),
        combination: None,
    }
}

fn raw(pairs: &[(&str, bool)]) -> StrMap<bool> {
    let mut m = StrMap::new();
    for (k, v) in pairs {
        m.insert(k.to_string(), *v);
    }
    m
}

fn held(m: &StrMap<bool>, k: &str) -> Option<bool> {
    m.get(k).copied()
}

fn entry(name: &str, input_type: GameInputType, combination: Option<Vec<&str>>, any: Option<bool>) -> InputSchemaEntry {
    InputSchemaEntry {
        name: name.to_string(),
        input_type,
        combination: combination.map(|c| c.iter().map(|s| s.to_string()).collect()),
        combination_any: any,
        derived_type: None,
        target: None,
        targets: None,
        dir_id: None,
        game_input_names: None,
    }
}

fn strings(v: &[&str]) -> Vec<String> {
    v.iter().map(|s| s.to_string()).collect()
}

#[test]
fn input_new_manager_is_empty() {
    let input = CastagneInput::new();
    assert!(input.get_devices_list().is_empty());
    assert!(input.get_connected_devices().is_empty());
    assert!(input.get_device(None).is_none());
    assert!(input.get_input_schema().input_list.is_empty());
}

#[test]
fn input_initialize_adds_default_devices() {
    let mut input = CastagneInput::new();
    input.initialize_from_config_data(
        vec![physical("A", PhysicalInputType::Button), physical("Start", PhysicalInputType::Raw)],
        Vec::new(),
    );
    assert_eq!(
        input.get_devices_list(),
        vec!["empty", "ai", "k1", "k2", "c1", "c2", "c3", "c4"]
    );
    assert_eq!(input.get_connected_devices(), vec!["k1", "k2", "c1", "c2", "c3", "c4"]);

    let empty = input.get_device(None).unwrap();
    assert_eq!(empty.name, "empty");
    assert_eq!(empty.display_name, "No Input Device");
    assert_eq!(input.get_device(Some("ai")).unwrap().display_name, "AI Controlled");

    let k1 = input.get_device(Some("k1")).unwrap();
    assert_eq!(k1.display_name, "Keyboard 1");
    assert_eq!(k1.device_action_prefix, "castagne-k1-");
    assert_eq!(k1.bindings_base, 0);
    assert_eq!(k1.controller_id, None);
    assert_eq!(input.get_device(Some("k2")).unwrap().bindings_base, 1);

    let c3 = input.get_device(Some("c3")).unwrap();
    assert_eq!(c3.display_name, "Controller 3");
    assert_eq!(c3.controller_id, Some(2));
    assert!(input.get_device(Some("missing")).is_none());

    let schema = input.get_input_schema();
    assert_eq!(schema.input_list, vec!["A", "Start"]);
    assert_eq!(schema.input_list_by_type.get(GameInputType::Direct), &vec!["A", "Start"]);
    assert!(schema.inputs.contains_key("A"));
}

#[test]
fn input_add_device_twice_keeps_first() {
    let mut input = CastagneInput::new();
    assert!(input.add_device("pad", InputDeviceType::Controller, Some(0)));
    assert!(!input.add_device("pad", InputDeviceType::Keyboard, Some(5)));
    assert_eq!(input.get_devices_list(), vec!["pad"]);
    assert_eq!(input.get_device(Some("pad")).unwrap().device_type, InputDeviceType::Controller);
    assert!(input.is_null_device_type(InputDeviceType::AI));
    assert!(!input.is_null_device_type(InputDeviceType::Keyboard));
}

#[test]
fn input_map_of_axis_and_stick() {
    let mut axis = physical("Move", PhysicalInputType::Axis);
    axis.keyboard_inputs = vec![vec![vec![65]], vec![vec![68]]];
    let stick = physical("Stick", PhysicalInputType::Stick);
    let mut input = CastagneInput::new();
    input.initialize_from_config_data(vec![axis, stick], Vec::new());
    let k1 = input.get_device(Some("k1")).unwrap();
    // An axis binds its two directions, a stick its four.
    assert_eq!(k1.input_map.len(), 6);
    let neg = k1.input_map.get("MoveNegative").unwrap();
    assert_eq!(neg.bindings_keyboard, vec![vec![65]]);
    assert_eq!(neg.action_name, "MoveNegative");
    assert_eq!(k1.input_map.get("MovePositive").unwrap().bindings_keyboard, vec![vec![68]]);
    assert!(k1.input_map.get("MoveNeutral").is_none());
    assert!(k1.input_map.get("StickUp").unwrap().bindings_controller.is_empty());
    assert!(k1.input_map.get("StickBack").is_none());
    // Axes and sticks add nothing to the schema.
    assert!(input.get_input_schema().input_list.is_empty());
}

#[test]
fn input_poll_reports_every_input_released() {
    let mut input = CastagneInput::new();
    let mut menu_up = physical("MenuUp", PhysicalInputType::Button);
    menu_up.game_input_names = Some(vec!["MenuUp".to_string()]);
    input.initialize_from_config_data(vec![physical("A", PhysicalInputType::Button)], vec![menu_up]);
    let polled = input.poll_device(Some("k1")).unwrap();
    assert_eq!(polled.len(), 1);
    assert_eq!(held(&polled, "A"), Some(false));
    let menu = input.poll_device_menu(Some("k1")).unwrap();
    assert_eq!(menu.len(), 1);
    assert_eq!(held(&menu, "Up"), Some(false));
    assert!(input.poll_device(Some("nobody")).is_none());
}

#[test]
fn menu_names_without_prefix_stay_whole() {
    let mut input = CastagneInput::new();
    let mut jump = physical("Jump", PhysicalInputType::Button);
    jump.game_input_names = Some(vec!["Jump".to_string()]);
    let mut menu_ok = physical("MenuConfirm", PhysicalInputType::Button);
    menu_ok.game_input_names = Some(vec!["MenuConfirm".to_string()]);
    input.initialize_from_config_data(Vec::new(), vec![jump, menu_ok]);
    let menu = input.poll_device_menu(Some("k1")).unwrap();
    assert_eq!(menu.len(), 2);
    assert_eq!(held(&menu, "Jump"), Some(false));
    assert_eq!(held(&menu, "Confirm"), Some(false));
    assert_eq!(held(&menu, ""), None);
}

#[test]
fn input_data_copies_direct_inputs() {
    let mut input = CastagneInput::new();
    input.initialize_from_config_data(
        vec![physical("A", PhysicalInputType::Button), physical("B", PhysicalInputType::Button)],
        Vec::new(),
    );
    let data = input.create_input_data_from_raw_input(&raw(&[("A", true), ("Other", true)]));
    assert_eq!(data.len(), 2);
    assert_eq!(held(&data, "A"), Some(true));
    assert_eq!(held(&data, "B"), Some(false));
    assert_eq!(held(&data, "Other"), None);
}

fn socd_schema(kind: SocdType) -> InputSchema {
    let mut inputs = StrMap::new();
    inputs.insert("Left".to_string(), entry("Left", GameInputType::Direct, None, None));
    inputs.insert("Right".to_string(), entry("Right", GameInputType::Direct, None, None));
    InputSchema {
        inputs,
        input_list: strings(&["Left", "Right"]),
        input_list_by_type: InputListsByType {
            direct: strings(&["Left", "Right"]),
            multiple: Vec::new(),
            derived: Vec::new(),
        },
        socds: vec![("Left".to_string(), "Right".to_string(), kind)],
    }
}

#[test]
fn input_socd_neutral_releases_both() {
    let data = socd_schema(SocdType::Neutral).input_data_from_raw(&raw(&[("Left", true), ("Right", true)]));
    assert_eq!(held(&data, "Left"), Some(false));
    assert_eq!(held(&data, "Right"), Some(false));
}

#[test]
fn input_socd_negative_and_positive_pick_a_side() {
    let both = raw(&[("Left", true), ("Right", true)]);
    let neg = socd_schema(SocdType::Negative).input_data_from_raw(&both);
    assert_eq!(held(&neg, "Left"), Some(true));
    assert_eq!(held(&neg, "Right"), Some(false));
    let pos = socd_schema(SocdType::Positive).input_data_from_raw(&both);
    assert_eq!(held(&pos, "Left"), Some(false));
    assert_eq!(held(&pos, "Right"), Some(true));
    // One direction alone is kept.
    let left = socd_schema(SocdType::Neutral).input_data_from_raw(&raw(&[("Left", true)]));
    assert_eq!(held(&left, "Left"), Some(true));
}

fn combo_schema(any: bool) -> InputSchema {
    let mut inputs = StrMap::new();
    inputs.insert("LP".to_string(), entry("LP", GameInputType::Direct, None, None));
    inputs.insert("LK".to_string(), entry("LK", GameInputType::Direct, None, None));
    inputs.insert(
        "Throw".to_string(),
        entry("Throw", GameInputType::Multiple, Some(vec!["LP", "LK"]), Some(any)),
    );
    InputSchema {
        inputs,
        input_list: strings(&["LP", "LK", "Throw"]),
        input_list_by_type: InputListsByType {
            direct: strings(&["LP", "LK"]),
            multiple: strings(&["Throw"]),
            derived: Vec::new(),
        },
        socds: Vec::new(),
    }
}

#[test]
fn input_pressed_combination_presses_its_parts() {
    let data = combo_schema(false).input_data_from_raw(&raw(&[("Throw", true)]));
    assert_eq!(held(&data, "LP"), Some(true));
    assert_eq!(held(&data, "LK"), Some(true));
    assert_eq!(held(&data, "Throw"), Some(true));
}

#[test]
fn input_pressed_any_combination_presses_first_part() {
    let data = combo_schema(true).input_data_from_raw(&raw(&[("Throw", true)]));
    assert_eq!(held(&data, "LP"), Some(true));
    assert_eq!(held(&data, "LK"), Some(false));
    assert_eq!(held(&data, "Throw"), Some(true));
    // With a part already held, nothing else is pressed.
    let data = combo_schema(true).input_data_from_raw(&raw(&[("Throw", true), ("LK", true)]));
    assert_eq!(held(&data, "LP"), Some(false));
    assert_eq!(held(&data, "LK"), Some(true));
}

#[test]
fn input_released_combination_follows_its_parts() {
    let all = combo_schema(false).input_data_from_raw(&raw(&[("Throw", false), ("LP", true), ("LK", true)]));
    assert_eq!(held(&all, "Throw"), Some(true));
    let one = combo_schema(false).input_data_from_raw(&raw(&[("Throw", false), ("LP", true)]));
    assert_eq!(held(&one, "Throw"), Some(false));
    let any = combo_schema(true).input_data_from_raw(&raw(&[("Throw", false), ("LK", true)]));
    assert_eq!(held(&any, "Throw"), Some(true));
    // Not in the raw input at all: left released.
    let absent = combo_schema(false).input_data_from_raw(&raw(&[("LP", true), ("LK", true)]));
    assert_eq!(held(&absent, "Throw"), Some(false));
}
