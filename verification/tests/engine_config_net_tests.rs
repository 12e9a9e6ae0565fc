use castagne_rs::config::CastagneConfig;
use castagne_rs::engine::{frame_schedule, phase_schedule, EngineStep, FrameHook, Phase, PhaseHook};
use castagne_rs::json::{
    compare_json_values, golden_master_matches, json_values_equal, parse_json_text, JsonNumber, JsonTree,
};
use castagne_rs::memory::MemoryValue;
use castagne_rs::module::{ModuleFunction, ModuleVariable};
use castagne_rs::modules::test_module::TestModule;
use castagne_rs::memory::CastagneMemory;
use castagne_rs::net::{CastagneNet, NetworkSyncStatus};

#[test]
fn engine_phase_names() {
    assert_eq!(Phase::AI.as_str(), "AI");
    assert_eq!(Phase::Subentity.as_str(), "Subentity");
    assert_eq!(Phase::Freeze.as_str(), "Freeze");
}

#[test]
fn engine_phase_schedule() {
    let steps = phase_schedule(Phase::Action, &[4, 7], 2);
    let expected = vec![
        EngineStep::SetPhase(Phase::Action),
        EngineStep::PhaseCall(Phase::Action, PhaseHook::Start, 0),
        EngineStep::PhaseCall(Phase::Action, PhaseHook::Start, 1),
        EngineStep::PointToEntity(4),
        EngineStep::PhaseCall(Phase::Action, PhaseHook::StartEntity, 0),
        EngineStep::PhaseCall(Phase::Action, PhaseHook::StartEntity, 1),
        EngineStep::PointToEntity(7),
        EngineStep::PhaseCall(Phase::Action, PhaseHook::StartEntity, 0),
        EngineStep::PhaseCall(Phase::Action, PhaseHook::StartEntity, 1),
        EngineStep::PointToEntity(4),
        EngineStep::PhaseCall(Phase::Action, PhaseHook::EndEntity, 0),
        EngineStep::PhaseCall(Phase::Action, PhaseHook::EndEntity, 1),
        EngineStep::PointToEntity(7),
        EngineStep::PhaseCall(Phase::Action, PhaseHook::EndEntity, 0),
        EngineStep::PhaseCall(Phase::Action, PhaseHook::EndEntity, 1),
        EngineStep::PhaseCall(Phase::Action, PhaseHook::End, 0),
        EngineStep::PhaseCall(Phase::Action, PhaseHook::End, 1),
    ];
    assert_eq!(steps, expected);
    // 1 + 2n + 2 * entities * (n + 1)
    assert_eq!(phase_schedule(Phase::AI, &[1, 2, 3], 4).len(), 1 + 8 + 2 * 3 * 5);
}

#[test]
fn engine_frame_schedule() {
    let steps = frame_schedule(&[], 1);
    let expected = vec![
        EngineStep::FrameCall(FrameHook::PreStart, 0),
        EngineStep::FrameCall(FrameHook::Start, 0),
        EngineStep::SetPhase(Phase::AI),
        EngineStep::PhaseCall(Phase::AI, PhaseHook::Start, 0),
        EngineStep::PhaseCall(Phase::AI, PhaseHook::End, 0),
        EngineStep::SetPhase(Phase::Input),
        EngineStep::PhaseCall(Phase::Input, PhaseHook::Start, 0),
        EngineStep::PhaseCall(Phase::Input, PhaseHook::End, 0),
        EngineStep::SetPhase(Phase::Init),
        EngineStep::PhaseCall(Phase::Init, PhaseHook::Start, 0),
        EngineStep::PhaseCall(Phase::Init, PhaseHook::End, 0),
        EngineStep::SetPhase(Phase::Action),
        EngineStep::PhaseCall(Phase::Action, PhaseHook::Start, 0),
        EngineStep::PhaseCall(Phase::Action, PhaseHook::End, 0),
        EngineStep::SetPhase(Phase::Physics),
        EngineStep::PhaseCall(Phase::Physics, PhaseHook::Start, 0),
        EngineStep::PhaseCall(Phase::Physics, PhaseHook::End, 0),
        EngineStep::SetPhase(Phase::Reaction),
        EngineStep::PhaseCall(Phase::Reaction, PhaseHook::Start, 0),
        EngineStep::PhaseCall(Phase::Reaction, PhaseHook::End, 0),
        EngineStep::FrameCall(FrameHook::End, 0),
    ];
    assert_eq!(steps, expected);
    assert!(frame_schedule(&[], 0).iter().all(|s| matches!(s, EngineStep::SetPhase(_))));
}

#[test]
fn config_data_and_modules() {
    let mut c = CastagneConfig::new();
    assert!(c.get("Speed").is_none());
    c.set("Speed", MemoryValue::Int(3), false);
    assert!(!c.has("Speed"));
    c.set("Speed", MemoryValue::Int(3), true);
    assert!(matches!(c.get("Speed"), Some(MemoryValue::Int(3))));
    assert!(matches!(c.get_or("Gravity", MemoryValue::Int(9)), MemoryValue::Int(9)));
    assert!(matches!(c.get_or("Speed", MemoryValue::Int(9)), MemoryValue::Int(3)));
    c.set("Name", MemoryValue::Str("x".to_string()), true);
    let mut keys = c.get_config_keys();
    keys.sort();
    assert_eq!(keys, vec!["Name", "Speed"]);
    assert_eq!(c.register_module(Some("Core")), 0);
    assert_eq!(c.register_module(None), 1);
    assert_eq!(c.register_module(Some("Physics")), 2);
    assert_eq!(c.module_count(), 3);
    assert_eq!(c.get_module_slot("Core"), Some(0));
    assert_eq!(c.get_module_slot("Physics"), Some(2));
    assert_eq!(c.get_module_slot("Graphics"), None);
    assert_eq!(c.load_from_config_file("config.json"), Ok(()));
    assert_eq!(c.save_config_file("config.json"), Ok(()));
}

#[test]
fn module_data_and_test_module() {
    let v = ModuleVariable {
        name: "HP".to_string(),
        default_value: MemoryValue::Int(100),
        flags: vec!["Reset".to_string()],
        reset_each_frame: true,
    };
    assert_eq!(v.clone().name, "HP");
    let f = ModuleFunction { name: "Set".to_string(), arg_count: vec![2, 3], description: String::new() };
    assert_eq!(f.arg_count, vec![2, 3]);
    let mut m = TestModule::new();
    assert_eq!(m.module_name(), "TestModule");
    let mut memory = CastagneMemory::new();
    m.battle_init(&mut memory);
    assert!(matches!(memory.global_get("TestVariable"), Some(MemoryValue::Int(42))));
}

#[test]
fn net_events() {
    let mut net = CastagneNet::new();
    assert_eq!(net.get_network_sync_status(), NetworkSyncStatus::Off);
    assert_eq!(net.get_nb_peers(), 0);
    net.host();
    assert_eq!(net.get_nb_peers(), 1);
    assert_eq!(net.get_network_sync_status(), NetworkSyncStatus::Starting);
    net.on_network_peer_connected(-5);
    assert_eq!(net.get_nb_peers(), 2);
    net.on_server_disconnected();
    assert_eq!(net.get_nb_peers(), 1);
    net.start_sync();
    assert_eq!(net.get_network_sync_status(), NetworkSyncStatus::Ready);
    net.on_sync_manager_sync_error("bad");
    assert_eq!(net.get_network_sync_status(), NetworkSyncStatus::Off);
    net.disconnect();
    assert_eq!(net.get_nb_peers(), 0);
    net.on_network_peer_disconnected(3);
    assert_eq!(net.get_nb_peers(), 0);
    assert_eq!(
        net.get_net_log(),
        "[Net] Hosting Server (TODO: Not implemented)\n\
         [Net] Network Peer Connected: -5 (TODO: Not implemented)\n\
         [Net] Server Disconnected (TODO: Not implemented)\n\
         [Net] Network Peer Disconnected: 1 (TODO: Not implemented)\n\
         [Net] Starting Sync (TODO: Not implemented)\n\
         [Net] SyncManager Fatal Sync Error! bad\n\
         [Net] Disconnecting (TODO: Not implemented)\n\
         [Net] Network Peer Disconnected: 3 (TODO: Not implemented)\n"
    );
    net.clear_net_log();
    assert_eq!(net.get_net_log(), "");
}

#[test]
fn net_join_logs_address() {
    let mut net = CastagneNet::default();
    net.set_server_ip("10.0.0.2".to_string());
    net.set_server_port(7000);
    net.join();
    assert_eq!(net.get_net_log(), "[Net] Joining Server at 10.0.0.2:7000 (TODO: Not implemented)\n");
    assert!(net.save_state().is_empty());
    assert_eq!(net.get_current_frame(), 0);
    assert_eq!(net.get_input_delay(), 0);
}

fn obj(entries: Vec<(&str, JsonTree)>) -> JsonTree {
    JsonTree::Object(entries.into_iter().map(|(k, v)| (k.to_string(), v)).collect())
}

fn num(n: u64) -> JsonTree {
    JsonTree::Number(JsonNumber::PosInt(n))
}

#[test]
fn json_golden_keys_must_match() {
    let golden = obj(vec![("a", num(1)), ("b", JsonTree::Array(vec![num(2), JsonTree::Null]))]);
    let same = obj(vec![("b", JsonTree::Array(vec![num(2), JsonTree::Null])), ("a", num(1))]);
    let more = obj(vec![("a", num(1)), ("b", JsonTree::Array(vec![num(2), JsonTree::Null])), ("c", num(3))]);
    let missing = obj(vec![("a", num(1))]);
    let other = obj(vec![("a", num(2)), ("b", JsonTree::Array(vec![num(2), JsonTree::Null]))]);
    let short = obj(vec![("a", num(1)), ("b", JsonTree::Array(vec![num(2)]))]);
    assert!(compare_json_values(&golden, &same));
    assert!(compare_json_values(&golden, &more));
    assert!(!compare_json_values(&golden, &missing));
    assert!(!compare_json_values(&golden, &other));
    assert!(!compare_json_values(&golden, &short));
    assert!(compare_json_values(&golden, &golden));
}

#[test]
fn json_leaves_compare_by_value() {
    assert!(compare_json_values(&JsonTree::Str("x".to_string()), &JsonTree::Str("x".to_string())));
    assert!(!compare_json_values(&JsonTree::Bool(true), &JsonTree::Bool(false)));
    assert!(!compare_json_values(&num(1), &JsonTree::Number(JsonNumber::NegInt(-1))));
    assert!(!compare_json_values(&num(1), &JsonTree::Str("1".to_string())));
    assert!(json_values_equal(&JsonTree::Null, &JsonTree::Null));
    // Equality, unlike matching, wants the same keys in the same order.
    let ab = obj(vec![("a", num(1)), ("b", num(2))]);
    let ba = obj(vec![("b", num(2)), ("a", num(1))]);
    assert!(!json_values_equal(&ab, &ba));
    assert!(compare_json_values(&ab, &ba));
}

#[test]
fn json_zeros_of_both_signs_are_equal() {
    let pos = JsonTree::Number(JsonNumber::Float(0.0f64.to_bits()));
    let neg = JsonTree::Number(JsonNumber::Float((-0.0f64).to_bits()));
    let one = JsonTree::Number(JsonNumber::Float(1.0f64.to_bits()));
    assert!(json_values_equal(&pos, &neg));
    assert!(compare_json_values(&neg, &pos));
    assert!(!json_values_equal(&pos, &one));
}

#[test]
fn json_text_is_read_one_for_one() {
    let t = parse_json_text("{\"b\": [1, -2, 1.5], \"a\": null, \"s\": \"x\"}").unwrap();
    let expected = obj(vec![
        ("a", JsonTree::Null),
        ("b", JsonTree::Array(vec![
            num(1),
            JsonTree::Number(JsonNumber::NegInt(-2)),
            JsonTree::Number(JsonNumber::Float(1.5f64.to_bits())),
        ])),
        ("s", JsonTree::Str("x".to_string())),
    ]);
    assert!(json_values_equal(&t, &expected));
    assert!(parse_json_text("{not json").is_none());
}

#[test]
fn golden_master_is_read_and_matched() {
    let output = obj(vec![("name", JsonTree::Str("X".to_string())), ("hp", num(100)), ("z", JsonTree::Number(JsonNumber::Float(0.0f64.to_bits())))]);
    assert_eq!(golden_master_matches("{\"name\": \"X\"}", &output), Ok(true));
    assert_eq!(golden_master_matches("{\"hp\": 100, \"z\": -0.0}", &output), Ok(true));
    assert_eq!(golden_master_matches("{\"hp\": 99}", &output), Ok(false));
    assert_eq!(golden_master_matches("{\"missing\": 1}", &output), Ok(false));
    assert_eq!(golden_master_matches("[1,", &output), Err(()));
}
