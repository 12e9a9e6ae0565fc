use castagne_rs::parser::{
    CastagneParser, FileSource, ParseProgress, ParsedCharacter, ParsedVariable, StateType, VariableMutability,
    VariableType,
};

const TEST_CHARACTER: &str = "\
:Character:
Name: Test Character
Author: Parser Test
Description: A small character for parser tests

:Variables:
var Health(Int): 100
var MoveSpeed(Int): 5
def MAX_HEALTH: 100

:Idle:
---Init:
Set(Health, 100)
---Action:
Move(MoveSpeed) # walk
";

const COMPLETE_CHARACTER: &str = "\
:Character:
Name: Complete Test Fighter
Author: Parser Development Team
Description: A comprehensive character exercising every block

:AttackData:
LightPunchDamage: 5
HeavyPunchDamage: 15

:PhysicsConfig:
Gravity: 10
JumpForce: 25

:Variables:
var Health(Int): 150
var Combo(Int): 0
var Stun(Int): 0
var PlayerName(Str): Fighter
var Taunt(Str): Come on
var IsGrounded(Bool): true
var IsAttacking(Bool): false
var Position(Vec2): 0, 0
var Velocity(Vec2): 0, 0
var Target(Vec3): 0, 0, 0
var Meter(Var): 0
var AnimationState(Str): Idle
def MAX_COMBO: 10
def GROUND_Y: 0

:Idle:
---Init:
Set(AnimationState, \"Idle\")
Set(Velocity, 0)
Set(IsAttacking, false)
---Action:
CheckInput()

:Walk:
---Init:
Set(AnimationState, \"Walk\")
---Action:
Move(1)

:Jump:
---Init:
Set(IsGrounded, false)
---Action:
ApplyGravity(10)

:LightPunch:
---Init:
Set(IsAttacking, true)
---Action:
Attack(5)
---Reaction:
Transition(Idle)

:HeavyPunch:
---Init:
Set(IsAttacking, true)
---Action:
Attack(15)
";

const ADVANCED_CHARACTER: &str = "\
:Character:
Name: Advanced Fighter
Author: Parser Test

:Variables:
var Meter(Int): 0

:Dash(Helper, Base):
---Action:
Move(F(2, 3), \"a, b\")

:Base(Helper):
---Init:
Set(Meter, 1)
";

const PARENT_CHARACTER: &str = "\
:Character:
Name: Parent Character
Author: Parent Author

:Config:
BaseSpeed: 5
BaseJump: 10

:Variables:
var Health(Int): 100
var Speed(Int): 5
var ParentOnly(Int): 1

:BaseAttack:
---Action:
Attack(1)
";

const CHILD_CHARACTER: &str = "\
:Character:
Name: Child Character
Author: Parser Test
Skeleton: test_parent.casp

:Config:
BaseSpeed: 10
ChildSpeed: 8

:Variables:
var Health(Int): 150
var ChildOnly(Int): 2

:Idle:
---Init:
Set(Health, 150)
";

fn lines_of(text: &str) -> Vec<String> {
    text.lines().map(|l| l.to_string()).collect()
}

fn parse(path: &str, text: &str) -> Option<ParsedCharacter> {
    CastagneParser::new().create_full_character_from_source(path, text)
}

fn var(name: &str, value: &str) -> ParsedVariable {
    ParsedVariable {
        name: name.to_string(),
        mutability: VariableMutability::Variable,
        var_type: VariableType::Var,
        subtype: String::new(),
        value: value.to_string(),
    }
}

#[test]
fn test_full_file_parse() {
    let result = parse("test_character.casp", TEST_CHARACTER);
    assert!(result.is_some(), "Failed to parse test_character.casp");
    let character = result.unwrap();
    assert_eq!(character.metadata.name, "Test Character");
    assert_eq!(character.metadata.author, "Parser Test");
    assert!(character.variables.contains_key("Health"));
    assert!(character.variables.contains_key("MoveSpeed"));
    assert!(character.variables.contains_key("MAX_HEALTH"));
    assert!(character.states.contains_key("Idle"));
    let idle_state = character.states.get("Idle").unwrap();
    assert!(idle_state.actions.contains_key("Init"));
    assert!(idle_state.actions.contains_key("Action"));
}

#[test]
fn test_skeleton_inheritance() {
    let parent = parse("test_parent.casp", PARENT_CHARACTER);
    assert!(parent.is_some());

    let mut parser = CastagneParser::new();
    parser.start_parsing("test_child.casp", FileSource::Lines(lines_of(CHILD_CHARACTER)));
    let progress = parser.parse_full_file();
    match progress {
        ParseProgress::SkeletonNeeded(path) => {
            assert_eq!(path, "test_parent.casp");
            parser.load_skeleton(&path, parent);
            parser.finish_full_file();
        }
        ParseProgress::Finished => panic!("the child names a skeleton"),
    }
    let result = parser.end_parsing();
    assert!(result.is_some(), "Failed to parse child character with skeleton");
    let character = result.unwrap();

    assert_eq!(character.metadata.name, "Child Character");
    assert_eq!(character.metadata.author, "Parser Test");
    assert!(character.variables.contains_key("ParentOnly"), "Child should inherit ParentOnly variable from parent");
    assert!(character.variables.contains_key("ChildOnly"), "Child should have its own ChildOnly variable");
    let health = character.variables.get("Health").unwrap();
    assert_eq!(health.value, "150", "Child should override parent's Health value");
    assert!(character.variables.contains_key("Speed"), "Child should inherit Speed variable from parent");

    let config = character.specblocks.get("Config").unwrap();
    assert_eq!(config.get("BaseSpeed"), Some(&"10".to_string()), "Child should override parent's BaseSpeed");
    assert_eq!(config.get("BaseJump"), Some(&"10".to_string()), "Child should inherit parent's BaseJump");
    assert_eq!(config.get("ChildSpeed"), Some(&"8".to_string()), "Child should have its own ChildSpeed");

    assert!(character.states.contains_key("BaseAttack"), "Child should inherit BaseAttack state from parent");
    assert!(character.states.contains_key("Idle"), "Child should have its own Idle state");
}

#[test]
fn test_complete_character_file() {
    let result = parse("test_character_complete.casp", COMPLETE_CHARACTER);
    assert!(result.is_some(), "Failed to parse complete character file");
    let character = result.unwrap();

    assert_eq!(character.metadata.name, "Complete Test Fighter");
    assert_eq!(character.metadata.author, "Parser Development Team");

    assert!(character.specblocks.contains_key("AttackData"));
    assert!(character.specblocks.contains_key("PhysicsConfig"));
    let attack_data = character.specblocks.get("AttackData").unwrap();
    assert_eq!(attack_data.get("LightPunchDamage"), Some(&"5".to_string()));
    assert_eq!(attack_data.get("HeavyPunchDamage"), Some(&"15".to_string()));
    let physics = character.specblocks.get("PhysicsConfig").unwrap();
    assert_eq!(physics.get("Gravity"), Some(&"10".to_string()));
    assert_eq!(physics.get("JumpForce"), Some(&"25".to_string()));

    for name in ["Health", "PlayerName", "IsGrounded", "Position", "Meter", "MAX_COMBO"] {
        assert!(character.variables.contains_key(name));
    }
    let health = character.variables.get("Health").unwrap();
    assert_eq!(health.var_type, VariableType::Int);
    assert_eq!(health.value, "150");
    let is_grounded = character.variables.get("IsGrounded").unwrap();
    assert_eq!(is_grounded.var_type, VariableType::Bool);
    assert_eq!(is_grounded.value, "true");
    let position = character.variables.get("Position").unwrap();
    assert_eq!(position.var_type, VariableType::Vec2);
    assert_eq!(position.value, "0, 0");

    for name in ["Idle", "Walk", "Jump", "LightPunch", "HeavyPunch"] {
        assert!(character.states.contains_key(name));
    }
    let idle = character.states.get("Idle").unwrap();
    assert!(idle.actions.contains_key("Init"));
    assert!(idle.actions.contains_key("Action"));
    let jump = character.states.get("Jump").unwrap();
    assert!(jump.actions.contains_key("Init"));
    assert!(jump.actions.contains_key("Action"));
    let light_punch = character.states.get("LightPunch").unwrap();
    assert!(light_punch.actions.contains_key("Init"));
    assert!(light_punch.actions.contains_key("Action"));
    assert!(light_punch.actions.contains_key("Reaction"));
}

#[test]
fn test_basic_template_complete_character_file() {
    let mut parser = CastagneParser::new();
    parser.open_file("test_character_complete.casp", FileSource::Lines(lines_of(COMPLETE_CHARACTER)));
    if parser.aborting || parser.invalid_file {
        panic!("Failed to load test_character_complete.casp");
    }
    assert!(matches!(parser.parse_full_file(), ParseProgress::Finished));
    let result = parser.end_parsing();
    assert!(result.is_some(), "Parser should successfully parse test_character_complete.casp");
    let character = result.unwrap();

    assert_eq!(character.metadata.name, "Complete Test Fighter");
    assert_eq!(character.metadata.author, "Parser Development Team");
    assert!(character.metadata.description.contains("comprehensive"));

    assert_eq!(character.specblocks.len(), 2);
    let attack_data = character.specblocks.get("AttackData").unwrap();
    assert_eq!(attack_data.get("LightPunchDamage"), Some(&"5".to_string()));
    assert_eq!(attack_data.get("HeavyPunchDamage"), Some(&"15".to_string()));
    let physics = character.specblocks.get("PhysicsConfig").unwrap();
    assert_eq!(physics.get("Gravity"), Some(&"10".to_string()));
    assert_eq!(physics.get("JumpForce"), Some(&"25".to_string()));

    assert_eq!(character.variables.len(), 14);
    assert_eq!(character.variables.get("Health").unwrap().var_type, VariableType::Int);
    assert_eq!(character.variables.get("Health").unwrap().value, "150");
    assert_eq!(character.variables.get("PlayerName").unwrap().var_type, VariableType::Str);
    assert_eq!(character.variables.get("IsGrounded").unwrap().var_type, VariableType::Bool);
    assert_eq!(character.variables.get("Position").unwrap().var_type, VariableType::Vec2);
    assert_eq!(character.variables.get("Meter").unwrap().var_type, VariableType::Var);
    assert_eq!(character.variables.get("MAX_COMBO").unwrap().mutability, VariableMutability::Define);

    assert_eq!(character.states.len(), 5);
    let idle = character.states.get("Idle").unwrap();
    assert!(idle.actions.contains_key("Init"));
    assert!(idle.actions.contains_key("Action"));
    assert_eq!(idle.state_type, StateType::Normal);
    let idle_init = idle.actions.get("Init").unwrap();
    assert_eq!(idle_init.len(), 3);
    assert_eq!(idle_init[0].instruction, "Set");
    assert_eq!(idle_init[0].args[0], "AnimationState");
    let light_punch = character.states.get("LightPunch").unwrap();
    assert!(light_punch.actions.contains_key("Init"));
    assert!(light_punch.actions.contains_key("Action"));
    assert!(light_punch.actions.contains_key("Reaction"));
}

#[test]
fn test_basic_template_basic_character_file() {
    let mut parser = CastagneParser::new();
    parser.open_file("test_character.casp", FileSource::Lines(lines_of(TEST_CHARACTER)));
    if parser.aborting || parser.invalid_file {
        panic!("Failed to load test_character.casp");
    }
    parser.parse_full_file();
    let result = parser.end_parsing();
    assert!(result.is_some(), "Parser should successfully parse test_character.casp");
    let character = result.unwrap();
    assert!(!character.metadata.name.is_empty());
    assert!(character.states.len() > 0 || character.variables.len() > 0);
}

#[test]
fn test_basic_template_advanced_character_file() {
    let mut parser = CastagneParser::new();
    parser.open_file("test_character_advanced.casp", FileSource::Lines(lines_of(ADVANCED_CHARACTER)));
    if parser.aborting || parser.invalid_file {
        panic!("Failed to load test_character_advanced.casp");
    }
    parser.parse_full_file();
    let result = parser.end_parsing();
    assert!(result.is_some(), "Parser should successfully parse test_character_advanced.casp");
    let character = result.unwrap();
    assert!(!character.metadata.name.is_empty());
    assert!(character.states.len() > 0);
    let dash = character.states.get("Dash").unwrap();
    assert_eq!(dash.state_type, StateType::Helper);
    assert_eq!(dash.parent.as_deref(), Some("Base"));
    let moves = dash.actions.get("Action").unwrap();
    assert_eq!(moves[0].args, vec!["F(2, 3)".to_string(), "\"a, b\"".to_string()]);
}

#[test]
fn test_type_inference_var_type() {
    let int_var = var("AutoInt", "100");
    assert_eq!(int_var.as_int(), Some(100));
    let bool_var = var("AutoBool", "true");
    assert_eq!(bool_var.as_bool(), Some(true));
}
