use castagne_rs::parser::{CastagneParser, FileSource};

#[test]
fn arguments_come_out_trimmed_and_non_empty() {
    let parser = CastagneParser::new();
    let args = parser.parse_arguments("  a ,, \t F( b , c ) ,   , \"x, y\"  ");
    assert_eq!(args, vec!["a", "F( b , c )", "\"x, y\""]);
    for a in &args {
        assert!(!a.is_empty());
        assert_eq!(a.trim(), a.as_str());
    }
}

#[test]
fn blank_argument_list_gives_no_arguments() {
    let parser = CastagneParser::new();
    assert!(parser.parse_arguments("").is_empty());
    assert!(parser.parse_arguments(" ,  , ").is_empty());
}

#[test]
fn comment_stripping_keeps_a_prefix() {
    let parser = CastagneParser::new();
    let line = "Move(10) # go \"right\"";
    let stripped = parser.strip_inline_comment(line);
    assert_eq!(stripped, "Move(10) ");
    assert!(line.starts_with(stripped.as_str()));
}

#[test]
fn line_without_hash_is_left_whole() {
    let parser = CastagneParser::new();
    let line = "  Set(\"a\\\"b\", 3)  ";
    assert_eq!(parser.strip_inline_comment(line), line);
}

#[test]
fn hash_inside_string_is_kept() {
    let parser = CastagneParser::new();
    assert_eq!(parser.strip_inline_comment("Log(\"#1\") # note"), "Log(\"#1\") ");
}

#[test]
fn unopenable_file_is_reported() {
    let mut parser = CastagneParser::new();
    parser.start_parsing("a.casp", FileSource::Unopenable("no such file".to_string()));
    assert!(parser.aborting && parser.invalid_file);
    assert_eq!(
        parser.get_errors(),
        ["File a.casp does not exist or cannot be opened: no such file".to_string()]
    );
    assert!(parser.end_parsing().is_none());
}

#[test]
fn unreadable_line_is_reported_with_its_index() {
    let mut parser = CastagneParser::new();
    let lines = vec![":Character:".to_string(), "Name: X".to_string()];
    parser.start_parsing("b.casp", FileSource::Unreadable(lines, "bad utf-8".to_string()));
    assert_eq!(parser.current_lines.len(), 2);
    assert_eq!(parser.line_ids, vec![1, 2]);
    assert_eq!(
        parser.get_errors(),
        ["Error reading line 2 from b.casp: bad utf-8".to_string()]
    );
}

#[test]
fn character_info_parses_metadata_and_specblocks() {
    let mut parser = CastagneParser::new();
    let lines: Vec<String> = [":Character:", "Name: X", ":Config:", "Speed: 1", ":Idle:", "---Init:", "Move(1)"]
        .iter()
        .map(|l| l.to_string())
        .collect();
    let c = parser.get_character_info("i.casp", FileSource::Lines(lines)).unwrap();
    assert_eq!(c.metadata.name, "X");
    assert_eq!(c.specblocks.get("Config").unwrap().get("Speed").unwrap(), "1");
    assert!(c.states.is_empty());
    assert!(c.variables.is_empty());
}

#[test]
fn comment_stripping_is_idempotent_and_cuts_at_hash() {
    let parser = CastagneParser::new();
    for line in ["Move(1) # a # b", "Say(\"#\") #x", "plain", "\"open # string", "#all comment"] {
        let once = parser.strip_inline_comment(line);
        assert!(line.starts_with(once.as_str()));
        let rest = &line[once.len()..];
        assert!(rest.is_empty() || rest.starts_with('#'));
        assert_eq!(parser.strip_inline_comment(&once), once);
    }
}

#[test]
fn plain_arguments_split_at_every_comma() {
    let parser = CastagneParser::new();
    let text = " a , b,,c ,  ";
    let expected: Vec<String> =
        text.split(',').map(str::trim).filter(|x| !x.is_empty()).map(String::from).collect();
    assert_eq!(parser.parse_arguments(text), expected);
}

#[test]
fn state_body_groups_actions_by_phase_in_file_order() {
    let text = "\
:Idle:
Orphan()
---Init:
A(1)
---Action:
B(2)
---Init:
C(3)
--- no colon
D(4)
:Other:
---Init:
E(5)
";
    let character = CastagneParser::new().create_full_character_from_source("s.casp", text).unwrap();
    let idle = character.states.get("Idle").unwrap();
    assert_eq!(idle.actions.len(), 2);
    let init: Vec<&str> = idle.actions.get("Init").unwrap().iter().map(|a| a.instruction.as_str()).collect();
    assert_eq!(init, vec!["A", "C", "D"]);
    let action: Vec<&str> = idle.actions.get("Action").unwrap().iter().map(|a| a.instruction.as_str()).collect();
    assert_eq!(action, vec!["B"]);
    assert_eq!(character.states.len(), 2);
}

#[test]
fn joined_arguments_split_back() {
    let parser = CastagneParser::new();
    for text in ["a, F(b, c) ,\"d, e\"", " x ,, (y, z", "\"unclosed, string", "p), q, r"] {
        let args = parser.parse_arguments(text);
        assert_eq!(parser.parse_arguments(&args.join(", ")), args);
    }
}
