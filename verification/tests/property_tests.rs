use unicorn_core::{Engine, EngineAction, JsonValue, Trie};

/// The configuration of the worked scenarios: `l` carries two
/// candidates and leads on to the leaf `lam` with a single one.
const SCENARIO_JSON: &str = r#"{
    "l": {
        ">>": ["λ", "←"],
        "a": {
            "m": {
                ">>": ["λ"]
            }
        }
    }
}"#;

#[test]
fn test_full_mnemonic_auto_commit() {
    let mut engine = Engine::new(SCENARIO_JSON).unwrap();
    engine.process_key('\\');
    engine.process_key('l');
    engine.process_key('a');
    let res = engine.process_key('m');
    assert_eq!(res, vec![EngineAction::Commit("λ".to_string())]);
    assert!(!engine.is_active());
    assert_eq!(engine.buffer(), "");
}

#[test]
fn test_show_candidates_and_list() {
    let mut engine = Engine::new(SCENARIO_JSON).unwrap();
    engine.process_key('\\');
    let res = engine.process_key('l');
    assert_eq!(res, vec![EngineAction::ShowCandidates("\\l".to_string())]);
    assert_eq!(engine.get_candidates(), vec!["λ", "←"]);
}

#[test]
fn test_selected_candidate_trigger_commit() {
    let mut engine = Engine::new(SCENARIO_JSON).unwrap();
    engine.process_key('\\');
    engine.process_key('l');
    engine.select_candidate(1);
    let res = engine.process_key('\\');
    assert_eq!(
        res,
        vec![
            EngineAction::Commit("←".to_string()),
            EngineAction::UpdateComposition("\\".to_string())
        ]
    );
    assert!(engine.is_active());
    assert_eq!(engine.buffer(), "\\");
}

#[test]
fn test_reject_when_inactive() {
    let mut engine = Engine::new(SCENARIO_JSON).unwrap();
    let res = engine.process_key('z');
    assert_eq!(res, vec![EngineAction::Reject]);
    assert!(!engine.is_active());
    assert_eq!(engine.buffer(), "");
}

#[test]
fn test_backspace_steps() {
    let mut engine = Engine::new(SCENARIO_JSON).unwrap();
    engine.process_key('\\');
    engine.process_key('l');
    let res = engine.process_key('\x08');
    assert_eq!(res, vec![EngineAction::UpdateComposition("\\".to_string())]);
    assert_eq!(engine.buffer(), "\\");
    let res = engine.process_key('\x08');
    assert_eq!(res, vec![EngineAction::UpdateComposition("".to_string())]);
    assert!(!engine.is_active());
}

#[test]
fn test_delete_code_acts_as_backspace() {
    let mut engine = Engine::new(SCENARIO_JSON).unwrap();
    engine.process_key('\\');
    engine.process_key('l');
    let res = engine.process_key('\x7f');
    assert_eq!(res, vec![EngineAction::UpdateComposition("\\".to_string())]);
    assert_eq!(engine.buffer(), "\\");
    assert!(engine.is_active());
}

#[test]
fn test_deactivate_idempotent() {
    let mut engine = Engine::new(SCENARIO_JSON).unwrap();
    engine.process_key('\\');
    engine.process_key('l');
    engine.deactivate();
    assert!(!engine.is_active());
    assert_eq!(engine.buffer(), "");
    engine.deactivate();
    assert!(!engine.is_active());
    assert_eq!(engine.buffer(), "");
}

#[test]
fn test_select_out_of_bounds_is_noop() {
    let mut engine = Engine::new(SCENARIO_JSON).unwrap();
    engine.process_key('\\');
    engine.process_key('l');
    engine.select_candidate(2);
    // Still the first candidate: the trigger commits it.
    let res = engine.process_key('\\');
    assert_eq!(
        res,
        vec![
            EngineAction::Commit("λ".to_string()),
            EngineAction::UpdateComposition("\\".to_string())
        ]
    );
}

#[test]
fn test_trigger_commits_literal_buffer() {
    let mut engine = Engine::new(SCENARIO_JSON).unwrap();
    engine.process_key('\\');
    engine.process_key('l');
    engine.process_key('a');
    // The node reached by "\la" offers no candidates: the trigger
    // commits the literal buffer.
    let res = engine.process_key('\\');
    assert_eq!(
        res,
        vec![
            EngineAction::Commit("\\la".to_string()),
            EngineAction::UpdateComposition("\\".to_string())
        ]
    );
}

#[test]
fn test_unmapped_leaf_commits_literal() {
    // A childless mapping with no candidate list at all: entering it
    // commits the literal buffer plus the key.
    let mut engine = Engine::new(r#"{"x": {}}"#).unwrap();
    engine.process_key('\\');
    let res = engine.process_key('x');
    assert_eq!(res, vec![EngineAction::Commit("\\x".to_string())]);
    assert!(!engine.is_active());
}

#[test]
fn test_null_candidates_treated_as_absent() {
    let mut engine = Engine::new(r#"{"x": {">>": null}}"#).unwrap();
    engine.process_key('\\');
    let res = engine.process_key('x');
    assert_eq!(res, vec![EngineAction::Commit("\\x".to_string())]);
}

#[test]
fn test_process_key_code_matches_chars() {
    let mut engine = Engine::new(SCENARIO_JSON).unwrap();
    let res = engine.process_key_code('\\' as u32);
    assert_eq!(res, vec![EngineAction::UpdateComposition("\\".to_string())]);
    let res = engine.process_key_code('l' as u32);
    assert_eq!(res, vec![EngineAction::ShowCandidates("\\l".to_string())]);
    assert_eq!(engine.buffer(), "\\l");
}

#[test]
fn test_process_key_code_rejects_invalid_code() {
    let mut engine = Engine::new(SCENARIO_JSON).unwrap();
    engine.process_key('\\');
    // A surrogate code point is no character: immediate reject, state kept.
    let res = engine.process_key_code(0xD800);
    assert_eq!(res, vec![EngineAction::Reject]);
    assert!(engine.is_active());
    assert_eq!(engine.buffer(), "\\");
}

#[test]
fn test_invalid_json_fails_construction() {
    let err = match Engine::new("{ not json") {
        Err(e) => e,
        Ok(_) => panic!("expected an error"),
    };
    let unicorn_core::Error::Init { message } = err;
    assert!(!message.is_empty());
}

#[test]
fn test_wrong_shape_fails_construction() {
    // A number where a nested object is expected.
    assert!(Engine::new(r#"{"l": 5}"#).is_err());
    // A non-string candidate entry.
    assert!(Engine::new(r#"{"l": {">>": [1]}}"#).is_err());
    // A candidate list where an object is expected at top level.
    assert!(Engine::new(r#"["λ"]"#).is_err());
    // A key that is not a single input symbol.
    assert!(Engine::new(r#"{"ab": {}}"#).is_err());
}

const BRANCHING_JSON: &str = r#"{
    "b": {
        ">>": ["β"],
        "e": {
            "t": {
                ">>": ["θ"]
            }
        }
    }
}"#;

#[test]
fn test_intermediate_candidates_then_commit() {
    // A node with both a candidate and children is entered, not
    // auto-committed.
    let mut engine = Engine::new(BRANCHING_JSON).unwrap();
    engine.process_key('\\');
    let res = engine.process_key('b');
    assert_eq!(res, vec![EngineAction::ShowCandidates("\\b".to_string())]);
    assert_eq!(engine.get_candidates(), vec!["β"]);
    engine.process_key('e');
    let res = engine.process_key('t');
    assert_eq!(res, vec![EngineAction::Commit("θ".to_string())]);
    assert!(!engine.is_active());
}

#[test]
fn test_backspace_shows_candidates_again() {
    let mut engine = Engine::new(BRANCHING_JSON).unwrap();
    engine.process_key('\\');
    engine.process_key('b');
    engine.process_key('e');
    // Popping back onto a node with candidates re-shows them.
    let res = engine.process_key('\x08');
    assert_eq!(res, vec![EngineAction::ShowCandidates("\\b".to_string())]);
    assert_eq!(engine.get_candidates(), vec!["β"]);
}

#[test]
fn test_from_value_rejects_duplicate_keys() {
    let dup = JsonValue::Obj(vec![
        ("l".to_string(), JsonValue::Obj(vec![])),
        ("l".to_string(), JsonValue::Obj(vec![])),
    ]);
    assert!(Trie::from_value(&dup).is_err());
    let ok = JsonValue::Obj(vec![("l".to_string(), JsonValue::Obj(vec![]))]);
    assert!(Trie::from_value(&ok).is_ok());
}

#[test]
fn test_empty_object_is_valid() {
    let mut engine = Engine::new("{}").unwrap();
    let res = engine.process_key('\\');
    assert_eq!(res, vec![EngineAction::UpdateComposition("\\".to_string())]);
    let res = engine.process_key('q');
    assert_eq!(res, vec![EngineAction::Reject]);
    assert_eq!(engine.buffer(), "\\");
}
