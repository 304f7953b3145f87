use unicorn_core::{Engine, EngineAction};

/// Test Data Structure
///
/// Patterns covered:
/// - `\\`: Trigger key logic.
/// - `\l`: Branch with multiple candidates (["λ", "←"]).
/// - `\lam`: Leaf node with auto-commit (single candidate "λ").
/// - `\alpha`: Deep nesting traversal.
/// - `\b`: Intermediate node with candidate ("β") AND children.
const TEST_JSON: &str = r#"{
    "\\": {
        ">>": ["\\"]
    },
    "=": {
        "=": {
            ">>": ["≡"]
        }
    },
    "<": {
        ">>": ["⟨"]
    },
    ">": {
        ">>": ["⟩"]
    },
    "l": {
        ">>": ["λ", "←"],
        "a": {
            "m": {
                ">>": ["λ"]
            }
        }
    },
    "a": {
        "l": {
            "p": {
                "h": {
                    "a": {
                        ">>": ["α"]
                    }
                }
            }
        }
    },
    "b": {
        ">>": ["β"],
        "e": {
            "t": {
                "a": {
                    ">>": ["β"]
                }
            }
        }
    },
    "(": {
        "1": {
            ")": {
                ">>": ["⑴"]
            }
        }
    }
}"#;

#[test]
fn test_real_world_sequence() {
    let mut engine = Engine::new(TEST_JSON).unwrap();
    // 1. Activate
    engine.process_key('\\');

    // 2. Type "==" -> "≡"
    engine.process_key('=');
    let res = engine.process_key('=');
    // This is a leaf node in our test JSON, so it auto-commits "≡"
    assert_eq!(res, vec![EngineAction::Commit("≡".to_string())]);
    assert!(!engine.is_active()); // Leaf commit deactivates

    // 3. Type "\<" -> "⟨"
    engine.process_key('\\');
    let res = engine.process_key('<');
    // Leaf node in test JSON, auto-commits "⟨"
    assert_eq!(res, vec![EngineAction::Commit("⟨".to_string())]);
    assert!(!engine.is_active());

    // 4. Type "\>" -> "⟩"
    engine.process_key('\\');
    let res = engine.process_key('>');
    assert_eq!(res, vec![EngineAction::Commit("⟩".to_string())]);
    assert!(!engine.is_active());
}

#[test]
fn test_activation() {
    let mut engine = Engine::new(TEST_JSON).unwrap();
    assert!(!engine.is_active());

    let res = engine.process_key('\\');
    assert_eq!(res, vec![EngineAction::UpdateComposition("\\".to_string())]);
    assert!(engine.is_active());
    assert_eq!(engine.buffer(), "\\");
}

#[test]
fn test_candidates_display() {
    let mut engine = Engine::new(TEST_JSON).unwrap();
    engine.process_key('\\');

    let res = engine.process_key('l');
    assert_eq!(res, vec![EngineAction::ShowCandidates("\\l".to_string())]);
    assert_eq!(engine.get_candidates(), vec!["λ", "←"]);
}

#[test]
fn test_full_sequence() {
    let mut engine = Engine::new(TEST_JSON).unwrap();
    engine.process_key('\\');
    engine.process_key('l');
    engine.process_key('a');
    let res = engine.process_key('m');

    // \lam -> λ (Leaf auto-commit)
    assert_eq!(res, vec![EngineAction::Commit("λ".to_string())]);
    assert!(!engine.is_active());
}

#[test]
fn test_implicit_commit_rejection() {
    let mut engine = Engine::new(TEST_JSON).unwrap();
    engine.process_key('\\');
    engine.process_key('l');

    let res = engine.process_key('z');
    assert_eq!(res, vec![EngineAction::Reject]);
    assert!(engine.is_active());
    assert_eq!(engine.buffer(), "\\l");
}

#[test]
fn test_backspace_logic() {
    let mut engine = Engine::new(TEST_JSON).unwrap();
    engine.process_key('\\');
    engine.process_key('l');
    assert_eq!(engine.buffer(), "\\l");

    let res = engine.process_key('\x08');
    assert_eq!(res, vec![EngineAction::UpdateComposition("\\".to_string())]);
    assert_eq!(engine.buffer(), "\\");
    assert!(engine.is_active());

    let res = engine.process_key('\x08');
    assert_eq!(res, vec![EngineAction::UpdateComposition("".to_string())]);
    assert!(!engine.is_active());
}

#[test]
fn test_double_backslash() {
    let mut engine = Engine::new(TEST_JSON).unwrap();
    engine.process_key('\\');
    let res = engine.process_key('\\');

    // Should commit "\" and then UpdateComposition to "\" (restart)
    assert_eq!(
        res,
        vec![
            EngineAction::Commit("\\".to_string()),
            EngineAction::UpdateComposition("\\".to_string())
        ]
    );

    assert!(engine.is_active());
    assert_eq!(engine.buffer(), "\\");
}

#[test]
fn test_deactivate_clears_state() {
    let mut engine = Engine::new(TEST_JSON).unwrap();
    engine.process_key('\\');
    engine.process_key('l');
    assert!(engine.is_active());
    assert_eq!(engine.buffer(), "\\l");

    engine.deactivate();

    assert!(!engine.is_active());
    assert_eq!(engine.buffer(), "");
    let res = engine.process_key('\\');
    assert_eq!(res, vec![EngineAction::UpdateComposition("\\".to_string())]);
}

#[test]
fn test_selection_commit() {
    let mut engine = Engine::new(TEST_JSON).unwrap();
    engine.process_key('\\');
    engine.process_key('l');
    // Candidates: ["λ", "←"]

    // Select second candidate "←" (index 1)
    engine.select_candidate(1);

    // Backslash should commit the selected candidate and restart
    let res = engine.process_key('\\');
    assert_eq!(
        res,
        vec![
            EngineAction::Commit("←".to_string()),
            EngineAction::UpdateComposition("\\".to_string())
        ]
    );

    // Should be reset to active start state
    assert!(engine.is_active());
    assert_eq!(engine.buffer(), "\\");
}
