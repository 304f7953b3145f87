//! An input-method composition engine: a prefix tree of mnemonic key
//! sequences (for example `\lam`) mapped to candidate output symbols
//! (for example `λ`), and a state machine that walks the tree one key
//! at a time, emitting the actions a caller must apply.

pub mod engine;
pub mod error;
pub mod json;
pub mod trie;

pub use engine::Engine;
pub use engine::EngineAction;
pub use error::Error;
pub use json::JsonValue;
pub use trie::Trie;
pub use trie::TrieNode;
