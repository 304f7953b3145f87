use vstd::prelude::*;

use crate::error::Error;
use crate::json::json_parse;
use crate::json::parse_json;
use crate::trie::{
    Trie,
    TrieNode,
    arena_wf,
    lookup_child,
    lemma_lookup_child_found,
    node_matches,
    valid_config,
};

verus! {

/// The input symbol that starts (or restarts) a composition sequence.
pub const TRIGGER: char = '\\';

/// The two key codes treated identically as delete-backward.
pub const BACKSPACE: char = '\x08';

pub const DELETE: char = '\x7f';

pub open spec fn is_backspace(c: char) -> bool {
    c == BACKSPACE || c == DELETE
}

/// What the caller must do in response to one key event. Multiple
/// actions returned by one call are applied in order.
#[derive(Debug)]
pub enum EngineAction {
    /// The input key was invalid for the current state.
    Reject,
    /// The composition buffer changed; update the inline pre-edit text.
    UpdateComposition(String),
    /// Composition finished; insert the text and clear composition state.
    Commit(String),
    /// Several candidates are on offer; display them. The text is the
    /// current composition buffer.
    ShowCandidates(String),
}

/// The mathematical shape of an action: its text as a sequence of chars.
#[verifier::ext_equal]
pub enum ActionModel {
    Reject,
    UpdateComposition(Seq<char>),
    Commit(Seq<char>),
    ShowCandidates(Seq<char>),
}

impl View for EngineAction {
    type V = ActionModel;

    open spec fn view(&self) -> ActionModel {
        match self {
            EngineAction::Reject => ActionModel::Reject,
            EngineAction::UpdateComposition(t) => ActionModel::UpdateComposition(t@),
            EngineAction::Commit(t) => ActionModel::Commit(t@),
            EngineAction::ShowCandidates(t) => ActionModel::ShowCandidates(t@),
        }
    }
}

impl DeepView for EngineAction {
    type V = ActionModel;

    open spec fn deep_view(&self) -> ActionModel {
        self.view()
    }
}

impl PartialEq for EngineAction {
    fn eq(&self, other: &Self) -> (r: bool) {
        match (self, other) {
            (EngineAction::Reject, EngineAction::Reject) => true,
            (EngineAction::UpdateComposition(a), EngineAction::UpdateComposition(b)) => *a == *b,
            (EngineAction::Commit(a), EngineAction::Commit(b)) => *a == *b,
            (EngineAction::ShowCandidates(a), EngineAction::ShowCandidates(b)) => *a == *b,
            _ => false,
        }
    }
}

impl vstd::std_specs::cmp::PartialEqSpecImpl for EngineAction {
    open spec fn obeys_eq_spec() -> bool {
        true
    }

    open spec fn eq_spec(&self, other: &Self) -> bool {
        match (self, other) {
            (EngineAction::Reject, EngineAction::Reject) => true,
            (EngineAction::UpdateComposition(a), EngineAction::UpdateComposition(b)) => a@ == b@,
            (EngineAction::Commit(a), EngineAction::Commit(b)) => a@ == b@,
            (EngineAction::ShowCandidates(a), EngineAction::ShowCandidates(b)) => a@ == b@,
            _ => false,
        }
    }
}

/// The abstract state of the engine: the active flag, the composition
/// buffer, the traversal path as arena indices (root first), and the
/// index of the highlighted candidate at the current node.
#[verifier::ext_equal]
pub struct StateModel {
    pub active: bool,
    pub buffer: Seq<char>,
    pub path: Seq<usize>,
    pub selected: usize,
}

/// The arena index of the node the path currently ends at.
pub open spec fn current_of(m: StateModel) -> int {
    m.path[m.path.len() - 1] as int
}

/// The candidate list at the current node, as sequences of chars.
pub open spec fn candidates_at(nodes: Seq<TrieNode>, m: StateModel) -> Seq<Seq<char>> {
    nodes[current_of(m)].candidates.deep_view()
}

/// The canonical inactive state: empty buffer, path holding the root
/// alone, no candidate selected.
pub open spec fn inactive_model(root: usize) -> StateModel {
    StateModel { active: false, buffer: Seq::empty(), path: seq![root], selected: 0 }
}

/// The state right after activation: the buffer holds the trigger
/// symbol alone and the path is back at the root.
pub open spec fn active_model(root: usize) -> StateModel {
    StateModel { active: true, buffer: seq![TRIGGER], path: seq![root], selected: 0 }
}

/// Every state the engine can reach satisfies this. The path starts at
/// the root and follows one trie edge per buffer symbol beyond the
/// trigger; the engine is active exactly while the buffer is non-empty;
/// and the selected candidate is in range whenever the current node
/// offers candidates.
pub open spec fn wf_model(nodes: Seq<TrieNode>, root: usize, m: StateModel) -> bool {
    &&& 1 <= m.path.len()
    &&& m.path[0] == root
    &&& forall|i: int| 0 <= i < m.path.len() ==> (#[trigger] m.path[i]) < nodes.len()
    &&& forall|i: int|
        1 <= i < m.path.len() ==> lookup_child(nodes[m.path[i - 1] as int].children@, m.buffer[i])
            == Some(#[trigger] m.path[i])
    &&& (m.active <==> m.buffer.len() > 0)
    &&& (m.buffer.len() > 0 ==> m.buffer[0] == TRIGGER && m.path.len() == m.buffer.len())
    &&& (m.buffer.len() == 0 ==> m.path.len() == 1)
    &&& {
        let cands = nodes[current_of(m)].candidates@;
        if cands.len() == 0 {
            m.selected == 0
        } else {
            (m.selected as int) < cands.len()
        }
    }
}

/// The state after (re-)activation within the same trie: the path is
/// back at the root and the buffer holds the trigger symbol alone.
pub open spec fn reactivated(m: StateModel) -> StateModel {
    active_model(m.path[0])
}

/// The text the trigger key commits in an active state: the trigger
/// itself when nothing was composed beyond it; else the highlighted
/// candidate when one is in range; else the literal buffer.
pub open spec fn commit_text(nodes: Seq<TrieNode>, m: StateModel) -> Seq<char> {
    if m.buffer.len() == 1 && m.buffer[0] == TRIGGER {
        seq![TRIGGER]
    } else {
        let cands = candidates_at(nodes, m);
        if (m.selected as int) < cands.len() {
            cands[m.selected as int]
        } else {
            m.buffer
        }
    }
}

/// One step of the state machine's transition table: the state after
/// processing the key `c`, and the emitted actions, in order.
pub open spec fn spec_step(nodes: Seq<TrieNode>, pre: StateModel, c: char) -> (
    StateModel,
    Seq<ActionModel>,
) {
    if !pre.active {
        if c == TRIGGER {
            (reactivated(pre), seq![ActionModel::UpdateComposition(seq![TRIGGER])])
        } else {
            (pre, seq![ActionModel::Reject])
        }
    } else if c == TRIGGER {
        (
            reactivated(pre),
            seq![
                ActionModel::Commit(commit_text(nodes, pre)),
                ActionModel::UpdateComposition(seq![TRIGGER]),
            ],
        )
    } else if is_backspace(c) {
        if pre.buffer.len() == 0 {
            (StateModel { active: false, ..pre }, seq![ActionModel::Reject])
        } else if pre.buffer.len() == 1 && pre.buffer[0] == TRIGGER {
            (inactive_model(pre.path[0]), seq![ActionModel::UpdateComposition(Seq::empty())])
        } else {
            let post = StateModel {
                buffer: pre.buffer.drop_last(),
                path: pre.path.drop_last(),
                selected: 0,
                ..pre
            };
            if nodes[current_of(post)].candidates@.len() > 0 {
                (post, seq![ActionModel::ShowCandidates(post.buffer)])
            } else {
                (post, seq![ActionModel::UpdateComposition(post.buffer)])
            }
        }
    } else {
        match lookup_child(nodes[current_of(pre)].children@, c) {
            Option::None => (pre, seq![ActionModel::Reject]),
            Option::Some(ni) => {
                let node = nodes[ni as int];
                if node.children@.len() == 0 && node.candidates@.len() <= 1 {
                    let text = if node.candidates@.len() == 0 {
                        pre.buffer.push(c)
                    } else {
                        node.candidates@[0]@
                    };
                    (inactive_model(pre.path[0]), seq![ActionModel::Commit(text)])
                } else {
                    let post = StateModel {
                        active: pre.active,
                        buffer: pre.buffer.push(c),
                        path: pre.path.push(ni),
                        selected: 0,
                    };
                    if node.candidates@.len() > 0 {
                        (post, seq![ActionModel::ShowCandidates(post.buffer)])
                    } else {
                        (post, seq![ActionModel::UpdateComposition(post.buffer)])
                    }
                }
            },
        }
    }
}

/// A numeric key code that denotes a Unicode scalar value.
pub open spec fn is_scalar_value(code: u32) -> bool {
    code < 0xD800 || (0xE000 <= code && code <= 0x10FFFF)
}

/// The composition state machine. It owns the trie, read-only, for its
/// whole lifetime; every operation is synchronous and runs to
/// completion.
pub struct Engine {
    pub(crate) trie: Trie,
    pub(crate) path: Vec<usize>,
    pub(crate) buffer: Vec<char>,
    pub(crate) active: bool,
    pub(crate) selected_candidate: usize,
}

impl Engine {
    /// The trie arena, fixed for the engine's lifetime.
    pub open(crate) spec fn nodes(&self) -> Seq<TrieNode> {
        self.trie.nodes@
    }

    /// The arena index of the trie root.
    pub open(crate) spec fn root(&self) -> usize {
        self.trie.root
    }

    /// The abstract state this engine is in.
    pub open(crate) spec fn model(&self) -> StateModel {
        StateModel {
            active: self.active,
            buffer: self.buffer@,
            path: self.path@,
            selected: self.selected_candidate,
        }
    }

    /// A valid trie, whatever state the machine is in.
    pub open(crate) spec fn trie_wf(&self) -> bool {
        self.trie.wf()
    }

    /// A valid engine: a well-formed trie and a reachable state.
    pub open(crate) spec fn wf(&self) -> bool {
        &&& self.trie.wf()
        &&& wf_model(self.nodes(), self.root(), self.model())
    }

    /// Build an engine from a configuration payload. Succeeds exactly
    /// when the payload is valid JSON denoting a well-formed trie
    /// definition; the engine then starts in the canonical inactive
    /// state with a trie that represents the payload.
    pub fn new(json_data: &str) -> (r: Result<Engine, Error>)
        ensures
            r is Ok <==> (json_parse(json_data@) matches Some(v) && valid_config(v)),
            r matches Ok(e) ==> e.wf() && e.model() == inactive_model(e.root()) && node_matches(
                e.nodes(),
                e.root() as int,
                json_parse(json_data@)->Some_0,
            ),
    {
        match parse_json(json_data) {
            Err(msg) => Err(Error::Init { message: msg }),
            Ok(v) => match Trie::from_value(&v) {
                Err(e) => Err(e),
                Ok(t) => {
                    let root = t.root;
                    let mut path: Vec<usize> = Vec::new();
                    path.push(root);
                    let eng = Engine {
                        trie: t,
                        path,
                        buffer: Vec::new(),
                        active: false,
                        selected_candidate: 0,
                    };
                    proof {
                        assert(eng.model() =~= inactive_model(eng.root()));
                    }
                    Ok(eng)
                },
            },
        }
    }

    /// The sole transition function: process one key event and return
    /// the actions the caller must apply, in order. The state moves,
    /// and the actions are, exactly as `spec_step` gives them.
    pub fn process_key(&mut self, c: char) -> (r: Vec<EngineAction>)
        requires
            old(self).wf(),
        ensures
            final(self).wf(),
            final(self).nodes() == old(self).nodes(),
            final(self).root() == old(self).root(),
            ({
                let (post, acts) = spec_step(old(self).nodes(), old(self).model(), c);
                final(self).model() == post && r.deep_view() == acts
            }),
    {
        let ghost pre = self.model();
        let ghost nodes0 = self.nodes();
        let mut out: Vec<EngineAction> = Vec::new();
        if !self.active {
            if c == TRIGGER {
                self.activate();
                out.push(EngineAction::UpdateComposition(string_from_chars(&self.buffer)));
                proof {
                    assert(self.model() =~= spec_step(nodes0, pre, c).0);
                    assert(out.deep_view() =~= spec_step(nodes0, pre, c).1);
                }
            } else {
                out.push(EngineAction::Reject);
                proof {
                    assert(out.deep_view() =~= spec_step(nodes0, pre, c).1);
                }
            }
        } else if c == TRIGGER {
            let text: String = if self.buffer.len() == 1 && self.buffer[0] == TRIGGER {
                string_from_chars(&self.buffer)
            } else {
                let cur = self.path[self.path.len() - 1];
                let node = &self.trie.nodes[cur];
                if self.selected_candidate < node.candidates.len() {
                    node.candidates[self.selected_candidate].clone()
                } else {
                    string_from_chars(&self.buffer)
                }
            };
            proof {
                assert(text@ == commit_text(nodes0, pre));
            }
            self.activate();
            out.push(EngineAction::Commit(text));
            out.push(EngineAction::UpdateComposition(string_from_chars(&self.buffer)));
            proof {
                assert(self.model() =~= spec_step(nodes0, pre, c).0);
                assert(out.deep_view() =~= spec_step(nodes0, pre, c).1);
            }
        } else if c == BACKSPACE || c == DELETE {
            if self.buffer.len() == 0 {
                self.active = false;
                out.push(EngineAction::Reject);
                proof {
                    assert(self.model() =~= spec_step(nodes0, pre, c).0);
                    assert(out.deep_view() =~= spec_step(nodes0, pre, c).1);
                }
            } else if self.buffer.len() == 1 && self.buffer[0] == TRIGGER {
                self.deactivate();
                out.push(EngineAction::UpdateComposition(String::new()));
                proof {
                    assert(self.model() =~= spec_step(nodes0, pre, c).0);
                    assert(out.deep_view() =~= spec_step(nodes0, pre, c).1);
                }
            } else {
                self.buffer.pop();
                self.path.pop();
                self.selected_candidate = 0;
                let cur = self.path[self.path.len() - 1];
                let has = self.trie.nodes[cur].candidates.len() > 0;
                let text = string_from_chars(&self.buffer);
                if has {
                    out.push(EngineAction::ShowCandidates(text));
                } else {
                    out.push(EngineAction::UpdateComposition(text));
                }
                proof {
                    assert(self.model() =~= spec_step(nodes0, pre, c).0);
                    assert(out.deep_view() =~= spec_step(nodes0, pre, c).1);
                }
            }
        } else {
            let cur = self.path[self.path.len() - 1];
            let found = self.trie.nodes[cur].child(c);
            match found {
                Option::None => {
                    out.push(EngineAction::Reject);
                    proof {
                        assert(out.deep_view() =~= spec_step(nodes0, pre, c).1);
                    }
                },
                Option::Some(ni) => {
                    proof {
                        lemma_lookup_child_found(nodes0[cur as int].children@, c);
                    }
                    let is_leaf = self.trie.nodes[ni].children.len() == 0;
                    let ncand = self.trie.nodes[ni].candidates.len();
                    if is_leaf && ncand <= 1 {
                        let text: String = if ncand == 0 {
                            self.buffer.push(c);
                            string_from_chars(&self.buffer)
                        } else {
                            self.trie.nodes[ni].candidates[0].clone()
                        };
                        self.deactivate();
                        out.push(EngineAction::Commit(text));
                        proof {
                            assert(self.model() =~= spec_step(nodes0, pre, c).0);
                            assert(out.deep_view() =~= spec_step(nodes0, pre, c).1);
                        }
                    } else {
                        self.path.push(ni);
                        self.buffer.push(c);
                        self.selected_candidate = 0;
                        let text = string_from_chars(&self.buffer);
                        if ncand > 0 {
                            out.push(EngineAction::ShowCandidates(text));
                        } else {
                            out.push(EngineAction::UpdateComposition(text));
                        }
                        proof {
                            assert(self.model() =~= spec_step(nodes0, pre, c).0);
                            assert(out.deep_view() =~= spec_step(nodes0, pre, c).1);
                        }
                    }
                },
            }
        }
        out
    }

    /// Process one key given as a numeric code, as a host environment
    /// delivers it: a code outside the valid character range is
    /// rejected at once, without reaching the state machine.
    pub fn process_key_code(&mut self, code: u32) -> (r: Vec<EngineAction>)
        requires
            old(self).wf(),
        ensures
            final(self).wf(),
            final(self).nodes() == old(self).nodes(),
            final(self).root() == old(self).root(),
            is_scalar_value(code) ==> ({
                let (post, acts) = spec_step(old(self).nodes(), old(self).model(), code as char);
                final(self).model() == post && r.deep_view() == acts
            }),
            !is_scalar_value(code) ==> final(self).model() == old(self).model() && r.deep_view()
                =~= seq![ActionModel::Reject],
    {
        match char_from_u32(code) {
            Option::Some(c) => self.process_key(c),
            Option::None => {
                let mut out: Vec<EngineAction> = Vec::new();
                out.push(EngineAction::Reject);
                proof {
                    assert(out.deep_view() =~= seq![ActionModel::Reject]);
                }
                out
            },
        }
    }

    /// Whether the engine is currently composing.
    pub fn is_active(&self) -> (r: bool)
        ensures
            r == self.model().active,
    {
        self.active
    }

    /// The composition buffer accumulated since activation.
    pub fn buffer(&self) -> (r: String)
        ensures
            r@ == self.model().buffer,
    {
        string_from_chars(&self.buffer)
    }

    /// Explicit external reset to the canonical inactive state. Callable
    /// at any time and idempotent: the resulting state never depends on
    /// the state before the call.
    pub fn deactivate(&mut self)
        requires
            old(self).trie_wf(),
        ensures
            final(self).wf(),
            final(self).nodes() == old(self).nodes(),
            final(self).root() == old(self).root(),
            final(self).model() == inactive_model(old(self).root()),
    {
        self.active = false;
        self.buffer = Vec::new();
        self.path = Vec::new();
        self.path.push(self.trie.root);
        self.selected_candidate = 0;
        proof {
            assert(self.model() =~= inactive_model(self.trie.root));
        }
    }

    /// Restart composition: the buffer holds the trigger symbol and the
    /// path is back at the root.
    pub fn activate(&mut self)
        requires
            old(self).trie_wf(),
        ensures
            final(self).wf(),
            final(self).nodes() == old(self).nodes(),
            final(self).root() == old(self).root(),
            final(self).model() == active_model(old(self).root()),
    {
        self.active = true;
        self.buffer = Vec::new();
        self.buffer.push(TRIGGER);
        self.path = Vec::new();
        self.path.push(self.trie.root);
        self.selected_candidate = 0;
        proof {
            assert(self.model() =~= active_model(self.trie.root));
        }
    }

    /// Highlight the candidate at `index` at the current node, when the
    /// node has a candidate list and `index` is within its bounds;
    /// otherwise change nothing.
    pub fn select_candidate(&mut self, index: usize)
        requires
            old(self).wf(),
        ensures
            final(self).wf(),
            final(self).nodes() == old(self).nodes(),
            final(self).root() == old(self).root(),
            ({
                let cands = candidates_at(old(self).nodes(), old(self).model());
                if (index as int) < cands.len() {
                    final(self).model() == StateModel { selected: index, ..old(self).model() }
                } else {
                    final(self).model() == old(self).model()
                }
            }),
    {
        let cur = self.path[self.path.len() - 1];
        let node_candidates_len = self.trie.nodes[cur].candidates.len();
        if index < node_candidates_len {
            self.selected_candidate = index;
            proof {
                assert(self.model() =~= StateModel { selected: index, ..old(self).model() });
            }
        } else {
            proof {
                assert(self.model() =~= old(self).model());
            }
        }
    }

    /// The candidate list of the current node, in configured order, or
    /// an empty list when the node offers none. Pure query.
    pub fn get_candidates(&self) -> (r: Vec<String>)
        requires
            self.wf(),
        ensures
            r.deep_view() == candidates_at(self.nodes(), self.model()),
    {
        let cur = self.path[self.path.len() - 1];
        let node = &self.trie.nodes[cur];
        let mut out: Vec<String> = Vec::new();
        let mut i: usize = 0;
        while i < node.candidates.len()
            invariant
                0 <= i <= node.candidates@.len(),
                out@.len() == i,
                forall|k: int| 0 <= k < i ==> (#[trigger] out@[k])@ == node.candidates@[k]@,
            decreases node.candidates@.len() - i,
        {
            out.push(node.candidates[i].clone());
            i += 1;
        }
        proof {
            assert(out.deep_view() =~= node.candidates.deep_view());
        }
        out
    }
}

/// The state after processing each key of `ks` in turn.
pub open spec fn run_steps(nodes: Seq<TrieNode>, m: StateModel, ks: Seq<char>) -> StateModel
    decreases ks.len(),
{
    if ks.len() == 0 {
        m
    } else {
        run_steps(nodes, spec_step(nodes, m, ks[0]).0, ks.drop_first())
    }
}

/// The actions the last key of `ks` emits when the keys are processed
/// in turn; empty for no keys.
pub open spec fn run_final_actions(nodes: Seq<TrieNode>, m: StateModel, ks: Seq<char>) -> Seq<
    ActionModel,
>
    decreases ks.len(),
{
    if ks.len() == 0 {
        Seq::empty()
    } else if ks.len() == 1 {
        spec_step(nodes, m, ks[0]).1
    } else {
        run_final_actions(nodes, spec_step(nodes, m, ks[0]).0, ks.drop_first())
    }
}

/// The node the keys `ks` walk to from the node at `i`, following one
/// child edge per key.
pub open spec fn walk_to(nodes: Seq<TrieNode>, i: int, ks: Seq<char>) -> int
    decreases ks.len(),
{
    if ks.len() == 0 {
        i
    } else {
        match lookup_child(nodes[i].children@, ks[0]) {
            Option::None => i,
            Option::Some(ni) => walk_to(nodes, ni as int, ks.drop_first()),
        }
    }
}

/// From the node at `i`, the keys `ks` exist as a chain of edges, all
/// nodes short of the last are entered rather than committed (they
/// have children, or two or more candidates), and the last is a
/// childless node carrying exactly one candidate.
pub open spec fn mnemonic_to_sole_leaf(nodes: Seq<TrieNode>, i: int, ks: Seq<char>) -> bool
    decreases ks.len(),
{
    if ks.len() == 0 {
        false
    } else {
        match lookup_child(nodes[i].children@, ks[0]) {
            Option::None => false,
            Option::Some(ni) => {
                let node = nodes[ni as int];
                if ks.len() == 1 {
                    node.children@.len() == 0 && node.candidates@.len() == 1
                } else {
                    (node.children@.len() > 0 || node.candidates@.len() >= 2)
                        && mnemonic_to_sole_leaf(nodes, ni as int, ks.drop_first())
                }
            },
        }
    }
}

/// Every step taken from a well-formed state over a well-formed arena
/// lands in a well-formed state: the reachable states are exactly the
/// well-formed ones.
pub proof fn lemma_step_preserves_wf(nodes: Seq<TrieNode>, root: usize, m: StateModel, c: char)
    requires
        arena_wf(nodes),
        wf_model(nodes, root, m),
    ensures
        wf_model(nodes, root, spec_step(nodes, m, c).0),
{
    let post = spec_step(nodes, m, c).0;
    if m.active && c != TRIGGER && !is_backspace(c) {
        let cur = current_of(m);
        let found = lookup_child(nodes[cur].children@, c);
        if found is Some {
            let ni = found->Some_0;
            lemma_lookup_child_found(nodes[cur].children@, c);
            let j = choose|j: int|
                0 <= j < nodes[cur].children@.len() && (#[trigger] nodes[cur].children@[j]).0 == c
                    && nodes[cur].children@[j].1 == ni;
            assert(nodes[cur].children@[j].1 < cur);
        }
    }
}

/// Leaf auto-commit determinism over a whole mnemonic: from any
/// well-formed active state, plain keys that walk through entered
/// nodes to a childless node with exactly one candidate always end in
/// the canonical inactive state, the final step emitting exactly
/// `Commit` of that candidate.
#[verifier::rlimit(60)]
pub proof fn lemma_mnemonic_auto_commit(
    nodes: Seq<TrieNode>,
    root: usize,
    m: StateModel,
    ks: Seq<char>,
)
    requires
        arena_wf(nodes),
        wf_model(nodes, root, m),
        m.active,
        forall|t: int| 0 <= t < ks.len() ==> (#[trigger] ks[t]) != TRIGGER && !is_backspace(ks[t]),
        mnemonic_to_sole_leaf(nodes, current_of(m), ks),
    ensures
        run_steps(nodes, m, ks) == inactive_model(root),
        run_final_actions(nodes, m, ks) == seq![
            ActionModel::Commit(nodes[walk_to(nodes, current_of(m), ks)].candidates@[0]@),
        ],
    decreases ks.len(),
{
    let c = ks[0];
    let cur = current_of(m);
    let ni = lookup_child(nodes[cur].children@, c)->Some_0;
    let post = spec_step(nodes, m, c).0;
    assert(run_steps(nodes, m, ks) == run_steps(nodes, post, ks.drop_first()));
    assert(walk_to(nodes, cur, ks) == walk_to(nodes, ni as int, ks.drop_first()));
    if ks.len() == 1 {
        lemma_leaf_auto_commit(nodes, root, m, c);
        assert(ks.drop_first().len() == 0);
        assert(run_steps(nodes, post, ks.drop_first()) == post);
        assert(run_final_actions(nodes, m, ks) == spec_step(nodes, m, c).1);
        assert(walk_to(nodes, ni as int, ks.drop_first()) == ni as int);
    } else {
        assert(nodes[ni as int].children@.len() > 0 || nodes[ni as int].candidates@.len() >= 2);
        assert(run_final_actions(nodes, m, ks) == run_final_actions(nodes, post, ks.drop_first()));
        lemma_step_preserves_wf(nodes, root, m, c);
        assert(post.active);
        assert(current_of(post) == ni as int);
        assert forall|t: int|
            0 <= t < ks.drop_first().len() implies (#[trigger] ks.drop_first()[t]) != TRIGGER
            && !is_backspace(ks.drop_first()[t]) by {
            assert(ks.drop_first()[t] == ks[t + 1]);
        }
        lemma_mnemonic_auto_commit(nodes, root, post, ks.drop_first());
    }
}

/// Deactivation is idempotent: the canonical inactive state resets to
/// itself, so repeated `deactivate` calls, or a call on an engine that
/// is already inactive, all land in the very same state.
pub proof fn lemma_deactivate_idempotent(root: usize)
    ensures
        inactive_model(inactive_model(root).path[0]) == inactive_model(root),
{
}

/// Path/buffer length invariant: in every reachable state the path is
/// exactly one node longer than the number of symbols composed beyond
/// the trigger.
pub proof fn lemma_path_buffer_length(e: &Engine)
    requires
        e.wf(),
    ensures
        e.model().path.len() - 1 == if e.model().buffer.len() == 0 {
            0int
        } else {
            e.model().buffer.len() - 1
        },
{
}

/// Rejection never mutates state: whenever a step emits `Reject` and
/// nothing else, the state after the step equals the state before it.
pub proof fn lemma_reject_no_mutation(nodes: Seq<TrieNode>, root: usize, m: StateModel, c: char)
    requires
        wf_model(nodes, root, m),
        spec_step(nodes, m, c).1 == seq![ActionModel::Reject],
    ensures
        spec_step(nodes, m, c).0 == m,
{
    let acts = spec_step(nodes, m, c).1;
    assert(acts[0] == ActionModel::Reject);
    if !m.active {
        if c == TRIGGER {
            assert(acts[0] is UpdateComposition);
        }
    } else if c == TRIGGER {
        assert(acts[0] is Commit);
    } else if is_backspace(c) {
        assert(m.buffer.len() > 0);
        if m.buffer.len() == 1 && m.buffer[0] == TRIGGER {
            assert(acts[0] is UpdateComposition);
        } else {
            assert(acts[0] is ShowCandidates || acts[0] is UpdateComposition);
        }
    } else {
        if lookup_child(nodes[current_of(m)].children@, c) is Some {
            assert(acts[0] is Commit || acts[0] is ShowCandidates || acts[0] is UpdateComposition);
        }
    }
}

/// Leaf auto-commit determinism: when the key `c` leads from the
/// current node to a childless node carrying exactly one candidate,
/// the step always emits exactly `Commit` of that candidate and lands
/// in the canonical inactive state.
pub proof fn lemma_leaf_auto_commit(nodes: Seq<TrieNode>, root: usize, m: StateModel, c: char)
    requires
        wf_model(nodes, root, m),
        m.active,
        c != TRIGGER,
        !is_backspace(c),
        (lookup_child(nodes[current_of(m)].children@, c) matches Some(ni)
            && nodes[ni as int].children@.len() == 0 && nodes[ni as int].candidates@.len() == 1),
    ensures
        ({
            let ni = lookup_child(nodes[current_of(m)].children@, c)->Some_0;
            spec_step(nodes, m, c) == (
                inactive_model(root),
                seq![ActionModel::Commit(nodes[ni as int].candidates@[0]@)],
            )
        }),
{
    assert(m.path[0] == root);
}

/// Ambiguous-leaf presentation: a childless node with two or more
/// candidates is entered rather than auto-committed; the step shows
/// the extended buffer, and the candidate list then on offer is that
/// node's, in configured order.
pub proof fn lemma_ambiguous_leaf(nodes: Seq<TrieNode>, root: usize, m: StateModel, c: char)
    requires
        wf_model(nodes, root, m),
        m.active,
        c != TRIGGER,
        !is_backspace(c),
        (lookup_child(nodes[current_of(m)].children@, c) matches Some(ni)
            && nodes[ni as int].children@.len() == 0 && nodes[ni as int].candidates@.len() >= 2),
    ensures
        ({
            let ni = lookup_child(nodes[current_of(m)].children@, c)->Some_0;
            let (post, acts) = spec_step(nodes, m, c);
            &&& post == (StateModel {
                active: m.active,
                buffer: m.buffer.push(c),
                path: m.path.push(ni),
                selected: 0,
            })
            &&& acts == seq![ActionModel::ShowCandidates(m.buffer.push(c))]
            &&& candidates_at(nodes, post) == nodes[ni as int].candidates.deep_view()
        }),
{
    let ni = lookup_child(nodes[current_of(m)].children@, c)->Some_0;
    let post = spec_step(nodes, m, c).0;
    assert(post.path[post.path.len() - 1] == ni);
}

/// Relies on char::from_u32: it returns Some exactly on Unicode scalar
/// values, giving the char with that value.
#[verifier::external_body]
fn char_from_u32(code: u32) -> (r: Option<char>)
    ensures
        r is Some <==> is_scalar_value(code),
        r matches Some(c) ==> c == code as char,
{
    char::from_u32(code)
}

/// Relies on Iterator::collect for String: collecting chars yields the
/// string of exactly those chars, in order.
#[verifier::external_body]
fn string_from_chars(v: &Vec<char>) -> (r: String)
    ensures
        r@ == v@,
{
    v.iter().collect()
}

} // verus!
