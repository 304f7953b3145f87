use vstd::prelude::*;

use crate::error::Error;
use crate::json::JsonValue;

verus! {

/// One node of the prefix tree: the candidate output strings offered at
/// this position (empty when the configuration gives none), and the
/// outgoing edges, each labelled with one input symbol and pointing at a
/// child node by its index in the owning arena.
#[derive(Debug)]
pub struct TrieNode {
    pub candidates: Vec<String>,
    pub children: Vec<(char, usize)>,
}

/// The prefix tree, stored as an arena of nodes built once from a
/// configuration payload and never mutated afterwards. Children are
/// placed before their parent, so every edge points strictly downwards
/// in the arena and the root sits last.
#[derive(Debug)]
pub struct Trie {
    pub(crate) nodes: Vec<TrieNode>,
    pub(crate) root: usize,
}

/// Every edge of every node points at a strictly smaller index, so each
/// edge stays inside the arena and no walk can cycle.
pub open spec fn arena_wf(nodes: Seq<TrieNode>) -> bool {
    forall|i: int, j: int|
        0 <= i < nodes.len() && 0 <= j < nodes[i].children@.len() ==> (#[trigger] nodes[i].children@[j]).1
            < i
}

/// The target of the first edge labelled `c`, if any. A well-formed node
/// carries each label at most once, so the first match is the only one.
pub open spec fn lookup_child(children: Seq<(char, usize)>, c: char) -> Option<usize>
    decreases children.len(),
{
    if children.len() == 0 {
        None
    } else if children[0].0 == c {
        Some(children[0].1)
    } else {
        lookup_child(children.drop_first(), c)
    }
}

pub proof fn lemma_lookup_child_found(children: Seq<(char, usize)>, c: char)
    requires
        lookup_child(children, c) is Some,
    ensures
        exists|j: int|
            0 <= j < children.len() && (#[trigger] children[j]).0 == c && children[j].1
                == lookup_child(children, c)->Some_0,
    decreases children.len(),
{
    if children.len() > 0 && children[0].0 != c {
        lemma_lookup_child_found(children.drop_first(), c);
        let j0 = choose|j: int|
            0 <= j < children.drop_first().len() && (#[trigger] children.drop_first()[j]).0 == c
                && children.drop_first()[j].1 == lookup_child(children.drop_first(), c)->Some_0;
        assert(children[j0 + 1] == children.drop_first()[j0]);
    }
}

pub proof fn lemma_lookup_child_none(children: Seq<(char, usize)>, c: char)
    ensures
        lookup_child(children, c) is None <==> forall|j: int|
            0 <= j < children.len() ==> (#[trigger] children[j]).0 != c,
    decreases children.len(),
{
    if children.len() > 0 && children[0].0 != c {
        lemma_lookup_child_none(children.drop_first(), c);
        if lookup_child(children, c) is None {
            assert forall|j: int|
                0 <= j < children.len() implies (#[trigger] children[j]).0 != c by {
                if j >= 1 {
                    assert(children.drop_first()[j - 1] == children[j]);
                }
            }
        }
        if forall|j: int| 0 <= j < children.len() ==> (#[trigger] children[j]).0 != c {
            assert forall|j: int|
                0 <= j < children.drop_first().len() implies (#[trigger] children.drop_first()[j]).0
                != c by {
                assert(children.drop_first()[j] == children[j + 1]);
            }
        }
    }
}

proof fn lemma_valid_fields_index(fields: Seq<(String, JsonValue)>)
    ensures
        valid_fields(fields) <==> forall|j: int| 0 <= j < fields.len() ==> valid_field(#[trigger] fields[j]),
    decreases fields,
{
    if fields.len() > 0 {
        lemma_valid_fields_index(fields.drop_first());
        assert forall|j: int|
            1 <= j < fields.len() implies (valid_fields(fields) ==> valid_field(#[trigger] fields[j])) by {
            assert(fields.drop_first()[j - 1] == fields[j]);
        }
        if valid_field(fields[0]) && (forall|j: int|
            1 <= j < fields.len() ==> valid_field(#[trigger] fields[j])) {
            assert forall|j: int|
                0 <= j < fields.drop_first().len() implies valid_field(
                #[trigger] fields.drop_first()[j],
            ) by {
                assert(fields.drop_first()[j] == fields[j + 1]);
            }
        }
    }
}

proof fn lemma_valid_fields_push(fields: Seq<(String, JsonValue)>, f: (String, JsonValue))
    ensures
        valid_fields(fields.push(f)) <==> valid_fields(fields) && valid_field(f),
    decreases fields,
{
    if fields.len() == 0 {
        assert(fields.push(f)[0] == f);
        assert(fields.push(f).drop_first() =~= fields);
    } else {
        assert(fields.push(f)[0] == fields[0]);
        assert(fields.push(f).drop_first() =~= fields.drop_first().push(f));
        lemma_valid_fields_push(fields.drop_first(), f);
    }
}

proof fn lemma_has_reserved_push(fields: Seq<(String, JsonValue)>, f: (String, JsonValue))
    ensures
        has_reserved(fields.push(f)) <==> has_reserved(fields) || is_reserved_key(f.0@),
{
    if has_reserved(fields) {
        let i = choose|i: int| 0 <= i < fields.len() && is_reserved_key((#[trigger] fields[i]).0@);
        assert(fields.push(f)[i] == fields[i]);
    }
    if is_reserved_key(f.0@) {
        assert(fields.push(f)[fields.len() as int] == f);
    }
    if has_reserved(fields.push(f)) && !is_reserved_key(f.0@) {
        let i = choose|i: int|
            0 <= i < fields.push(f).len() && is_reserved_key((#[trigger] fields.push(f)[i]).0@);
        if i < fields.len() {
            assert(fields.push(f)[i] == fields[i]);
        } else {
            assert(fields.push(f)[i] == f);
        }
    }
}

proof fn lemma_keys_distinct_push(fields: Seq<(String, JsonValue)>, f: (String, JsonValue))
    ensures
        keys_distinct(fields.push(f)) <==> keys_distinct(fields) && (forall|j: int|
            0 <= j < fields.len() ==> (#[trigger] fields[j]).0@ != f.0@),
{
    let p = fields.push(f);
    assert(forall|j: int| 0 <= j < fields.len() ==> #[trigger] p[j] == fields[j]);
    assert(p[fields.len() as int] == f);
    if keys_distinct(p) {
        assert forall|i: int, j: int|
            0 <= i < j < fields.len() implies (#[trigger] fields[i]).0@ != (#[trigger] fields[j]).0@ by {
            assert(p[i] == fields[i] && p[j] == fields[j]);
        }
        assert forall|j: int| 0 <= j < fields.len() implies (#[trigger] fields[j]).0@ != f.0@ by {
            assert(p[j] == fields[j] && p[fields.len() as int] == f);
        }
    }
    if keys_distinct(fields) && (forall|j: int|
        0 <= j < fields.len() ==> (#[trigger] fields[j]).0@ != f.0@) {
        assert forall|i: int, j: int| 0 <= i < j < p.len() implies (#[trigger] p[i]).0@ != (
        #[trigger] p[j]).0@ by {
            if j < fields.len() {
                assert(p[i] == fields[i] && p[j] == fields[j]);
            } else {
                assert(p[i] == fields[i] && p[j] == f);
            }
        }
    }
}

proof fn lemma_candidates_push_nonreserved(fields: Seq<(String, JsonValue)>, f: (String, JsonValue))
    requires
        !is_reserved_key(f.0@),
    ensures
        candidates_of_fields(fields.push(f)) == candidates_of_fields(fields),
    decreases fields,
{
    if fields.len() == 0 {
        assert(fields.push(f)[0] == f);
        assert(fields.push(f).drop_first() =~= fields);
    } else {
        assert(fields.push(f)[0] == fields[0]);
        assert(fields.push(f).drop_first() =~= fields.drop_first().push(f));
        lemma_candidates_push_nonreserved(fields.drop_first(), f);
    }
}

proof fn lemma_candidates_push_reserved(fields: Seq<(String, JsonValue)>, f: (String, JsonValue))
    requires
        !has_reserved(fields),
        is_reserved_key(f.0@),
    ensures
        candidates_of_fields(fields.push(f)) == candidate_views(f.1),
    decreases fields,
{
    if fields.len() == 0 {
        assert(fields.push(f)[0] == f);
    } else {
        assert(fields.push(f)[0] == fields[0]);
        assert(!is_reserved_key(fields[0].0@));
        assert(fields.push(f).drop_first() =~= fields.drop_first().push(f));
        assert forall|i: int|
            0 <= i < fields.drop_first().len() implies !is_reserved_key(
            (#[trigger] fields.drop_first()[i]).0@,
        ) by {
            assert(fields.drop_first()[i] == fields[i + 1]);
        }
        lemma_candidates_push_reserved(fields.drop_first(), f);
    }
}

proof fn lemma_node_matches_grow(ns1: Seq<TrieNode>, ns2: Seq<TrieNode>, i: int, v: JsonValue)
    requires
        node_matches(ns1, i, v),
        ns1.len() <= ns2.len(),
        forall|t: int| 0 <= t < ns1.len() ==> ns2[t] == ns1[t],
    ensures
        node_matches(ns2, i, v),
    decreases v,
{
    lemma_children_match_grow(ns1, ns2, ns1[i].children@, v->Obj_0@);
}

proof fn lemma_children_match_grow(
    ns1: Seq<TrieNode>,
    ns2: Seq<TrieNode>,
    children: Seq<(char, usize)>,
    fields: Seq<(String, JsonValue)>,
)
    requires
        children_match(ns1, children, fields),
        ns1.len() <= ns2.len(),
        forall|t: int| 0 <= t < ns1.len() ==> ns2[t] == ns1[t],
    ensures
        children_match(ns2, children, fields),
    decreases fields,
{
    if fields.len() > 0 {
        if is_reserved_key(fields[0].0@) {
            lemma_children_match_grow(ns1, ns2, children, fields.drop_first());
        } else {
            lemma_node_matches_grow(ns1, ns2, children[0].1 as int, fields[0].1);
            lemma_children_match_grow(ns1, ns2, children.drop_first(), fields.drop_first());
        }
    }
}

proof fn lemma_children_match_push_reserved(
    ns: Seq<TrieNode>,
    children: Seq<(char, usize)>,
    fields: Seq<(String, JsonValue)>,
    f: (String, JsonValue),
)
    requires
        children_match(ns, children, fields),
        is_reserved_key(f.0@),
    ensures
        children_match(ns, children, fields.push(f)),
    decreases fields,
{
    if fields.len() == 0 {
        assert(fields.push(f)[0] == f);
        assert(fields.push(f).drop_first() =~= fields);
    } else {
        assert(fields.push(f)[0] == fields[0]);
        assert(fields.push(f).drop_first() =~= fields.drop_first().push(f));
        if is_reserved_key(fields[0].0@) {
            lemma_children_match_push_reserved(ns, children, fields.drop_first(), f);
        } else {
            lemma_children_match_push_reserved(ns, children.drop_first(), fields.drop_first(), f);
        }
    }
}

proof fn lemma_children_match_push(
    ns: Seq<TrieNode>,
    children: Seq<(char, usize)>,
    fields: Seq<(String, JsonValue)>,
    c: char,
    ci: usize,
    f: (String, JsonValue),
)
    requires
        children_match(ns, children, fields),
        !is_reserved_key(f.0@),
        f.0@.len() == 1,
        f.0@[0] == c,
        node_matches(ns, ci as int, f.1),
    ensures
        children_match(ns, children.push((c, ci)), fields.push(f)),
    decreases fields,
{
    if fields.len() == 0 {
        assert(fields.push(f)[0] == f);
        assert(children.push((c, ci))[0] == (c, ci));
        assert(children.push((c, ci)).drop_first() =~= children);
        assert(fields.push(f).drop_first() =~= fields);
    } else {
        assert(fields.push(f)[0] == fields[0]);
        assert(fields.push(f).drop_first() =~= fields.drop_first().push(f));
        if is_reserved_key(fields[0].0@) {
            lemma_children_match_push(ns, children, fields.drop_first(), c, ci, f);
        } else {
            assert(children.push((c, ci))[0] == children[0]);
            assert(children.push((c, ci)).drop_first() =~= children.drop_first().push((c, ci)));
            lemma_children_match_push(ns, children.drop_first(), fields.drop_first(), c, ci, f);
        }
    }
}

proof fn lemma_children_match_label_field(
    ns: Seq<TrieNode>,
    children: Seq<(char, usize)>,
    fields: Seq<(String, JsonValue)>,
    t: int,
)
    requires
        children_match(ns, children, fields),
        0 <= t < children.len(),
        forall|x: int| 0 <= x < fields.len() ==> valid_field(#[trigger] fields[x]),
    ensures
        exists|j: int|
            0 <= j < fields.len() && !is_reserved_key((#[trigger] fields[j]).0@) && fields[j].0@.len()
                == 1 && fields[j].0@[0] == children[t].0,
    decreases fields,
{
    assert forall|x: int|
        0 <= x < fields.drop_first().len() implies valid_field(
        #[trigger] fields.drop_first()[x],
    ) by {
        assert(fields.drop_first()[x] == fields[x + 1]);
    }
    if is_reserved_key(fields[0].0@) {
        lemma_children_match_label_field(ns, children, fields.drop_first(), t);
        let j = choose|j: int|
            0 <= j < fields.drop_first().len() && !is_reserved_key(
                (#[trigger] fields.drop_first()[j]).0@,
            ) && fields.drop_first()[j].0@.len() == 1 && fields.drop_first()[j].0@[0]
                == children[t].0;
        assert(fields[j + 1] == fields.drop_first()[j]);
    } else if t == 0 {
        assert(valid_field(fields[0]));
        assert(fields[0].0@[0] == children[0].0);
    } else {
        lemma_children_match_label_field(ns, children.drop_first(), fields.drop_first(), t - 1);
        let j = choose|j: int|
            0 <= j < fields.drop_first().len() && !is_reserved_key(
                (#[trigger] fields.drop_first()[j]).0@,
            ) && fields.drop_first()[j].0@.len() == 1 && fields.drop_first()[j].0@[0]
                == children.drop_first()[t - 1].0;
        assert(fields[j + 1] == fields.drop_first()[j]);
        assert(children.drop_first()[t - 1] == children[t]);
    }
}

proof fn lemma_field_label_in_children(
    ns: Seq<TrieNode>,
    children: Seq<(char, usize)>,
    fields: Seq<(String, JsonValue)>,
    j: int,
)
    requires
        children_match(ns, children, fields),
        0 <= j < fields.len(),
        !is_reserved_key(fields[j].0@),
    ensures
        exists|t: int| 0 <= t < children.len() && (#[trigger] children[t]).0 == fields[j].0@[0],
    decreases fields,
{
    if is_reserved_key(fields[0].0@) {
        assert(j != 0);
        lemma_field_label_in_children(ns, children, fields.drop_first(), j - 1);
        assert(fields.drop_first()[j - 1] == fields[j]);
    } else if j == 0 {
        assert(children[0].0 == fields[0].0@[0]);
    } else {
        lemma_field_label_in_children(ns, children.drop_first(), fields.drop_first(), j - 1);
        assert(fields.drop_first()[j - 1] == fields[j]);
        let t = choose|t: int|
            0 <= t < children.drop_first().len() && (#[trigger] children.drop_first()[t]).0
                == fields.drop_first()[j - 1].0@[0];
        assert(children[t + 1] == children.drop_first()[t]);
    }
}

impl TrieNode {
    /// Read-only lookup of the child reached from this node by the input
    /// symbol `c`, as an index into the owning arena.
    pub fn child(&self, c: char) -> (r: Option<usize>)
        ensures
            r == lookup_child(self.children@, c),
    {
        find_label(&self.children, c)
    }
}

/// The reserved configuration key (`>>`) whose entry carries a node's
/// candidate list.
pub open spec fn is_reserved_key(k: Seq<char>) -> bool {
    k.len() == 2 && k[0] == '>' && k[1] == '>'
}

/// The chars of a string entry; empty for any other shape.
pub open spec fn str_view_of(v: JsonValue) -> Seq<char> {
    match v {
        JsonValue::Str(s) => s@,
        _ => Seq::empty(),
    }
}

/// A well-formed candidate entry: absent (null) or a list of strings.
pub open spec fn is_candidate_list(v: JsonValue) -> bool {
    match v {
        JsonValue::Null => true,
        JsonValue::List(items) => forall|i: int|
            0 <= i < items@.len() ==> (#[trigger] items@[i]) is Str,
        _ => false,
    }
}

/// The candidate list a well-formed entry denotes, in configured order.
pub open spec fn candidate_views(v: JsonValue) -> Seq<Seq<char>> {
    match v {
        JsonValue::List(items) => items@.map_values(|it: JsonValue| str_view_of(it)),
        _ => Seq::empty(),
    }
}

/// Keys of one object are pairwise distinct.
pub open spec fn keys_distinct(fields: Seq<(String, JsonValue)>) -> bool {
    forall|i: int, j: int|
        0 <= i < j < fields.len() ==> (#[trigger] fields[i]).0@ != (#[trigger] fields[j]).0@
}

/// Whether some entry uses the reserved key.
pub open spec fn has_reserved(fields: Seq<(String, JsonValue)>) -> bool {
    exists|i: int| 0 <= i < fields.len() && is_reserved_key((#[trigger] fields[i]).0@)
}

/// A well-formed trie configuration: a nested object whose reserved
/// entry carries a candidate list and whose other keys are single input
/// symbols, each mapping to a child configuration, no key given twice.
pub open spec fn valid_config(v: JsonValue) -> bool
    decreases v,
{
    match v {
        JsonValue::Obj(fields) => keys_distinct(fields@) && valid_fields(fields@),
        _ => false,
    }
}

pub open spec fn valid_fields(fields: Seq<(String, JsonValue)>) -> bool
    decreases fields,
{
    if fields.len() == 0 {
        true
    } else {
        valid_field(fields[0]) && valid_fields(fields.drop_first())
    }
}

pub open spec fn valid_field(f: (String, JsonValue)) -> bool
    decreases f,
{
    if is_reserved_key(f.0@) {
        is_candidate_list(f.1)
    } else {
        f.0@.len() == 1 && valid_config(f.1)
    }
}

/// The candidate list the first reserved entry carries; empty when no
/// entry is reserved.
pub open spec fn candidates_of_fields(fields: Seq<(String, JsonValue)>) -> Seq<Seq<char>>
    decreases fields,
{
    if fields.len() == 0 {
        Seq::empty()
    } else if is_reserved_key(fields[0].0@) {
        candidate_views(fields[0].1)
    } else {
        candidates_of_fields(fields.drop_first())
    }
}

/// The arena node at `i` represents the configuration object `v`: its
/// candidates are the reserved entry's list, and its edges line up, in
/// order, with the non-reserved entries, each child representing its
/// entry's object in turn.
pub open spec fn node_matches(nodes: Seq<TrieNode>, i: int, v: JsonValue) -> bool
    decreases v,
{
    &&& 0 <= i < nodes.len()
    &&& v is Obj
    &&& nodes[i].candidates.deep_view() == candidates_of_fields(v->Obj_0@)
    &&& children_match(nodes, nodes[i].children@, v->Obj_0@)
}

pub open spec fn children_match(
    nodes: Seq<TrieNode>,
    children: Seq<(char, usize)>,
    fields: Seq<(String, JsonValue)>,
) -> bool
    decreases fields,
{
    if fields.len() == 0 {
        children.len() == 0
    } else if is_reserved_key(fields[0].0@) {
        children_match(nodes, children, fields.drop_first())
    } else {
        &&& children.len() > 0
        &&& children[0].0 == fields[0].0@[0]
        &&& node_matches(nodes, children[0].1 as int, fields[0].1)
        &&& children_match(nodes, children.drop_first(), fields.drop_first())
    }
}

/// The error every malformed configuration is reported as.
fn config_error() -> (r: Error)
    ensures
        r is Init,
{
    Error::Init { message: "malformed trie configuration".to_owned() }
}

/// First edge of `children` labelled `c`, if any.
fn find_label(children: &Vec<(char, usize)>, c: char) -> (r: Option<usize>)
    ensures
        r == lookup_child(children@, c),
{
    let mut i: usize = 0;
    proof {
        assert(children@.skip(0) =~= children@);
    }
    while i < children.len()
        invariant
            0 <= i <= children@.len(),
            lookup_child(children@, c) == lookup_child(children@.skip(i as int), c),
        decreases children@.len() - i,
    {
        let (label, target) = children[i];
        proof {
            assert(children@.skip(i as int)[0] == children@[i as int]);
            assert(children@.skip(i as int).drop_first() =~= children@.skip(i as int + 1));
        }
        if label == c {
            return Some(target);
        }
        i += 1;
    }
    proof {
        assert(children@.skip(i as int).len() == 0);
    }
    None
}

/// Extract a node's candidate list from its reserved entry.
fn candidate_list(v: &JsonValue) -> (r: Result<Vec<String>, Error>)
    ensures
        r is Ok <==> is_candidate_list(*v),
        r matches Ok(cs) ==> cs.deep_view() == candidate_views(*v),
{
    match v {
        JsonValue::Null => {
            let out: Vec<String> = Vec::new();
            proof {
                assert(out.deep_view() =~= candidate_views(*v));
            }
            Ok(out)
        },
        JsonValue::List(items) => {
            let mut out: Vec<String> = Vec::new();
            let mut i: usize = 0;
            while i < items.len()
                invariant
                    *v == JsonValue::List(*items),
                    0 <= i <= items@.len(),
                    out@.len() == i,
                    forall|k: int| 0 <= k < i ==> (#[trigger] items@[k]) is Str,
                    forall|k: int| 0 <= k < i ==> (#[trigger] out@[k])@ == str_view_of(items@[k]),
                decreases items@.len() - i,
            {
                match &items[i] {
                    JsonValue::Str(s) => {
                        out.push(s.clone());
                    },
                    _ => {
                        proof {
                            assert(!(items@[i as int] is Str));
                        }
                        return Err(config_error());
                    },
                }
                i += 1;
            }
            proof {
                assert(out.deep_view() =~= candidate_views(*v));
            }
            Ok(out)
        },
        _ => Err(config_error()),
    }
}

/// Build the arena node for the configuration object `v`, appending its
/// subtree (children first) to `nodes` and returning its index. On
/// failure the arena may keep already-built nodes; the caller discards
/// it whole.
fn build_node(v: &JsonValue, nodes: &mut Vec<TrieNode>) -> (r: Result<usize, Error>)
    requires
        arena_wf(old(nodes)@),
    ensures
        arena_wf(final(nodes)@),
        old(nodes)@.len() <= final(nodes)@.len(),
        forall|k: int| 0 <= k < old(nodes)@.len() ==> final(nodes)@[k] == old(nodes)@[k],
        r is Ok <==> valid_config(*v),
        r matches Ok(i) ==> (i as int) < final(nodes)@.len() && node_matches(
            final(nodes)@,
            i as int,
            *v,
        ),
    decreases *v,
{
    match v {
        JsonValue::Obj(fields) => {
            let mut cands: Vec<String> = Vec::new();
            let mut have_cands = false;
            let mut children: Vec<(char, usize)> = Vec::new();
            let mut k: usize = 0;
            proof {
                assert(cands.deep_view() =~= candidates_of_fields(fields@.take(0)));
            }
            while k < fields.len()
                invariant
                    *v == JsonValue::Obj(*fields),
                    arena_wf(nodes@),
                    old(nodes)@.len() <= nodes@.len(),
                    forall|t: int|
                        0 <= t < old(nodes)@.len() ==> nodes@[t] == old(nodes)@[t],
                    0 <= k <= fields@.len(),
                    forall|t: int|
                        0 <= t < children@.len() ==> ((#[trigger] children@[t]).1 as int)
                            < nodes@.len(),
                    children_match(nodes@, children@, fields@.take(k as int)),
                    have_cands == has_reserved(fields@.take(k as int)),
                    cands.deep_view() == candidates_of_fields(fields@.take(k as int)),
                    valid_fields(fields@.take(k as int)),
                    keys_distinct(fields@.take(k as int)),
                decreases fields@.len() - k,
            {
                let kv = &fields[k];
                let ghost prefix = fields@.take(k as int);
                proof {
                    assert(fields@.take(k as int + 1) =~= prefix.push(fields@[k as int]));
                    lemma_valid_fields_index(prefix);
                }
                let klen = kv.0.as_str().unicode_len();
                if klen == 1 {
                    let c = kv.0.as_str().get_char(0);
                    if find_label(&children, c).is_some() {
                        proof {
                            lemma_lookup_child_found(children@, c);
                            let t = choose|t: int|
                                0 <= t < children@.len() && (#[trigger] children@[t]).0 == c
                                    && children@[t].1 == lookup_child(children@, c)->Some_0;
                            lemma_children_match_label_field(nodes@, children@, prefix, t);
                            let j = choose|j: int|
                                0 <= j < prefix.len() && !is_reserved_key(
                                    (#[trigger] prefix[j]).0@,
                                ) && prefix[j].0@.len() == 1 && prefix[j].0@[0] == children@[t].0;
                            assert(prefix[j] == fields@[j]);
                            assert(fields@[j].0@ =~= kv.0@);
                            assert(!keys_distinct(fields@));
                        }
                        return Err(config_error());
                    }
                    let ghost ns_before = nodes@;
                    let ghost ch0 = children@;
                    proof {
                        assert(decreases_to!(*v => v->Obj_0));
                        assert(v->Obj_0 == *fields);
                        assert(decreases_to!(*fields => fields@));
                        assert(decreases_to!(fields@ => fields@[k as int]));
                        assert(decreases_to!(fields@[k as int] => fields@[k as int].1));
                    }
                    let r = build_node(&kv.1, nodes);
                    match r {
                        Err(e) => {
                            proof {
                                assert(!valid_field(fields@[k as int]));
                                lemma_valid_fields_index(fields@);
                                assert(!valid_fields(fields@));
                            }
                            return Err(e);
                        },
                        Ok(ci) => {
                            proof {
                                lemma_children_match_grow(ns_before, nodes@, ch0, prefix);
                            }
                            children.push((c, ci));
                            proof {
                                assert(children@ == ch0.push((c, ci)));
                                lemma_children_match_push(
                                    nodes@,
                                    ch0,
                                    prefix,
                                    c,
                                    ci,
                                    fields@[k as int],
                                );
                                lemma_has_reserved_push(prefix, fields@[k as int]);
                                lemma_candidates_push_nonreserved(prefix, fields@[k as int]);
                                lemma_valid_fields_push(prefix, fields@[k as int]);
                                lemma_keys_distinct_push(prefix, fields@[k as int]);
                                assert forall|j: int|
                                    0 <= j < prefix.len() implies (#[trigger] prefix[j]).0@
                                    != fields@[k as int].0@ by {
                                    if prefix[j].0@ == fields@[k as int].0@ {
                                        assert(!is_reserved_key(prefix[j].0@));
                                        lemma_field_label_in_children(nodes@, ch0, prefix, j);
                                        lemma_lookup_child_none(ch0, c);
                                    }
                                }
                            }
                        },
                    }
                } else if klen == 2 && kv.0.as_str().get_char(0) == '>' && kv.0.as_str().get_char(1)
                    == '>' {
                    proof {
                        assert(is_reserved_key(kv.0@));
                    }
                    if have_cands {
                        proof {
                            let j = choose|j: int|
                                0 <= j < prefix.len() && is_reserved_key((#[trigger] prefix[j]).0@);
                            assert(prefix[j] == fields@[j]);
                            assert(fields@[j].0@ =~= kv.0@);
                            assert(!keys_distinct(fields@));
                        }
                        return Err(config_error());
                    }
                    match candidate_list(&kv.1) {
                        Err(e) => {
                            proof {
                                assert(!valid_field(fields@[k as int]));
                                lemma_valid_fields_index(fields@);
                                assert(!valid_fields(fields@));
                            }
                            return Err(e);
                        },
                        Ok(cs) => {
                            cands = cs;
                            have_cands = true;
                            proof {
                                lemma_children_match_push_reserved(
                                    nodes@,
                                    children@,
                                    prefix,
                                    fields@[k as int],
                                );
                                lemma_has_reserved_push(prefix, fields@[k as int]);
                                lemma_candidates_push_reserved(prefix, fields@[k as int]);
                                lemma_valid_fields_push(prefix, fields@[k as int]);
                                lemma_keys_distinct_push(prefix, fields@[k as int]);
                                assert forall|j: int|
                                    0 <= j < prefix.len() implies (#[trigger] prefix[j]).0@
                                    != fields@[k as int].0@ by {
                                    if prefix[j].0@ == fields@[k as int].0@ {
                                        assert(is_reserved_key(prefix[j].0@));
                                        assert(has_reserved(prefix));
                                    }
                                }
                            }
                        },
                    }
                } else {
                    proof {
                        assert(!is_reserved_key(kv.0@) && kv.0@.len() != 1);
                        assert(!valid_field(fields@[k as int]));
                        lemma_valid_fields_index(fields@);
                        assert(!valid_fields(fields@));
                    }
                    return Err(config_error());
                }
                k += 1;
            }
            proof {
                assert(fields@.take(k as int) =~= fields@);
            }
            let idx = nodes.len();
            let ghost ns_pre = nodes@;
            let ghost final_children = children@;
            let node = TrieNode { candidates: cands, children };
            nodes.push(node);
            proof {
                assert(nodes@ == ns_pre.push(node));
                assert forall|i: int, j: int|
                    0 <= i < nodes@.len() && 0 <= j < nodes@[i].children@.len() implies (
                #[trigger] nodes@[i].children@[j]).1 < i by {
                    if i < idx {
                        assert(nodes@[i] == ns_pre[i]);
                    } else {
                        assert(nodes@[i] == node);
                    }
                }
                lemma_children_match_grow(ns_pre, nodes@, final_children, fields@);
                assert(node_matches(nodes@, idx as int, *v));
            }
            Ok(idx)
        },
        _ => Err(config_error()),
    }
}

impl Trie {
    /// Build the tree from a parsed configuration payload. Fails,
    /// producing no tree at all, exactly when the payload is not a
    /// well-formed trie definition.
    pub fn from_value(v: &JsonValue) -> (r: Result<Trie, Error>)
        ensures
            r is Ok <==> valid_config(*v),
            r matches Ok(t) ==> t.wf() && node_matches(t.spec_nodes(), t.spec_root() as int, *v),
    {
        let mut nodes: Vec<TrieNode> = Vec::new();
        match build_node(v, &mut nodes) {
            Ok(root) => Ok(Trie { nodes, root }),
            Err(e) => Err(e),
        }
    }
}

impl Trie {
    /// The arena the tree is stored in.
    pub open(crate) spec fn spec_nodes(&self) -> Seq<TrieNode> {
        self.nodes@
    }

    /// The index of the root node.
    pub open(crate) spec fn spec_root(&self) -> usize {
        self.root
    }

    /// A valid tree: well-formed arena with the root inside it.
    pub open(crate) spec fn wf(&self) -> bool {
        &&& arena_wf(self.nodes@)
        &&& (self.root as int) < self.nodes@.len()
    }
}

} // verus!
