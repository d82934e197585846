//! Per-method route storage: a compressed prefix tree over route keys.
//!
//! A route pattern such as `/order/:id/activity` is turned into a key, a
//! sequence of tokens: each literal segment contributes `/` followed by its
//! bytes, a parameter segment contributes `/` and one parameter token, a
//! wildcard segment `/` and one wildcard token. Runs of literal bytes are
//! stored compressed in `Exact` nodes and are split when a new key shares
//! only part of a run.
use vstd::prelude::*;
use vstd::string::{StrSliceExecFns, StringSliceAdditionalSpecFns};
use crate::text::{copy_range, str_bytes};

verus! {

pub const SLASH: u8 = 0x2f;

pub const COLON: u8 = 0x3a;

pub const STAR: u8 = 0x2a;

/// What a node of the tree matches.
#[derive(PartialEq, Eq, Structural, Clone, Copy, Debug)]
pub enum RadixNodeType {
    /// A run of literal bytes.
    Exact,
    /// One whole path segment, bound to a parameter.
    PathArgument,
    /// The remainder of the path, bound to a parameter.
    WildCard,
}

/// A token of a route key.
pub enum Tok {
    Byte(u8),
    Param,
    Wild,
}

/// A node of the tree. `constant` holds the literal run of an `Exact` node and
/// is empty for the other kinds. A node carrying an endpoint is terminal; it
/// also keeps the parameter names of the pattern that ends there.
pub struct RadixNode {
    pub constant: Vec<u8>,
    pub node_type: RadixNodeType,
    pub endpoint_id: Option<u64>,
    pub parameter_names: Vec<Vec<u8>>,
    pub children: Vec<RadixNode>,
}

/// Ordering weight of a node kind: `Exact` children come first.
pub open spec fn kind_rank(t: RadixNodeType) -> int {
    match t {
        RadixNodeType::Exact => 3,
        RadixNodeType::PathArgument => 2,
        RadixNodeType::WildCard => 1,
    }
}

pub open spec fn bytes_to_toks(b: Seq<u8>) -> Seq<Tok> {
    b.map_values(|x: u8| Tok::Byte(x))
}

/// The key fragment that a node consumes.
pub open spec fn node_toks(n: RadixNode) -> Seq<Tok> {
    match n.node_type {
        RadixNodeType::Exact => bytes_to_toks(n.constant@),
        RadixNodeType::PathArgument => seq![Tok::Param],
        RadixNodeType::WildCard => seq![Tok::Wild],
    }
}

pub open spec fn is_prefix<A>(p: Seq<A>, s: Seq<A>) -> bool {
    p.len() <= s.len() && s.take(p.len() as int) == p
}

/// The node reached from `n` by following key `k` exactly.
pub open spec fn node_at(n: RadixNode, k: Seq<Tok>) -> Option<RadixNode>
    decreases n, 1nat,
{
    if k.len() == 0 {
        Some(n)
    } else {
        node_at_list(n.children@, k)
    }
}

pub open spec fn node_at_list(cs: Seq<RadixNode>, k: Seq<Tok>) -> Option<RadixNode>
    decreases cs, 0nat,
{
    if cs.len() == 0 {
        None
    } else {
        let p = node_toks(cs[0]);
        if p.len() > 0 && is_prefix(p, k) {
            node_at(cs[0], k.skip(p.len() as int))
        } else {
            node_at_list(cs.drop_first(), k)
        }
    }
}


/// The endpoint and parameter names stored under key `k`, if `k` is registered.
pub open spec fn terminal(n: RadixNode, k: Seq<Tok>) -> Option<(u64, Seq<Seq<u8>>)> {
    match node_at(n, k) {
        Some(m) => match m.endpoint_id {
            Some(id) => Some((id, m.parameter_names.deep_view())),
            None => None,
        },
        None => None,
    }
}

/// Children are ordered `Exact`, then at most one `PathArgument`, then at
/// most one `WildCard`; `Exact` children hold non-empty runs that start with
/// pairwise different bytes.
pub open spec fn wf_children(cs: Seq<RadixNode>) -> bool {
    &&& forall|i: int|
        0 <= i < cs.len() ==> (#[trigger] cs[i].node_type == RadixNodeType::Exact
            ==> cs[i].constant@.len() > 0)
    &&& forall|i: int, j: int|
        0 <= i < j < cs.len() ==> kind_rank(#[trigger] cs[i].node_type) >= kind_rank(
            #[trigger] cs[j].node_type,
        )
    &&& forall|i: int, j: int|
        0 <= i < j < cs.len() && (#[trigger] cs[i]).node_type != RadixNodeType::Exact
            ==> cs[i].node_type != (#[trigger] cs[j]).node_type
    &&& forall|i: int, j: int|
        0 <= i < cs.len() && 0 <= j < cs.len() && i != j && (#[trigger] cs[i]).node_type
            == RadixNodeType::Exact && (#[trigger] cs[j]).node_type == RadixNodeType::Exact
            ==> cs[i].constant@[0] != cs[j].constant@[0]
}

/// Well-formedness of a whole subtree.
pub open spec fn wf(n: RadixNode) -> bool
    decreases n,
{
    &&& wf_children(n.children@)
    &&& forall|i: int| 0 <= i < n.children@.len() ==> wf(#[trigger] n.children@[i])
}

/// Same nodes, runs, kinds and terminal positions; only the stored endpoints
/// and parameter names may differ.
pub open spec fn same_shape(a: RadixNode, b: RadixNode) -> bool
    decreases a,
{
    &&& a.constant@ == b.constant@
    &&& a.node_type == b.node_type
    &&& a.endpoint_id.is_some() == b.endpoint_id.is_some()
    &&& a.children@.len() == b.children@.len()
    &&& forall|i: int|
        0 <= i < a.children@.len() ==> same_shape(#[trigger] a.children@[i], b.children@[i])
}

pub open spec fn child_matches(c: RadixNode, k: Seq<Tok>) -> bool {
    node_toks(c).len() > 0 && is_prefix(node_toks(c), k)
}

proof fn lemma_unique_match(cs: Seq<RadixNode>, k: Seq<Tok>, i: int, j: int)
    requires
        wf_children(cs),
        0 <= i < cs.len(),
        0 <= j < cs.len(),
        child_matches(cs[i], k),
        child_matches(cs[j], k),
    ensures
        i == j,
{
    if i != j {
        let pi = node_toks(cs[i]);
        let pj = node_toks(cs[j]);
        assert(k[0] == pi[0]);
        assert(k[0] == pj[0]);
        if i < j {
            assert(kind_rank(cs[i].node_type) >= kind_rank(cs[j].node_type));
        } else {
            assert(kind_rank(cs[j].node_type) >= kind_rank(cs[i].node_type));
        }
    }
}

/// Looking a key up in a well-formed child list goes to the one child whose
/// fragment starts the key, if there is one.
proof fn lemma_at_list(cs: Seq<RadixNode>, k: Seq<Tok>)
    requires
        wf_children(cs),
    ensures
        forall|i: int|
            0 <= i < cs.len() && child_matches(#[trigger] cs[i], k) ==> node_at_list(cs, k)
                == node_at(cs[i], k.skip(node_toks(cs[i]).len() as int)),
        (forall|i: int| 0 <= i < cs.len() ==> !child_matches(#[trigger] cs[i], k))
            ==> node_at_list(cs, k) is None,
    decreases cs.len(),
{
    if cs.len() > 0 {
        let rest = cs.drop_first();
        assert(wf_children(rest)) by {
            assert forall|i: int| 0 <= i < rest.len() implies rest[i] == cs[i + 1] by {}
        }
        lemma_at_list(rest, k);
        assert forall|i: int|
            0 <= i < cs.len() && child_matches(#[trigger] cs[i], k) implies node_at_list(cs, k)
            == node_at(cs[i], k.skip(node_toks(cs[i]).len() as int)) by {
            if i > 0 {
                if child_matches(cs[0], k) {
                    lemma_unique_match(cs, k, 0, i);
                }
                assert(rest[i - 1] == cs[i]);
            }
        }
        if forall|i: int| 0 <= i < cs.len() ==> !child_matches(#[trigger] cs[i], k) {
            assert forall|i: int| 0 <= i < rest.len() implies !child_matches(#[trigger] rest[i], k) by {
                assert(rest[i] == cs[i + 1]);
            }
        }
    }
}


/// What lies under child `c` for a key `k` that `c` starts.
pub open spec fn terminal_below(c: RadixNode, k: Seq<Tok>) -> Option<(u64, Seq<Seq<u8>>)> {
    terminal(c, k.skip(node_toks(c).len() as int))
}

proof fn lemma_same_shape_refl(n: RadixNode)
    ensures
        same_shape(n, n),
    decreases n,
{
    assert forall|i: int| 0 <= i < n.children@.len() implies same_shape(
        #[trigger] n.children@[i],
        n.children@[i],
    ) by {
        lemma_same_shape_refl(n.children@[i]);
    }
}

proof fn lemma_same_shape_update(a: RadixNode, b: RadixNode, i: int, c: RadixNode)
    requires
        a.constant@ == b.constant@,
        a.node_type == b.node_type,
        a.endpoint_id.is_some() == b.endpoint_id.is_some(),
        0 <= i < a.children@.len(),
        b.children@ == a.children@.update(i, c),
        same_shape(a.children@[i], c),
    ensures
        same_shape(a, b),
{
    assert forall|j: int| 0 <= j < a.children@.len() implies same_shape(
        #[trigger] a.children@[j],
        b.children@[j],
    ) by {
        if j != i {
            lemma_same_shape_refl(a.children@[j]);
        }
    }
}

/// Two keys that share the prefix `p` are equal exactly when what follows it is.
proof fn lemma_skip_eq(k: Seq<Tok>, key: Seq<Tok>, pos: int, p: Seq<Tok>)
    requires
        0 <= pos <= key.len(),
        is_prefix(p, k),
        is_prefix(p, key.skip(pos)),
    ensures
        (k == key.skip(pos)) <==> (k.skip(p.len() as int) == key.skip(pos + p.len())),
{
    let n = p.len() as int;
    if k.skip(n) == key.skip(pos + n) {
        assert(k.skip(n).len() == key.skip(pos + n).len());
        assert(k.len() == key.skip(pos).len());
        assert forall|j: int| 0 <= j < k.len() implies k[j] == key.skip(pos)[j] by {
            if j < n {
                assert(k.take(n)[j] == p[j]);
                assert(key.skip(pos).take(n)[j] == p[j]);
            } else {
                assert(k.skip(n)[j - n] == key.skip(pos + n)[j - n]);
                assert(key.skip(pos + n)[j - n] == key.skip(pos)[j]);
            }
        }
        assert(k =~= key.skip(pos));
    }
    if k == key.skip(pos) {
        assert(k.skip(n) =~= key.skip(pos + n));
    }
}

/// Replacing one child by another whose fragment starts the same keys (or more)
/// and that adds exactly one key.
proof fn lemma_replace_child(
    old: RadixNode,
    new: RadixNode,
    i: int,
    c2: RadixNode,
    key: Seq<Tok>,
    pos: int,
    v: (u64, Seq<Seq<u8>>),
)
    requires
        wf_children(old.children@),
        wf_children(new.children@),
        new.endpoint_id == old.endpoint_id,
        new.parameter_names.deep_view() == old.parameter_names.deep_view(),
        0 <= i < old.children@.len(),
        new.children@ == old.children@.update(i, c2),
        0 <= pos < key.len(),
        child_matches(c2, key.skip(pos)),
        forall|k: Seq<Tok>| child_matches(old.children@[i], k) ==> child_matches(c2, k),
        forall|k: Seq<Tok>|
            #[trigger] child_matches(c2, k) ==> terminal_below(c2, k) == if k == key.skip(pos) {
                Some(v)
            } else if child_matches(old.children@[i], k) {
                terminal_below(old.children@[i], k)
            } else {
                None
            },
    ensures
        forall|k: Seq<Tok>| #[trigger]
            terminal(new, k) == if k == key.skip(pos) {
                Some(v)
            } else {
                terminal(old, k)
            },
{
    assert forall|k: Seq<Tok>| #[trigger]
        terminal(new, k) == if k == key.skip(pos) {
            Some(v)
        } else {
            terminal(old, k)
        } by {
        if k.len() > 0 {
            let ocs = old.children@;
            let ncs = new.children@;
            lemma_at_list(ocs, k);
            lemma_at_list(ncs, k);
            assert(ncs[i] == c2);
            if child_matches(c2, k) {
                if child_matches(ocs[i], k) {
                } else {
                    assert forall|j: int| 0 <= j < ocs.len() implies !child_matches(
                        #[trigger] ocs[j],
                        k,
                    ) by {
                        if j != i && child_matches(ocs[j], k) {
                            assert(ncs[j] == ocs[j]);
                            lemma_unique_match(ncs, k, i, j);
                        }
                    }
                }
            } else {
                assert(k != key.skip(pos)) by {
                    if k == key.skip(pos) {
                        assert(child_matches(c2, k));
                    }
                }
                if exists|j: int| 0 <= j < ocs.len() && child_matches(#[trigger] ocs[j], k) {
                    let j = choose|j: int| 0 <= j < ocs.len() && child_matches(#[trigger] ocs[j], k);
                    assert(j != i);
                    assert(ncs[j] == ocs[j]);
                } else {
                    assert forall|j: int| 0 <= j < ncs.len() implies !child_matches(
                        #[trigger] ncs[j],
                        k,
                    ) by {
                        if j != i {
                            assert(ncs[j] == ocs[j]);
                        }
                    }
                }
            }
        } else {
            assert(k =~= Seq::<Tok>::empty());
        }
    }
}

/// Adding a new child that carries exactly one key.
proof fn lemma_add_child(
    old: RadixNode,
    new: RadixNode,
    idx: int,
    c2: RadixNode,
    key: Seq<Tok>,
    pos: int,
    v: (u64, Seq<Seq<u8>>),
)
    requires
        wf_children(old.children@),
        wf_children(new.children@),
        new.endpoint_id == old.endpoint_id,
        new.parameter_names.deep_view() == old.parameter_names.deep_view(),
        0 <= idx <= old.children@.len(),
        new.children@ == old.children@.insert(idx, c2),
        0 <= pos < key.len(),
        child_matches(c2, key.skip(pos)),
        forall|k: Seq<Tok>|
            #[trigger] child_matches(c2, k) ==> terminal_below(c2, k) == if k == key.skip(pos) {
                Some(v)
            } else {
                None
            },
    ensures
        forall|k: Seq<Tok>| #[trigger]
            terminal(new, k) == if k == key.skip(pos) {
                Some(v)
            } else {
                terminal(old, k)
            },
{
    assert forall|k: Seq<Tok>| #[trigger]
        terminal(new, k) == if k == key.skip(pos) {
            Some(v)
        } else {
            terminal(old, k)
        } by {
        if k.len() > 0 {
            let ocs = old.children@;
            let ncs = new.children@;
            lemma_at_list(ocs, k);
            lemma_at_list(ncs, k);
            assert(ncs[idx] == c2);
            if child_matches(c2, k) {
                assert forall|j: int| 0 <= j < ocs.len() implies !child_matches(
                    #[trigger] ocs[j],
                    k,
                ) by {
                    let jj = if j < idx { j } else { j + 1 };
                    assert(ncs[jj] == ocs[j]);
                    if child_matches(ocs[j], k) {
                        lemma_unique_match(ncs, k, idx, jj);
                    }
                }
            } else {
                assert(k != key.skip(pos)) by {
                    if k == key.skip(pos) {
                        assert(child_matches(c2, k));
                    }
                }
                if exists|j: int| 0 <= j < ocs.len() && child_matches(#[trigger] ocs[j], k) {
                    let j = choose|j: int| 0 <= j < ocs.len() && child_matches(#[trigger] ocs[j], k);
                    let jj = if j < idx { j } else { j + 1 };
                    assert(ncs[jj] == ocs[j]);
                } else {
                    assert forall|j: int| 0 <= j < ncs.len() implies !child_matches(
                        #[trigger] ncs[j],
                        k,
                    ) by {
                        if j < idx {
                            assert(ncs[j] == ocs[j]);
                        } else if j > idx {
                            assert(ncs[j] == ocs[j - 1]);
                        }
                    }
                }
            }
        } else {
            assert(k =~= Seq::<Tok>::empty());
        }
    }
}


proof fn lemma_exact_prefix(c: Seq<u8>, k: Seq<Tok>)
    ensures
        is_prefix(bytes_to_toks(c), k) <==> (c.len() <= k.len() && forall|i: int|
            0 <= i < c.len() ==> k[i] == Tok::Byte(c[i])),
{
    if c.len() <= k.len() && forall|i: int| 0 <= i < c.len() ==> k[i] == Tok::Byte(c[i]) {
        assert(k.take(c.len() as int) =~= bytes_to_toks(c));
    }
    if is_prefix(bytes_to_toks(c), k) {
        assert forall|i: int| 0 <= i < c.len() implies k[i] == Tok::Byte(c[i]) by {
            assert(k.take(c.len() as int)[i] == bytes_to_toks(c)[i]);
        }
    }
}

/// Nodes that agree below their own fragment hold the same keys.
proof fn lemma_terminal_congruent(a: RadixNode, b: RadixNode, k: Seq<Tok>)
    requires
        a.endpoint_id == b.endpoint_id,
        a.parameter_names.deep_view() == b.parameter_names.deep_view(),
        a.children@ == b.children@,
    ensures
        terminal(a, k) == terminal(b, k),
{
}

/// A registered key that starts with a byte leads through an `Exact` child
/// whose whole run starts the key.
proof fn lemma_present_exact(n: RadixNode, k: Seq<Tok>, b: u8) -> (j: int)
    requires
        wf_children(n.children@),
        k.len() > 0,
        k[0] == Tok::Byte(b),
        terminal(n, k) is Some,
    ensures
        0 <= j < n.children@.len(),
        n.children@[j].node_type == RadixNodeType::Exact,
        n.children@[j].constant@[0] == b,
        child_matches(n.children@[j], k),
        terminal(n, k) == terminal_below(n.children@[j], k),
{
    lemma_at_list(n.children@, k);
    let j = choose|j: int| 0 <= j < n.children@.len() && child_matches(#[trigger] n.children@[j], k);
    let c = n.children@[j];
    assert(node_toks(c)[0] == k.take(node_toks(c).len() as int)[0]);
    if c.node_type == RadixNodeType::Exact {
        assert(bytes_to_toks(c.constant@)[0] == Tok::Byte(c.constant@[0]));
    }
    j
}

/// A registered key that starts with a dynamic token leads through the child
/// of that kind.
proof fn lemma_present_dynamic(n: RadixNode, k: Seq<Tok>, t: RadixNodeType) -> (j: int)
    requires
        wf_children(n.children@),
        k.len() > 0,
        t != RadixNodeType::Exact,
        k[0] == (if t == RadixNodeType::PathArgument { Tok::Param } else { Tok::Wild }),
        terminal(n, k) is Some,
    ensures
        0 <= j < n.children@.len(),
        n.children@[j].node_type == t,
        child_matches(n.children@[j], k),
        terminal(n, k) == terminal_below(n.children@[j], k),
{
    lemma_at_list(n.children@, k);
    let j = choose|j: int| 0 <= j < n.children@.len() && child_matches(#[trigger] n.children@[j], k);
    let c = n.children@[j];
    assert(node_toks(c)[0] == k.take(node_toks(c).len() as int)[0]);
    if c.node_type == RadixNodeType::Exact {
        assert(bytes_to_toks(c.constant@)[0] == Tok::Byte(c.constant@[0]));
    }
    j
}

proof fn lemma_descend(o: RadixNode, n: RadixNode, i: int, key: Seq<Tok>, pos: int, v: (
    u64,
    Seq<Seq<u8>>,
))
    requires
        wf(o),
        0 <= pos < key.len(),
        0 <= i < o.children@.len(),
        n.constant@ == o.constant@,
        n.node_type == o.node_type,
        n.endpoint_id == o.endpoint_id,
        n.parameter_names.deep_view() == o.parameter_names.deep_view(),
        n.children@ == o.children@.update(i, n.children@[i]),
        child_matches(o.children@[i], key.skip(pos)),
        wf(n.children@[i]),
        n.children@[i].constant@ == o.children@[i].constant@,
        n.children@[i].node_type == o.children@[i].node_type,
        forall|x: Seq<Tok>| #[trigger]
            terminal(n.children@[i], x) == if x == key.skip(
                pos + node_toks(o.children@[i]).len(),
            ) {
                Some(v)
            } else {
                terminal(o.children@[i], x)
            },
        terminal(o.children@[i], key.skip(pos + node_toks(o.children@[i]).len())) is Some
            ==> same_shape(o.children@[i], n.children@[i]),
    ensures
        wf(n),
        forall|k: Seq<Tok>| #[trigger]
            terminal(n, k) == if k == key.skip(pos) {
                Some(v)
            } else {
                terminal(o, k)
            },
        terminal(o, key.skip(pos)) is Some ==> same_shape(o, n),
{
    let c = o.children@[i];
    let c2 = n.children@[i];
    let ocs = o.children@;
    let ncs = n.children@;
    let ks = key.skip(pos);
    let m = node_toks(c).len() as int;
    assert(node_toks(c2) == node_toks(c));
    assert forall|j: int| 0 <= j < ncs.len() implies (#[trigger] ncs[j]).node_type
        == ocs[j].node_type && ncs[j].constant@ == ocs[j].constant@ && wf(ncs[j]) by {
        if j != i {
            assert(ncs[j] == ocs[j]);
        }
    }
    assert(wf_children(ncs));
    assert(wf(n));
    assert forall|k: Seq<Tok>| #[trigger] child_matches(c2, k) implies terminal_below(c2, k) == if k
        == ks {
        Some(v)
    } else if child_matches(c, k) {
        terminal_below(c, k)
    } else {
        None
    } by {
        lemma_skip_eq(k, key, pos, node_toks(c));
        assert(ks.skip(m) =~= key.skip(pos + m));
    }
    lemma_replace_child(o, n, i, c2, key, pos, v);
    if terminal(o, ks) is Some {
        lemma_at_list(ocs, ks);
        let j = choose|j: int| 0 <= j < ocs.len() && child_matches(#[trigger] ocs[j], ks);
        lemma_unique_match(ocs, ks, i, j);
        assert(ks.skip(m) =~= key.skip(pos + m));
        lemma_same_shape_update(o, n, i, c2);
    }
}

proof fn lemma_split(
    o: RadixNode,
    n: RadixNode,
    i: int,
    sfx: RadixNode,
    pre: RadixNode,
    key: Seq<Tok>,
    pos: int,
    l: int,
    v: (u64, Seq<Seq<u8>>),
)
    requires
        wf(o),
        0 <= i < o.children@.len(),
        o.children@[i].node_type == RadixNodeType::Exact,
        0 < l < o.children@[i].constant@.len(),
        0 <= pos,
        pos + l <= key.len(),
        forall|j: int| 0 <= j < l ==> key[pos + j] == Tok::Byte(o.children@[i].constant@[j]),
        pos + l < key.len() ==> key[pos + l] != Tok::Byte(o.children@[i].constant@[l]),
        sfx.constant@ == o.children@[i].constant@.subrange(l, o.children@[i].constant@.len() as int),
        sfx.node_type == RadixNodeType::Exact,
        sfx.endpoint_id == o.children@[i].endpoint_id,
        sfx.parameter_names.deep_view() == o.children@[i].parameter_names.deep_view(),
        sfx.children@ == o.children@[i].children@,
        pre.constant@ == o.children@[i].constant@.subrange(0, l),
        pre.node_type == RadixNodeType::Exact,
        pre.endpoint_id is None,
        pre.children@ == seq![sfx],
        n.constant@ == o.constant@,
        n.node_type == o.node_type,
        n.endpoint_id == o.endpoint_id,
        n.parameter_names.deep_view() == o.parameter_names.deep_view(),
        n.children@ == o.children@.update(i, n.children@[i]),
        wf(n.children@[i]),
        n.children@[i].constant@ == pre.constant@,
        n.children@[i].node_type == RadixNodeType::Exact,
        forall|x: Seq<Tok>| #[trigger]
            terminal(n.children@[i], x) == if x == key.skip(pos + l) {
                Some(v)
            } else {
                terminal(pre, x)
            },
    ensures
        wf(n),
        forall|k: Seq<Tok>| #[trigger]
            terminal(n, k) == if k == key.skip(pos) {
                Some(v)
            } else {
                terminal(o, k)
            },
        terminal(o, key.skip(pos)) is None,
{
    let c = o.children@[i];
    let c2 = n.children@[i];
    let ocs = o.children@;
    let ncs = n.children@;
    let ks = key.skip(pos);
    let cl = c.constant@.len() as int;
    assert(pos < key.len());
    assert(c2.constant@[0] == c.constant@[0]);
    assert forall|j: int| 0 <= j < ncs.len() implies (#[trigger] ncs[j]).node_type
        == ocs[j].node_type && (ncs[j].constant@.len() > 0) == (ocs[j].constant@.len() > 0)
        && (ncs[j].node_type == RadixNodeType::Exact ==> ncs[j].constant@[0]
        == ocs[j].constant@[0]) && wf(ncs[j]) by {
        if j != i {
            assert(ncs[j] == ocs[j]);
        }
    }
    assert(wf_children(ncs));
    assert(wf(n));
    let pt = bytes_to_toks(pre.constant@);
    assert(node_toks(c2) == pt);
    lemma_exact_prefix(pre.constant@, ks);
    assert(child_matches(c2, ks));
    assert forall|k: Seq<Tok>| child_matches(c, k) implies child_matches(c2, k) by {
        lemma_exact_prefix(c.constant@, k);
        lemma_exact_prefix(pre.constant@, k);
    }
    assert forall|k: Seq<Tok>| #[trigger] child_matches(c2, k) implies terminal_below(c2, k) == if k
        == ks {
        Some(v)
    } else if child_matches(c, k) {
        terminal_below(c, k)
    } else {
        None
    } by {
        lemma_skip_eq(k, key, pos, pt);
        assert(ks.skip(l) =~= key.skip(pos + l));
        let x = k.skip(l);
        lemma_exact_prefix(c.constant@, k);
        lemma_exact_prefix(pre.constant@, k);
        lemma_exact_prefix(sfx.constant@, x);
        if k != ks {
            if x.len() > 0 {
                lemma_at_list(pre.children@, x);
                assert(pre.children@[0] == sfx);
                if child_matches(c, k) {
                    assert(child_matches(sfx, x));
                    assert(k.skip(cl) =~= x.skip(cl - l));
                    lemma_terminal_congruent(sfx, c, x.skip(cl - l));
                } else {
                    assert(!child_matches(sfx, x)) by {
                        if child_matches(sfx, x) {
                            assert forall|j: int| 0 <= j < cl implies k[j] == Tok::Byte(
                                c.constant@[j],
                            ) by {
                                if j >= l {
                                    assert(x[j - l] == k[j]);
                                }
                            }
                        }
                    }
                }
            }
        }
    }
    lemma_replace_child(o, n, i, c2, key, pos, v);
    if terminal(o, ks) is Some {
        let b = c.constant@[0];
        assert(ks[0] == Tok::Byte(b));
        let j = lemma_present_exact(o, ks, b);
        assert(j == i);
        lemma_exact_prefix(c.constant@, ks);
        assert(ks[l] == key[pos + l]);
    }
}

proof fn lemma_new_exact(
    o: RadixNode,
    n: RadixNode,
    key: Seq<Tok>,
    pos: int,
    q: int,
    b: u8,
    v: (u64, Seq<Seq<u8>>),
)
    requires
        wf(o),
        0 <= pos < q <= key.len(),
        key[pos] == Tok::Byte(b),
        n.constant@ == o.constant@,
        n.node_type == o.node_type,
        n.endpoint_id == o.endpoint_id,
        n.parameter_names.deep_view() == o.parameter_names.deep_view(),
        n.children@.len() == o.children@.len() + 1,
        n.children@ == o.children@.insert(0, n.children@[0]),
        wf(n.children@[0]),
        n.children@[0].node_type == RadixNodeType::Exact,
        n.children@[0].constant@.len() == q - pos,
        forall|j: int| 0 <= j < q - pos ==> key[pos + j] == Tok::Byte(n.children@[0].constant@[j]),
        forall|j: int|
            0 <= j < o.children@.len() && (#[trigger] o.children@[j]).node_type
                == RadixNodeType::Exact ==> o.children@[j].constant@[0] != b,
        forall|x: Seq<Tok>| #[trigger]
            terminal(n.children@[0], x) == if x == key.skip(q) {
                Some(v)
            } else {
                None
            },
    ensures
        wf(n),
        forall|k: Seq<Tok>| #[trigger]
            terminal(n, k) == if k == key.skip(pos) {
                Some(v)
            } else {
                terminal(o, k)
            },
        terminal(o, key.skip(pos)) is None,
{
    let c2 = n.children@[0];
    let ocs = o.children@;
    let ncs = n.children@;
    let ks = key.skip(pos);
    assert(c2.constant@[0] == b);
    assert forall|j: int| 0 < j < ncs.len() implies #[trigger] ncs[j] == ocs[j - 1] by {}
    assert(wf_children(ncs));
    assert(wf(n));
    let pt = bytes_to_toks(c2.constant@);
    lemma_exact_prefix(c2.constant@, ks);
    assert(child_matches(c2, ks));
    assert forall|k: Seq<Tok>| #[trigger] child_matches(c2, k) implies terminal_below(c2, k) == if k
        == ks {
        Some(v)
    } else {
        None
    } by {
        lemma_skip_eq(k, key, pos, pt);
        assert(ks.skip(q - pos) =~= key.skip(q));
    }
    lemma_add_child(o, n, 0, c2, key, pos, v);
    if terminal(o, ks) is Some {
        let j = lemma_present_exact(o, ks, b);
    }
}

proof fn lemma_new_dynamic(
    o: RadixNode,
    n: RadixNode,
    idx: int,
    key: Seq<Tok>,
    pos: int,
    t: RadixNodeType,
    v: (u64, Seq<Seq<u8>>),
)
    requires
        wf(o),
        0 <= pos < key.len(),
        t != RadixNodeType::Exact,
        key[pos] == (if t == RadixNodeType::PathArgument { Tok::Param } else { Tok::Wild }),
        forall|j: int| 0 <= j < o.children@.len() ==> (#[trigger] o.children@[j]).node_type != t,
        0 <= idx <= o.children@.len(),
        idx < o.children@.len() ==> idx == o.children@.len() - 1 && t
            == RadixNodeType::PathArgument && o.children@[idx].node_type
            == RadixNodeType::WildCard,
        idx == o.children@.len() && t == RadixNodeType::PathArgument && idx > 0
            ==> o.children@[idx - 1].node_type != RadixNodeType::WildCard,
        n.constant@ == o.constant@,
        n.node_type == o.node_type,
        n.endpoint_id == o.endpoint_id,
        n.parameter_names.deep_view() == o.parameter_names.deep_view(),
        n.children@ == o.children@.insert(idx, n.children@[idx]),
        wf(n.children@[idx]),
        n.children@[idx].node_type == t,
        forall|x: Seq<Tok>| #[trigger]
            terminal(n.children@[idx], x) == if x == key.skip(pos + 1) {
                Some(v)
            } else {
                None
            },
    ensures
        wf(n),
        forall|k: Seq<Tok>| #[trigger]
            terminal(n, k) == if k == key.skip(pos) {
                Some(v)
            } else {
                terminal(o, k)
            },
        terminal(o, key.skip(pos)) is None,
{
    let c2 = n.children@[idx];
    let ocs = o.children@;
    let ncs = n.children@;
    let ks = key.skip(pos);
    assert forall|j: int| 0 <= j < ncs.len() && j != idx implies #[trigger] ncs[j] == (if j < idx {
        ocs[j]
    } else {
        ocs[j - 1]
    }) by {}
    assert forall|j: int| 0 <= j < ocs.len() && ocs[j].node_type == RadixNodeType::WildCard
        implies j == ocs.len() - 1 by {
        if j < ocs.len() - 1 {
            assert(kind_rank(ocs[j].node_type) >= kind_rank(ocs[ocs.len() - 1].node_type));
            assert(ocs[ocs.len() - 1].node_type == RadixNodeType::WildCard);
        }
    }
    assert(wf_children(ncs));
    assert(wf(n));
    let pt = node_toks(c2);
    assert(ks.take(1) =~= pt);
    assert(child_matches(c2, ks));
    assert forall|k: Seq<Tok>| #[trigger] child_matches(c2, k) implies terminal_below(c2, k) == if k
        == ks {
        Some(v)
    } else {
        None
    } by {
        lemma_skip_eq(k, key, pos, pt);
        assert(ks.skip(1) =~= key.skip(pos + 1));
    }
    lemma_add_child(o, n, idx, c2, key, pos, v);
    if terminal(o, ks) is Some {
        let j = lemma_present_dynamic(o, ks, t);
    }
}

/// Length of the path segment at the start of `p`: the bytes before the first `/`.
pub proof fn lemma_seg_len(p: Seq<u8>)
    ensures
        seg_len(p) <= p.len(),
        p.len() > 0 && p[0] != SLASH ==> seg_len(p) >= 1,
    decreases p.len(),
{
    if p.len() > 0 && p[0] != SLASH {
        lemma_seg_len(p.drop_first());
    }
}

pub open spec fn seg_len(p: Seq<u8>) -> nat
    decreases p.len(),
{
    if p.len() == 0 || p[0] == SLASH {
        0
    } else {
        1 + seg_len(p.drop_first())
    }
}

/// The key fragment of one pattern segment.
pub open spec fn segment_toks(s: Seq<u8>) -> Seq<Tok> {
    if s.len() > 0 && s[0] == COLON {
        seq![Tok::Byte(SLASH), Tok::Param]
    } else if s.len() > 0 && s[0] == STAR {
        seq![Tok::Byte(SLASH), Tok::Wild]
    } else {
        seq![Tok::Byte(SLASH)] + bytes_to_toks(s)
    }
}

/// The parameter names that one pattern segment declares.
pub open spec fn segment_names(s: Seq<u8>) -> Seq<Seq<u8>> {
    if s.len() > 0 && (s[0] == COLON || s[0] == STAR) {
        seq![s.drop_first()]
    } else {
        seq![]
    }
}

/// The route key of a pattern read from `p`: segments are split on `/` and
/// empty ones are dropped.
pub open spec fn key_of(p: Seq<u8>) -> Seq<Tok>
    decreases p.len(),
{
    if p.len() == 0 {
        seq![]
    } else if p[0] == SLASH {
        key_of(p.drop_first())
    } else {
        let n = seg_len(p);
        proof {
            lemma_seg_len(p);
        }
        segment_toks(p.take(n as int)) + key_of(p.skip(n as int))
    }
}

/// The parameter names of a pattern, in order.
pub open spec fn names_of(p: Seq<u8>) -> Seq<Seq<u8>>
    decreases p.len(),
{
    if p.len() == 0 {
        seq![]
    } else if p[0] == SLASH {
        names_of(p.drop_first())
    } else {
        let n = seg_len(p);
        proof {
            lemma_seg_len(p);
        }
        segment_names(p.take(n as int)) + names_of(p.skip(n as int))
    }
}

/// A path with empty segments removed: `/s1/s2/...`, or empty for the root.
pub open spec fn normalized(p: Seq<u8>) -> Seq<u8>
    decreases p.len(),
{
    if p.len() == 0 {
        seq![]
    } else if p[0] == SLASH {
        normalized(p.drop_first())
    } else {
        let n = seg_len(p);
        proof {
            lemma_seg_len(p);
        }
        seq![SLASH] + p.take(n as int) + normalized(p.skip(n as int))
    }
}

/// Unicode `White_Space`, the characters `str::trim` removes.
pub open spec fn is_white_space(c: char) -> bool {
    ('\u{9}' <= c && c <= '\u{d}') || c == ' ' || c == '\u{85}' || c == '\u{a0}'
        || c == '\u{1680}' || ('\u{2000}' <= c && c <= '\u{200a}') || c == '\u{2028}'
        || c == '\u{2029}' || c == '\u{202f}' || c == '\u{205f}' || c == '\u{3000}'
}

/// A pattern made of white space only denotes the root.
pub open spec fn all_blank(p: Seq<char>) -> bool {
    forall|i: int| 0 <= i < p.len() ==> is_white_space(#[trigger] p[i])
}

/// The key under which pattern `p` is registered.
pub open spec fn pattern_key(p: &str) -> Seq<Tok> {
    if all_blank(p@) {
        seq![]
    } else {
        key_of(p.spec_bytes())
    }
}

pub open spec fn pattern_names(p: &str) -> Seq<Seq<u8>> {
    if all_blank(p@) {
        seq![]
    } else {
        names_of(p.spec_bytes())
    }
}

fn token_is_byte(t: &Tok, b: u8) -> (r: bool)
    ensures
        r == (*t == Tok::Byte(b)),
{
    match t {
        Tok::Byte(x) => *x == b,
        _ => false,
    }
}

impl RadixNode {
    /// Length of the longest common prefix of `constant` and the key from `pos`.
    pub fn common_prefix_length(constant: &Vec<u8>, key: &Vec<Tok>, pos: usize) -> (l: usize)
        requires
            pos <= key.len(),
        ensures
            l <= constant.len(),
            pos + l <= key.len(),
            forall|i: int| 0 <= i < l ==> key@[pos + i] == Tok::Byte(constant@[i]),
            l < constant.len() && pos + l < key.len() ==> key@[pos + l] != Tok::Byte(
                constant@[l as int],
            ),
    {
        let mut l: usize = 0;
        while l < constant.len() && pos + l < key.len() && token_is_byte(
            &key[pos + l],
            constant[l],
        )
            invariant
                l <= constant.len(),
                pos + l <= key.len(),
                forall|i: int| 0 <= i < l ==> key@[pos + i] == Tok::Byte(constant@[i]),
            decreases constant.len() - l,
        {
            l = l + 1;
        }
        l
    }

    fn leaf(constant: Vec<u8>, node_type: RadixNodeType) -> (r: RadixNode)
        ensures
            r.constant@ == constant@,
            r.node_type == node_type,
            r.endpoint_id is None,
            r.children@.len() == 0,
            wf(r),
    {
        RadixNode {
            constant,
            node_type,
            endpoint_id: None,
            parameter_names: Vec::new(),
            children: Vec::new(),
        }
    }

    /// Index of the `Exact` child whose run starts with byte `b`.
    fn exact_child_starting(&self, b: u8) -> (r: Option<usize>)
        requires
            wf_children(self.children@),
        ensures
            match r {
                Some(i) => i < self.children@.len() && self.children@[i as int].node_type
                    == RadixNodeType::Exact && self.children@[i as int].constant@[0] == b,
                None => forall|j: int|
                    0 <= j < self.children@.len() && (#[trigger] self.children@[j]).node_type
                        == RadixNodeType::Exact ==> self.children@[j].constant@[0] != b,
            },
    {
        let mut i: usize = 0;
        while i < self.children.len()
            invariant
                i <= self.children@.len(),
                wf_children(self.children@),
                forall|j: int|
                    0 <= j < i && (#[trigger] self.children@[j]).node_type == RadixNodeType::Exact
                        ==> self.children@[j].constant@[0] != b,
            decreases self.children@.len() - i,
        {
            if self.children[i].node_type == RadixNodeType::Exact && self.children[i].constant[0]
                == b {
                return Some(i);
            }
            i = i + 1;
        }
        None
    }

    /// The longest run of literal bytes of the key from `pos`.
    fn byte_run(key: &Vec<Tok>, pos: usize) -> (run: Vec<u8>)
        requires
            pos <= key.len(),
        ensures
            pos + run@.len() <= key.len(),
            forall|i: int| 0 <= i < run@.len() ==> key@[pos + i] == Tok::Byte(run@[i]),
            pos + run@.len() < key.len() ==> !(key@[pos + run@.len()] is Byte),
    {
        let mut run: Vec<u8> = Vec::new();
        let mut q: usize = pos;
        while q < key.len()
            invariant
                pos <= q <= key.len(),
                q == pos + run@.len(),
                forall|i: int| 0 <= i < run@.len() ==> key@[pos + i] == Tok::Byte(run@[i]),
            decreases key.len() - q,
        {
            match &key[q] {
                Tok::Byte(b) => {
                    run.push(*b);
                },
                _ => {
                    return run;
                },
            }
            q = q + 1;
        }
        run
    }

    /// Index of the dynamic child of kind `t`.
    fn dynamic_child(&self, t: RadixNodeType) -> (r: Option<usize>)
        ensures
            match r {
                Some(i) => i < self.children@.len() && self.children@[i as int].node_type == t,
                None => forall|j: int|
                    0 <= j < self.children@.len() ==> (#[trigger] self.children@[j]).node_type
                        != t,
            },
    {
        let mut i: usize = 0;
        while i < self.children.len()
            invariant
                i <= self.children@.len(),
                forall|j: int| 0 <= j < i ==> (#[trigger] self.children@[j]).node_type != t,
            decreases self.children@.len() - i,
        {
            if self.children[i].node_type == t {
                return Some(i);
            }
            i = i + 1;
        }
        None
    }
}


impl RadixNode {
    /// Adds the key `key[pos..]` below this node and makes its end terminal
    /// with `endpoint_id` and the pattern's parameter `names`.
    fn insert_at(&mut self, key: &Vec<Tok>, pos: usize, endpoint_id: u64, names: Vec<Vec<u8>>)
        requires
            wf(*old(self)),
            pos <= key.len(),
        ensures
            wf(*final(self)),
            final(self).constant@ == old(self).constant@,
            final(self).node_type == old(self).node_type,
            forall|k: Seq<Tok>| #[trigger]
                terminal(*final(self), k) == if k == key@.skip(pos as int) {
                    Some((endpoint_id, names.deep_view()))
                } else {
                    terminal(*old(self), k)
                },
            terminal(*old(self), key@.skip(pos as int)) is Some ==> same_shape(
                *old(self),
                *final(self),
            ),
        decreases key.len() - pos,
    {
        let ghost v = (endpoint_id, names.deep_view());
        let ghost ks = key@.skip(pos as int);
        let ghost o = *self;
        if pos == key.len() {
            self.endpoint_id = Some(endpoint_id);
            self.parameter_names = names;
            proof {
                assert forall|k: Seq<Tok>| #[trigger]
                    terminal(*self, k) == if k == ks {
                        Some(v)
                    } else {
                        terminal(o, k)
                    } by {
                    if k.len() == 0 {
                        assert(k =~= ks);
                    }
                }
                if terminal(o, ks) is Some {
                    assert(ks.len() == 0);
                    lemma_same_shape_refl(o);
                }
            }
            return;
        }
        match &key[pos] {
            Tok::Byte(b) => {
                let b = *b;
                match self.exact_child_starting(b) {
                    Some(i) => {
                        let l = Self::common_prefix_length(&self.children[i].constant, key, pos);
                        let ghost c = self.children@[i as int];
                        proof {
                            assert(key@[pos as int] == Tok::Byte(c.constant@[0]));
                        }
                        if l == self.children[i].constant.len() {
                            self.children[i].insert_at(key, pos + l, endpoint_id, names);
                            proof {
                                lemma_exact_prefix(c.constant@, ks);
                                lemma_descend(o, *self, i as int, key@, pos as int, v);
                            }
                        } else {
                            let old_child = self.children.remove(i);
                            let RadixNode {
                                constant: mut prefix,
                                node_type: _,
                                endpoint_id: old_id,
                                parameter_names: old_names,
                                children: old_children,
                            } = old_child;
                            let suffix = prefix.split_off(l);
                            let suffix_node = RadixNode {
                                constant: suffix,
                                node_type: RadixNodeType::Exact,
                                endpoint_id: old_id,
                                parameter_names: old_names,
                                children: old_children,
                            };
                            let mut prefix_node = RadixNode::leaf(prefix, RadixNodeType::Exact);
                            prefix_node.children.push(suffix_node);
                            let ghost pre = prefix_node;
                            proof {
                                assert(prefix_node.children@ =~= seq![suffix_node]);
                                assert(wf(c));
                                assert(wf(suffix_node));
                                assert(wf_children(prefix_node.children@));
                                assert(wf(prefix_node));
                            }
                            prefix_node.insert_at(key, pos + l, endpoint_id, names);
                            self.children.insert(i, prefix_node);
                            proof {
                                assert(self.children@ =~= o.children@.update(i as int, prefix_node));
                                lemma_split(o, *self, i as int, suffix_node, pre, key@, pos as int, l as int, v);
                            }
                        }
                    },
                    None => {
                        let run = Self::byte_run(key, pos);
                        let q = pos + run.len();
                        let mut child = RadixNode::leaf(run, RadixNodeType::Exact);
                        child.insert_at(key, q, endpoint_id, names);
                        self.children.insert(0, child);
                        proof {
                            assert(self.children@ =~= o.children@.insert(0, child));
                            lemma_new_exact(o, *self, key@, pos as int, q as int, b, v);
                        }
                    },
                }
            },
            _ => {
                let t = match &key[pos] {
                    Tok::Param => RadixNodeType::PathArgument,
                    _ => RadixNodeType::WildCard,
                };
                match self.dynamic_child(t) {
                    Some(i) => {
                        self.children[i].insert_at(key, pos + 1, endpoint_id, names);
                        proof {
                            let ghost c = o.children@[i as int];
                            assert(ks[0] == key@[pos as int]);
                            assert(ks.take(1) =~= node_toks(c));
                            lemma_descend(o, *self, i as int, key@, pos as int, v);
                        }
                    },
                    None => {
                        let mut child = RadixNode::leaf(Vec::new(), t);
                        child.insert_at(key, pos + 1, endpoint_id, names);
                        let n = self.children.len();
                        let idx = if t == RadixNodeType::PathArgument && n > 0
                            && self.children[n - 1].node_type == RadixNodeType::WildCard {
                            n - 1
                        } else {
                            n
                        };
                        self.children.insert(idx, child);
                        proof {
                            assert(self.children@ =~= o.children@.insert(idx as int, child));
                            lemma_new_dynamic(o, *self, idx as int, key@, pos as int, t, v);
                        }
                    },
                }
            },
        }
    }
}


/// How specific a match is: a match through a wildcard is weakest, one
/// through a parameter is in between, an all-literal match is strongest.
#[derive(PartialEq, Eq, Structural, Clone, Copy, Debug)]
pub enum MatchPriority {
    Exact,
    Parameter,
    WildCard,
}

pub open spec fn prio_rank(p: MatchPriority) -> int {
    match p {
        MatchPriority::Exact => 3,
        MatchPriority::Parameter => 2,
        MatchPriority::WildCard => 1,
    }
}

/// The priority after passing through a parameter node.
pub open spec fn through_param(p: MatchPriority) -> MatchPriority {
    if p == MatchPriority::Exact {
        MatchPriority::Parameter
    } else {
        p
    }
}

/// A candidate match: endpoint id, parameter names of its pattern, values
/// bound on the way, priority.
pub type Hit = (u64, Seq<Seq<u8>>, Seq<Seq<u8>>, MatchPriority);

/// Of two candidates found in this order, the later one wins only with a
/// strictly higher priority.
pub open spec fn better(a: Option<Hit>, b: Option<Hit>) -> Option<Hit> {
    match a {
        None => b,
        Some(x) => match b {
            Some(y) => if prio_rank(y.3) > prio_rank(x.3) {
                b
            } else {
                a
            },
            None => a,
        },
    }
}

/// The best candidate below `n` for the normalized path remainder `rest`.
pub open spec fn search(n: RadixNode, rest: Seq<u8>, pr: MatchPriority, vals: Seq<Seq<u8>>) -> Option<Hit>
    decreases n, 1nat,
{
    if rest.len() == 0 {
        match n.endpoint_id {
            Some(id) => Some((id, n.parameter_names.deep_view(), vals, pr)),
            None => None,
        }
    } else {
        search_list(n.children@, rest, pr, vals)
    }
}

/// The best candidate through child `c`.
pub open spec fn search_child(c: RadixNode, rest: Seq<u8>, pr: MatchPriority, vals: Seq<Seq<u8>>) -> Option<Hit>
    decreases c, 2nat,
{
    match c.node_type {
        RadixNodeType::Exact => if c.constant@.len() > 0 && is_prefix(c.constant@, rest) {
            search(c, rest.skip(c.constant@.len() as int), pr, vals)
        } else {
            None
        },
        RadixNodeType::PathArgument => {
            let sl = seg_len(rest);
            if sl > 0 {
                proof {
                    lemma_seg_len(rest);
                }
                search(c, rest.skip(sl as int), through_param(pr), vals.push(rest.take(sl as int)))
            } else {
                None
            }
        },
        RadixNodeType::WildCard => search(c, seq![], MatchPriority::WildCard, vals.push(rest)),
    }
}

/// The best candidate among a list of children, tried in order.
pub open spec fn search_list(cs: Seq<RadixNode>, rest: Seq<u8>, pr: MatchPriority, vals: Seq<Seq<u8>>) -> Option<Hit>
    decreases cs, 0nat,
{
    if cs.len() == 0 {
        None
    } else {
        better(
            search_list(cs.drop_last(), rest, pr, vals),
            search_child(cs[cs.len() - 1], rest, pr, vals),
        )
    }
}

/// What a request path resolves to in the tree rooted at `t`.
pub open spec fn resolve(t: RadixNode, path: Seq<u8>) -> Option<Hit> {
    search(t, normalized(path), MatchPriority::Exact, seq![])
}

/// Parameter names paired with the values bound to them.
pub open spec fn bindings(h: Hit) -> Seq<(Seq<u8>, Seq<u8>)> {
    let n = if h.1.len() <= h.2.len() { h.1.len() } else { h.2.len() };
    Seq::new(n, |i: int| (h.1[i], h.2[i]))
}

pub open spec fn tok_rank(t: Tok) -> int {
    match t {
        Tok::Byte(_) => 3,
        Tok::Param => 2,
        Tok::Wild => 1,
    }
}

/// The priority class of a key, as a rank: 3 when all literal, 2 when it
/// has a parameter but no wildcard, 1 with a wildcard.
pub open spec fn key_rank(k: Seq<Tok>) -> int
    decreases k.len(),
{
    if k.len() == 0 {
        3
    } else {
        let r = key_rank(k.drop_first());
        if tok_rank(k[0]) < r {
            tok_rank(k[0])
        } else {
            r
        }
    }
}

/// Whether key `k` matches the normalized path remainder `rest`: literal
/// bytes must be equal, a parameter takes one non-empty segment, a wildcard
/// ends the key and takes the non-empty remainder.
pub open spec fn key_matches(k: Seq<Tok>, rest: Seq<u8>) -> bool
    decreases k.len(),
{
    if k.len() == 0 {
        rest.len() == 0
    } else {
        match k[0] {
            Tok::Byte(b) => rest.len() > 0 && rest[0] == b && key_matches(
                k.drop_first(),
                rest.drop_first(),
            ),
            Tok::Param => seg_len(rest) > 0 && key_matches(
                k.drop_first(),
                rest.skip(seg_len(rest) as int),
            ),
            Tok::Wild => rest.len() > 0 && k.len() == 1,
        }
    }
}

proof fn lemma_search_list_ge(
    cs: Seq<RadixNode>,
    j: int,
    rest: Seq<u8>,
    pr: MatchPriority,
    vals: Seq<Seq<u8>>,
)
    requires
        0 <= j < cs.len(),
        search_child(cs[j], rest, pr, vals) is Some,
    ensures
        search_list(cs, rest, pr, vals) is Some,
        prio_rank(search_list(cs, rest, pr, vals).unwrap().3) >= prio_rank(
            search_child(cs[j], rest, pr, vals).unwrap().3,
        ),
    decreases cs.len(),
{
    if j < cs.len() - 1 {
        assert(cs.drop_last()[j] == cs[j]);
        lemma_search_list_ge(cs.drop_last(), j, rest, pr, vals);
    }
}

proof fn lemma_search_list_from(cs: Seq<RadixNode>, rest: Seq<u8>, pr: MatchPriority, vals: Seq<Seq<u8>>) -> (j: int)
    requires
        search_list(cs, rest, pr, vals) is Some,
    ensures
        0 <= j < cs.len(),
        search_child(cs[j], rest, pr, vals) == search_list(cs, rest, pr, vals),
    decreases cs.len(),
{
    if search_list(cs, rest, pr, vals) == search_child(cs[cs.len() - 1], rest, pr, vals) {
        cs.len() - 1
    } else {
        let j = lemma_search_list_from(cs.drop_last(), rest, pr, vals);
        assert(cs.drop_last()[j] == cs[j]);
        j
    }
}

proof fn lemma_rank_le(n: RadixNode, rest: Seq<u8>, pr: MatchPriority, vals: Seq<Seq<u8>>)
    ensures
        search(n, rest, pr, vals) is Some ==> prio_rank(search(n, rest, pr, vals).unwrap().3)
            <= prio_rank(pr),
    decreases n, 1nat,
{
    if rest.len() > 0 {
        lemma_rank_le_list(n.children@, rest, pr, vals);
    }
}

proof fn lemma_rank_le_list(cs: Seq<RadixNode>, rest: Seq<u8>, pr: MatchPriority, vals: Seq<Seq<u8>>)
    ensures
        search_list(cs, rest, pr, vals) is Some ==> prio_rank(
            search_list(cs, rest, pr, vals).unwrap().3,
        ) <= prio_rank(pr),
    decreases cs, 0nat,
{
    if search_list(cs, rest, pr, vals) is Some {
        let j = lemma_search_list_from(cs, rest, pr, vals);
        let c = cs[j];
        match c.node_type {
            RadixNodeType::Exact => {
                lemma_rank_le(c, rest.skip(c.constant@.len() as int), pr, vals);
            },
            RadixNodeType::PathArgument => {
                let sl = seg_len(rest);
                lemma_rank_le(c, rest.skip(sl as int), through_param(pr), vals.push(rest.take(sl as int)));
            },
            RadixNodeType::WildCard => {
                lemma_rank_le(c, seq![], MatchPriority::WildCard, vals.push(rest));
            },
        }
    }
}

proof fn lemma_key_rank_suffix(k: Seq<Tok>, m: int)
    requires
        0 <= m <= k.len(),
    ensures
        key_rank(k.skip(m)) >= key_rank(k),
    decreases m,
{
    if m == 0 {
        assert(k.skip(0) =~= k);
    } else {
        lemma_key_rank_suffix(k, m - 1);
        assert(k.skip(m - 1).drop_first() =~= k.skip(m));
    }
}

proof fn lemma_matches_bytes(b: Seq<u8>, k: Seq<Tok>, rest: Seq<u8>)
    requires
        is_prefix(bytes_to_toks(b), k),
        key_matches(k, rest),
    ensures
        is_prefix(b, rest),
        key_matches(k.skip(b.len() as int), rest.skip(b.len() as int)),
    decreases b.len(),
{
    lemma_exact_prefix(b, k);
    if b.len() == 0 {
        assert(k.skip(0) =~= k);
        assert(rest.skip(0) =~= rest);
        assert(rest.take(0) =~= b);
    } else {
        assert(k[0] == Tok::Byte(b[0]));
        let b2 = b.drop_first();
        let k2 = k.drop_first();
        let r2 = rest.drop_first();
        lemma_exact_prefix(b2, k2);
        assert forall|i: int| 0 <= i < b2.len() implies k2[i] == Tok::Byte(b2[i]) by {
            assert(k[i + 1] == Tok::Byte(b[i + 1]));
        }
        lemma_matches_bytes(b2, k2, r2);
        assert(k2.skip(b2.len() as int) =~= k.skip(b.len() as int));
        assert(r2.skip(b2.len() as int) =~= rest.skip(b.len() as int));
        assert(rest.take(b.len() as int) =~= b) by {
            assert forall|i: int| 0 <= i < b.len() implies rest[i] == b[i] by {
                if i > 0 {
                    assert(r2.take(b2.len() as int)[i - 1] == b2[i - 1]);
                }
            }
        }
    }
}

/// A registered key that matches the path is found, and the search result
/// is at least as specific as that key.
proof fn lemma_search_finds(n: RadixNode, k: Seq<Tok>, rest: Seq<u8>, pr: MatchPriority, vals: Seq<Seq<u8>>)
    requires
        wf(n),
        terminal(n, k) is Some,
        key_matches(k, rest),
    ensures
        search(n, rest, pr, vals) is Some,
        prio_rank(search(n, rest, pr, vals).unwrap().3) >= prio_rank(pr) || prio_rank(
            search(n, rest, pr, vals).unwrap().3,
        ) >= key_rank(k),
    decreases n,
{
    if k.len() > 0 {
        let cs = n.children@;
        lemma_at_list(cs, k);
        let j = choose|j: int| 0 <= j < cs.len() && child_matches(#[trigger] cs[j], k);
        let c = cs[j];
        let m = node_toks(c).len() as int;
        assert(wf(c));
        lemma_key_rank_suffix(k, m);
        match c.node_type {
            RadixNodeType::Exact => {
                lemma_matches_bytes(c.constant@, k, rest);
                lemma_search_finds(c, k.skip(m), rest.skip(m), pr, vals);
            },
            RadixNodeType::PathArgument => {
                assert(k[0] == k.take(1)[0]);
                assert(k[0] == Tok::Param);
                assert(k.drop_first() =~= k.skip(1));
                let sl = seg_len(rest);
                lemma_search_finds(c, k.skip(1), rest.skip(sl as int), through_param(pr), vals.push(rest.take(sl as int)));
            },
            RadixNodeType::WildCard => {
                assert(k[0] == k.take(1)[0]);
                assert(k[0] == Tok::Wild);
                assert(k.skip(1) =~= Seq::<Tok>::empty());
            },
        }
        lemma_search_list_ge(cs, j, rest, pr, vals);
    }
}

/// An all-literal result was reached along the path itself.
proof fn lemma_exact_hit(n: RadixNode, rest: Seq<u8>, pr: MatchPriority, vals: Seq<Seq<u8>>)
    requires
        wf(n),
        search(n, rest, pr, vals) is Some,
        search(n, rest, pr, vals).unwrap().3 == MatchPriority::Exact,
    ensures
        terminal(n, bytes_to_toks(rest)) == Some(
            (search(n, rest, pr, vals).unwrap().0, search(n, rest, pr, vals).unwrap().1),
        ),
    decreases n,
{
    let k = bytes_to_toks(rest);
    if rest.len() > 0 {
        let cs = n.children@;
        let j = lemma_search_list_from(cs, rest, pr, vals);
        let c = cs[j];
        assert(wf(c));
        match c.node_type {
            RadixNodeType::Exact => {
                let m = c.constant@.len() as int;
                lemma_exact_hit(c, rest.skip(m), pr, vals);
                lemma_exact_prefix(c.constant@, k);
                assert forall|i: int| 0 <= i < m implies k[i] == Tok::Byte(c.constant@[i]) by {
                    assert(rest.take(m)[i] == c.constant@[i]);
                }
                lemma_at_list(cs, k);
                assert(k.skip(m) =~= bytes_to_toks(rest.skip(m)));
            },
            RadixNodeType::PathArgument => {
                let sl = seg_len(rest);
                lemma_rank_le(c, rest.skip(sl as int), through_param(pr), vals.push(rest.take(sl as int)));
            },
            RadixNodeType::WildCard => {
                lemma_rank_le(c, seq![], MatchPriority::WildCard, vals.push(rest));
            },
        }
    } else {
        assert(k =~= Seq::<Tok>::empty());
    }
}

proof fn lemma_literal_matches(r: Seq<u8>)
    ensures
        key_matches(bytes_to_toks(r), r),
        key_rank(bytes_to_toks(r)) == 3,
    decreases r.len(),
{
    if r.len() > 0 {
        lemma_literal_matches(r.drop_first());
        assert(bytes_to_toks(r).drop_first() =~= bytes_to_toks(r.drop_first()));
    }
}

proof fn lemma_key_rank_bytes(b: Seq<u8>, k2: Seq<Tok>)
    ensures
        key_rank(bytes_to_toks(b) + k2) == key_rank(k2),
    decreases b.len(),
{
    if b.len() > 0 {
        lemma_key_rank_bytes(b.drop_first(), k2);
        assert((bytes_to_toks(b) + k2).drop_first() =~= bytes_to_toks(b.drop_first()) + k2);
        lemma_key_rank_le3(k2);
        lemma_key_rank_le3(bytes_to_toks(b.drop_first()) + k2);
    } else {
        assert(bytes_to_toks(b) + k2 =~= k2);
    }
}

proof fn lemma_bytes_then_matches(b: Seq<u8>, k2: Seq<Tok>, rest: Seq<u8>)
    requires
        is_prefix(b, rest),
        key_matches(k2, rest.skip(b.len() as int)),
    ensures
        key_matches(bytes_to_toks(b) + k2, rest),
    decreases b.len(),
{
    let k = bytes_to_toks(b) + k2;
    if b.len() == 0 {
        assert(k =~= k2);
        assert(rest.skip(0) =~= rest);
    } else {
        let b2 = b.drop_first();
        let r2 = rest.drop_first();
        assert(rest.take(b.len() as int)[0] == b[0]);
        assert(r2.take(b2.len() as int) =~= b2) by {
            assert forall|i: int| 0 <= i < b2.len() implies r2[i] == b2[i] by {
                assert(rest.take(b.len() as int)[i + 1] == b[i + 1]);
            }
        }
        assert(r2.skip(b2.len() as int) =~= rest.skip(b.len() as int));
        lemma_bytes_then_matches(b2, k2, r2);
        assert(k.drop_first() =~= bytes_to_toks(b2) + k2);
        assert(k[0] == Tok::Byte(b[0]));
    }
}

proof fn lemma_hit_registered(n: RadixNode, rest: Seq<u8>, pr: MatchPriority, vals: Seq<Seq<u8>>) -> (k: Seq<Tok>)
    requires
        wf(n),
        search(n, rest, pr, vals) is Some,
    ensures
        terminal(n, k) == Some((search(n, rest, pr, vals).unwrap().0, search(n, rest, pr, vals).unwrap().1)),
        key_matches(k, rest),
        prio_rank(search(n, rest, pr, vals).unwrap().3) <= key_rank(k),
    decreases n,
{
    if rest.len() == 0 {
        seq![]
    } else {
        let cs = n.children@;
        let j = lemma_search_list_from(cs, rest, pr, vals);
        let c = cs[j];
        assert(wf(c));
        let k2 = match c.node_type {
            RadixNodeType::Exact => lemma_hit_registered(c, rest.skip(c.constant@.len() as int), pr, vals),
            RadixNodeType::PathArgument => {
                let sl = seg_len(rest);
                lemma_hit_registered(c, rest.skip(sl as int), through_param(pr), vals.push(rest.take(sl as int)))
            },
            RadixNodeType::WildCard => lemma_hit_registered(c, seq![], MatchPriority::WildCard, vals.push(rest)),
        };
        let p = node_toks(c);
        let k = p + k2;
        assert(k.take(p.len() as int) =~= p);
        assert(k.skip(p.len() as int) =~= k2);
        match c.node_type {
            RadixNodeType::Exact => {
                assert(p.len() > 0);
                lemma_bytes_then_matches(c.constant@, k2, rest);
                lemma_key_rank_bytes(c.constant@, k2);
            },
            RadixNodeType::PathArgument => {
                let sl = seg_len(rest);
                assert(k.drop_first() =~= k2);
                lemma_rank_le(c, rest.skip(sl as int), through_param(pr), vals.push(rest.take(sl as int)));
            },
            RadixNodeType::WildCard => {
                assert(k.drop_first() =~= k2);
                lemma_rank_le(c, seq![], MatchPriority::WildCard, vals.push(rest));
                assert(k2.len() == 0);
            },
        }
        lemma_at_list(cs, k);
        k
    }
}

/// What a path resolves to is the endpoint and parameter names of some
/// registered route.
pub proof fn lemma_resolved_is_registered(t: RadixTree, path: Seq<u8>) -> (k: Seq<Tok>)
    requires
        t.wf(),
        resolve(t.root, path) is Some,
    ensures
        t.route(k) == Some((resolve(t.root, path).unwrap().0, resolve(t.root, path).unwrap().1)),
        key_matches(k, normalized(path)),
        prio_rank(resolve(t.root, path).unwrap().3) <= key_rank(k),
{
    lemma_hit_registered(t.root, normalized(path), MatchPriority::Exact, seq![])
}

/// What a candidate binds and how specific it is, leaving out which endpoint
/// it names.
pub open spec fn hit_shape(x: Option<Hit>) -> Option<(Seq<Seq<u8>>, MatchPriority)> {
    match x {
        Some(h) => Some((h.2, h.3)),
        None => None,
    }
}

proof fn lemma_shape_search(a: RadixNode, b: RadixNode, rest: Seq<u8>, pr: MatchPriority, vals: Seq<Seq<u8>>)
    requires
        same_shape(a, b),
    ensures
        hit_shape(search(a, rest, pr, vals)) == hit_shape(search(b, rest, pr, vals)),
    decreases a, 1nat,
{
    if rest.len() > 0 {
        lemma_shape_list(a.children@, b.children@, rest, pr, vals);
    }
}

proof fn lemma_shape_list(xs: Seq<RadixNode>, ys: Seq<RadixNode>, rest: Seq<u8>, pr: MatchPriority, vals: Seq<Seq<u8>>)
    requires
        xs.len() == ys.len(),
        forall|i: int| 0 <= i < xs.len() ==> same_shape(#[trigger] xs[i], ys[i]),
    ensures
        hit_shape(search_list(xs, rest, pr, vals)) == hit_shape(search_list(ys, rest, pr, vals)),
    decreases xs, 0nat,
{
    if xs.len() > 0 {
        let n = xs.len() - 1;
        assert forall|i: int| 0 <= i < n implies same_shape(#[trigger] xs.drop_last()[i], ys.drop_last()[i]) by {
            assert(xs.drop_last()[i] == xs[i]);
            assert(ys.drop_last()[i] == ys[i]);
        }
        lemma_shape_list(xs.drop_last(), ys.drop_last(), rest, pr, vals);
        lemma_shape_child(xs[n], ys[n], rest, pr, vals);
    }
}

proof fn lemma_shape_child(c: RadixNode, d: RadixNode, rest: Seq<u8>, pr: MatchPriority, vals: Seq<Seq<u8>>)
    requires
        same_shape(c, d),
    ensures
        hit_shape(search_child(c, rest, pr, vals)) == hit_shape(search_child(d, rest, pr, vals)),
    decreases c, 2nat,
{
    match c.node_type {
        RadixNodeType::Exact => {
            lemma_shape_search(c, d, rest.skip(c.constant@.len() as int), pr, vals);
        },
        RadixNodeType::PathArgument => {
            let sl = seg_len(rest);
            lemma_shape_search(c, d, rest.skip(sl as int), through_param(pr), vals.push(rest.take(sl as int)));
        },
        RadixNodeType::WildCard => {
            lemma_shape_search(c, d, seq![], MatchPriority::WildCard, vals.push(rest));
        },
    }
}

/// Trees of the same shape route alike: every path matches in both or in
/// neither, with the same bound values and the same priority. Re-registering
/// a registered pattern keeps the shape (see `RadixTree::insert`), so it
/// changes no routing decision but the stored endpoint and names.
pub proof fn lemma_same_shape_routes_alike(t1: RadixTree, t2: RadixTree, path: Seq<u8>)
    requires
        same_shape(t1.root, t2.root),
    ensures
        hit_shape(resolve(t1.root, path)) == hit_shape(resolve(t2.root, path)),
{
    lemma_shape_search(t1.root, t2.root, normalized(path), MatchPriority::Exact, seq![]);
}

/// Routing depends on nothing but the tree and the normalized path: equal
/// trees send paths that differ only in empty segments to the same result.
pub proof fn lemma_routing_deterministic(t1: RadixTree, t2: RadixTree, p1: Seq<u8>, p2: Seq<u8>)
    requires
        t1 == t2,
        normalized(p1) == normalized(p2),
    ensures
        resolve(t1.root, p1) == resolve(t2.root, p2),
{
}

/// A literal route equal to the request path wins over every parameter and
/// wildcard route that also matches: the result has `Exact` priority and is
/// that route's endpoint.
pub proof fn lemma_literal_route_wins(t: RadixTree, path: Seq<u8>)
    requires
        t.wf(),
        t.route(bytes_to_toks(normalized(path))) is Some,
    ensures
        resolve(t.root, path) is Some,
        resolve(t.root, path).unwrap().3 == MatchPriority::Exact,
        resolve(t.root, path).unwrap().0 == t.route(bytes_to_toks(normalized(path))).unwrap().0,
{
    let r = normalized(path);
    lemma_literal_matches(r);
    lemma_search_finds(t.root, bytes_to_toks(r), r, MatchPriority::Exact, seq![]);
    lemma_exact_hit(t.root, r, MatchPriority::Exact, seq![]);
}

/// Whenever a registered route matches the path, the result is at least as
/// specific as that route: a parameter route beats every wildcard route, a
/// literal route beats both.
pub proof fn lemma_priority_respected(t: RadixTree, k: Seq<Tok>, path: Seq<u8>)
    requires
        t.wf(),
        t.route(k) is Some,
        key_matches(k, normalized(path)),
    ensures
        resolve(t.root, path) is Some,
        prio_rank(resolve(t.root, path).unwrap().3) >= key_rank(k),
{
    lemma_search_finds(t.root, k, normalized(path), MatchPriority::Exact, seq![]);
    lemma_key_rank_le3(k);
}

/// A parameter route beats every wildcard route: when the only registered
/// routes that match the path without a wildcard are parameter routes, and
/// `q` is the only one of them, the path resolves to `q`'s endpoint.
pub proof fn lemma_parameter_beats_wildcard(t: RadixTree, q: Seq<Tok>, path: Seq<u8>)
    requires
        t.wf(),
        t.route(q) is Some,
        key_matches(q, normalized(path)),
        key_rank(q) >= 2,
        forall|k: Seq<Tok>|
            #[trigger] t.route(k) is Some && key_matches(k, normalized(path)) && key_rank(k) >= 2 ==> k == q,
    ensures
        resolve(t.root, path) is Some,
        resolve(t.root, path).unwrap().0 == t.route(q).unwrap().0,
{
    lemma_priority_respected(t, q, path);
    let k = lemma_resolved_is_registered(t, path);
}

proof fn lemma_key_rank_le3(k: Seq<Tok>)
    ensures
        key_rank(k) <= 3,
    decreases k.len(),
{
    if k.len() > 0 {
        lemma_key_rank_le3(k.drop_first());
    }
}

/// A candidate found by the search.
pub struct MatchResult {
    pub endpoint_id: u64,
    pub names: Vec<Vec<u8>>,
    pub values: Vec<Vec<u8>>,
    pub priority: MatchPriority,
}

pub open spec fn hit_of(r: Option<MatchResult>) -> Option<Hit> {
    match r {
        Some(m) => Some((m.endpoint_id, m.names.deep_view(), m.values.deep_view(), m.priority)),
        None => None,
    }
}

fn copy_list(v: &Vec<Vec<u8>>) -> (r: Vec<Vec<u8>>)
    ensures
        r.deep_view() == v.deep_view(),
{
    let mut r: Vec<Vec<u8>> = Vec::new();
    let mut i: usize = 0;
    while i < v.len()
        invariant
            i <= v@.len(),
            r@.len() == i,
            forall|j: int| 0 <= j < i ==> (#[trigger] r@[j])@ == v@[j]@,
        decreases v@.len() - i,
    {
        let e = copy_range(&v[i], 0, v[i].len());
        proof {
            assert(v[i as int]@.subrange(0, v[i as int]@.len() as int) =~= v[i as int]@);
        }
        r.push(e);
        i = i + 1;
    }
    proof {
        assert forall|j: int| 0 <= j < r@.len() implies r.deep_view()[j] == v.deep_view()[j] by {
            assert(r@[j].deep_view() =~= r@[j]@);
            assert(v@[j].deep_view() =~= v@[j]@);
        }
        assert(r.deep_view() =~= v.deep_view());
    }
    r
}

fn better_of(a: Option<MatchResult>, b: Option<MatchResult>) -> (r: Option<MatchResult>)
    ensures
        hit_of(r) == better(hit_of(a), hit_of(b)),
{
    match (&a, &b) {
        (Some(x), Some(y)) => {
            let take_b = match (x.priority, y.priority) {
                (MatchPriority::Exact, _) => false,
                (MatchPriority::Parameter, MatchPriority::Exact) => true,
                (MatchPriority::Parameter, _) => false,
                (MatchPriority::WildCard, MatchPriority::WildCard) => false,
                (MatchPriority::WildCard, _) => true,
            };
            if take_b {
                b
            } else {
                a
            }
        },
        (None, _) => b,
        (_, None) => a,
    }
}

fn prefix_at(c: &Vec<u8>, p: &Vec<u8>, pos: usize) -> (r: bool)
    requires
        pos <= p.len(),
    ensures
        r == is_prefix(c@, p@.skip(pos as int)),
{
    if c.len() > p.len() - pos {
        return false;
    }
    let mut i: usize = 0;
    while i < c.len()
        invariant
            i <= c@.len(),
            pos <= p.len(),
            pos + c.len() <= p.len(),
            forall|j: int| 0 <= j < i ==> c@[j] == p@[pos + j],
        decreases c@.len() - i,
    {
        let k: usize = pos + i;
        if c[i] != p[k] {
            proof {
                assert(p@.skip(pos as int).take(c@.len() as int)[i as int] == p@[k as int]);
            }
            return false;
        }
        i = i + 1;
    }
    proof {
        assert(p@.skip(pos as int).take(c@.len() as int) =~= c@);
    }
    true
}

impl RadixNode {
    /// The best candidate below this node for `path[pos..]`, with `vals`
    /// bound so far.
    fn search_from(&self, path: &Vec<u8>, pos: usize, pr: MatchPriority, vals: &mut Vec<Vec<u8>>) -> (r: Option<MatchResult>)
        requires
            pos <= path.len(),
        ensures
            final(vals)@ == old(vals)@,
            hit_of(r) == search(*self, path@.skip(pos as int), pr, old(vals).deep_view()),
        decreases self,
    {
        let ghost rest = path@.skip(pos as int);
        let ghost v0 = vals.deep_view();
        let ghost vv = vals@;
        if pos == path.len() {
            return match self.endpoint_id {
                Some(id) => Some(
                    MatchResult {
                        endpoint_id: id,
                        names: copy_list(&self.parameter_names),
                        values: copy_list(vals),
                        priority: pr,
                    },
                ),
                None => None,
            };
        }
        let mut best: Option<MatchResult> = None;
        let mut i: usize = 0;
        while i < self.children.len()
            invariant
                pos < path.len(),
                rest == path@.skip(pos as int),
                i <= self.children@.len(),
                vals@ == vv,
                vals.deep_view() == v0,
                hit_of(best) == search_list(self.children@.take(i as int), rest, pr, v0),
            decreases self.children@.len() - i,
        {
            let c = &self.children[i];
            let here = match c.node_type {
                RadixNodeType::Exact => {
                    if c.constant.len() > 0 && prefix_at(&c.constant, path, pos) {
                        proof {
                            assert(rest.skip(c.constant@.len() as int) =~= path@.skip(pos + c.constant@.len()));
                        }
                        c.search_from(path, pos + c.constant.len(), pr, vals)
                    } else {
                        None
                    }
                },
                RadixNodeType::PathArgument => {
                    let j = segment_end(path, pos);
                    if j > pos {
                        let seg = copy_range(path, pos, j);
                        vals.push(seg);
                        proof {
                            assert(seg.deep_view() =~= seg@);
                            assert(vals.deep_view() =~= v0.push(rest.take((j - pos) as int)));
                            assert(rest.skip((j - pos) as int) =~= path@.skip(j as int));
                        }
                        let r = c.search_from(path, j, through_param_exec(pr), vals);
                        vals.pop();
                        proof {
                            assert(vals@ =~= vv);
                        }
                        r
                    } else {
                        None
                    }
                },
                RadixNodeType::WildCard => {
                    let seg = copy_range(path, pos, path.len());
                    vals.push(seg);
                    proof {
                        assert(seg.deep_view() =~= seg@);
                        assert(vals.deep_view() =~= v0.push(rest));
                        assert(path@.skip(path@.len() as int) =~= seq![]);
                    }
                    let r = c.search_from(path, path.len(), MatchPriority::WildCard, vals);
                    vals.pop();
                    proof {
                        assert(vals@ =~= vv);
                    }
                    r
                },
            };
            proof {
                assert(hit_of(here) == search_child(self.children@[i as int], rest, pr, v0));
                let cs = self.children@.take(i + 1);
                assert(cs.drop_last() =~= self.children@.take(i as int));
                assert(cs[cs.len() - 1] == self.children@[i as int]);
            }
            best = better_of(best, here);
            i = i + 1;
        }
        proof {
            assert(self.children@.take(self.children@.len() as int) =~= self.children@);
        }
        best
    }
}

fn through_param_exec(p: MatchPriority) -> (r: MatchPriority)
    ensures
        r == through_param(p),
{
    match p {
        MatchPriority::Exact => MatchPriority::Parameter,
        _ => p,
    }
}

/// Length of the segment that starts at `i`.
fn segment_end(p: &Vec<u8>, i: usize) -> (j: usize)
    requires
        i <= p.len(),
    ensures
        i <= j <= p.len(),
        j - i == seg_len(p@.skip(i as int)),
        p@.skip(i as int).take((j - i) as int) =~= p@.subrange(i as int, j as int),
{
    let mut j: usize = i;
    while j < p.len() && p[j] != SLASH
        invariant
            i <= j <= p.len(),
            seg_len(p@.skip(i as int)) == (j - i) + seg_len(p@.skip(j as int)),
        decreases p.len() - j,
    {
        assert(p@.skip(j as int).drop_first() =~= p@.skip(j + 1));
        j = j + 1;
    }
    j
}

/// Appends the key and the parameter names of the pattern `p[i..]`.
fn pattern_parts(p: &Vec<u8>, i: usize, key: &mut Vec<Tok>, names: &mut Vec<Vec<u8>>)
    requires
        i <= p.len(),
    ensures
        final(key)@ == old(key)@ + key_of(p@.skip(i as int)),
        final(names).deep_view() == old(names).deep_view() + names_of(p@.skip(i as int)),
    decreases p.len() - i,
{
    let ghost rest = p@.skip(i as int);
    if i == p.len() {
        proof {
            assert(key@ =~= key@ + key_of(rest));
            assert(names.deep_view() =~= names.deep_view() + names_of(rest));
        }
        return;
    }
    if p[i] == SLASH {
        proof {
            assert(rest.drop_first() =~= p@.skip(i + 1));
        }
        pattern_parts(p, i + 1, key, names);
        return;
    }
    let j = segment_end(p, i);
    let ghost seg = p@.subrange(i as int, j as int);
    let ghost k0 = key@;
    let ghost n0 = names.deep_view();
    key.push(Tok::Byte(SLASH));
    if p[i] == COLON || p[i] == STAR {
        if p[i] == COLON {
            key.push(Tok::Param);
        } else {
            key.push(Tok::Wild);
        }
        let name = copy_range(p, i + 1, j);
        names.push(name);
        proof {
            assert(key@ =~= k0 + segment_toks(seg));
            assert(seg.drop_first() =~= name@);
            assert(name.deep_view() =~= name@);
            assert(names.deep_view() =~= n0 + segment_names(seg));
        }
    } else {
        let mut q: usize = i;
        while q < j
            invariant
                i <= q <= j <= p.len(),
                key@ == k0 + seq![Tok::Byte(SLASH)] + bytes_to_toks(p@.subrange(i as int, q as int)),
            decreases j - q,
        {
            key.push(Tok::Byte(p[q]));
            proof {
                assert(key@ =~= k0 + seq![Tok::Byte(SLASH)] + bytes_to_toks(
                    p@.subrange(i as int, q + 1),
                ));
            }
            q = q + 1;
        }
        proof {
            assert(key@ =~= k0 + segment_toks(seg));
            assert(names.deep_view() =~= n0 + segment_names(seg));
        }
    }
    let ghost k1 = key@;
    let ghost n1 = names.deep_view();
    proof {
        assert(rest.skip((j - i) as int) =~= p@.skip(j as int));
    }
    pattern_parts(p, j, key, names);
    proof {
        assert(key@ =~= k0 + key_of(rest));
        assert(names.deep_view() =~= n0 + names_of(rest));
    }
}

/// Appends the normalized form of `p[i..]`.
fn normalize_from(p: &Vec<u8>, i: usize, out: &mut Vec<u8>)
    requires
        i <= p.len(),
    ensures
        final(out)@ == old(out)@ + normalized(p@.skip(i as int)),
    decreases p.len() - i,
{
    let ghost rest = p@.skip(i as int);
    if i == p.len() {
        proof {
            assert(out@ =~= out@ + normalized(rest));
        }
        return;
    }
    if p[i] == SLASH {
        proof {
            assert(rest.drop_first() =~= p@.skip(i + 1));
        }
        normalize_from(p, i + 1, out);
        return;
    }
    let j = segment_end(p, i);
    let ghost o0 = out@;
    out.push(SLASH);
    let mut q: usize = i;
    while q < j
        invariant
            i <= q <= j <= p.len(),
            out@ == o0 + seq![SLASH] + p@.subrange(i as int, q as int),
        decreases j - q,
    {
        out.push(p[q]);
        proof {
            assert(out@ =~= o0 + seq![SLASH] + p@.subrange(i as int, q + 1));
        }
        q = q + 1;
    }
    proof {
        assert(rest.skip((j - i) as int) =~= p@.skip(j as int));
    }
    normalize_from(p, j, out);
    proof {
        assert(out@ =~= o0 + normalized(rest));
    }
}

fn is_white_space_char(c: char) -> (r: bool)
    ensures
        r == is_white_space(c),
{
    ('\u{9}' <= c && c <= '\u{d}') || c == ' ' || c == '\u{85}' || c == '\u{a0}'
        || c == '\u{1680}' || ('\u{2000}' <= c && c <= '\u{200a}') || c == '\u{2028}'
        || c == '\u{2029}' || c == '\u{202f}' || c == '\u{205f}' || c == '\u{3000}'
}

fn is_all_blank(p: &str) -> (r: bool)
    ensures
        r == all_blank(p@),
{
    let n = p.unicode_len();
    let mut i: usize = 0;
    while i < n
        invariant
            i <= n,
            n == p@.len(),
            forall|j: int| 0 <= j < i ==> is_white_space(#[trigger] p@[j]),
        decreases n - i,
    {
        if !is_white_space_char(p.get_char(i)) {
            return false;
        }
        i = i + 1;
    }
    true
}

/// The routes registered for one method.
pub struct RadixTree {
    pub root: RadixNode,
}

impl RadixTree {
    pub open spec fn wf(&self) -> bool {
        wf(self.root)
    }

    /// The endpoint and parameter names registered under key `k`.
    pub open spec fn route(&self, k: Seq<Tok>) -> Option<(u64, Seq<Seq<u8>>)> {
        terminal(self.root, k)
    }

    /// An empty tree: no key is registered.
    pub fn new() -> (t: RadixTree)
        ensures
            t.wf(),
            forall|k: Seq<Tok>| #[trigger] t.route(k) is None,
    {
        let t = RadixTree { root: RadixNode::leaf(Vec::new(), RadixNodeType::Exact) };
        proof {
            assert forall|k: Seq<Tok>| #[trigger] t.route(k) is None by {
                if k.len() > 0 {
                    lemma_at_list(t.root.children@, k);
                }
            }
        }
        t
    }

    /// Registers `path` with `endpoint_id`. Registering the same key again
    /// keeps the tree's shape and only replaces what its terminal stores.
    pub fn insert(&mut self, path: &str, endpoint_id: u64)
        requires
            old(self).wf(),
        ensures
            final(self).wf(),
            forall|k: Seq<Tok>| #[trigger]
                final(self).route(k) == if k == pattern_key(path) {
                    Some((endpoint_id, pattern_names(path)))
                } else {
                    old(self).route(k)
                },
            old(self).route(pattern_key(path)) is Some ==> same_shape(
                old(self).root,
                final(self).root,
            ),
    {
        let p = str_bytes(path);
        let mut key: Vec<Tok> = Vec::new();
        let mut names: Vec<Vec<u8>> = Vec::new();
        if !is_all_blank(path) {
            pattern_parts(&p, 0, &mut key, &mut names);
            proof {
                assert(p@.skip(0) =~= p@);
                assert(key@ =~= key_of(p@));
                assert(names.deep_view() =~= names_of(p@));
            }
        } else {
            proof {
                assert(key@ =~= Seq::<Tok>::empty());
                assert(names.deep_view() =~= Seq::<Seq<u8>>::empty());
            }
        }
        proof {
            assert(key@.skip(0) =~= key@);
        }
        self.root.insert_at(&key, 0, endpoint_id, names);
    }

    /// Resolves a request path to the endpoint of the best match and the
    /// parameter bindings made on the way.
    pub fn find(&self, path: &str) -> (r: Option<(u64, Vec<(Vec<u8>, Vec<u8>)>)>)
        ensures
            match r {
                None => resolve(self.root, path.spec_bytes()) is None,
                Some(found) => resolve(self.root, path.spec_bytes()) is Some && found.0
                    == resolve(self.root, path.spec_bytes()).unwrap().0 && pairs_view(found.1)
                    == bindings(resolve(self.root, path.spec_bytes()).unwrap()),
            },
    {
        match self.find_match(path) {
            Some(m) => {
                let params = zip_bindings(&m.names, &m.values);
                Some((m.endpoint_id, params))
            },
            None => None,
        }
    }

    /// Like `find`, keeping the priority of the match and the parameter
    /// names and values apart.
    pub fn find_match(&self, path: &str) -> (r: Option<MatchResult>)
        ensures
            hit_of(r) == resolve(self.root, path.spec_bytes()),
    {
        self.find_bytes(&str_bytes(path))
    }

    /// Like `find_match`, on the bytes of the path.
    pub fn find_bytes(&self, p: &Vec<u8>) -> (r: Option<MatchResult>)
        ensures
            hit_of(r) == resolve(self.root, p@),
    {
        let mut norm: Vec<u8> = Vec::new();
        normalize_from(p, 0, &mut norm);
        proof {
            assert(p@.skip(0) =~= p@);
            assert(norm@ =~= normalized(p@));
            assert(norm@.skip(0) =~= norm@);
        }
        let mut vals: Vec<Vec<u8>> = Vec::new();
        proof {
            assert(vals.deep_view() =~= Seq::<Seq<u8>>::empty());
        }
        self.root.search_from(&norm, 0, MatchPriority::Exact, &mut vals)
    }
}

pub open spec fn pairs_view(v: Vec<(Vec<u8>, Vec<u8>)>) -> Seq<(Seq<u8>, Seq<u8>)> {
    v@.map_values(|e: (Vec<u8>, Vec<u8>)| (e.0@, e.1@))
}

fn zip_bindings(names: &Vec<Vec<u8>>, values: &Vec<Vec<u8>>) -> (r: Vec<(Vec<u8>, Vec<u8>)>)
    ensures
        pairs_view(r) == bindings((0, names.deep_view(), values.deep_view(), MatchPriority::Exact)),
{
    let n = if names.len() <= values.len() {
        names.len()
    } else {
        values.len()
    };
    let mut r: Vec<(Vec<u8>, Vec<u8>)> = Vec::new();
    let mut i: usize = 0;
    while i < n
        invariant
            i <= n,
            n <= names@.len(),
            n <= values@.len(),
            r@.len() == i,
            forall|j: int|
                0 <= j < i ==> (#[trigger] r@[j]).0@ == names@[j]@ && r@[j].1@ == values@[j]@,
        decreases n - i,
    {
        let a = copy_range(&names[i], 0, names[i].len());
        let b = copy_range(&values[i], 0, values[i].len());
        proof {
            assert(names[i as int]@.subrange(0, names[i as int]@.len() as int) =~= names[i as int]@);
            assert(values[i as int]@.subrange(0, values[i as int]@.len() as int) =~= values[i as int]@);
        }
        r.push((a, b));
        i = i + 1;
    }
    proof {
        let h = (0u64, names.deep_view(), values.deep_view(), MatchPriority::Exact);
        assert forall|j: int| 0 <= j < n implies pairs_view(r)[j] == bindings(h)[j] by {
            assert(names.deep_view()[j] =~= names@[j]@);
            assert(values.deep_view()[j] =~= values@[j]@);
        }
        assert(pairs_view(r) =~= bindings(h));
    }
    r
}

/// Step-by-step construction of a node.
pub struct RadixNodeBuilder {
    pub constant: Vec<u8>,
    pub node_type: RadixNodeType,
    pub endpoint_id: Option<u64>,
    pub children: Vec<RadixNode>,
}

impl RadixNodeBuilder {
    /// An `Exact` node with an empty run, no endpoint and no children.
    pub fn new() -> (b: RadixNodeBuilder)
        ensures
            b.constant@.len() == 0,
            b.node_type == RadixNodeType::Exact,
            b.endpoint_id is None,
            b.children@.len() == 0,
    {
        RadixNodeBuilder {
            constant: Vec::new(),
            node_type: RadixNodeType::Exact,
            endpoint_id: None,
            children: Vec::new(),
        }
    }

    pub fn constant(self, constant: Vec<u8>) -> (b: RadixNodeBuilder)
        ensures
            b == (RadixNodeBuilder { constant, ..self }),
    {
        RadixNodeBuilder { constant, ..self }
    }

    pub fn node_type(self, node_type: RadixNodeType) -> (b: RadixNodeBuilder)
        ensures
            b == (RadixNodeBuilder { node_type, ..self }),
    {
        RadixNodeBuilder { node_type, ..self }
    }

    pub fn endpoint_id(self, endpoint_id: Option<u64>) -> (b: RadixNodeBuilder)
        ensures
            b == (RadixNodeBuilder { endpoint_id, ..self }),
    {
        RadixNodeBuilder { endpoint_id, ..self }
    }

    /// Appends one child.
    pub fn child(self, child: RadixNode) -> (b: RadixNodeBuilder)
        ensures
            b.constant == self.constant,
            b.node_type == self.node_type,
            b.endpoint_id == self.endpoint_id,
            b.children@ == self.children@.push(child),
    {
        let mut b = self;
        b.children.push(child);
        b
    }

    pub fn children(self, children: Vec<RadixNode>) -> (b: RadixNodeBuilder)
        ensures
            b == (RadixNodeBuilder { children, ..self }),
    {
        RadixNodeBuilder { children, ..self }
    }

    /// The node, with no parameter names stored.
    pub fn build(self) -> (n: RadixNode)
        ensures
            n.constant == self.constant,
            n.node_type == self.node_type,
            n.endpoint_id == self.endpoint_id,
            n.parameter_names@.len() == 0,
            n.children == self.children,
    {
        RadixNode {
            constant: self.constant,
            node_type: self.node_type,
            endpoint_id: self.endpoint_id,
            parameter_names: Vec::new(),
            children: self.children,
        }
    }
}

} // verus!
