use vstd::prelude::*;
use crate::model::{Doc, MapNodes, Node, Scalar, TypedValue, entries_doc, lemma_entries_doc, node_doc};

verus! {

broadcast use {
    vstd::seq::group_seq_axioms,
    vstd::std_specs::vec::group_vec_axioms,
};

/// The tree holds no sequence at any depth.
pub open spec fn no_lists(d: Doc) -> bool
    decreases d,
{
    match d {
        Doc::Leaf(_) => true,
        Doc::Dict(m) => entries_no_lists(m),
        Doc::List(_) => false,
    }
}

/// No node of the mapping holds a sequence at any depth.
pub open spec fn entries_no_lists(m: Seq<(Seq<char>, Doc)>) -> bool
    decreases m,
{
    forall|i: int| 0 <= i < m.len() ==> no_lists(#[trigger] m[i].1)
}

/// Puts `p` in front of every key.
pub open spec fn prefix_keys(p: Seq<char>, s: Seq<(Seq<char>, Scalar)>) -> Seq<(Seq<char>, Scalar)> {
    s.map_values(|e: (Seq<char>, Scalar)| (p + e.0, e.1))
}

/// The scalars of a mapping, each under the dotted path that leads to it, in
/// the order of the entries.
pub open spec fn flat_entries(m: Seq<(Seq<char>, Doc)>) -> Seq<(Seq<char>, Scalar)>
    decreases m,
{
    if m.len() == 0 {
        Seq::empty()
    } else {
        flat_entries(m.drop_last()) + flat_node(m.last().0, m.last().1)
    }
}

/// The scalars under the key `k` that holds `d`.
pub open spec fn flat_node(k: Seq<char>, d: Doc) -> Seq<(Seq<char>, Scalar)>
    decreases d,
{
    match d {
        Doc::Leaf(s) => seq![(k, s)],
        Doc::Dict(m) => prefix_keys(k.push('.'), flat_entries(m)),
        Doc::List(_) => Seq::empty(),
    }
}

/// The views of a list of key and scalar pairs.
pub open spec fn pairs_view(s: Seq<(String, TypedValue)>) -> Seq<(Seq<char>, Scalar)> {
    s.map_values(|e: (String, TypedValue)| (e.0@, e.1@))
}

impl TypedValue {
    /// A copy of the scalar.
    pub fn copy_value(&self) -> (r: TypedValue)
        ensures
            r@ == self@,
    {
        match self {
            TypedValue::String(s) => TypedValue::String(s.clone()),
            TypedValue::Integer(i) => TypedValue::Integer(*i),
            TypedValue::Float(s) => TypedValue::Float(s.clone()),
        }
    }
}

/// Lists every scalar of `m` under its dotted path: `{"a": {"b": 1}}` gives
/// `a.b` with 1. The mapping must hold no sequence.
pub fn _get_leafs_from_map(m: &MapNodes) -> (r: Vec<(String, TypedValue)>)
    requires
        no_lists(Doc::Dict(m@)),
    ensures
        pairs_view(r@) == flat_entries(m@),
    decreases m,
{
    let ghost e = m@;
    proof {
        lemma_entries_doc(m.nodes@);
    }
    let mut out: Vec<(String, TypedValue)> = Vec::new();
    let mut i: usize = 0;
    while i < m.nodes.len()
        invariant
            e == entries_doc(m.nodes@),
            e.len() == m.nodes@.len(),
            forall|j: int| 0 <= j < m.nodes@.len() ==> #[trigger] e[j] == (m.nodes@[j].0@, node_doc(m.nodes@[j].1)),
            no_lists(Doc::Dict(e)),
            i <= m.nodes@.len(),
            pairs_view(out@) == flat_entries(e.subrange(0, i as int)),
        decreases m.nodes@.len() - i,
    {
        let ghost before = out@;
        let ghost sub = e.subrange(0, i + 1);
        assert(sub.drop_last() =~= e.subrange(0, i as int));
        assert(sub.last() == e[i as int]);
        assert(no_lists(e[i as int].1));
        let (k, n) = &m.nodes[i];
        match n {
            Node::Leaf(t) => {
                out.push((k.clone(), t.copy_value()));
                assert(pairs_view(out@) =~= pairs_view(before) + seq![(k@, t@)]);
                assert(flat_node(sub.last().0, sub.last().1) == seq![(k@, t@)]);
            },
            Node::Dict(sub_map) => {
                proof {
                    assert(decreases_to!(m => m.nodes));
                    assert(decreases_to!(m.nodes => m.nodes@));
                    assert(decreases_to!(m.nodes@ => m.nodes@[i as int]));
                }
                let inner = _get_leafs_from_map(sub_map);
                let ghost prefix = k@.push('.');
                let mut j: usize = 0;
                while j < inner.len()
                    invariant
                        j <= inner@.len(),
                        prefix == k@.push('.'),
                        pairs_view(out@) == pairs_view(before) + prefix_keys(
                            prefix,
                            pairs_view(inner@).subrange(0, j as int),
                        ),
                    decreases inner@.len() - j,
                {
                    let ghost mid = out@;
                    let key = k.clone().concat(".").concat(inner[j].0.as_str());
                    proof {
                        reveal_strlit(".");
                        assert("."@ =~= seq!['.']);
                        assert(k@ + "."@ =~= prefix);
                        assert(pairs_view(inner@)[j as int] == (inner@[j as int].0@, inner@[j as int].1@));
                    }
                    out.push((key, inner[j].1.copy_value()));
                    j = j + 1;
                    assert(pairs_view(out@) =~= pairs_view(mid).push((key@, inner@[j - 1].1@)));
                    assert(prefix_keys(prefix, pairs_view(inner@).subrange(0, j as int)) =~= prefix_keys(
                        prefix,
                        pairs_view(inner@).subrange(0, j - 1),
                    ).push((key@, inner@[j - 1].1@)));
                }
                assert(pairs_view(inner@).subrange(0, j as int) =~= pairs_view(inner@));
                assert(sub.last().1 == Doc::Dict(sub_map@));
                assert(flat_node(sub.last().0, sub.last().1) == prefix_keys(prefix, pairs_view(inner@)));
            },
            Node::Array(_) => {
                assert(false);
            },
        }
        i = i + 1;
    }
    assert(e.subrange(0, i as int) =~= e);
    out
}

impl MapNodes {
    /// Every scalar of the mapping under its dotted path; see
    /// `_get_leafs_from_map`.
    pub fn _leafs(&self) -> (r: Vec<(String, TypedValue)>)
        requires
            no_lists(Doc::Dict(self@)),
        ensures
            pairs_view(r@) == flat_entries(self@),
    {
        _get_leafs_from_map(self)
    }
}

} // verus!
