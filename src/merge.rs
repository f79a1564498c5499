use vstd::prelude::*;
use crate::model::{Doc, Scalar, nest_doc, MapNodes, Node, TypedValue, entries_doc, node_doc, nodes_doc, lemma_entries_doc, lemma_nodes_doc};
use crate::options::{EngineOptions, Error, HowToDictInArray};

verus! {

broadcast use {
    vstd::seq::group_seq_axioms,
    vstd::std_specs::vec::group_vec_axioms,
};

/// The reserved key that keeps a scalar when a mapping arrives at it.
pub open spec fn value_key() -> Seq<char> {
    seq!['v', 'a', 'l', 'u', 'e']
}

/// The reserved key that keeps a sequence under `MakeArrayAsDictValue`.
pub open spec fn array_key() -> Seq<char> {
    seq!['a', 'r', 'r', 'a', 'y']
}

/// Index of the last entry of `m` with key `k`, or -1 where there is none.
pub open spec fn find_key(m: Seq<(Seq<char>, Doc)>, k: Seq<char>) -> int
    decreases m.len(),
{
    if m.len() == 0 {
        -1
    } else if m.last().0 == k {
        m.len() - 1
    } else {
        find_key(m.drop_last(), k)
    }
}

/// The error of an outcome, if any.
pub open spec fn err_of(r: Result<(), Error>) -> Option<Error> {
    match r {
        Ok(_) => None,
        Err(e) => Some(e),
    }
}

/// Folds the entries of `src`, first to last, into the mapping `dest`.
/// A key that `dest` lacks is appended with its node; a key it holds has the
/// two nodes resolved by `merge_doc`. The first error stops the fold; what was
/// done before it stays.
pub open spec fn merge_entries(
    dest: Seq<(Seq<char>, Doc)>,
    src: Seq<(Seq<char>, Doc)>,
    p: HowToDictInArray,
) -> (Seq<(Seq<char>, Doc)>, Option<Error>)
    decreases src,
{
    if src.len() == 0 {
        (dest, None)
    } else {
        let k = src[0].0;
        let i = find_key(dest, k);
        if i < 0 {
            merge_entries(dest.push((k, src[0].1)), src.drop_first(), p)
        } else {
            let r = merge_doc(dest[i].1, src[0].1, p);
            let d2 = dest.update(i, (k, r.0));
            if r.1 is Some {
                (d2, r.1)
            } else {
                merge_entries(d2, src.drop_first(), p)
            }
        }
    }
}

/// Resolves a node `incoming` that arrives at a key already holding
/// `existing`: the node the key then holds, and the error if there is one.
pub open spec fn merge_doc(existing: Doc, incoming: Doc, p: HowToDictInArray) -> (Doc, Option<Error>)
    decreases incoming,
{
    match incoming {
        Doc::Leaf(_) => match existing {
            Doc::Leaf(_) => (Doc::List(seq![existing, incoming]), None),
            Doc::List(l) => (Doc::List(l.push(incoming)), None),
            Doc::Dict(_) => (existing, Some(Error::UnsupportedMerge)),
        },
        Doc::Dict(d) => match existing {
            Doc::Leaf(_) => {
                let r = merge_entries(seq![(value_key(), existing)], d, p);
                (Doc::Dict(r.0), r.1)
            },
            Doc::Dict(d1) => {
                let r = merge_entries(d1, d, p);
                (Doc::Dict(r.0), r.1)
            },
            Doc::List(l) => match p {
                HowToDictInArray::GenerateError => (existing, Some(Error::HowToDictInArray)),
                HowToDictInArray::MergeDictInArray => (Doc::List(l.push(incoming)), None),
                HowToDictInArray::MakeArrayAsDictValue => {
                    let r = merge_entries(seq![(array_key(), existing)], d, p);
                    (Doc::Dict(r.0), r.1)
                },
            },
        },
        Doc::List(_) => (existing, Some(Error::UnsupportedMerge)),
    }
}

/// The index `find_key` gives, where it is one, holds the key looked for.
pub proof fn lemma_find_key(m: Seq<(Seq<char>, Doc)>, k: Seq<char>)
    ensures
        -1 <= find_key(m, k) < m.len(),
        find_key(m, k) >= 0 ==> m[find_key(m, k)].0 == k,
        find_key(m, k) == -1 ==> forall|j: int| 0 <= j < m.len() ==> #[trigger] m[j].0 != k,
    decreases m.len(),
{
    if m.len() > 0 {
        lemma_find_key(m.drop_last(), k);
        if find_key(m, k) == -1 {
            assert forall|j: int| 0 <= j < m.len() implies #[trigger] m[j].0 != k by {
                if j < m.len() - 1 {
                    assert(m[j] == m.drop_last()[j]);
                }
            }
        }
    }
}

/// A path of one segment merged into an empty root gives a root of exactly
/// one key, which holds the value.
pub proof fn lemma_single_key_into_empty(k: Seq<char>, v: Doc, p: HowToDictInArray)
    ensures
        nest_doc(seq![k], v) == Doc::Dict(seq![(k, v)]),
        merge_entries(Seq::empty(), seq![(k, v)], p) == (seq![(k, v)], None::<Error>),
{
    let path = seq![k];
    assert(path[0] == k);
    assert(path.drop_first() =~= Seq::<Seq<char>>::empty());
    assert(nest_doc(path.drop_first(), v) == v);
    let src = seq![(k, v)];
    let e = Seq::<(Seq<char>, Doc)>::empty();
    assert(src[0] == (k, v));
    assert(src.drop_first() =~= e);
    assert(e.push((k, v)) =~= src);
    assert(find_key(e, k) == -1);
    assert(merge_entries(src, e, p) == (src, None::<Error>));
}

/// Scalars arriving at a key build one flat sequence: a scalar meeting a
/// scalar gives the two of them, and a scalar meeting a sequence becomes its
/// last element, whatever the policy.
pub proof fn lemma_scalars_build_flat_list(a: Scalar, b: Scalar, l: Seq<Doc>, p: HowToDictInArray)
    ensures
        merge_doc(Doc::Leaf(a), Doc::Leaf(b), p) == (Doc::List(seq![Doc::Leaf(a), Doc::Leaf(b)]), None::<Error>),
        merge_doc(Doc::List(l), Doc::Leaf(b), p) == (Doc::List(l.push(Doc::Leaf(b))), None::<Error>),
{
}

/// Under `GenerateError`, a mapping arriving at a key that holds a sequence
/// is refused and the document is left as it was.
pub proof fn lemma_dict_into_list_refused(
    dest: Seq<(Seq<char>, Doc)>,
    k: Seq<char>,
    d: Seq<(Seq<char>, Doc)>,
)
    requires
        0 <= find_key(dest, k) < dest.len(),
        dest[find_key(dest, k)].1 is List,
    ensures
        merge_entries(dest, seq![(k, Doc::Dict(d))], HowToDictInArray::GenerateError) == (
            dest,
            Some(Error::HowToDictInArray),
        ),
{
    lemma_find_key(dest, k);
    let i = find_key(dest, k);
    let src = seq![(k, Doc::Dict(d))];
    assert(src[0] == (k, Doc::Dict(d)));
    let r = merge_doc(dest[i].1, Doc::Dict(d), HowToDictInArray::GenerateError);
    assert(r == (dest[i].1, Some(Error::HowToDictInArray)));
    assert(dest.update(i, (k, dest[i].1)) =~= dest);
}

/// No two entries of a mapping share a key.
pub open spec fn keys_unique(m: Seq<(Seq<char>, Doc)>) -> bool {
    forall|i: int, j: int| 0 <= i < j < m.len() ==> #[trigger] m[i].0 != #[trigger] m[j].0
}

/// Every mapping in the tree, at every depth, has unique keys.
pub open spec fn doc_wf(d: Doc) -> bool
    decreases d,
{
    match d {
        Doc::Leaf(_) => true,
        Doc::Dict(m) => entries_wf(m),
        Doc::List(l) => forall|i: int| 0 <= i < l.len() ==> doc_wf(#[trigger] l[i]),
    }
}

/// The mapping has unique keys and every node in it is well formed.
pub open spec fn entries_wf(m: Seq<(Seq<char>, Doc)>) -> bool
    decreases m,
{
    keys_unique(m) && forall|i: int| 0 <= i < m.len() ==> doc_wf(#[trigger] m[i].1)
}

/// Merging well-formed mappings gives a well-formed mapping, whether or not
/// an error stopped it.
pub proof fn lemma_merge_entries_wf(
    dest: Seq<(Seq<char>, Doc)>,
    src: Seq<(Seq<char>, Doc)>,
    p: HowToDictInArray,
)
    requires
        entries_wf(dest),
        entries_wf(src),
    ensures
        entries_wf(merge_entries(dest, src, p).0),
    decreases src,
{
    if src.len() > 0 {
        let k = src[0].0;
        let i = find_key(dest, k);
        lemma_find_key(dest, k);
        let rest = src.drop_first();
        assert(entries_wf(rest)) by {
            assert forall|a: int| 0 <= a < rest.len() implies doc_wf(#[trigger] rest[a].1) by {
                assert(rest[a] == src[a + 1]);
            }
            assert forall|a: int, b: int| 0 <= a < b < rest.len() implies #[trigger] rest[a].0
                != #[trigger] rest[b].0 by {
                assert(rest[a] == src[a + 1]);
                assert(rest[b] == src[b + 1]);
            }
        }
        assert(doc_wf(src[0].1));
        if i < 0 {
            let d2 = dest.push((k, src[0].1));
            assert(entries_wf(d2)) by {
                assert forall|a: int| 0 <= a < d2.len() implies doc_wf(#[trigger] d2[a].1) by {
                    if a < dest.len() {
                        assert(d2[a] == dest[a]);
                    }
                }
                assert forall|a: int, b: int| 0 <= a < b < d2.len() implies #[trigger] d2[a].0
                    != #[trigger] d2[b].0 by {
                    assert(d2[a] == dest[a]);
                    if b < dest.len() {
                        assert(d2[b] == dest[b]);
                    }
                }
            }
            lemma_merge_entries_wf(d2, rest, p);
        } else {
            assert(doc_wf(dest[i].1));
            lemma_merge_doc_wf(dest[i].1, src[0].1, p);
            let r = merge_doc(dest[i].1, src[0].1, p);
            let d2 = dest.update(i, (k, r.0));
            assert(entries_wf(d2)) by {
                assert forall|a: int| 0 <= a < d2.len() implies doc_wf(#[trigger] d2[a].1) by {
                    if a != i {
                        assert(d2[a] == dest[a]);
                    }
                }
                assert forall|a: int, b: int| 0 <= a < b < d2.len() implies #[trigger] d2[a].0
                    != #[trigger] d2[b].0 by {
                    assert(d2[a].0 == dest[a].0);
                    assert(d2[b].0 == dest[b].0);
                }
            }
            if r.1 is None {
                lemma_merge_entries_wf(d2, rest, p);
            }
        }
    }
}

/// Resolving a collision between well-formed nodes gives a well-formed node.
pub proof fn lemma_merge_doc_wf(existing: Doc, incoming: Doc, p: HowToDictInArray)
    requires
        doc_wf(existing),
        doc_wf(incoming),
    ensures
        doc_wf(merge_doc(existing, incoming, p).0),
    decreases incoming,
{
    match incoming {
        Doc::Leaf(_) => match existing {
            Doc::Leaf(_) => {
                let l = seq![existing, incoming];
                assert forall|a: int| 0 <= a < l.len() implies doc_wf(#[trigger] l[a]) by {}
            },
            Doc::List(l) => {
                let l2 = l.push(incoming);
                assert forall|a: int| 0 <= a < l2.len() implies doc_wf(#[trigger] l2[a]) by {
                    if a < l.len() {
                        assert(l2[a] == l[a]);
                    }
                }
            },
            Doc::Dict(_) => {},
        },
        Doc::Dict(d) => match existing {
            Doc::Leaf(_) => {
                let one = seq![(value_key(), existing)];
                assert(entries_wf(one));
                lemma_merge_entries_wf(one, d, p);
            },
            Doc::Dict(d1) => {
                lemma_merge_entries_wf(d1, d, p);
            },
            Doc::List(l) => match p {
                HowToDictInArray::GenerateError => {},
                HowToDictInArray::MergeDictInArray => {
                    let l2 = l.push(incoming);
                    assert forall|a: int| 0 <= a < l2.len() implies doc_wf(#[trigger] l2[a]) by {
                        if a < l.len() {
                            assert(l2[a] == l[a]);
                        }
                    }
                },
                HowToDictInArray::MakeArrayAsDictValue => {
                    let one = seq![(array_key(), existing)];
                    assert(entries_wf(one));
                    lemma_merge_entries_wf(one, d, p);
                },
            },
        },
        Doc::List(_) => {},
    }
}

/// The chain of single-key mappings a path builds is well formed.
pub proof fn lemma_nest_wf(path: Seq<Seq<char>>, v: Doc)
    requires
        doc_wf(v),
    ensures
        doc_wf(nest_doc(path, v)),
    decreases path.len(),
{
    if path.len() > 0 {
        lemma_nest_wf(path.drop_first(), v);
        let one = seq![(path[0], nest_doc(path.drop_first(), v))];
        assert(entries_wf(one));
    }
}

/// Finds the index of the last entry whose key is `k`.
fn find_entry(dest: &Vec<(String, Node)>, k: &String) -> (r: Option<usize>)
    ensures
        match r {
            Some(i) => i as int == find_key(entries_doc(dest@), k@) && i < dest@.len(),
            None => find_key(entries_doc(dest@), k@) == -1,
        },
{
    let ghost e = entries_doc(dest@);
    proof {
        lemma_entries_doc(dest@);
        assert(e.subrange(0, dest@.len() as int) =~= e);
    }
    let mut i: usize = dest.len();
    while i > 0
        invariant
            i <= dest@.len(),
            e == entries_doc(dest@),
            e.len() == dest@.len(),
            find_key(e, k@) == find_key(e.subrange(0, i as int), k@),
        decreases i,
    {
        proof {
            lemma_entries_doc(dest@);
        }
        let ghost sub = e.subrange(0, i as int);
        assert(sub.drop_last() =~= e.subrange(0, i - 1));
        assert(sub.last() == e[i - 1]);
        assert(e[i - 1].0 == dest@[i - 1].0@);
        if dest[i - 1].0 == *k {
            return Some(i - 1);
        }
        i = i - 1;
    }
    None
}

proof fn lemma_entries_push(s: Seq<(String, Node)>, x: (String, Node))
    ensures
        entries_doc(s.push(x)) == entries_doc(s).push((x.0@, node_doc(x.1))),
{
    assert(s.push(x).drop_last() =~= s);
}

proof fn lemma_entries_update(s: Seq<(String, Node)>, i: int, x: (String, Node))
    requires
        0 <= i < s.len(),
    ensures
        entries_doc(s.update(i, x)) == entries_doc(s).update(i, (x.0@, node_doc(x.1))),
{
    lemma_entries_doc(s);
    lemma_entries_doc(s.update(i, x));
    assert(entries_doc(s.update(i, x)) =~= entries_doc(s).update(i, (x.0@, node_doc(x.1))));
}

proof fn lemma_entries_drop_first(s: Seq<(String, Node)>)
    requires
        s.len() > 0,
    ensures
        entries_doc(s.drop_first()) == entries_doc(s).drop_first(),
{
    lemma_entries_doc(s);
    lemma_entries_doc(s.drop_first());
    assert(entries_doc(s.drop_first()) =~= entries_doc(s).drop_first());
}

proof fn lemma_nodes_push(s: Seq<Node>, x: Node)
    ensures
        nodes_doc(s.push(x)) == nodes_doc(s).push(node_doc(x)),
{
    assert(s.push(x).drop_last() =~= s);
}

/// Folds `src` into the entries `dest`, as `merge_entries` says.
fn merge_map(dest: &mut Vec<(String, Node)>, src: Vec<(String, Node)>, p: HowToDictInArray) -> (r:
    Result<(), Error>)
    ensures
        (entries_doc(final(dest)@), err_of(r)) == merge_entries(
            entries_doc(old(dest)@),
            entries_doc(src@),
            p,
        ),
    decreases src,
{
    let ghost goal = merge_entries(entries_doc(dest@), entries_doc(src@), p);
    let ghost n = src@.len();
    let mut rest = src;
    let ghost mut j: int = 0;
    while rest.len() > 0
        invariant
            0 <= j <= n,
            n == src@.len(),
            rest@ == src@.subrange(j, n as int),
            rest@.len() == n - j,
            goal == merge_entries(entries_doc(old(dest)@), entries_doc(src@), p),
            goal == merge_entries(entries_doc(dest@), entries_doc(rest@), p),
        decreases rest@.len(),
    {
        let ghost before = rest@;
        let ghost d0 = dest@;
        proof {
            lemma_entries_doc(before);
            lemma_entries_drop_first(before);
            lemma_entries_doc(d0);
        }
        let (k, v) = rest.remove(0);
        assert(rest@ =~= before.drop_first());
        assert(v == src@[j].1);
        proof {
            assert(decreases_to!(src => src@));
            assert(decreases_to!(src@ => src@[j]));
        }
        proof {
            j = j + 1;
        }
        match find_entry(dest, &k) {
            None => {
                proof {
                    lemma_entries_push(dest@, (k, v));
                }
                dest.push((k, v));
            },
            Some(i) => {
                let (k0, existing) = dest.remove(i);
                assert(existing == d0[i as int].1);
                proof {
                    assert(entries_doc(before)[0] == (k@, node_doc(v)));
                    assert(entries_doc(d0)[i as int].1 == node_doc(existing));
                }
                let (node, res) = merge_node(existing, v, p);
                dest.insert(i, (k, node));
                proof {
                    assert(dest@ =~= d0.update(i as int, (k, node)));
                    lemma_entries_update(d0, i as int, (k, node));
                }
                if res.is_err() {
                    assert(find_key(entries_doc(d0), k@) == i as int);
                    assert(entries_doc(before)[0].0 == k@);
                    assert(merge_entries(entries_doc(d0), entries_doc(before), p) == (
                    entries_doc(dest@), err_of(res)));
                    return res;
                }
            },
        }
    }
    assert(entries_doc(rest@) =~= Seq::<(Seq<char>, Doc)>::empty());
    Ok(())
}

/// Resolves `incoming` against `existing`, as `merge_doc` says.
fn merge_node(existing: Node, incoming: Node, p: HowToDictInArray) -> (r: (Node, Result<(), Error>))
    ensures
        (r.0@, err_of(r.1)) == merge_doc(existing@, incoming@, p),
    decreases incoming,
{
    match incoming {
        Node::Leaf(b) => match existing {
            Node::Leaf(a) => {
                let mut l: Vec<Node> = Vec::new();
                l.push(Node::Leaf(a));
                l.push(Node::Leaf(b));
                proof {
                    lemma_nodes_doc(l@);
                    assert(nodes_doc(l@) =~= seq![existing@, incoming@]);
                }
                (Node::Array(l), Ok(()))
            },
            Node::Array(l) => {
                let mut l = l;
                proof {
                    lemma_nodes_push(l@, Node::Leaf(b));
                }
                l.push(Node::Leaf(b));
                (Node::Array(l), Ok(()))
            },
            Node::Dict(d) => (Node::Dict(d), Err(Error::UnsupportedMerge)),
        },
        Node::Dict(d) => match existing {
            Node::Leaf(a) => {
                let mut m: Vec<(String, Node)> = Vec::new();
                let key = String::from_str("value");
                proof {
                    reveal_strlit("value");
                    lemma_entries_push(m@, (key, Node::Leaf(a)));
                }
                m.push((key, Node::Leaf(a)));
                assert(key@ =~= value_key());
                assert(entries_doc(m@) =~= seq![(value_key(), existing@)]);
                let res = merge_map(&mut m, d.nodes, p);
                (Node::Dict(MapNodes { nodes: m }), res)
            },
            Node::Dict(d1) => {
                let mut m = d1.nodes;
                let res = merge_map(&mut m, d.nodes, p);
                (Node::Dict(MapNodes { nodes: m }), res)
            },
            Node::Array(l) => match p {
                HowToDictInArray::GenerateError => (Node::Array(l), Err(Error::HowToDictInArray)),
                HowToDictInArray::MergeDictInArray => {
                    let mut l = l;
                    proof {
                        lemma_nodes_push(l@, Node::Dict(d));
                    }
                    l.push(Node::Dict(d));
                    (Node::Array(l), Ok(()))
                },
                HowToDictInArray::MakeArrayAsDictValue => {
                    let mut m: Vec<(String, Node)> = Vec::new();
                    let key = String::from_str("array");
                    proof {
                        reveal_strlit("array");
                        lemma_entries_push(m@, (key, Node::Array(l)));
                    }
                    m.push((key, Node::Array(l)));
                    assert(key@ =~= array_key());
                    assert(entries_doc(m@) =~= seq![(array_key(), existing@)]);
                    let res = merge_map(&mut m, d.nodes, p);
                    (Node::Dict(MapNodes { nodes: m }), res)
                },
            },
        },
        Node::Array(_) => (existing, Err(Error::UnsupportedMerge)),
    }
}

/// Merges the mapping `h2` into `h`, key by key in `h2`'s order, resolving
/// each collision by the table of `merge_doc` under the configured policy.
/// On the first error the merge stops and returns it; keys merged before it
/// stay merged.
pub fn extend_hashmap(h: &mut MapNodes, h2: MapNodes, options: &EngineOptions) -> (r: Result<(), Error>)
    ensures
        (final(h)@, err_of(r)) == merge_entries(old(h)@, h2@, options.how_to_dict_in_array),
        entries_wf(old(h)@) && entries_wf(h2@) ==> entries_wf(final(h)@),
{
    proof {
        if entries_wf(h@) && entries_wf(h2@) {
            lemma_merge_entries_wf(h@, h2@, options.how_to_dict_in_array);
        }
    }
    merge_map(&mut h.nodes, h2.nodes, options.how_to_dict_in_array)
}

} // verus!
