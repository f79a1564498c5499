use vstd::prelude::*;

verus! {

broadcast use {
    vstd::seq::group_seq_axioms,
    vstd::std_specs::vec::group_vec_axioms,
};

/// A typed scalar, as it is read: a leaf of the document.
#[derive(Clone, Debug, PartialEq)]
pub enum TypedValue {
    String(String),
    Integer(i64),
    /// A number that reads as floating point; it is kept as that text, which
    /// the host converts when the document is encoded.
    Float(String),
}

/// A node of the document tree.
#[derive(Debug, PartialEq)]
pub enum Node {
    Leaf(TypedValue),
    Dict(MapNodes),
    Array(Vec<Node>),
}

/// A mapping from string keys to nodes, in the order the keys arrived.
#[derive(Debug, PartialEq)]
pub struct MapNodes {
    pub nodes: Vec<(String, Node)>,
}

/// The mathematical value of a scalar.
pub enum Scalar {
    Text(Seq<char>),
    Int(int),
    Float(Seq<char>),
}

/// The mathematical value of a node: a leaf, a mapping as its list of
/// entries, or a sequence.
pub enum Doc {
    Leaf(Scalar),
    Dict(Seq<(Seq<char>, Doc)>),
    List(Seq<Doc>),
}

impl View for TypedValue {
    type V = Scalar;

    open spec fn view(&self) -> Scalar {
        match self {
            TypedValue::String(s) => Scalar::Text(s@),
            TypedValue::Integer(i) => Scalar::Int(*i as int),
            TypedValue::Float(s) => Scalar::Float(s@),
        }
    }
}

pub open spec fn node_doc(n: Node) -> Doc
    decreases n,
{
    match n {
        Node::Leaf(t) => Doc::Leaf(t@),
        Node::Dict(m) => Doc::Dict(entries_doc(m.nodes@)),
        Node::Array(v) => Doc::List(nodes_doc(v@)),
    }
}

pub open spec fn entries_doc(s: Seq<(String, Node)>) -> Seq<(Seq<char>, Doc)>
    decreases s,
{
    if s.len() == 0 {
        Seq::empty()
    } else {
        entries_doc(s.drop_last()).push((s.last().0@, node_doc(s.last().1)))
    }
}

pub open spec fn nodes_doc(s: Seq<Node>) -> Seq<Doc>
    decreases s,
{
    if s.len() == 0 {
        Seq::empty()
    } else {
        nodes_doc(s.drop_last()).push(node_doc(s.last()))
    }
}

impl View for Node {
    type V = Doc;

    open spec fn view(&self) -> Doc {
        node_doc(*self)
    }
}

impl View for MapNodes {
    type V = Seq<(Seq<char>, Doc)>;

    open spec fn view(&self) -> Seq<(Seq<char>, Doc)> {
        entries_doc(self.nodes@)
    }
}

/// The view of a list of entries, entry by entry.
pub proof fn lemma_entries_doc(s: Seq<(String, Node)>)
    ensures
        entries_doc(s).len() == s.len(),
        forall|i: int|
            0 <= i < s.len() ==> #[trigger] entries_doc(s)[i] == (s[i].0@, node_doc(s[i].1)),
    decreases s.len(),
{
    if s.len() > 0 {
        lemma_entries_doc(s.drop_last());
    }
}

/// The view of a list of nodes, node by node.
pub proof fn lemma_nodes_doc(s: Seq<Node>)
    ensures
        nodes_doc(s).len() == s.len(),
        forall|i: int| 0 <= i < s.len() ==> #[trigger] nodes_doc(s)[i] == node_doc(s[i]),
    decreases s.len(),
{
    if s.len() > 0 {
        lemma_nodes_doc(s.drop_last());
    }
}

/// The node that the dotted path `path` leads to `v` through: each segment a
/// mapping of one key; the empty path is `v` itself.
pub open spec fn nest_doc(path: Seq<Seq<char>>, v: Doc) -> Doc
    decreases path.len(),
{
    if path.len() == 0 {
        v
    } else {
        Doc::Dict(seq![(path[0], nest_doc(path.drop_first(), v))])
    }
}

/// Wrapping the innermost value in one more mapping extends the path.
pub proof fn lemma_nest_push(path: Seq<Seq<char>>, k: Seq<char>, v: Doc)
    ensures
        nest_doc(path.push(k), v) == nest_doc(path, Doc::Dict(seq![(k, v)])),
    decreases path.len(),
{
    if path.len() == 0 {
        assert(path.push(k).drop_first() =~= Seq::<Seq<char>>::empty());
        assert(path.push(k)[0] == k);
        assert(nest_doc(path.push(k).drop_first(), v) == v);
    } else {
        assert(path.push(k).drop_first() =~= path.drop_first().push(k));
        lemma_nest_push(path.drop_first(), k, v);
        assert(path.push(k)[0] == path[0]);
    }
}

/// The views of a list of strings.
pub open spec fn keys_view(keys: Seq<String>) -> Seq<Seq<char>> {
    keys.map_values(|k: String| k@)
}

/// Builds the mapping that `dotted_keys` leads to `val` through: the first key
/// holds a mapping holding the second, and so on; the last key holds `val`.
pub fn string_to_dict(dotted_keys: Vec<String>, val: Node) -> (r: MapNodes)
    requires
        dotted_keys@.len() > 0,
    ensures
        Doc::Dict(r@) == nest_doc(keys_view(dotted_keys@), val@),
{
    let ghost path = keys_view(dotted_keys@);
    let mut keys = dotted_keys;
    let mut cur = val;
    while keys.len() > 1
        invariant
            keys@.len() >= 1,
            nest_doc(path, val@) == nest_doc(keys_view(keys@), cur@),
        decreases keys@.len(),
    {
        let ghost before = keys@;
        let k = keys.pop().unwrap();
        proof {
            assert(keys_view(before) =~= keys_view(keys@).push(k@));
            lemma_nest_push(keys_view(keys@), k@, cur@);
        }
        let mut m: Vec<(String, Node)> = Vec::new();
        m.push((k, cur));
        proof {
            lemma_entries_doc(m@);
            assert(entries_doc(m@) =~= seq![(k@, cur@)]);
        }
        cur = Node::Dict(MapNodes { nodes: m });
    }
    let ghost last = keys@;
    let k = keys.pop().unwrap();
    let mut m: Vec<(String, Node)> = Vec::new();
    m.push((k, cur));
    proof {
        assert(last =~= seq![k]);
        lemma_entries_doc(m@);
        assert(entries_doc(m@) =~= seq![(k@, cur@)]);
        let p = keys_view(seq![k]);
        assert(p =~= seq![k@]);
        assert(p.drop_first() =~= Seq::<Seq<char>>::empty());
        assert(nest_doc(p.drop_first(), cur@) == cur@);
    }
    MapNodes { nodes: m }
}

impl MapNodes {
    /// An empty mapping.
    pub fn new() -> (r: Self)
        ensures
            r@ == Seq::<(Seq<char>, Doc)>::empty(),
    {
        MapNodes { nodes: Vec::new() }
    }
}

} // verus!
