//! The document model the evaluator reads: nodes are handles into a
//! document, identified by their rank in document order; a nodeset is an
//! unordered collection of distinct nodes; an ordered sequence of nodes
//! carries positional information for predicates.

use vstd::prelude::*;

verus! {

use vstd::seq_lib::group_to_multiset_ensures;

/// A node handle: the index of the node in its document, which is also the
/// node's rank in document order.
#[derive(Clone, Copy, Debug, PartialEq, Eq, Structural)]
pub struct Node {
    pub id: usize,
}

/// The string-value a document assigns to a node; nodes outside the
/// document have the empty string-value.
pub open spec fn node_str(doc: Seq<Seq<char>>, id: int) -> Seq<char> {
    if 0 <= id < doc.len() {
        doc[id]
    } else {
        Seq::empty()
    }
}

/// A document: one string-value per node, in document order. The node with
/// id 0 is the document root.
#[derive(Debug)]
pub struct Document {
    strings: Vec<String>,
}

impl View for Document {
    type V = Seq<Seq<char>>;

    closed spec fn view(&self) -> Seq<Seq<char>> {
        self.strings@.map_values(|s: String| s@)
    }
}

impl Document {
    /// A document holding only its root, whose string-value is empty.
    pub fn new() -> (d: Document)
        ensures
            d@ =~= seq![Seq::<char>::empty()],
    {
        let mut strings: Vec<String> = Vec::new();
        strings.push(String::new());
        Document { strings }
    }

    /// A document whose root carries the given string-value: per XPath,
    /// the text of the whole document.
    pub fn with_root(s: String) -> (d: Document)
        ensures
            d@ =~= seq![s@],
    {
        let mut strings: Vec<String> = Vec::new();
        strings.push(s);
        Document { strings }
    }

    /// Appends a node with the given string-value; the new node follows
    /// every existing node in document order.
    pub fn add_node(&mut self, s: String) -> (n: Node)
        ensures
            final(self)@ =~= old(self)@.push(s@),
            n.id as int == old(self)@.len(),
    {
        let id = self.strings.len();
        self.strings.push(s);
        Node { id }
    }

    /// The document root.
    pub fn root(&self) -> (n: Node)
        ensures
            n.id == 0,
    {
        Node { id: 0 }
    }

    pub fn len(&self) -> (r: usize)
        ensures
            r == self@.len(),
    {
        self.strings.len()
    }

    /// The string-value of a node; empty for a handle outside the document.
    pub fn string_value(&self, n: Node) -> (r: String)
        ensures
            r@ == node_str(self@, n.id as int),
    {
        if n.id < self.strings.len() {
            self.strings[n.id].clone()
        } else {
            String::new()
        }
    }
}

/// The ids of a sequence of nodes.
pub open spec fn ids_of(s: Seq<Node>) -> Seq<int> {
    s.map_values(|n: Node| n.id as int)
}

/// No two nodes of the sequence share an id.
pub open spec fn distinct_nodes(s: Seq<Node>) -> bool {
    forall|i: int, j: int| 0 <= i < j < s.len() ==> s[i].id != s[j].id
}

/// Ids in strictly increasing order.
pub open spec fn strictly_sorted(v: Seq<int>) -> bool {
    forall|i: int, j: int| 0 <= i < j < v.len() ==> v[i] < v[j]
}

/// The least element of a set of ids.
pub open spec fn set_min(s: Set<int>) -> int {
    choose|m: int| s.contains(m) && forall|x: int| s.contains(x) ==> m <= x
}

pub proof fn lemma_set_has_min(s: Set<int>)
    requires
        s.finite(),
        s.len() > 0,
    ensures
        s.contains(set_min(s)),
        forall|x: int| s.contains(x) ==> set_min(s) <= x,
    decreases s.len(),
{
    let e = s.choose();
    assert(s.contains(e));
    let s2 = s.remove(e);
    if s2.len() == 0 {
        assert forall|x: int| s.contains(x) implies e <= x by {
            if x != e {
                assert(s2.contains(x));
                s2.lemma_len0_is_empty();
            }
        }
        assert(s.contains(e) && forall|x: int| s.contains(x) ==> e <= x);
    } else {
        lemma_set_has_min(s2);
        let m2 = set_min(s2);
        let m = if e <= m2 {
            e
        } else {
            m2
        };
        assert forall|x: int| s.contains(x) implies m <= x by {
            if x != e {
                assert(s2.contains(x));
            }
        }
        assert(s.contains(m) && forall|x: int| s.contains(x) ==> m <= x);
    }
}

/// The sequence of a set's ids in ascending order: the canonical
/// document-order projection of a nodeset.
pub open spec fn doc_order_seq(s: Set<int>) -> Seq<int>
    recommends
        s.finite(),
    decreases s.len(),
    when s.finite()
    via doc_order_seq_decreases
{
    if s.len() == 0 {
        Seq::empty()
    } else {
        seq![set_min(s)] + doc_order_seq(s.remove(set_min(s)))
    }
}

#[via_fn]
proof fn doc_order_seq_decreases(s: Set<int>) {
    if s.finite() && s.len() != 0 {
        lemma_set_has_min(s);
    }
}

/// A strictly ascending sequence is the canonical projection of its own set
/// of elements.
pub proof fn lemma_strict_sorted_eq_proj(v: Seq<int>)
    requires
        strictly_sorted(v),
    ensures
        doc_order_seq(v.to_set()) == v,
    decreases v.len(),
{
    let s = v.to_set();
    vstd::seq_lib::seq_to_set_is_finite(v);
    if v.len() == 0 {
        assert(s =~= Set::<int>::empty());
        assert(doc_order_seq(s) =~= v);
    } else {
        assert(v.contains(v[0]));
        assert(s.contains(v[0]));
        if s.len() == 0 {
            s.lemma_len0_is_empty();
        }
        lemma_set_has_min(s);
        let m = set_min(s);
        assert(v.contains(m));
        let k = choose|k: int| 0 <= k < v.len() && v[k] == m;
        assert(v[0] <= m);
        assert(m == v[0]);
        let rest = v.drop_first();
        assert(strictly_sorted(rest)) by {
            assert forall|i: int, j: int| 0 <= i < j < rest.len() implies rest[i] < rest[j] by {
                assert(rest[i] == v[i + 1]);
                assert(rest[j] == v[j + 1]);
            }
        }
        assert(s.remove(m) =~= rest.to_set()) by {
            assert forall|x: int| s.remove(m).contains(x) implies rest.to_set().contains(x) by {
                let k2 = choose|k2: int| 0 <= k2 < v.len() && v[k2] == x;
                assert(k2 != 0);
                assert(rest[k2 - 1] == x);
                assert(rest.contains(x));
            }
            assert forall|x: int| rest.to_set().contains(x) implies s.remove(m).contains(x) by {
                let k2 = choose|k2: int| 0 <= k2 < rest.len() && rest[k2] == x;
                assert(v[k2 + 1] == x);
                assert(v.contains(x));
                assert(v[0] < v[k2 + 1]);
            }
        }
        lemma_strict_sorted_eq_proj(rest);
        assert(doc_order_seq(s) =~= v);
    }
}

/// The document-order projection of any set is sorted by document order:
/// ids appear in strictly ascending order.
pub proof fn lemma_doc_order_seq_sorted(s: Set<int>)
    requires
        s.finite(),
    ensures
        strictly_sorted(doc_order_seq(s)),
    decreases s.len(),
{
    if s.len() != 0 {
        lemma_set_has_min(s);
        let m = set_min(s);
        let rest = s.remove(m);
        lemma_doc_order_seq_sorted(rest);
        let tail = doc_order_seq(rest);
        assert forall|i: int, j: int|
            0 <= i < j < doc_order_seq(s).len() implies doc_order_seq(s)[i] < doc_order_seq(
            s,
        )[j] by {
            if i == 0 {
                lemma_doc_order_elements(rest, tail[j - 1]);
                assert(rest.contains(tail[j - 1]));
                assert(m <= tail[j - 1] && m != tail[j - 1]);
            } else {
                assert(tail[i - 1] < tail[j - 1]);
            }
        }
    }
}

/// Every element of a projection belongs to the projected set, and the
/// other way round.
pub proof fn lemma_doc_order_elements(s: Set<int>, x: int)
    requires
        s.finite(),
    ensures
        doc_order_seq(s).contains(x) <==> s.contains(x),
    decreases s.len(),
{
    if s.len() != 0 {
        lemma_set_has_min(s);
        let m = set_min(s);
        let rest = s.remove(m);
        lemma_doc_order_elements(rest, x);
        if s.contains(x) {
            if x == m {
                assert(doc_order_seq(s)[0] == x);
            } else {
                assert(rest.contains(x));
                let k = choose|k: int|
                    0 <= k < doc_order_seq(rest).len() && doc_order_seq(rest)[k] == x;
                assert(doc_order_seq(s)[k + 1] == x);
            }
        }
        if doc_order_seq(s).contains(x) {
            let k = choose|k: int| 0 <= k < doc_order_seq(s).len() && doc_order_seq(s)[k] == x;
            if k == 0 {
                assert(s.contains(m));
            } else {
                assert(doc_order_seq(rest)[k - 1] == x);
                assert(doc_order_seq(rest).contains(x));
            }
        }
    } else {
        if s.contains(x) {
            s.lemma_len0_is_empty();
        }
    }
}

/// An unordered set of distinct nodes. Its mathematical value is the set of
/// node ids it holds.
#[derive(Debug)]
pub struct Nodeset {
    pub(crate) nodes: Vec<Node>,
}

impl View for Nodeset {
    type V = Set<int>;

    closed spec fn view(&self) -> Set<int> {
        ids_of(self.nodes@).to_set()
    }
}

impl Nodeset {
    #[verifier::type_invariant]
    spec fn inv(self) -> bool {
        distinct_nodes(self.nodes@)
    }

    pub fn new() -> (s: Nodeset)
        ensures
            s@ =~= Set::<int>::empty(),
    {
        Nodeset { nodes: Vec::new() }
    }

    pub fn contains(&self, n: Node) -> (r: bool)
        ensures
            r == self@.contains(n.id as int),
    {
        let len = self.nodes.len();
        for i in 0..len
            invariant
                len == self.nodes@.len(),
                forall|j: int| 0 <= j < i ==> self.nodes@[j].id != n.id,
        {
            if self.nodes[i].id == n.id {
                proof {
                    assert(ids_of(self.nodes@)[i as int] == n.id as int);
                    assert(ids_of(self.nodes@).contains(n.id as int));
                }
                return true;
            }
        }
        proof {
            if ids_of(self.nodes@).contains(n.id as int) {
                let j = choose|j: int|
                    0 <= j < ids_of(self.nodes@).len() && ids_of(self.nodes@)[j] == n.id as int;
                assert(self.nodes@[j].id == n.id);
            }
        }
        false
    }

    /// Inserts a node; a node already present is not duplicated.
    pub fn add(&mut self, n: Node)
        ensures
            final(self)@ =~= old(self)@.insert(n.id as int),
    {
        proof {
            use_type_invariant(&*self);
        }
        if !self.contains(n) {
            let mut nodes: Vec<Node> = Vec::new();
            std::mem::swap(&mut nodes, &mut self.nodes);
            nodes.push(n);
            proof {
                assert forall|j: int| 0 <= j < nodes@.len() - 1 implies nodes@[j].id != n.id by {
                    assert(ids_of(old(self).nodes@)[j] == nodes@[j].id as int);
                    assert(ids_of(old(self).nodes@).contains(nodes@[j].id as int));
                }
            }
            self.nodes = nodes;
            proof {
                assert(ids_of(self.nodes@) =~= ids_of(old(self).nodes@).push(n.id as int));
                assert(self@ =~= old(self)@.insert(n.id as int)) by {
                    assert forall|x: int| self@.contains(x) implies old(self)@.insert(
                        n.id as int,
                    ).contains(x) by {
                        let j = choose|j: int|
                            0 <= j < ids_of(self.nodes@).len() && ids_of(self.nodes@)[j] == x;
                        if j < ids_of(self.nodes@).len() - 1 {
                            assert(ids_of(old(self).nodes@)[j] == x);
                        }
                    }
                    assert forall|x: int|
                        old(self)@.insert(n.id as int).contains(x) implies self@.contains(x) by {
                        if x == n.id as int {
                            assert(ids_of(self.nodes@).last() == x);
                        } else {
                            let j = choose|j: int|
                                0 <= j < ids_of(old(self).nodes@).len() && ids_of(
                                    old(self).nodes@,
                                )[j] == x;
                            assert(ids_of(self.nodes@)[j] == x);
                        }
                    }
                }
            }
        } else {
            proof {
                assert(final(self)@ =~= old(self)@.insert(n.id as int));
            }
        }
    }

    /// Set union: inserts every node of `other`.
    pub fn add_nodeset(&mut self, other: &Nodeset)
        ensures
            final(self)@ =~= old(self)@.union(other@),
    {
        let len = other.nodes.len();
        for i in 0..len
            invariant
                len == other.nodes@.len(),
                forall|x: int|
                    self@.contains(x) <==> (old(self)@.contains(x) || exists|j: int|
                        0 <= j < i && other.nodes@[j].id as int == x),
        {
            let n = other.nodes[i];
            self.add(n);
        }
        proof {
            assert forall|x: int| other@.contains(x) implies exists|j: int|
                0 <= j < other.nodes@.len() && other.nodes@[j].id as int == x by {
                let j = choose|j: int|
                    0 <= j < ids_of(other.nodes@).len() && ids_of(other.nodes@)[j] == x;
                assert(other.nodes@[j].id as int == x);
            }
            assert forall|j: int| 0 <= j < other.nodes@.len() implies other@.contains(
                other.nodes@[j].id as int,
            ) by {
                assert(ids_of(other.nodes@)[j] == other.nodes@[j].id as int);
                assert(ids_of(other.nodes@).contains(other.nodes@[j].id as int));
            }
        }
    }

    /// An equal nodeset holding the same nodes.
    pub fn duplicate(&self) -> (r: Nodeset)
        ensures
            r@ =~= self@,
    {
        proof {
            use_type_invariant(&*self);
        }
        let len = self.nodes.len();
        let mut nodes: Vec<Node> = Vec::new();
        for i in 0..len
            invariant
                len == self.nodes@.len(),
                nodes@ =~= self.nodes@.subrange(0, i as int),
        {
            nodes.push(self.nodes[i]);
            proof {
                assert(nodes@ =~= self.nodes@.subrange(0, i + 1 as int));
            }
        }
        proof {
            assert(nodes@ =~= self.nodes@);
        }
        Nodeset { nodes }
    }

    /// The number of nodes in the set.
    pub fn size(&self) -> (r: usize)
        ensures
            r == self@.len(),
    {
        proof {
            use_type_invariant(&*self);
            assert(ids_of(self.nodes@).no_duplicates()) by {
                assert forall|i: int, j: int|
                    0 <= i < j < ids_of(self.nodes@).len() implies ids_of(self.nodes@)[i] != ids_of(
                    self.nodes@,
                )[j] by {
                    assert(self.nodes@[i].id != self.nodes@[j].id);
                }
            }
            ids_of(self.nodes@).unique_seq_to_set();
        }
        self.nodes.len()
    }

    /// The nodes of the set, ordered by their rank in the document:
    /// the document-order projection.
    pub fn document_order(&self) -> (r: OrderedNodes)
        ensures
            r@ == doc_order_seq(self@),
            strictly_sorted(r@),
            r@.to_set() =~= self@,
            r@.len() == self@.len(),
    {
        proof {
            use_type_invariant(&*self);
        }
        let len = self.nodes.len();
        let mut out: Vec<Node> = Vec::new();
        proof {
            broadcast use group_to_multiset_ensures;

            assert(self.nodes@.subrange(0, 0) =~= Seq::<Node>::empty());
            assert(out@.to_multiset() =~= self.nodes@.subrange(0, 0).to_multiset());
        }
        for k in 0..len
            invariant
                len == self.nodes@.len(),
                sorted_ids(out@),
                out@.to_multiset() == self.nodes@.subrange(0, k as int).to_multiset(),
        {
            proof {
                broadcast use group_to_multiset_ensures;

                assert(self.nodes@.subrange(0, k + 1 as int) =~= self.nodes@.subrange(
                    0,
                    k as int,
                ).push(self.nodes@[k as int]));
            }
            sorted_insert(&mut out, self.nodes[k]);
        }
        proof {
            broadcast use group_to_multiset_ensures;

            assert(self.nodes@.subrange(0, len as int) =~= self.nodes@);
            assert(out@.to_multiset() == self.nodes@.to_multiset());
            assert(self.nodes@.no_duplicates());
            self.nodes@.lemma_multiset_has_no_duplicates();
            out@.lemma_multiset_has_no_duplicates_conv();
            assert(out@.no_duplicates());
            assert(strictly_sorted(ids_of(out@))) by {
                assert forall|i: int, j: int|
                    0 <= i < j < out@.len() implies ids_of(out@)[i] < ids_of(out@)[j] by {
                    assert(out@[i].id <= out@[j].id);
                    assert(out@[i] != out@[j]);
                }
            }
            assert(ids_of(out@).to_set() =~= self@) by {
                assert forall|x: int| ids_of(out@).to_set().contains(x) implies self@.contains(
                    x,
                ) by {
                    let j = choose|j: int| 0 <= j < ids_of(out@).len() && ids_of(out@)[j] == x;
                    let nd = out@[j];
                    assert(out@.contains(nd));
                    assert(out@.to_multiset().count(nd) > 0);
                    assert(self.nodes@.to_multiset().count(nd) > 0);
                    assert(self.nodes@.contains(nd));
                    let i = choose|i: int| 0 <= i < self.nodes@.len() && self.nodes@[i] == nd;
                    assert(ids_of(self.nodes@)[i] == x);
                    assert(ids_of(self.nodes@).contains(x));
                }
                assert forall|x: int| self@.contains(x) implies ids_of(out@).to_set().contains(
                    x,
                ) by {
                    let j = choose|j: int|
                        0 <= j < ids_of(self.nodes@).len() && ids_of(self.nodes@)[j] == x;
                    let nd = self.nodes@[j];
                    assert(self.nodes@.contains(nd));
                    assert(self.nodes@.to_multiset().count(nd) > 0);
                    assert(out@.to_multiset().count(nd) > 0);
                    assert(out@.contains(nd));
                    let i = choose|i: int| 0 <= i < out@.len() && out@[i] == nd;
                    assert(ids_of(out@)[i] == x);
                    assert(ids_of(out@).contains(x));
                }
            }
            lemma_strict_sorted_eq_proj(ids_of(out@));
            assert(ids_of(self.nodes@).no_duplicates()) by {
                assert forall|i: int, j: int|
                    0 <= i < j < ids_of(self.nodes@).len() implies ids_of(self.nodes@)[i]
                    != ids_of(self.nodes@)[j] by {
                    assert(self.nodes@[i].id != self.nodes@[j].id);
                }
            }
            ids_of(self.nodes@).unique_seq_to_set();
            assert(out@.to_multiset().len() == self.nodes@.to_multiset().len());
        }
        OrderedNodes { nodes: out }
    }
}

impl PartialEq for Nodeset {
    /// Nodesets are equal as sets: each contains every node of the other.
    fn eq(&self, other: &Nodeset) -> (r: bool) {
        self.subset_of(other) && other.subset_of(self)
    }
}

impl vstd::std_specs::cmp::PartialEqSpecImpl for Nodeset {
    open spec fn obeys_eq_spec() -> bool {
        true
    }

    open spec fn eq_spec(&self, other: &Nodeset) -> bool {
        self@ =~= other@
    }
}

impl Nodeset {
    fn subset_of(&self, other: &Nodeset) -> (r: bool)
        ensures
            r == self@.subset_of(other@),
    {
        let len = self.nodes.len();
        for i in 0..len
            invariant
                len == self.nodes@.len(),
                forall|j: int| 0 <= j < i ==> other@.contains(self.nodes@[j].id as int),
        {
            if !other.contains(self.nodes[i]) {
                proof {
                    assert(ids_of(self.nodes@)[i as int] == self.nodes@[i as int].id as int);
                    assert(self@.contains(self.nodes@[i as int].id as int));
                }
                return false;
            }
        }
        proof {
            assert forall|x: int| self@.contains(x) implies other@.contains(x) by {
                let j = choose|j: int|
                    0 <= j < ids_of(self.nodes@).len() && ids_of(self.nodes@)[j] == x;
                assert(self.nodes@[j].id as int == x);
            }
        }
        true
    }
}

/// Within the crate, the value of a nodeset is the set of ids of its node
/// vector.
pub(crate) proof fn lemma_nodeset_view(ns: &Nodeset)
    ensures
        ns@ == ids_of(ns.nodes@).to_set(),
{
}

/// Ids in ascending (not necessarily strict) order.
pub open spec fn sorted_ids(s: Seq<Node>) -> bool {
    forall|i: int, j: int| 0 <= i < j < s.len() ==> s[i].id <= s[j].id
}

fn sorted_insert(out: &mut Vec<Node>, x: Node)
    requires
        sorted_ids(old(out)@),
    ensures
        sorted_ids(final(out)@),
        final(out)@.to_multiset() == old(out)@.to_multiset().insert(x),
{
    let len = out.len();
    let mut p: usize = 0;
    while p < len && out[p].id < x.id
        invariant
            len == out@.len(),
            p <= len,
            out@ == old(out)@,
            forall|j: int| 0 <= j < p ==> out@[j].id < x.id,
        decreases len - p,
    {
        p += 1;
    }
    out.insert(p, x);
    proof {
        broadcast use group_to_multiset_ensures;

        assert(final(out)@ == old(out)@.insert(p as int, x));
        assert(sorted_ids(final(out)@)) by {
            assert forall|i: int, j: int|
                0 <= i < j < final(out)@.len() implies final(out)@[i].id <= final(out)@[j].id by {
                if i < p && j == p {
                } else if i == p && j > p {
                    assert(final(out)@[j] == old(out)@[j - 1]);
                    assert(old(out)@[p as int].id >= x.id);
                } else if i < p && j > p {
                    assert(final(out)@[j] == old(out)@[j - 1]);
                } else if i > p && j > p {
                    assert(final(out)@[i] == old(out)@[i - 1]);
                    assert(final(out)@[j] == old(out)@[j - 1]);
                }
            }
        }
    }
}

/// A sequence of nodes whose order was fixed by an axis or by a
/// document-order projection. Its mathematical value is the sequence of ids.
#[derive(Debug)]
pub struct OrderedNodes {
    pub(crate) nodes: Vec<Node>,
}

impl View for OrderedNodes {
    type V = Seq<int>;

    closed spec fn view(&self) -> Seq<int> {
        ids_of(self.nodes@)
    }
}

impl OrderedNodes {
    pub fn new() -> (s: OrderedNodes)
        ensures
            s@ =~= Seq::<int>::empty(),
    {
        OrderedNodes { nodes: Vec::new() }
    }

    /// Appends a node at the end of the sequence.
    pub fn add(&mut self, n: Node)
        ensures
            final(self)@ =~= old(self)@.push(n.id as int),
    {
        self.nodes.push(n);
        proof {
            assert(ids_of(self.nodes@) =~= ids_of(old(self).nodes@).push(n.id as int));
        }
    }

    pub fn len(&self) -> (r: usize)
        ensures
            r == self@.len(),
    {
        self.nodes.len()
    }

    pub fn get(&self, i: usize) -> (n: Node)
        requires
            i < self@.len(),
        ensures
            n.id as int == self@[i as int],
    {
        proof {
            assert(ids_of(self.nodes@)[i as int] == self.nodes@[i as int].id as int);
        }
        self.nodes[i]
    }

    /// Collects the sequence into a nodeset, dropping duplicates.
    pub fn into_nodeset(self) -> (r: Nodeset)
        ensures
            r@ =~= self@.to_set(),
    {
        let mut r = Nodeset::new();
        let len = self.nodes.len();
        for i in 0..len
            invariant
                len == self.nodes@.len(),
                forall|x: int|
                    r@.contains(x) <==> exists|j: int|
                        0 <= j < i && self.nodes@[j].id as int == x,
        {
            r.add(self.nodes[i]);
        }
        proof {
            assert forall|x: int| self@.to_set().contains(x) implies r@.contains(x) by {
                let j = choose|j: int|
                    0 <= j < ids_of(self.nodes@).len() && ids_of(self.nodes@)[j] == x;
                assert(self.nodes@[j].id as int == x);
            }
            assert forall|x: int| r@.contains(x) implies self@.to_set().contains(x) by {
                let j = choose|j: int| 0 <= j < self.nodes@.len() && self.nodes@[j].id as int == x;
                assert(ids_of(self.nodes@)[j] == x);
                assert(ids_of(self.nodes@).contains(x));
            }
        }
        r
    }
}

} // verus!
