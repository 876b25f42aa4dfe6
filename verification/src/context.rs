//! The evaluation context: variable, function and namespace bindings,
//! together with the current node, its one-based position in the list under
//! consideration, and that list's size.

use vstd::prelude::*;

verus! {

use crate::name::{QNameV, QualifiedName};
use crate::nodeset::{Document, Node};
use crate::value::{Value, ValueV};

/// Spec-level image of an evaluation context: the document's string-values,
/// the three binding maps (for functions only the bound names matter to the
/// core), and the node/position/size triple.
pub struct CtxV {
    pub doc: Seq<Seq<char>>,
    pub vars: Map<QNameV, ValueV>,
    pub funs: Set<QNameV>,
    pub ns: Map<Seq<char>, Seq<char>>,
    pub node: int,
    pub position: nat,
    pub size: nat,
}

/// The map an association list denotes; a later entry shadows an earlier
/// one with the same key.
pub open spec fn assoc_map<K, V>(entries: Seq<(K, V)>) -> Map<K, V>
    decreases entries.len(),
{
    if entries.len() == 0 {
        Map::empty()
    } else {
        assoc_map(entries.drop_last()).insert(entries.last().0, entries.last().1)
    }
}

proof fn lemma_assoc_found<K, V>(s: Seq<(K, V)>, k: K, j: int)
    requires
        0 <= j < s.len(),
        s[j].0 == k,
        forall|l: int| j < l < s.len() ==> s[l].0 != k,
    ensures
        assoc_map(s).contains_key(k),
        assoc_map(s)[k] == s[j].1,
    decreases s.len(),
{
    if j == s.len() - 1 {
    } else {
        assert(s.drop_last()[j] == s[j]);
        lemma_assoc_found(s.drop_last(), k, j);
    }
}

proof fn lemma_assoc_absent<K, V>(s: Seq<(K, V)>, k: K)
    requires
        forall|l: int| 0 <= l < s.len() ==> s[l].0 != k,
    ensures
        !assoc_map(s).contains_key(k),
    decreases s.len(),
{
    if s.len() > 0 {
        lemma_assoc_absent(s.drop_last(), k);
    }
}

/// The caller-built bindings an evaluation runs under.
pub struct Context<F> {
    pub(crate) variables: Vec<(QualifiedName, Value)>,
    pub(crate) functions: Vec<(QualifiedName, F)>,
    pub(crate) namespaces: Vec<(String, String)>,
}

impl<F> Context<F> {
    pub closed spec fn vars_view(&self) -> Map<QNameV, ValueV> {
        assoc_map(self.variables@.map_values(|p: (QualifiedName, Value)| (p.0@, p.1@)))
    }

    pub closed spec fn funs_view(&self) -> Set<QNameV> {
        Set::new(
            |q: QNameV| self.functions@.map_values(|p: (QualifiedName, F)| p.0@).contains(q),
        )
    }

    pub closed spec fn ns_view(&self) -> Map<Seq<char>, Seq<char>> {
        assoc_map(self.namespaces@.map_values(|p: (String, String)| (p.0@, p.1@)))
    }

    /// An empty context: no variables, no functions, no namespaces.
    pub fn new() -> (c: Context<F>)
        ensures
            c.vars_view() =~= Map::<QNameV, ValueV>::empty(),
            c.funs_view() =~= Set::<QNameV>::empty(),
            c.ns_view() =~= Map::<Seq<char>, Seq<char>>::empty(),
    {
        Context { variables: Vec::new(), functions: Vec::new(), namespaces: Vec::new() }
    }

    /// Binds a value to an unprefixed variable name; an existing binding is
    /// shadowed.
    pub fn set_variable(&mut self, name: &str, value: Value)
        ensures
            final(self).vars_view() =~= old(self).vars_view().insert(
                QNameV { namespace_uri: None, local: name@ },
                value@,
            ),
            final(self).funs_view() == old(self).funs_view(),
            final(self).ns_view() == old(self).ns_view(),
    {
        let ghost q = QNameV { namespace_uri: None, local: name@ };
        let ghost v = value@;
        let qn = QualifiedName { namespace_uri: None, local_part: name.to_owned() };
        self.variables.push((qn, value));
        proof {
            let m = old(self).variables@.map_values(|p: (QualifiedName, Value)| (p.0@, p.1@));
            let m2 = self.variables@.map_values(|p: (QualifiedName, Value)| (p.0@, p.1@));
            assert(m2 =~= m.push((q, v)));
            assert(m2.drop_last() =~= m);
        }
    }

    /// Binds a function to an unprefixed name.
    pub fn set_function(&mut self, name: &str, function: F)
        ensures
            final(self).funs_view() =~= old(self).funs_view().insert(
                QNameV { namespace_uri: None, local: name@ },
            ),
            final(self).vars_view() == old(self).vars_view(),
            final(self).ns_view() == old(self).ns_view(),
    {
        let ghost q = QNameV { namespace_uri: None, local: name@ };
        let qn = QualifiedName { namespace_uri: None, local_part: name.to_owned() };
        self.functions.push((qn, function));
        proof {
            let m = old(self).functions@.map_values(|p: (QualifiedName, F)| p.0@);
            let m2 = self.functions@.map_values(|p: (QualifiedName, F)| p.0@);
            assert(m2 =~= m.push(q));
            assert forall|x: QNameV| m2.contains(x) implies m.contains(x) || x == q by {
                let j = choose|j: int| 0 <= j < m2.len() && m2[j] == x;
                if j < m.len() {
                    assert(m[j] == x);
                }
            }
            assert forall|x: QNameV| m.contains(x) implies m2.contains(x) by {
                let j = choose|j: int| 0 <= j < m.len() && m[j] == x;
                assert(m2[j] == x);
            }
            assert(m2.contains(q)) by {
                assert(m2[m2.len() - 1] == q);
            }
        }
    }

    /// Binds a namespace URI to a prefix.
    pub fn set_namespace(&mut self, prefix: &str, uri: &str)
        ensures
            final(self).ns_view() =~= old(self).ns_view().insert(prefix@, uri@),
            final(self).vars_view() == old(self).vars_view(),
            final(self).funs_view() == old(self).funs_view(),
    {
        let ghost p = prefix@;
        let ghost u = uri@;
        self.namespaces.push((prefix.to_owned(), uri.to_owned()));
        proof {
            let m = old(self).namespaces@.map_values(|q: (String, String)| (q.0@, q.1@));
            let m2 = self.namespaces@.map_values(|q: (String, String)| (q.0@, q.1@));
            assert(m2 =~= m.push((p, u)));
            assert(m2.drop_last() =~= m);
        }
    }
}

/// One evaluation's view of the world: the shared bindings, the document,
/// and the node/position/size triple the expression is evaluated at.
pub struct Evaluation<'c, 'd, F> {
    pub context: &'c Context<F>,
    pub doc: &'d Document,
    pub node: Node,
    pub position: usize,
    pub size: usize,
}

impl<'c, 'd, F> View for Evaluation<'c, 'd, F> {
    type V = CtxV;

    open spec fn view(&self) -> CtxV {
        CtxV {
            doc: self.doc@,
            vars: self.context.vars_view(),
            funs: self.context.funs_view(),
            ns: self.context.ns_view(),
            node: self.node.id as int,
            position: self.position as nat,
            size: self.size as nat,
        }
    }
}

impl<'c, 'd, F> Evaluation<'c, 'd, F> {
    /// An evaluation at `node`, with position one of one.
    pub fn new(context: &'c Context<F>, doc: &'d Document, node: Node) -> (r: Evaluation<'c, 'd, F>)
        ensures
            r@ == (CtxV {
                doc: doc@,
                vars: context.vars_view(),
                funs: context.funs_view(),
                ns: context.ns_view(),
                node: node.id as int,
                position: 1,
                size: 1,
            }),
    {
        Evaluation { context, doc, node, position: 1, size: 1 }
    }

    /// The context a step evaluates an axis under: same bindings, the given
    /// node, position and size reset to one.
    pub fn new_context_for(&self, node: Node) -> (r: Evaluation<'c, 'd, F>)
        ensures
            r@ == (CtxV { node: node.id as int, position: 1, size: 1, ..self@ }),
    {
        Evaluation { context: self.context, doc: self.doc, node, position: 1, size: 1 }
    }

    /// The per-node context a predicate sees: same bindings, the given
    /// node at the given one-based position in a list of the given size.
    pub fn new_context_at(&self, node: Node, position: usize, size: usize) -> (r: Evaluation<
        'c,
        'd,
        F,
    >)
        ensures
            r@ == (CtxV {
                node: node.id as int,
                position: position as nat,
                size: size as nat,
                ..self@
            }),
    {
        Evaluation { context: self.context, doc: self.doc, node, position, size }
    }

    /// The value bound to a resolved variable name, if any.
    pub fn value_of(&self, name: &QualifiedName) -> (r: Option<&Value>)
        ensures
            match r {
                Some(v) => self@.vars.contains_key(name@) && v@ == self@.vars[name@],
                None => !self@.vars.contains_key(name@),
            },
    {
        let n = self.context.variables.len();
        let mut i: usize = n;
        while i > 0
            invariant
                i <= n,
                n == self.context.variables@.len(),
                forall|j: int| i <= j < n ==> self.context.variables@[j].0@ != name@,
            decreases i,
        {
            i -= 1;
            if self.context.variables[i].0.same_name(name) {
                proof {
                    let m = self.context.variables@.map_values(
                        |p: (QualifiedName, Value)| (p.0@, p.1@),
                    );
                    lemma_assoc_found(m, name@, i as int);
                }
                return Some(&self.context.variables[i].1);
            }
        }
        proof {
            let m = self.context.variables@.map_values(|p: (QualifiedName, Value)| (p.0@, p.1@));
            lemma_assoc_absent(m, name@);
        }
        None
    }

    /// The function bound to a resolved name, if any.
    pub fn function_for_name(&self, name: &QualifiedName) -> (r: Option<&F>)
        ensures
            r is Some <==> self@.funs.contains(name@),
    {
        let n = self.context.functions.len();
        let mut i: usize = n;
        while i > 0
            invariant
                i <= n,
                n == self.context.functions@.len(),
                forall|j: int| i <= j < n ==> self.context.functions@[j].0@ != name@,
            decreases i,
        {
            i -= 1;
            if self.context.functions[i].0.same_name(name) {
                proof {
                    let m = self.context.functions@.map_values(|p: (QualifiedName, F)| p.0@);
                    assert(m[i as int] == name@);
                    assert(m.contains(name@));
                }
                return Some(&self.context.functions[i].1);
            }
        }
        proof {
            let m = self.context.functions@.map_values(|p: (QualifiedName, F)| p.0@);
            if m.contains(name@) {
                let j = choose|j: int| 0 <= j < m.len() && m[j] == name@;
                assert(self.context.functions@[j].0@ == name@);
            }
        }
        None
    }

    /// The namespace URI bound to a prefix, if any.
    pub fn namespace_for(&self, prefix: &str) -> (r: Option<&String>)
        ensures
            match r {
                Some(u) => self@.ns.contains_key(prefix@) && u@ == self@.ns[prefix@],
                None => !self@.ns.contains_key(prefix@),
            },
    {
        let p = prefix.to_owned();
        let n = self.context.namespaces.len();
        let mut i: usize = n;
        while i > 0
            invariant
                i <= n,
                p@ == prefix@,
                n == self.context.namespaces@.len(),
                forall|j: int| i <= j < n ==> self.context.namespaces@[j].0@ != prefix@,
            decreases i,
        {
            i -= 1;
            if self.context.namespaces[i].0 == p {
                proof {
                    let m = self.context.namespaces@.map_values(
                        |q: (String, String)| (q.0@, q.1@),
                    );
                    lemma_assoc_found(m, prefix@, i as int);
                }
                return Some(&self.context.namespaces[i].1);
            }
        }
        proof {
            let m = self.context.namespaces@.map_values(|q: (String, String)| (q.0@, q.1@));
            lemma_assoc_absent(m, prefix@);
        }
        None
    }
}

} // verus!
