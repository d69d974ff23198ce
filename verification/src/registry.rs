//! Node registry: factories registered by type name, from which the engine creates
//! the nodes a configuration names.
//!
//! A factory is whatever the caller uses to make a node; the registry finds it by
//! type name and checks configurations against what is registered.

use vstd::prelude::*;
use crate::table::{find_key, key_index, key_view, keys, keys_distinct, lemma_key_index, lemma_store_distinct, lookup, store};

verus! {

/// The id and type of a configured node: what the registry checks.
pub struct NodeRef {
    pub id: String,
    pub node_type: String,
}

/// Why a node cannot be created.
#[derive(Debug)]
pub enum RegistryError {
    /// No factory is registered for the node's type.
    NoFactory { node_type: String, node_id: String },
    /// Nodes whose types have no factory: (type, node id) pairs in configuration
    /// order.
    MissingFactories(Vec<(String, String)>),
}

/// `'{t}' (node '{id}')`.
pub open spec fn missing_item(t: Seq<char>, id: Seq<char>) -> Seq<char> {
    seq!['\''] + t + seq!['\'', ' ', '(', 'n', 'o', 'd', 'e', ' ', '\''] + id + seq!['\'', ')']
}

/// The items joined with `, `.
pub open spec fn joined(items: Seq<(Seq<char>, Seq<char>)>) -> Seq<char>
    decreases items.len(),
{
    if items.len() == 0 {
        Seq::empty()
    } else if items.len() == 1 {
        missing_item(items[0].0, items[0].1)
    } else {
        joined(items.drop_last()) + seq![',', ' '] + missing_item(items.last().0, items.last().1)
    }
}

/// The message of an error.
pub open spec fn error_message(e: RegistryError) -> Seq<char> {
    match e {
        RegistryError::NoFactory { node_type, node_id } => seq![
            'n', 'o', ' ', 'f', 'a', 'c', 't', 'o', 'r', 'y', ' ', 'r', 'e', 'g', 'i', 's', 't',
            'e', 'r', 'e', 'd', ' ', 'f', 'o', 'r', ' ', 'n', 'o', 'd', 'e', ' ', 't', 'y', 'p',
            'e', ' ', '\'',
        ] + node_type@ + seq!['\'', ' ', '(', 'n', 'o', 'd', 'e', ' ', 'i', 'd', ':', ' ', '\'']
            + node_id@ + seq!['\'', ')'],
        RegistryError::MissingFactories(items) => seq![
            'm', 'i', 's', 's', 'i', 'n', 'g', ' ', 'n', 'o', 'd', 'e', ' ', 'f', 'a', 'c', 't',
            'o', 'r', 'i', 'e', 's', ':', ' ',
        ] + joined(items@.map_values(|p: (String, String)| (p.0@, p.1@))),
    }
}

/// The (type, id) pairs of the nodes whose types are not registered, in order.
pub open spec fn missing_of<F>(t: Seq<(Seq<char>, F)>, nodes: Seq<(Seq<char>, Seq<char>)>) -> Seq<
    (Seq<char>, Seq<char>),
>
    decreases nodes.len(),
{
    if nodes.len() == 0 {
        Seq::empty()
    } else {
        let prev = missing_of(t, nodes.drop_last());
        if key_index(t, nodes.last().0) is None {
            prev.push(nodes.last())
        } else {
            prev
        }
    }
}

/// Appends `'{t}' (node '{id}')`.
fn push_item(s: &mut String, t: &str, id: &str)
    ensures
        final(s)@ == old(s)@ + missing_item(t@, id@),
{
    s.append("'");
    s.append(t);
    s.append("' (node '");
    s.append(id);
    s.append("')");
    proof {
        reveal_strlit("'");
        reveal_strlit("' (node '");
        reveal_strlit("')");
    }
    assert(final(s)@ =~= old(s)@ + missing_item(t@, id@));
}

impl RegistryError {
    /// The message of the error.
    pub fn message(&self) -> (m: String)
        ensures
            m@ == error_message(*self),
    {
        match self {
            RegistryError::NoFactory { node_type, node_id } => {
                let mut m = "no factory registered for node type '".to_owned();
                m.append(node_type.as_str());
                m.append("' (node id: '");
                m.append(node_id.as_str());
                m.append("')");
                proof {
                    reveal_strlit("no factory registered for node type '");
                    reveal_strlit("' (node id: '");
                    reveal_strlit("')");
                }
                assert(m@ =~= error_message(*self));
                m
            },
            RegistryError::MissingFactories(items) => {
                let ghost iv = items@.map_values(|p: (String, String)| (p.0@, p.1@));
                let mut m = "missing node factories: ".to_owned();
                proof {
                    reveal_strlit("missing node factories: ");
                    reveal_strlit(", ");
                }
                let ghost head = m@;
                let mut i: usize = 0;
                while i < items.len()
                    invariant
                        i <= items@.len(),
                        iv == items@.map_values(|p: (String, String)| (p.0@, p.1@)),
                        head == seq![
                            'm', 'i', 's', 's', 'i', 'n', 'g', ' ', 'n', 'o', 'd', 'e', ' ',
                            'f', 'a', 'c', 't', 'o', 'r', 'i', 'e', 's', ':', ' ',
                        ],
                        m@ == head + joined(iv.take(i as int)),
                    decreases items@.len() - i,
                {
                    assert(iv.take(i + 1).drop_last() =~= iv.take(i as int));
                    assert(iv.take(i + 1).last() == iv[i as int]);
                    assert(iv[i as int] == (items@[i as int].0@, items@[i as int].1@));
                    assert(iv.take(i + 1)[0] == iv[0]);
                    let ghost item = missing_item(iv[i as int].0, iv[i as int].1);
                    if i > 0 {
                        m.append(", ");
                        proof {
                            reveal_strlit(", ");
                        }
                        push_item(&mut m, items[i].0.as_str(), items[i].1.as_str());
                        assert(joined(iv.take(i + 1)) == joined(iv.take(i as int)) + seq![',', ' ']
                            + item);
                        assert(m@ =~= head + joined(iv.take(i + 1)));
                    } else {
                        push_item(&mut m, items[i].0.as_str(), items[i].1.as_str());
                        assert(joined(iv.take(1)) == item);
                        assert(m@ =~= head + joined(iv.take(i + 1)));
                    }
                    i += 1;
                }
                assert(iv.take(items@.len() as int) =~= iv);
                m
            },
        }
    }
}

/// Registry of node factories, keyed by type name.
pub struct NodeRegistry<F> {
    factories: Vec<(String, F)>,
}

impl<F> NodeRegistry<F> {
    /// The registered type names and their factories, in registration order.
    pub closed spec fn table(&self) -> Seq<(Seq<char>, F)> {
        key_view(self.factories@)
    }

    /// Well-formedness: no type is registered twice.
    pub closed spec fn wf(&self) -> bool {
        keys_distinct(self.table())
    }

    /// An empty registry.
    pub fn new() -> (r: NodeRegistry<F>)
        ensures
            r.wf(),
            r.table().len() == 0,
    {
        let r = NodeRegistry { factories: Vec::new() };
        assert(r.table() =~= Seq::<(Seq<char>, F)>::empty());
        r
    }

    /// Registers a factory for a type name, replacing an earlier one.
    pub fn register(&mut self, node_type: &str, factory: F)
        requires
            old(self).wf(),
        ensures
            final(self).wf(),
            final(self).table() == store(old(self).table(), node_type@, factory),
    {
        let ghost t0 = self.table();
        proof {
            lemma_key_index(t0, node_type@);
            lemma_store_distinct(t0, node_type@, factory);
        }
        match find_key(&self.factories, node_type) {
            Some(i) => {
                self.factories.set(i, (node_type.to_owned(), factory));
            },
            None => {
                self.factories.push((node_type.to_owned(), factory));
            },
        }
        assert(self.table() =~= store(t0, node_type@, factory));
    }

    /// The factory for a node's type, or the error naming the type and the node.
    pub fn create(&self, node: &NodeRef) -> (r: Result<&F, RegistryError>)
        ensures
            match lookup(self.table(), node.node_type@) {
                Some(f) => (r matches Ok(g) && *g == f),
                None => (r matches Err(RegistryError::NoFactory { node_type, node_id })
                    && node_type@ == node.node_type@ && node_id@ == node.id@),
            },
    {
        proof {
            lemma_key_index(self.table(), node.node_type@);
        }
        match find_key(&self.factories, node.node_type.as_str()) {
            Some(i) => Ok(&self.factories[i].1),
            None => Err(
                RegistryError::NoFactory { node_type: node.node_type.clone(), node_id: node.id.clone() },
            ),
        }
    }

    /// Whether a factory is registered for a type name.
    pub fn has(&self, node_type: &str) -> (b: bool)
        ensures
            b == (key_index(self.table(), node_type@) is Some),
    {
        find_key(&self.factories, node_type).is_some()
    }

    /// Number of registered types.
    pub fn len(&self) -> (n: usize)
        ensures
            n == self.table().len(),
    {
        self.factories.len()
    }

    /// Whether nothing is registered.
    pub fn is_empty(&self) -> (b: bool)
        ensures
            b == (self.table().len() == 0),
    {
        self.factories.len() == 0
    }

    /// The registered type names, in registration order.
    pub fn registered_types(&self) -> (r: Vec<&str>)
        ensures
            r@.map_values(|s: &str| s@) == keys(self.table()),
    {
        let mut r: Vec<&str> = Vec::new();
        let mut i: usize = 0;
        while i < self.factories.len()
            invariant
                i <= self.factories@.len(),
                r@.map_values(|s: &str| s@) == keys(self.table()).take(i as int),
            decreases self.factories@.len() - i,
        {
            let ghost r0 = r@.map_values(|s: &str| s@);
            r.push(self.factories[i].0.as_str());
            assert(r@.map_values(|s: &str| s@) =~= r0.push(keys(self.table())[i as int]));
            assert(keys(self.table()).take(i + 1) =~= keys(self.table()).take(i as int).push(
                keys(self.table())[i as int],
            ));
            i += 1;
        }
        assert(keys(self.table()).take(self.factories@.len() as int) =~= keys(self.table()));
        r
    }

    /// Checks that every node's type is registered; otherwise names each node whose
    /// type is not, in configuration order.
    pub fn validate_config(&self, nodes: &[NodeRef]) -> (r: Result<(), RegistryError>)
        ensures
            missing_of(self.table(), nodes@.map_values(|n: NodeRef| (n.node_type@, n.id@))).len()
                == 0 ==> r is Ok,
            missing_of(self.table(), nodes@.map_values(|n: NodeRef| (n.node_type@, n.id@))).len()
                > 0 ==> (r matches Err(RegistryError::MissingFactories(items)) && items@.map_values(
                |p: (String, String)| (p.0@, p.1@),
            ) == missing_of(self.table(), nodes@.map_values(|n: NodeRef| (n.node_type@, n.id@)))),
    {
        let ghost nv = nodes@.map_values(|n: NodeRef| (n.node_type@, n.id@));
        let mut missing: Vec<(String, String)> = Vec::new();
        let mut i: usize = 0;
        while i < nodes.len()
            invariant
                i <= nodes@.len(),
                nv == nodes@.map_values(|n: NodeRef| (n.node_type@, n.id@)),
                missing@.map_values(|p: (String, String)| (p.0@, p.1@)) == missing_of(
                    self.table(),
                    nv.take(i as int),
                ),
            decreases nodes@.len() - i,
        {
            assert(nv.take(i + 1).drop_last() =~= nv.take(i as int));
            assert(nv.take(i + 1).last() == nv[i as int]);
            if !self.has(nodes[i].node_type.as_str()) {
                let ghost m0 = missing@.map_values(|p: (String, String)| (p.0@, p.1@));
                missing.push((nodes[i].node_type.clone(), nodes[i].id.clone()));
                assert(missing@.map_values(|p: (String, String)| (p.0@, p.1@)) =~= m0.push(
                    nv[i as int],
                ));
            }
            i += 1;
        }
        assert(nv.take(nodes@.len() as int) =~= nv);
        if missing.len() > 0 {
            Err(RegistryError::MissingFactories(missing))
        } else {
            Ok(())
        }
    }
}

} // verus!
