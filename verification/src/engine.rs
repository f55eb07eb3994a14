//! The node directory of one profile generation: which nodes a pool owns,
//! by identifier and alias, which one is the default, and which node a
//! reference selects. Starting and stopping the runtimes themselves happens
//! outside the library.
use vstd::prelude::*;

use crate::lifecycle::{RuntimeError, RuntimeSnapshot, VelumControlStatus};
use crate::routing::str_equal;

verus! {

/// Stable, payload-free failures of node selection and connection ownership.
#[derive(Clone, Copy, Debug, PartialEq, Eq)]
pub enum NodePoolError {
    Empty,
    DuplicateNode,
    MissingDefault,
    UnknownNode,
    Superseded,
    ConnectionFailed,
    Runtime(RuntimeError),
}

/// Read-only state of one node: neither credentials nor destinations.
#[derive(Clone, Debug, PartialEq, Eq)]
pub struct NodeSnapshot {
    pub id: String,
    pub alias: String,
    pub is_default: bool,
    pub runtime: Option<RuntimeSnapshot>,
}

/// Read-only state of the active profile generation.
#[derive(Clone, Debug, PartialEq, Eq)]
pub struct NodePoolSnapshot {
    pub generation: u64,
    pub default_node: Option<String>,
    pub nodes: Vec<NodeSnapshot>,
}

/// Whether `a` comes before `b` in the byte-wise order of strings.
pub open spec fn bytes_less(a: Seq<u8>, b: Seq<u8>) -> bool
    decreases a.len(),
{
    if a.len() == 0 {
        b.len() > 0
    } else if b.len() == 0 {
        false
    } else if a[0] != b[0] {
        a[0] < b[0]
    } else {
        bytes_less(a.drop_first(), b.drop_first())
    }
}

/// Whether `a` comes before `b` as strings.
pub open spec fn text_less(a: Seq<char>, b: Seq<char>) -> bool {
    bytes_less(vstd::utf8::encode_utf8(a), vstd::utf8::encode_utf8(b))
}

proof fn lemma_bytes_less_total(a: Seq<u8>, b: Seq<u8>)
    ensures
        a != b ==> bytes_less(a, b) || bytes_less(b, a),
        !(bytes_less(a, b) && bytes_less(b, a)),
        !bytes_less(a, a),
    decreases a.len(),
{
    if a.len() > 0 && b.len() > 0 && a[0] == b[0] {
        lemma_bytes_less_total(a.drop_first(), b.drop_first());
        if a.drop_first() == b.drop_first() {
            assert(a =~= seq![a[0]] + a.drop_first());
            assert(b =~= seq![b[0]] + b.drop_first());
        }
    }
    if a.len() > 0 {
        lemma_bytes_less_total(a.drop_first(), a.drop_first());
    }
    if a.len() == 0 && b.len() == 0 {
        assert(a =~= b);
    }
}

proof fn lemma_bytes_less_transitive(a: Seq<u8>, b: Seq<u8>, c: Seq<u8>)
    requires
        bytes_less(a, b),
        bytes_less(b, c),
    ensures
        bytes_less(a, c),
    decreases a.len(),
{
    if a.len() > 0 && b.len() > 0 && c.len() > 0 && a[0] == b[0] && b[0] == c[0] {
        lemma_bytes_less_transitive(a.drop_first(), b.drop_first(), c.drop_first());
    }
}

proof fn lemma_utf8_injective(a: Seq<char>, b: Seq<char>)
    requires
        vstd::utf8::encode_utf8(a) == vstd::utf8::encode_utf8(b),
    ensures
        a == b,
{
    vstd::utf8::encode_utf8_decode_utf8(a);
    vstd::utf8::encode_utf8_decode_utf8(b);
}

/// Compares two strings byte by byte.
fn str_less(a: &str, b: &str) -> (less: bool)
    ensures
        less == text_less(a@, b@),
{
    let x = a.as_bytes();
    let y = b.as_bytes();
    let mut i: usize = 0;
    assert(x@.subrange(0, x@.len() as int) =~= x@);
    assert(y@.subrange(0, y@.len() as int) =~= y@);
    while i < x.len() && i < y.len() && x[i] == y[i]
        invariant
            i <= x@.len(),
            i <= y@.len(),
            x@ == vstd::utf8::encode_utf8(a@),
            y@ == vstd::utf8::encode_utf8(b@),
            bytes_less(x@, y@) == bytes_less(x@.subrange(i as int, x@.len() as int), y@.subrange(
                i as int,
                y@.len() as int,
            )),
        decreases x@.len() - i,
    {
        proof {
            let xs = x@.subrange(i as int, x@.len() as int);
            let ys = y@.subrange(i as int, y@.len() as int);
            assert(xs.drop_first() =~= x@.subrange(i + 1, x@.len() as int));
            assert(ys.drop_first() =~= y@.subrange(i + 1, y@.len() as int));
        }
        i = i + 1;
    }
    proof {
        let xs = x@.subrange(i as int, x@.len() as int);
        let ys = y@.subrange(i as int, y@.len() as int);
        if i < x@.len() && i < y@.len() {
            assert(xs[0] == x@[i as int] && ys[0] == y@[i as int]);
        }
    }
    if i == x.len() {
        i < y.len()
    } else if i == y.len() {
        false
    } else {
        x[i] < y[i]
    }
}

/// The nodes of one generation, in identifier order, each with its alias.
pub struct NodeDirectory {
    generation: u64,
    default_node: String,
    nodes: Vec<(String, String)>,
}

/// The identifiers and aliases of a list of nodes.
pub open spec fn entries_view(nodes: Seq<(String, String)>) -> Seq<(Seq<char>, Seq<char>)> {
    nodes.map_values(|n: (String, String)| (n.0@, n.1@))
}

/// Every identifier and alias is non-empty, and none repeats among its kind.
pub open spec fn nodes_ok(nodes: Seq<(Seq<char>, Seq<char>)>) -> bool {
    &&& nodes.len() > 0
    &&& forall|i: int| 0 <= i < nodes.len() ==> (#[trigger] nodes[i]).0.len() > 0 && nodes[i].1.len() > 0
    &&& forall|i: int, j: int| 0 <= i < j < nodes.len() ==> #[trigger] nodes[i].0 != #[trigger] nodes[j].0
    &&& forall|i: int, j: int| 0 <= i < j < nodes.len() ==> #[trigger] nodes[i].1 != #[trigger] nodes[j].1
}

/// Whether some node has identifier `id`.
pub open spec fn has_id(nodes: Seq<(Seq<char>, Seq<char>)>, id: Seq<char>) -> bool {
    exists|i: int| 0 <= i < nodes.len() && #[trigger] nodes[i].0 == id
}

/// Whether some node has alias `alias`.
pub open spec fn has_alias(nodes: Seq<(Seq<char>, Seq<char>)>, alias: Seq<char>) -> bool {
    exists|i: int| 0 <= i < nodes.len() && #[trigger] nodes[i].1 == alias
}

/// The identifier of the node whose alias is `alias`.
pub open spec fn id_of_alias(nodes: Seq<(Seq<char>, Seq<char>)>, alias: Seq<char>) -> Seq<char> {
    nodes[choose|i: int| 0 <= i < nodes.len() && #[trigger] nodes[i].1 == alias].0
}

/// The node a reference names among `nodes`: an identifier, else an alias.
pub open spec fn node_named(nodes: Seq<(Seq<char>, Seq<char>)>, reference: Seq<char>) -> Option<Seq<char>> {
    if has_id(nodes, reference) {
        Some(reference)
    } else if has_alias(nodes, reference) {
        Some(id_of_alias(nodes, reference))
    } else {
        None
    }
}

/// Whether `nodes` lists its entries in strictly increasing identifier order.
pub open spec fn sorted_by_id(nodes: Seq<(Seq<char>, Seq<char>)>) -> bool {
    forall|i: int, j: int| 0 <= i < j < nodes.len() ==> text_less(#[trigger] nodes[i].0, #[trigger] nodes[j].0)
}

impl NodeDirectory {
    pub closed spec fn spec_generation(&self) -> u64 {
        self.generation
    }

    pub closed spec fn spec_default(&self) -> Seq<char> {
        self.default_node@
    }

    /// The nodes in identifier order.
    pub closed spec fn entries(&self) -> Seq<(Seq<char>, Seq<char>)> {
        entries_view(self.nodes@)
    }

    /// Identifiers in increasing order, aliases distinct.
    pub closed spec fn wf(&self) -> bool {
        &&& sorted_by_id(self.entries())
        &&& forall|i: int, j: int|
            0 <= i < j < self.entries().len() ==> #[trigger] self.entries()[i].1
                != #[trigger] self.entries()[j].1
    }

    /// The directory of a stopped pool: no nodes and no default.
    pub fn stopped(generation: u64) -> (directory: Self)
        ensures
            directory.wf(),
            directory.spec_generation() == generation,
            directory.spec_default() == Seq::<char>::empty(),
            directory.entries() == Seq::<(Seq<char>, Seq<char>)>::empty(),
    {
        let directory = NodeDirectory { generation, default_node: String::new(), nodes: Vec::new() };
        assert(directory.entries() =~= Seq::<(Seq<char>, Seq<char>)>::empty());
        directory
    }

    /// Inserts a node whose identifier is new, keeping identifier order.
    fn insert_sorted(nodes: &mut Vec<(String, String)>, id: String, alias: String)
        requires
            sorted_by_id(entries_view(old(nodes)@)),
            !has_id(entries_view(old(nodes)@), id@),
        ensures
            sorted_by_id(entries_view(final(nodes)@)),
            entries_view(final(nodes)@).to_multiset() == entries_view(old(nodes)@).to_multiset().insert(
                (id@, alias@),
            ),
            entries_view(final(nodes)@).len() == entries_view(old(nodes)@).len() + 1,
    {
        let ghost before = entries_view(nodes@);
        let mut p: usize = 0;
        while p < nodes.len() && str_less(nodes[p].0.as_str(), id.as_str())
            invariant
                p <= nodes@.len(),
                entries_view(nodes@) == before,
                forall|k: int| 0 <= k < p ==> text_less(#[trigger] before[k].0, id@),
            decreases nodes@.len() - p,
        {
            p = p + 1;
        }
        proof {
            if p < nodes@.len() {
                assert(before[p as int].0 != id@);
                lemma_bytes_less_total(
                    vstd::utf8::encode_utf8(before[p as int].0),
                    vstd::utf8::encode_utf8(id@),
                );
                if vstd::utf8::encode_utf8(before[p as int].0) == vstd::utf8::encode_utf8(id@) {
                    lemma_utf8_injective(before[p as int].0, id@);
                }
            }
        }
        nodes.insert(p, (id, alias));
        proof {
            let after = entries_view(nodes@);
            let entry = (id@, alias@);
            assert(after =~= before.insert(p as int, entry));
            assert forall|k: int| p <= k < before.len() implies text_less(id@, #[trigger] before[k].0) by {
                if k > p {
                    assert(text_less(before[p as int].0, before[k].0));
                    lemma_bytes_less_transitive(
                        vstd::utf8::encode_utf8(id@),
                        vstd::utf8::encode_utf8(before[p as int].0),
                        vstd::utf8::encode_utf8(before[k].0),
                    );
                }
            }
            assert forall|i: int, j: int| 0 <= i < j < after.len() implies text_less(
                #[trigger] after[i].0,
                #[trigger] after[j].0,
            ) by {
                if j < p {
                    assert(after[i] == before[i] && after[j] == before[j]);
                } else if j == p {
                    assert(after[i] == before[i]);
                } else if i == p {
                    assert(after[j] == before[j - 1]);
                } else if i < p {
                    assert(after[i] == before[i] && after[j] == before[j - 1]);
                    assert(text_less(before[i].0, id@));
                    assert(text_less(id@, before[j - 1].0));
                    lemma_bytes_less_transitive(
                        vstd::utf8::encode_utf8(before[i].0),
                        vstd::utf8::encode_utf8(id@),
                        vstd::utf8::encode_utf8(before[j - 1].0),
                    );
                } else {
                    assert(after[i] == before[i - 1] && after[j] == before[j - 1]);
                }
            }
            vstd::seq_lib::to_multiset_insert(before, p as int, entry);
        }
    }

    /// The directory of `nodes`, in identifier order, with `default_node`
    /// resolved as an identifier or else an alias; refused when there is no
    /// node, when an identifier or alias is empty or repeats, or when the
    /// default names no node.
    #[verifier::loop_isolation(false)]
    pub fn prepare(nodes: Vec<(String, String)>, default_node: &str) -> (directory: Result<
        Self,
        NodePoolError,
    >)
        ensures
            nodes@.len() == 0 ==> directory == Err::<Self, NodePoolError>(NodePoolError::Empty),
            nodes@.len() > 0 && !nodes_ok(entries_view(nodes@)) ==> directory == Err::<
                Self,
                NodePoolError,
            >(NodePoolError::DuplicateNode),
            nodes_ok(entries_view(nodes@)) ==> match node_named(entries_view(nodes@), default_node@) {
                None => directory == Err::<Self, NodePoolError>(NodePoolError::MissingDefault),
                Some(d) => directory matches Ok(dir) && {
                    &&& dir.wf()
                    &&& dir.spec_generation() == 0
                    &&& dir.spec_default() == d
                    &&& dir.entries().to_multiset() == entries_view(nodes@).to_multiset()
                },
            },
    {
        let ghost view = entries_view(nodes@);
        let n = nodes.len();
        if n == 0 {
            return Err(NodePoolError::Empty);
        }
        let mut k: usize = 0;
        while k < n
            invariant
                k <= n,
                n == nodes@.len(),
                view == entries_view(nodes@),
                forall|i: int| 0 <= i < k ==> (#[trigger] view[i]).0.len() > 0 && view[i].1.len() > 0,
                forall|i: int, j: int| 0 <= i < j < k ==> #[trigger] view[i].0 != #[trigger] view[j].0,
                forall|i: int, j: int| 0 <= i < j < k ==> #[trigger] view[i].1 != #[trigger] view[j].1,
            decreases n - k,
        {
            if nodes[k].0.unicode_len() == 0 || nodes[k].1.unicode_len() == 0 {
                assert(view[k as int].0.len() == 0 || view[k as int].1.len() == 0);
                return Err(NodePoolError::DuplicateNode);
            }
            let mut j: usize = 0;
            while j < k
                invariant
                    j <= k < n,
                    forall|q: int| 0 <= q < j ==> view[q].0 != view[k as int].0 && view[q].1 != view[k as int].1,
                decreases k - j,
            {
                if str_equal(nodes[j].0.as_str(), nodes[k].0.as_str()) || str_equal(
                    nodes[j].1.as_str(),
                    nodes[k].1.as_str(),
                ) {
                    proof {
                        assert(view[j as int].0 == view[k as int].0 || view[j as int].1 == view[k as int].1);
                    }
                    return Err(NodePoolError::DuplicateNode);
                }
                j = j + 1;
            }
            k = k + 1;
        }
        assert(nodes_ok(view));
        let mut sorted: Vec<(String, String)> = Vec::new();
        let mut m: usize = 0;
        assert(entries_view(sorted@) =~= view.take(0));
        while m < n
            invariant
                m <= n,
                n == nodes@.len(),
                view == entries_view(nodes@),
                nodes_ok(view),
                sorted_by_id(entries_view(sorted@)),
                entries_view(sorted@).to_multiset() == view.take(m as int).to_multiset(),
                entries_view(sorted@).len() == m,
            decreases n - m,
        {
            proof {
                let sv = entries_view(sorted@);
                if has_id(sv, view[m as int].0) {
                    let i = choose|i: int| 0 <= i < sv.len() && #[trigger] sv[i].0 == view[m as int].0;
                    vstd::seq_lib::to_multiset_contains(sv, sv[i]);
                    vstd::seq_lib::to_multiset_contains(view.take(m as int), sv[i]);
                    let q = choose|q: int| 0 <= q < m && #[trigger] view.take(m as int)[q] == sv[i];
                    assert(view[q].0 == view[m as int].0);
                }
                assert(view.take(m + 1) =~= view.take(m as int).push(view[m as int]));
                vstd::seq_lib::to_multiset_build(view.take(m as int), view[m as int]);
            }
            let id = nodes[m].0.clone();
            let alias = nodes[m].1.clone();
            Self::insert_sorted(&mut sorted, id, alias);
            m = m + 1;
        }
        assert(view.take(n as int) =~= view);
        proof {
            let sv = entries_view(sorted@);
            assert forall|i: int, j: int| 0 <= i < j < sv.len() implies #[trigger] sv[i].1 != #[trigger] sv[j].1 by {
                vstd::seq_lib::to_multiset_contains(sv, sv[i]);
                vstd::seq_lib::to_multiset_contains(sv, sv[j]);
                vstd::seq_lib::to_multiset_contains(view, sv[i]);
                vstd::seq_lib::to_multiset_contains(view, sv[j]);
                let a = choose|a: int| 0 <= a < view.len() && #[trigger] view[a] == sv[i];
                let b = choose|b: int| 0 <= b < view.len() && #[trigger] view[b] == sv[j];
                if a == b {
                    assert(sv[i].0 == sv[j].0);
                    lemma_bytes_less_total(vstd::utf8::encode_utf8(sv[i].0), vstd::utf8::encode_utf8(sv[i].0));
                    assert(text_less(sv[i].0, sv[j].0));
                }
            }
            Self::lemma_same_names(sv, view, default_node@);
        }
        let default = if Self::find_id(&sorted, default_node).is_some() {
            String::from_str(default_node)
        } else {
            match Self::find_alias(&sorted, default_node) {
                Some(i) => sorted[i].0.clone(),
                None => return Err(NodePoolError::MissingDefault),
            }
        };
        let directory = NodeDirectory { generation: 0, default_node: default, nodes: sorted };
        Ok(directory)
    }

    proof fn lemma_same_names(
        sorted: Seq<(Seq<char>, Seq<char>)>,
        view: Seq<(Seq<char>, Seq<char>)>,
        reference: Seq<char>,
    )
        requires
            sorted.to_multiset() == view.to_multiset(),
            nodes_ok(view),
            forall|i: int, j: int| 0 <= i < j < sorted.len() ==> #[trigger] sorted[i].1 != #[trigger] sorted[j].1,
        ensures
            has_id(sorted, reference) == has_id(view, reference),
            has_alias(sorted, reference) == has_alias(view, reference),
            has_alias(view, reference) ==> id_of_alias(sorted, reference) == id_of_alias(view, reference),
    {
        if has_id(sorted, reference) {
            let i = choose|i: int| 0 <= i < sorted.len() && #[trigger] sorted[i].0 == reference;
            vstd::seq_lib::to_multiset_contains(sorted, sorted[i]);
            vstd::seq_lib::to_multiset_contains(view, sorted[i]);
            let a = choose|a: int| 0 <= a < view.len() && #[trigger] view[a] == sorted[i];
            assert(view[a].0 == reference);
        }
        if has_id(view, reference) {
            let a = choose|a: int| 0 <= a < view.len() && #[trigger] view[a].0 == reference;
            vstd::seq_lib::to_multiset_contains(view, view[a]);
            vstd::seq_lib::to_multiset_contains(sorted, view[a]);
            let i = choose|i: int| 0 <= i < sorted.len() && #[trigger] sorted[i] == view[a];
            assert(sorted[i].0 == reference);
        }
        if has_alias(sorted, reference) {
            let i = choose|i: int| 0 <= i < sorted.len() && #[trigger] sorted[i].1 == reference;
            vstd::seq_lib::to_multiset_contains(sorted, sorted[i]);
            vstd::seq_lib::to_multiset_contains(view, sorted[i]);
            let a = choose|a: int| 0 <= a < view.len() && #[trigger] view[a] == sorted[i];
            assert(view[a].1 == reference);
        }
        if has_alias(view, reference) {
            let a = choose|a: int| 0 <= a < view.len() && #[trigger] view[a].1 == reference;
            vstd::seq_lib::to_multiset_contains(view, view[a]);
            vstd::seq_lib::to_multiset_contains(sorted, view[a]);
            let i = choose|i: int| 0 <= i < sorted.len() && #[trigger] sorted[i] == view[a];
            assert(sorted[i].1 == reference);
            let si = choose|si: int| 0 <= si < sorted.len() && #[trigger] sorted[si].1 == reference;
            let vi = choose|vi: int| 0 <= vi < view.len() && #[trigger] view[vi].1 == reference;
            if si != i {
                if si < i {
                    assert(sorted[si].1 != sorted[i].1);
                } else {
                    assert(sorted[i].1 != sorted[si].1);
                }
            }
            if vi != a {
                if vi < a {
                    assert(view[vi].1 != view[a].1);
                } else {
                    assert(view[a].1 != view[vi].1);
                }
            }
        }
    }

    fn find_id(nodes: &Vec<(String, String)>, id: &str) -> (found: Option<usize>)
        ensures
            found is Some <==> has_id(entries_view(nodes@), id@),
            found matches Some(i) ==> i < nodes@.len() && nodes@[i as int].0@ == id@,
    {
        let mut i: usize = 0;
        while i < nodes.len()
            invariant
                i <= nodes@.len(),
                forall|k: int| 0 <= k < i ==> #[trigger] entries_view(nodes@)[k].0 != id@,
            decreases nodes@.len() - i,
        {
            if str_equal(nodes[i].0.as_str(), id) {
                assert(entries_view(nodes@)[i as int].0 == id@);
                return Some(i);
            }
            i = i + 1;
        }
        None
    }

    fn find_alias(nodes: &Vec<(String, String)>, alias: &str) -> (found: Option<usize>)
        requires
            forall|i: int, j: int|
                0 <= i < j < nodes@.len() ==> #[trigger] entries_view(nodes@)[i].1 != #[trigger] entries_view(
                    nodes@,
                )[j].1,
        ensures
            found is Some <==> has_alias(entries_view(nodes@), alias@),
            found matches Some(i) ==> i < nodes@.len() && nodes@[i as int].0@ == id_of_alias(
                entries_view(nodes@),
                alias@,
            ),
    {
        let ghost v = entries_view(nodes@);
        assert(forall|a: int, b: int| 0 <= a < b < v.len() ==> #[trigger] v[a].1 != #[trigger] v[b].1);
        let mut i: usize = 0;
        while i < nodes.len()
            invariant
                i <= nodes@.len(),
                v == entries_view(nodes@),
                forall|a: int, b: int| 0 <= a < b < v.len() ==> #[trigger] v[a].1 != #[trigger] v[b].1,
                forall|k: int| 0 <= k < i ==> #[trigger] v[k].1 != alias@,
            decreases nodes@.len() - i,
        {
            if str_equal(nodes[i].1.as_str(), alias) {
                proof {
                    assert(v[i as int].1 == alias@);
                    let c = choose|c: int| 0 <= c < v.len() && #[trigger] v[c].1 == alias@;
                    if c != i {
                        if c < i {
                            assert(v[c].1 != v[i as int].1);
                        } else {
                            assert(v[i as int].1 != v[c].1);
                        }
                    }
                }
                return Some(i);
            }
            i = i + 1;
        }
        None
    }

    /// The same nodes under another generation.
    pub fn with_generation(self, generation: u64) -> (directory: Self)
        requires
            self.wf(),
        ensures
            directory.wf(),
            directory.spec_generation() == generation,
            directory.spec_default() == self.spec_default(),
            directory.entries() == self.entries(),
    {
        NodeDirectory { generation, ..self }
    }

    pub fn generation(&self) -> (generation: u64)
        ensures
            generation == self.spec_generation(),
    {
        self.generation
    }

    /// The default node, unless the directory is empty.
    pub fn default_node(&self) -> (default: Option<String>)
        ensures
            self.spec_default().len() == 0 ==> default is None,
            self.spec_default().len() > 0 ==> (default matches Some(d) && d@ == self.spec_default()),
    {
        if self.default_node.unicode_len() == 0 {
            None
        } else {
            Some(self.default_node.clone())
        }
    }

    /// The nodes and their aliases, in identifier order.
    pub fn nodes(&self) -> (nodes: &Vec<(String, String)>)
        ensures
            entries_view(nodes@) == self.entries(),
    {
        &self.nodes
    }

    /// The identifier of the node that `reference` selects in `generation`:
    /// `PROXY` is the default node, any other reference an identifier or else
    /// an alias; refused for another generation or a reference to no node.
    pub fn resolve(&self, reference: &str, generation: u64) -> (id: Result<String, NodePoolError>)
        requires
            self.wf(),
        ensures
            generation != self.spec_generation() ==> id == Err::<String, NodePoolError>(
                NodePoolError::Superseded,
            ),
            generation == self.spec_generation() ==> match resolve_spec(
                self.entries(),
                self.spec_default(),
                reference@,
            ) {
                Some(n) => id matches Ok(s) && s@ == n,
                None => id == Err::<String, NodePoolError>(NodePoolError::UnknownNode),
            },
    {
        proof {
            reveal_strlit("PROXY");
            assert("PROXY"@ =~= seq!['P', 'R', 'O', 'X', 'Y']);
        }
        if self.generation != generation {
            return Err(NodePoolError::Superseded);
        }
        if str_equal(reference, "PROXY") {
            return match Self::find_id(&self.nodes, self.default_node.as_str()) {
                Some(_) => Ok(self.default_node.clone()),
                None => Err(NodePoolError::UnknownNode),
            };
        }
        if Self::find_id(&self.nodes, reference).is_some() {
            return Ok(String::from_str(reference));
        }
        match Self::find_alias(&self.nodes, reference) {
            Some(i) => Ok(self.nodes[i].0.clone()),
            None => Err(NodePoolError::UnknownNode),
        }
    }

    /// The snapshot of this generation, given the latest runtime snapshot of
    /// each node in identifier order (none for a node not started): each node
    /// with its alias and whether it is the default.
    pub fn snapshot(&self, runtimes: &Vec<Option<RuntimeSnapshot>>) -> (snapshot: NodePoolSnapshot)
        requires
            runtimes@.len() == self.entries().len(),
        ensures
            snapshot.generation == self.spec_generation(),
            self.spec_default().len() == 0 ==> snapshot.default_node is None,
            self.spec_default().len() > 0 ==> (snapshot.default_node matches Some(d) && d@
                == self.spec_default()),
            snapshot.nodes@.len() == self.entries().len(),
            forall|i: int|
                0 <= i < self.entries().len() ==> {
                    &&& (#[trigger] snapshot.nodes@[i]).id@ == self.entries()[i].0
                    &&& snapshot.nodes@[i].alias@ == self.entries()[i].1
                    &&& snapshot.nodes@[i].is_default == (self.spec_default().len() > 0
                        && self.entries()[i].0 == self.spec_default())
                    &&& snapshot.nodes@[i].runtime == runtimes@[i]
                },
    {
        let default_node = self.default_node();
        let mut nodes: Vec<NodeSnapshot> = Vec::new();
        let mut i: usize = 0;
        while i < self.nodes.len()
            invariant
                i <= self.nodes@.len(),
                runtimes@.len() == self.nodes@.len(),
                self.entries() == entries_view(self.nodes@),
                self.spec_default().len() == 0 ==> default_node is None,
                self.spec_default().len() > 0 ==> (default_node matches Some(d) && d@
                    == self.spec_default()),
                nodes@.len() == i,
                forall|k: int|
                    0 <= k < i ==> {
                        &&& (#[trigger] nodes@[k]).id@ == self.entries()[k].0
                        &&& nodes@[k].alias@ == self.entries()[k].1
                        &&& nodes@[k].is_default == (self.spec_default().len() > 0
                            && self.entries()[k].0 == self.spec_default())
                        &&& nodes@[k].runtime == runtimes@[k]
                    },
            decreases self.nodes@.len() - i,
        {
            let is_default = match &default_node {
                Some(d) => str_equal(self.nodes[i].0.as_str(), d.as_str()),
                None => false,
            };
            nodes.push(NodeSnapshot {
                id: self.nodes[i].0.clone(),
                alias: self.nodes[i].1.clone(),
                is_default,
                runtime: runtimes[i],
            });
            i = i + 1;
        }
        NodePoolSnapshot { generation: self.generation, default_node, nodes }
    }
}

/// The node a reference selects: `PROXY` is the default node.
pub open spec fn resolve_spec(
    entries: Seq<(Seq<char>, Seq<char>)>,
    default: Seq<char>,
    reference: Seq<char>,
) -> Option<Seq<char>> {
    if reference == seq!['P', 'R', 'O', 'X', 'Y'] {
        if has_id(entries, default) {
            Some(default)
        } else {
            None
        }
    } else {
        node_named(entries, reference)
    }
}

/// The control status that reports a node-pool error: refused configuration
/// for a bad directory or an unknown node, an internal failure otherwise.
pub open spec fn spec_control_status_for(error: NodePoolError) -> VelumControlStatus {
    match error {
        NodePoolError::Empty
        | NodePoolError::DuplicateNode
        | NodePoolError::MissingDefault
        | NodePoolError::UnknownNode => VelumControlStatus::Configuration,
        _ => VelumControlStatus::Internal,
    }
}

pub fn control_status_for(error: &NodePoolError) -> (status: VelumControlStatus)
    ensures
        status == spec_control_status_for(*error),
{
    match error {
        NodePoolError::Empty
        | NodePoolError::DuplicateNode
        | NodePoolError::MissingDefault
        | NodePoolError::UnknownNode => VelumControlStatus::Configuration,
        NodePoolError::Superseded | NodePoolError::ConnectionFailed | NodePoolError::Runtime(_) => {
            VelumControlStatus::Internal
        },
    }
}

} // verus!
