//! The graph of manifests that a walk has read.
use vstd::prelude::*;

use crate::manifest::{InfoModel, ManifestInfo, PlatformManifest, PlatformModel};

verus! {

/// A manifest that was read, with its entry for the platform at hand.
#[derive(Debug)]
pub struct Node {
    pub info: ManifestInfo,
    pub manifest: PlatformManifest,
}

/// A manifest of a graph, in terms of sequences.
#[verifier::ext_equal]
pub struct NodeModel {
    pub info: InfoModel,
    pub manifest: PlatformModel,
}

impl View for Node {
    type V = NodeModel;

    open spec fn view(&self) -> NodeModel {
        NodeModel { info: self.info@, manifest: self.manifest@ }
    }
}

/// Manifests and the dependencies between them. A manifest is known by its
/// place in `nodes`; `deps[n]` lists what `n` depends on and `reverse[n]` what
/// depends on `n`, one entry for each dependency that a manifest lists.
#[derive(Debug)]
pub struct ManifestGraph {
    pub nodes: Vec<Node>,
    pub deps: Vec<Vec<usize>>,
    pub reverse: Vec<Vec<usize>>,
}

/// A graph of manifests, in terms of sequences.
#[verifier::ext_equal]
pub struct GraphModel {
    pub nodes: Seq<NodeModel>,
    pub deps: Seq<Seq<usize>>,
    pub reverse: Seq<Seq<usize>>,
}

/// The contents of a list of lists.
pub open spec fn lists(rows: Seq<Vec<usize>>) -> Seq<Seq<usize>> {
    rows.map_values(|row: Vec<usize>| row@)
}

/// What a list of nodes says.
pub open spec fn node_models(nodes: Seq<Node>) -> Seq<NodeModel> {
    nodes.map_values(|n: Node| n@)
}

impl View for ManifestGraph {
    type V = GraphModel;

    open spec fn view(&self) -> GraphModel {
        GraphModel {
            nodes: node_models(self.nodes@),
            deps: lists(self.deps@),
            reverse: lists(self.reverse@),
        }
    }
}

/// How often `x` occurs in `s`.
pub open spec fn times(s: Seq<usize>, x: usize) -> nat
    decreases s.len(),
{
    if s.len() == 0 {
        0
    } else {
        times(s.drop_last(), x) + if s.last() == x {
            1nat
        } else {
            0nat
        }
    }
}

/// The place of a manifest among those read.
pub open spec fn place_of(nodes: Seq<NodeModel>, info: InfoModel) -> Option<usize>
    decreases nodes.len(),
{
    if nodes.len() == 0 {
        None
    } else {
        match place_of(nodes.drop_last(), info) {
            Some(at) => Some(at),
            None => if nodes.last().info == info {
                Some((nodes.len() - 1) as usize)
            } else {
                None
            },
        }
    }
}

impl GraphModel {
    /// The graph without manifests.
    pub open spec fn empty() -> GraphModel {
        GraphModel { nodes: Seq::empty(), deps: Seq::empty(), reverse: Seq::empty() }
    }

    /// The graph with one more manifest, which nothing is linked to.
    pub open spec fn add(self, info: InfoModel, manifest: PlatformModel) -> GraphModel {
        GraphModel {
            nodes: self.nodes.push(NodeModel { info, manifest }),
            deps: self.deps.push(Seq::empty()),
            reverse: self.reverse.push(Seq::empty()),
        }
    }

    /// The graph with one more dependency, of `node` on `dep`.
    pub open spec fn link(self, node: usize, dep: usize) -> GraphModel {
        GraphModel {
            nodes: self.nodes,
            deps: self.deps.update(node as int, self.deps[node as int].push(dep)),
            reverse: self.reverse.update(dep as int, self.reverse[dep as int].push(node)),
        }
    }

    /// Whether every entry of `rows` is the place of a manifest.
    pub open spec fn places(self, rows: Seq<Seq<usize>>) -> bool {
        &&& rows.len() == self.nodes.len()
        &&& forall|n: int, i: int|
            0 <= n < rows.len() && 0 <= i < rows[n].len() ==> #[trigger] rows[n][i] < self.nodes.len()
    }

    /// A graph is well formed if no manifest occurs in it twice, its lists hold
    /// places of manifests, and the two lists of lists tell the same dependencies.
    pub open spec fn wf(self) -> bool {
        &&& self.nodes.len() <= usize::MAX
        &&& self.places(self.deps)
        &&& self.places(self.reverse)
        &&& forall|i: int, j: int|
            0 <= i < j < self.nodes.len() ==> (#[trigger] self.nodes[i]).info != (
            #[trigger] self.nodes[j]).info
        &&& forall|n: usize, d: usize|
            n < self.nodes.len() && d < self.nodes.len() ==> #[trigger] times(
                self.deps[n as int],
                d,
            ) == times(self.reverse[d as int], n)
    }
}

/// What `times` counts when an entry is appended.
pub proof fn lemma_times_push(s: Seq<usize>, a: usize, x: usize)
    ensures
        times(s.push(a), x) == times(s, x) + if a == x {
            1nat
        } else {
            0nat
        },
{
    assert(s.push(a).drop_last() =~= s);
}

/// A place that `place_of` gives holds the manifest, and without one no place does.
pub proof fn lemma_place_of(nodes: Seq<NodeModel>, info: InfoModel)
    requires
        nodes.len() <= usize::MAX,
    ensures
        match place_of(nodes, info) {
            Some(at) => at < nodes.len() && nodes[at as int].info == info,
            None => forall|i: int| 0 <= i < nodes.len() ==> (#[trigger] nodes[i]).info != info,
        },
    decreases nodes.len(),
{
    if nodes.len() > 0 {
        lemma_place_of(nodes.drop_last(), info);
        assert forall|i: int|
            place_of(nodes, info) is None && 0 <= i < nodes.len() implies (
        #[trigger] nodes[i]).info != info by {
            if i < nodes.len() - 1 {
                assert(nodes.drop_last()[i] == nodes[i]);
            }
        }
    }
}

/// Adding a manifest that is not there yet keeps a graph well formed.
pub proof fn lemma_add_wf(g: GraphModel, info: InfoModel, manifest: PlatformModel)
    requires
        g.wf(),
        g.nodes.len() < usize::MAX,
        place_of(g.nodes, info) is None,
    ensures
        g.add(info, manifest).wf(),
{
    let h = g.add(info, manifest);
    lemma_place_of(g.nodes, info);
    assert forall|n: usize, d: usize|
        n < h.nodes.len() && d < h.nodes.len() implies #[trigger] times(h.deps[n as int], d) == times(
        h.reverse[d as int],
        n,
    ) by {
        if n < g.nodes.len() && d < g.nodes.len() {
            assert(times(g.deps[n as int], d) == times(g.reverse[d as int], n));
        } else if n < g.nodes.len() {
            lemma_times_bounded(g.deps[n as int], g.nodes.len(), d);
        } else if d < g.nodes.len() {
            lemma_times_bounded(g.reverse[d as int], g.nodes.len(), n);
        }
    }
}

/// What is not below a bound does not occur among entries below it.
pub proof fn lemma_times_bounded(s: Seq<usize>, bound: nat, x: usize)
    requires
        forall|i: int| 0 <= i < s.len() ==> #[trigger] s[i] < bound,
        x >= bound,
    ensures
        times(s, x) == 0,
    decreases s.len(),
{
    if s.len() > 0 {
        assert forall|i: int| 0 <= i < s.drop_last().len() implies #[trigger] s.drop_last()[i]
            < bound by {
            assert(s.drop_last()[i] == s[i]);
        }
        lemma_times_bounded(s.drop_last(), bound, x);
    }
}

/// Linking two manifests keeps a graph well formed.
pub proof fn lemma_link_wf(g: GraphModel, node: usize, dep: usize)
    requires
        g.wf(),
        node < g.nodes.len(),
        dep < g.nodes.len(),
    ensures
        g.link(node, dep).wf(),
{
    let h = g.link(node, dep);
    assert forall|n: usize, d: usize|
        n < h.nodes.len() && d < h.nodes.len() implies #[trigger] times(h.deps[n as int], d) == times(
        h.reverse[d as int],
        n,
    ) by {
        assert(times(g.deps[n as int], d) == times(g.reverse[d as int], n));
        lemma_times_push(g.deps[node as int], dep, d);
        lemma_times_push(g.reverse[dep as int], node, n);
    }
}

impl ManifestGraph {
    /// The graph without manifests.
    pub fn new() -> (graph: ManifestGraph)
        ensures
            graph@ == GraphModel::empty(),
            graph@.wf(),
            graph.nodes@.len() == 0 && graph.deps@.len() == 0 && graph.reverse@.len() == 0,
    {
        let graph = ManifestGraph { nodes: Vec::new(), deps: Vec::new(), reverse: Vec::new() };
        assert(graph@ =~= GraphModel::empty());
        graph
    }

    /// Finds a manifest among those read.
    pub fn place(&self, info: &ManifestInfo) -> (at: Option<usize>)
        requires
            self@.wf(),
        ensures
            at == place_of(self@.nodes, info@),
            match at {
                Some(i) => i < self.nodes@.len() && self.nodes@[i as int].info@ == info@,
                None => forall|i: int|
                    0 <= i < self.nodes@.len() ==> (#[trigger] self.nodes@[i]).info@ != info@,
            },
    {
        let mut i: usize = 0;
        while i < self.nodes.len()
            invariant
                i <= self.nodes@.len(),
                self@.wf(),
                place_of(self@.nodes.take(i as int), info@) is None,
                forall|j: int| 0 <= j < i ==> (#[trigger] self.nodes@[j]).info@ != info@,
            decreases self.nodes@.len() - i,
        {
            let ghost upto = self@.nodes.take(i + 1);
            assert(upto.drop_last() =~= self@.nodes.take(i as int));
            assert(upto.last() == self.nodes@[i as int]@);
            if self.nodes[i].info.same(info) {
                proof {
                    lemma_place_prefix(self@.nodes, i + 1, info@);
                }
                return Some(i);
            }
            i += 1;
        }
        assert(self@.nodes.take(i as int) =~= self@.nodes);
        None
    }

    /// Adds a manifest that is not there yet.
    pub fn add(&mut self, info: ManifestInfo, manifest: PlatformManifest)
        requires
            old(self)@.wf(),
            place_of(old(self)@.nodes, info@) is None,
        ensures
            final(self)@ == old(self)@.add(info@, manifest@),
            final(self)@.wf(),
            final(self).nodes@.len() == old(self).nodes@.len() + 1,
            final(self).nodes@[old(self).nodes@.len() as int].info@ == info@,
            final(self).nodes@[old(self).nodes@.len() as int].manifest@ == manifest@,
            final(self).deps@[old(self).nodes@.len() as int]@.len() == 0,
            final(self).reverse@[old(self).nodes@.len() as int]@.len() == 0,
            forall|n: int|
                0 <= n < old(self).nodes@.len() ==> #[trigger] final(self).nodes@[n]
                    == old(self).nodes@[n],
            forall|n: int|
                0 <= n < old(self).nodes@.len() ==> #[trigger] final(self).deps@[n]
                    == old(self).deps@[n],
            forall|n: int|
                0 <= n < old(self).nodes@.len() ==> #[trigger] final(self).reverse@[n]
                    == old(self).reverse@[n],
    {
        let ghost before = self@;
        let ghost info_model = info@;
        let ghost manifest_model = manifest@;
        self.nodes.push(Node { info, manifest });
        self.deps.push(Vec::new());
        self.reverse.push(Vec::new());
        proof {
            assert(self.nodes.len() == before.nodes.len() + 1);
            assert(self@ =~= before.add(info_model, manifest_model)) by {
                assert(self@.nodes =~= before.add(info_model, manifest_model).nodes);
                assert(self@.deps =~= before.add(info_model, manifest_model).deps);
                assert(self@.reverse =~= before.add(info_model, manifest_model).reverse);
            }
            lemma_add_wf(before, info_model, manifest_model);
        }
    }

    /// Records that `node` depends on `dep`.
    pub fn link(&mut self, node: usize, dep: usize)
        requires
            old(self)@.wf(),
            node < old(self)@.nodes.len(),
            dep < old(self)@.nodes.len(),
        ensures
            final(self)@ == old(self)@.link(node, dep),
            final(self)@.wf(),
            final(self).nodes@ == old(self).nodes@,
            final(self).deps@.len() == old(self).deps@.len(),
            final(self).reverse@.len() == old(self).reverse@.len(),
            final(self).deps@[node as int]@ == old(self).deps@[node as int]@.push(dep),
            final(self).reverse@[dep as int]@ == old(self).reverse@[dep as int]@.push(node),
            forall|n: int|
                0 <= n < old(self).deps@.len() && n != node ==> #[trigger] final(self).deps@[n]
                    == old(self).deps@[n],
            forall|n: int|
                0 <= n < old(self).reverse@.len() && n != dep ==> #[trigger] final(self).reverse@[n]
                    == old(self).reverse@[n],
    {
        let ghost before = self@;
        self.deps[node].push(dep);
        self.reverse[dep].push(node);
        proof {
            assert(self@ =~= before.link(node, dep)) by {
                assert(self@.nodes =~= before.link(node, dep).nodes);
                assert(self@.deps =~= before.link(node, dep).deps);
                assert(self@.reverse =~= before.link(node, dep).reverse);
            }
            lemma_link_wf(before, node, dep);
        }
    }
}

/// A place found among the first manifests is the place among all.
pub proof fn lemma_place_prefix(nodes: Seq<NodeModel>, k: int, info: InfoModel)
    requires
        0 <= k <= nodes.len(),
        place_of(nodes.take(k), info) is Some,
    ensures
        place_of(nodes, info) == place_of(nodes.take(k), info),
    decreases nodes.len(),
{
    if k == nodes.len() {
        assert(nodes.take(k) =~= nodes);
    } else {
        assert(nodes.drop_last().take(k) =~= nodes.take(k));
        lemma_place_prefix(nodes.drop_last(), k, info);
    }
}

} // verus!
