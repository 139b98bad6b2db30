//! The order in which the libraries of a graph of manifests are loaded.
use vstd::prelude::*;

use crate::graph::{GraphModel, ManifestGraph, NodeModel};
use crate::manifest::info_before;
use crate::order_laws::{
    deps_first, lemma_less_one_inv, lemma_order_end, lemma_places_fit, lemma_sorted_places,
    lemma_start_inv, lemma_taken_inv, load_order_fails_on_circles,
    load_order_puts_dependencies_first, has_circle, order_inv,
};
use crate::pack_url::Url;

verus! {

/// `sorted` with the place `x` put before the first place whose manifest comes after that of `x`.
pub open spec fn put_in_order(nodes: Seq<NodeModel>, sorted: Seq<usize>, x: usize) -> Seq<usize>
    decreases sorted.len(),
{
    if sorted.len() == 0 {
        seq![x]
    } else if info_before(nodes[x as int].info, nodes[sorted[0] as int].info) {
        seq![x] + sorted
    } else {
        seq![sorted[0]] + put_in_order(nodes, sorted.drop_first(), x)
    }
}

/// The places of all manifests, in the order of the manifests.
pub open spec fn sorted_places(nodes: Seq<NodeModel>) -> Seq<usize>
    decreases nodes.len(),
{
    if nodes.len() == 0 {
        Seq::empty()
    } else {
        put_in_order(nodes, sorted_places(nodes.drop_last()), (nodes.len() - 1) as usize)
    }
}

/// How far the order has come.
#[verifier::ext_equal]
pub struct OrderModel {
    /// What was found loadable, in that order.
    pub made: Seq<usize>,
    /// What was found loadable and is not accounted for yet; the last is next.
    pub ready: Seq<usize>,
    /// What is accounted for: those that depend on it no longer wait for it.
    pub done: Set<usize>,
    /// For each manifest, for how many of its dependencies it still waits.
    pub counts: Seq<int>,
}

/// The places among `places` of manifests without dependencies.
pub open spec fn free_places(deps: Seq<Seq<usize>>, places: Seq<usize>) -> Seq<usize>
    decreases places.len(),
{
    if places.len() == 0 {
        Seq::empty()
    } else {
        let before = free_places(deps, places.drop_last());
        if deps[places.last() as int].len() == 0 {
            before.push(places.last())
        } else {
            before
        }
    }
}

/// The start: what depends on nothing is loadable, in the order of the manifests.
pub open spec fn order_start(g: GraphModel) -> OrderModel {
    let free = free_places(g.deps, sorted_places(g.nodes));
    OrderModel {
        made: free,
        ready: free,
        done: Set::empty(),
        counts: g.deps.map_values(|d: Seq<usize>| d.len() as int),
    }
}

impl OrderModel {
    /// One dependency of the manifest at `user` is accounted for.
    pub open spec fn less_one(self, user: usize) -> OrderModel {
        if user < self.counts.len() {
            let count = self.counts[user as int] - 1;
            let counts = self.counts.update(user as int, count);
            if count == 0 {
                OrderModel {
                    made: self.made.push(user),
                    ready: self.ready.push(user),
                    counts,
                    ..self
                }
            } else {
                OrderModel { counts, ..self }
            }
        } else {
            self
        }
    }

    /// One dependency is accounted for, for each entry of `users`.
    pub open spec fn less(self, users: Seq<usize>) -> OrderModel
        decreases users.len(),
    {
        if users.len() == 0 {
            self
        } else {
            self.less_one(users[0]).less(users.drop_first())
        }
    }

    /// The last of what is ready, taken from there and marked as done.
    pub open spec fn taken(self) -> OrderModel {
        OrderModel {
            ready: self.ready.drop_last(),
            done: self.done.insert(self.ready.last()),
            ..self
        }
    }

    /// How many more can be taken at most.
    pub open spec fn to_take(self) -> nat {
        self.ready.len() + waiting(self.counts)
    }
}

/// How many counts are above zero.
pub open spec fn waiting(counts: Seq<int>) -> nat
    decreases counts.len(),
{
    if counts.len() == 0 {
        0
    } else {
        waiting(counts.drop_last()) + if counts.last() > 0 {
            1nat
        } else {
            0nat
        }
    }
}

/// How one count changes how many are above zero.
pub proof fn lemma_waiting_update(counts: Seq<int>, at: int, value: int)
    requires
        0 <= at < counts.len(),
    ensures
        waiting(counts.update(at, value)) + (if counts[at] > 0 {
            1nat
        } else {
            0nat
        }) == waiting(counts) + (if value > 0 {
            1nat
        } else {
            0nat
        }),
    decreases counts.len(),
{
    let updated = counts.update(at, value);
    if at == counts.len() - 1 {
        assert(updated.drop_last() =~= counts.drop_last());
    } else {
        assert(updated.drop_last() =~= counts.drop_last().update(at, value));
        lemma_waiting_update(counts.drop_last(), at, value);
    }
}

/// Accounting for dependencies moves what waits to what is ready.
pub proof fn lemma_less_to_take(st: OrderModel, users: Seq<usize>)
    ensures
        st.less(users).to_take() == st.to_take(),
    decreases users.len(),
{
    if users.len() > 0 {
        let user = users[0];
        if user < st.counts.len() {
            lemma_waiting_update(st.counts, user as int, st.counts[user as int] - 1);
        }
        lemma_less_to_take(st.less_one(user), users.drop_first());
    }
}

/// The end: what is ready was taken, and what depends on it accounted for, until nothing was ready.
pub open spec fn order_end(g: GraphModel, st: OrderModel) -> OrderModel
    decreases st.to_take(),
{
    if st.ready.len() == 0 {
        st
    } else {
        proof {
            lemma_less_to_take(st.taken(), g.reverse[st.ready.last() as int]);
        }
        order_end(g, st.taken().less(g.reverse[st.ready.last() as int]))
    }
}

/// The places in `made` of manifests with another URL than `base_url`.
pub open spec fn without_base(
    nodes: Seq<NodeModel>,
    made: Seq<usize>,
    base_url: Seq<char>,
) -> Seq<usize>
    decreases made.len(),
{
    if made.len() == 0 {
        Seq::empty()
    } else {
        let before = without_base(nodes, made.drop_last(), base_url);
        if nodes[made.last() as int].info.url != base_url {
            before.push(made.last())
        } else {
            before
        }
    }
}

/// The order in which the libraries other than that of `base_url` are loaded,
/// or nothing where some manifest never becomes loadable.
pub open spec fn order_of(g: GraphModel, base_url: Seq<char>) -> Option<Seq<usize>> {
    let made = order_end(g, order_start(g)).made;
    if made.len() < g.nodes.len() {
        None
    } else {
        Some(without_base(g.nodes, made, base_url))
    }
}

/// Finds where `x` is to be put: the number of places that stay before it.
proof fn lemma_put_at(nodes: Seq<NodeModel>, sorted: Seq<usize>, x: usize, at: int)
    requires
        0 <= at <= sorted.len(),
        forall|i: int|
            0 <= i < at ==> !info_before(
                nodes[x as int].info,
                nodes[#[trigger] sorted[i] as int].info,
            ),
        at < sorted.len() ==> info_before(nodes[x as int].info, nodes[sorted[at] as int].info),
    ensures
        put_in_order(nodes, sorted, x) == sorted.insert(at, x),
    decreases sorted.len(),
{
    if at == 0 {
        assert(put_in_order(nodes, sorted, x) =~= sorted.insert(at, x));
    } else {
        let rest = sorted.drop_first();
        assert forall|i: int| 0 <= i < at - 1 implies !info_before(
            nodes[x as int].info,
            nodes[#[trigger] rest[i] as int].info,
        ) by {
            assert(rest[i] == sorted[i + 1]);
        }
        assert(!info_before(nodes[x as int].info, nodes[sorted[0] as int].info));
        lemma_put_at(nodes, rest, x, at - 1);
        assert(seq![sorted[0]] + rest.insert(at - 1, x) =~= sorted.insert(at, x));
    }
}

/// Sorting looks only at the manifests that the places stand for.
proof fn lemma_put_same_nodes(a: Seq<NodeModel>, b: Seq<NodeModel>, sorted: Seq<usize>, x: usize)
    requires
        a[x as int] == b[x as int],
        forall|i: int| 0 <= i < sorted.len() ==> a[#[trigger] sorted[i] as int] == b[sorted[i] as int],
    ensures
        put_in_order(a, sorted, x) == put_in_order(b, sorted, x),
    decreases sorted.len(),
{
    if sorted.len() > 0 {
        let rest = sorted.drop_first();
        assert(a[sorted[0] as int] == b[sorted[0] as int]);
        assert forall|i: int| 0 <= i < rest.len() implies a[#[trigger] rest[i] as int]
            == b[rest[i] as int] by {
            assert(rest[i] == sorted[i + 1]);
        }
        lemma_put_same_nodes(a, b, rest, x);
    }
}

/// The places of all manifests, in the order of the manifests.
fn sort_places(graph: &ManifestGraph) -> (sorted: Vec<usize>)
    requires
        graph@.wf(),
    ensures
        sorted@ == sorted_places(graph@.nodes),
{
    let mut sorted: Vec<usize> = Vec::new();
    let mut x: usize = 0;
    assert(graph@.nodes.take(0) =~= Seq::empty());
    while x < graph.nodes.len()
        invariant
            x <= graph.nodes@.len(),
            graph@.wf(),
            sorted@ == sorted_places(graph@.nodes.take(x as int)),
        decreases graph.nodes@.len() - x,
    {
        let ghost nodes = graph@.nodes;
        let ghost front = nodes.take(x as int);
        proof {
            lemma_sorted_places(front);
        }
        assert forall|i: int| 0 <= i < sorted@.len() implies #[trigger] sorted@[i] < x by {
            assert(sorted@.contains(sorted@[i]));
        }
        let mut at: usize = 0;
        while at < sorted.len()
            invariant
                x < graph.nodes@.len(),
                nodes == graph@.nodes,
                at <= sorted@.len(),
                forall|i: int| 0 <= i < sorted@.len() ==> #[trigger] sorted@[i] < x,
                forall|i: int|
                    0 <= i < at ==> !info_before(
                        nodes[x as int].info,
                        nodes[#[trigger] sorted@[i] as int].info,
                    ),
            ensures
                at <= sorted@.len(),
                at < sorted@.len() ==> info_before(
                    nodes[x as int].info,
                    nodes[sorted@[at as int] as int].info,
                ),
            decreases sorted@.len() - at,
        {
            assert(nodes[x as int] == graph.nodes@[x as int]@);
            assert(nodes[sorted@[at as int] as int] == graph.nodes@[sorted@[at as int] as int]@);
            if graph.nodes[x].info.comes_before(&graph.nodes[sorted[at]].info) {
                break;
            }
            at += 1;
        }
        proof {
            lemma_put_at(nodes, sorted@, x, at as int);
            let upto = nodes.take(x + 1);
            assert(upto.drop_last() =~= front);
            assert forall|i: int| 0 <= i < sorted@.len() implies nodes[#[trigger] sorted@[i] as int]
                == upto[sorted@[i] as int] by {
                assert(sorted@.contains(sorted@[i]));
            }
            lemma_put_same_nodes(nodes, upto, sorted@, x);
        }
        sorted.insert(at, x);
        x += 1;
    }
    assert(graph@.nodes.take(x as int) =~= graph@.nodes);
    sorted
}

/// The order in which to load the libraries of a graph of manifests, other than
/// that of `base_url`: each behind all that it depends on. Where dependencies form
/// a circle there is none.
#[verifier::loop_isolation(false)]
pub fn load_order(graph: &ManifestGraph, base_url: &Url) -> (order: Option<Vec<usize>>)
    requires
        graph@.wf(),
    ensures
        match order {
            Some(places) => {
                &&& order_of(graph@, base_url@) == Some(places@)
                &&& places@.no_duplicates()
                &&& forall|x: usize| #[trigger]
                    places@.contains(x) <==> (x < graph@.nodes.len() && graph@.nodes[x as int].info.url
                        != base_url@)
                &&& deps_first(graph@, places@, base_url@)
            },
            None => order_of(graph@, base_url@) is None,
        },
        order is None <==> has_circle(graph@),
{
    let ghost g = graph@;
    let n: usize = graph.nodes.len();
    let sorted = sort_places(graph);
    let mut counts: Vec<usize> = Vec::new();
    let mut i: usize = 0;
    while i < n
        invariant
            i <= n,
            counts@.len() == i,
            forall|x: int| 0 <= x < i ==> #[trigger] counts@[x] == g.deps[x].len(),
        decreases n - i,
    {
        assert(g.deps[i as int] == graph.deps@[i as int]@);
        counts.push(graph.deps[i].len());
        i += 1;
    }
    let mut ready: Vec<usize> = Vec::new();
    let mut order: Vec<usize> = Vec::new();
    let mut left: usize = n;
    let ghost mut made: Seq<usize> = Seq::empty();
    proof {
        lemma_sorted_places(g.nodes);
        lemma_start_inv(g);
        lemma_order_end(g);
    }
    let mut k: usize = 0;
    while k < sorted.len()
        invariant
            k <= sorted@.len(),
            ready@ == free_places(g.deps, sorted@.take(k as int)),
            made == ready@,
            order@ == without_base(g.nodes, made, base_url@),
            left == n - made.len(),
            made.len() <= k,
        decreases sorted@.len() - k,
    {
        let x = sorted[k];
        assert(sorted@.contains(x));
        assert(sorted@.take(k + 1).drop_last() =~= sorted@.take(k as int));
        assert(g.nodes[x as int] == graph.nodes@[x as int]@);
        if counts[x] == 0 {
            proof {
                assert(made.push(x).drop_last() =~= made);
                made = made.push(x);
            }
            ready.push(x);
            left -= 1;
            if !graph.nodes[x].info.url.same(base_url) {
                order.push(x);
            }
        }
        k += 1;
    }
    assert(sorted@.take(k as int) =~= sorted@);
    let ghost mut st = order_start(g);
    while ready.len() > 0
        invariant
            order_inv(g, st, Seq::empty()),
            order_end(g, st) == order_end(g, order_start(g)),
            ready@ == st.ready,
            counts@.len() == n,
            forall|x: int| 0 <= x < n ==> #[trigger] counts@[x] == st.counts[x],
            order@ == without_base(g.nodes, st.made, base_url@),
            left == n - st.made.len(),
        decreases st.to_take(),
    {
        let ghost before = st;
        let u = ready[ready.len() - 1];
        ready.pop();
        proof {
            lemma_taken_inv(g, st);
            st = st.taken();
            assert(ready@ =~= st.ready);
            assert(g.reverse[u as int] == graph.reverse@[u as int]@);
        }
        let ghost taken = st;
        let ghost users = g.reverse[u as int];
        assert(users.skip(0) =~= users);
        let mut j: usize = 0;
        while j < graph.reverse[u].len()
            invariant
                j <= users.len(),
                order_inv(g, st, users.skip(j as int)),
                taken.less(users) == st.less(users.skip(j as int)),
                ready@ == st.ready,
                counts@.len() == n,
                forall|x: int| 0 <= x < n ==> #[trigger] counts@[x] == st.counts[x],
                order@ == without_base(g.nodes, st.made, base_url@),
                left == n - st.made.len(),
            decreases users.len() - j,
        {
            let user = graph.reverse[u][j];
            let ghost rest = users.skip(j as int);
            proof {
                assert(rest[0] == user);
                assert(g.reverse[u as int][j as int] < g.nodes.len());
                lemma_less_one_inv(g, st, rest);
                assert(rest.drop_first() =~= users.skip(j + 1));
            }
            let ghost previous = st;
            proof {
                st = st.less_one(user);
                lemma_places_fit(g.nodes, st.made);
            }
            let count: usize = counts[user] - 1;
            counts.set(user, count);
            if count == 0 {
                assert(st.made == previous.made.push(user));
                assert(st.made.drop_last() =~= previous.made);
                assert(g.nodes[user as int] == graph.nodes@[user as int]@);
                ready.push(user);
                left -= 1;
                if !graph.nodes[user].info.url.same(base_url) {
                    order.push(user);
                }
            }
            j += 1;
        }
        proof {
            assert(users.skip(j as int) =~= Seq::empty());
            lemma_less_to_take(taken, users);
        }
    }
    proof {
        load_order_fails_on_circles(g, base_url@);
        if order_of(g, base_url@) is Some {
            load_order_puts_dependencies_first(g, base_url@);
        }
    }
    if left > 0 {
        None
    } else {
        Some(order)
    }
}

} // verus!
