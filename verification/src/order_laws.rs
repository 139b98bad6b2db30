//! What holds of the load order: it is complete, it is sorted, and it fails
//! exactly on circular dependencies.
use vstd::prelude::*;

use crate::graph::{times, GraphModel, NodeModel};
use crate::manifest::info_before;
use crate::order::{
    free_places, order_end, order_of, order_start, put_in_order, sorted_places, without_base,
    OrderModel,
};

verus! {

/// How many entries of `deps` are not in `done`.
pub open spec fn unmet(deps: Seq<usize>, done: Set<usize>) -> nat
    decreases deps.len(),
{
    if deps.len() == 0 {
        0
    } else {
        unmet(deps.drop_last(), done) + if done.contains(deps.last()) {
            0nat
        } else {
            1nat
        }
    }
}

/// Whether each manifest in `made` comes behind all that it depends on.
pub open spec fn behind_deps(g: GraphModel, made: Seq<usize>) -> bool {
    forall|j: int, i: int|
        0 <= j < made.len() && 0 <= i < g.deps[made[j] as int].len() ==> made.take(j).contains(
            #[trigger] g.deps[made[j] as int][i],
        )
}

/// What holds while the dependencies on done manifests are accounted for,
/// those in `users` being still to do.
pub open spec fn order_inv(g: GraphModel, st: OrderModel, users: Seq<usize>) -> bool {
    &&& st.counts.len() == g.nodes.len()
    &&& forall|x: usize|
        x < g.nodes.len() ==> #[trigger] st.counts[x as int] == unmet(g.deps[x as int], st.done)
            + times(users, x)
    &&& st.made.no_duplicates()
    &&& st.ready.no_duplicates()
    &&& forall|x: usize| #[trigger]
        st.made.contains(x) <==> (x < g.nodes.len() && st.counts[x as int] == 0)
    &&& forall|x: usize| #[trigger]
        st.ready.contains(x) <==> (st.made.contains(x) && !st.done.contains(x))
    &&& forall|x: usize| #[trigger] st.done.contains(x) ==> st.made.contains(x)
    &&& behind_deps(g, st.made)
}

pub proof fn lemma_unmet_insert(deps: Seq<usize>, done: Set<usize>, x: usize)
    requires
        !done.contains(x),
    ensures
        unmet(deps, done) == unmet(deps, done.insert(x)) + times(deps, x),
    decreases deps.len(),
{
    if deps.len() > 0 {
        lemma_unmet_insert(deps.drop_last(), done, x);
    }
}

pub proof fn lemma_unmet_zero(deps: Seq<usize>, done: Set<usize>)
    ensures
        unmet(deps, done) == 0 <==> forall|i: int|
            0 <= i < deps.len() ==> done.contains(#[trigger] deps[i]),
    decreases deps.len(),
{
    if deps.len() > 0 {
        lemma_unmet_zero(deps.drop_last(), done);
        assert forall|i: int|
            unmet(deps, done) == 0 && 0 <= i < deps.len() implies done.contains(
            #[trigger] deps[i],
        ) by {
            if i < deps.len() - 1 {
                assert(deps.drop_last()[i] == deps[i]);
            }
        }
        if forall|i: int| 0 <= i < deps.len() ==> done.contains(#[trigger] deps[i]) {
            assert forall|i: int| 0 <= i < deps.drop_last().len() implies done.contains(
                #[trigger] deps.drop_last()[i],
            ) by {
                assert(deps.drop_last()[i] == deps[i]);
            }
            assert(deps.last() == deps[deps.len() - 1]);
        }
    }
}

pub proof fn lemma_unmet_none_done(deps: Seq<usize>)
    ensures
        unmet(deps, Set::empty()) == deps.len(),
    decreases deps.len(),
{
    if deps.len() > 0 {
        lemma_unmet_none_done(deps.drop_last());
    }
}

pub proof fn lemma_times_first(s: Seq<usize>, x: usize)
    requires
        s.len() > 0,
    ensures
        times(s, x) == times(s.drop_first(), x) + if s[0] == x {
            1nat
        } else {
            0nat
        },
    decreases s.len(),
{
    if s.len() > 1 {
        lemma_times_first(s.drop_last(), x);
        assert(s.drop_last().drop_first() =~= s.drop_first().drop_last());
        assert(s.drop_first().last() == s.last());
    } else {
        assert(s.drop_first() =~= Seq::empty());
        assert(s.drop_last() =~= Seq::empty());
    }
}

/// Accounting for one dependency keeps the invariant.
pub proof fn lemma_less_one_inv(g: GraphModel, st: OrderModel, users: Seq<usize>)
    requires
        g.wf(),
        users.len() > 0,
        users[0] < g.nodes.len(),
        order_inv(g, st, users),
    ensures
        order_inv(g, st.less_one(users[0]), users.drop_first()),
        st.counts[users[0] as int] > 0,
{
    let user = users[0];
    let next = st.less_one(user);
    let rest = users.drop_first();
    lemma_times_first(users, user);
    assert forall|x: usize| x < g.nodes.len() implies #[trigger] next.counts[x as int] == unmet(
        g.deps[x as int],
        next.done,
    ) + times(rest, x) by {
        lemma_times_first(users, x);
        assert(st.counts[x as int] == unmet(g.deps[x as int], st.done) + times(users, x));
    }
    assert(st.counts[user as int] == unmet(g.deps[user as int], st.done) + times(users, user));
    assert(!st.made.contains(user));
    if next.counts[user as int] == 0 {
        assert(next.counts[user as int] == unmet(g.deps[user as int], next.done) + times(rest, user));
        lemma_unmet_zero(g.deps[user as int], st.done);
        assert forall|j: int, i: int|
            0 <= j < next.made.len() && 0 <= i < g.deps[next.made[j] as int].len() implies next.made.take(
            j,
        ).contains(#[trigger] g.deps[next.made[j] as int][i]) by {
            if j < st.made.len() {
                assert(next.made[j] == st.made[j]);
                assert(next.made.take(j) =~= st.made.take(j));
                assert(st.made.take(j).contains(g.deps[st.made[j] as int][i]));
            } else {
                assert(next.made.take(j) =~= st.made);
                let d = g.deps[user as int][i];
                assert(st.done.contains(d));
            }
        }
        assert forall|x: usize| st.made.push(user).contains(x) <==> (st.made.contains(x) || x == user) by {
            lemma_push_contains(st.made, user, x);
        }
        assert forall|x: usize| st.ready.push(user).contains(x) <==> (st.ready.contains(x) || x == user) by {
            lemma_push_contains(st.ready, user, x);
        }
        assert(!st.ready.contains(user)) by {
            assert(st.done.contains(user) ==> st.made.contains(user));
        }
        assert(!st.done.contains(user));
    }
    assert forall|x: usize|
        #[trigger] next.made.contains(x) <==> (x < g.nodes.len() && next.counts[x as int] == 0) by {
        assert(st.made.contains(x) <==> (x < g.nodes.len() && st.counts[x as int] == 0));
    }
    assert forall|x: usize|
        #[trigger] next.ready.contains(x) <==> (next.made.contains(x) && !next.done.contains(x)) by {
        assert(st.ready.contains(x) <==> st.made.contains(x) && !st.done.contains(x));
    }
}

pub proof fn lemma_push_contains(s: Seq<usize>, a: usize, x: usize)
    ensures
        s.push(a).contains(x) <==> s.contains(x) || x == a,
{
    if s.contains(x) {
        let i = choose|i: int| 0 <= i < s.len() && s[i] == x;
        assert(s.push(a)[i] == x);
    }
    if x == a {
        assert(s.push(a)[s.len() as int] == x);
    }
    if s.push(a).contains(x) && x != a {
        let i = choose|i: int| 0 <= i < s.push(a).len() && s.push(a)[i] == x;
        assert(s[i] == x);
    }
}

/// Accounting for all of them keeps the invariant.
pub proof fn lemma_less_inv(g: GraphModel, st: OrderModel, users: Seq<usize>)
    requires
        g.wf(),
        forall|i: int| 0 <= i < users.len() ==> #[trigger] users[i] < g.nodes.len(),
        order_inv(g, st, users),
    ensures
        order_inv(g, st.less(users), Seq::empty()),
    decreases users.len(),
{
    if users.len() > 0 {
        lemma_less_one_inv(g, st, users);
        assert forall|i: int| 0 <= i < users.drop_first().len() implies #[trigger] users.drop_first()[i]
            < g.nodes.len() by {
            assert(users.drop_first()[i] == users[i + 1]);
        }
        lemma_less_inv(g, st.less_one(users[0]), users.drop_first());
    } else {
        assert(users =~= Seq::empty());
    }
}

/// Taking the last of what is ready leaves what depends on it to account for.
pub proof fn lemma_taken_inv(g: GraphModel, st: OrderModel)
    requires
        g.wf(),
        order_inv(g, st, Seq::empty()),
        st.ready.len() > 0,
    ensures
        st.ready.last() < g.nodes.len(),
        order_inv(g, st.taken(), g.reverse[st.ready.last() as int]),
{
    let u = st.ready.last();
    let next = st.taken();
    let users = g.reverse[u as int];
    assert(st.ready.contains(u));
    assert(st.made.contains(u) && !st.done.contains(u));
    assert(u < g.nodes.len()) by {
        assert(st.made.contains(u) <==> (u < g.nodes.len() && st.counts[u as int] == 0));
    }
    assert forall|x: usize| x < g.nodes.len() implies #[trigger] next.counts[x as int] == unmet(
        g.deps[x as int],
        next.done,
    ) + times(users, x) by {
        lemma_unmet_insert(g.deps[x as int], st.done, u);
        assert(st.counts[x as int] == unmet(g.deps[x as int], st.done) + times(Seq::empty(), x));
        assert(times(g.deps[x as int], u) == times(g.reverse[u as int], x));
    }
    assert forall|x: usize|
        #[trigger] next.ready.contains(x) <==> (next.made.contains(x) && !next.done.contains(x)) by {
        assert(st.ready =~= next.ready.push(u));
        lemma_push_contains(next.ready, u, x);
        assert(st.ready.contains(x) <==> st.made.contains(x) && !st.done.contains(x));
        if x == u && next.ready.contains(u) {
            let i = choose|i: int| 0 <= i < next.ready.len() && next.ready[i] == u;
            assert(st.ready[i] == u && st.ready[st.ready.len() - 1] == u);
        }
    }
    assert forall|x: usize| #[trigger] next.done.contains(x) implies next.made.contains(x) by {
        if x != u {
            assert(st.done.contains(x));
        }
    }
}

/// The invariant holds at the end.
pub proof fn lemma_end_inv(g: GraphModel, st: OrderModel)
    requires
        g.wf(),
        order_inv(g, st, Seq::empty()),
    ensures
        order_inv(g, order_end(g, st), Seq::empty()),
        order_end(g, st).ready.len() == 0,
    decreases st.to_take(),
{
    if st.ready.len() > 0 {
        let users = g.reverse[st.ready.last() as int];
        lemma_taken_inv(g, st);
        lemma_less_inv(g, st.taken(), users);
        crate::order::lemma_less_to_take(st.taken(), users);
        lemma_end_inv(g, st.taken().less(users));
    }
}

/// Putting a place in order adds that place and no other.
pub proof fn lemma_put_in_order(nodes: Seq<NodeModel>, sorted: Seq<usize>, x: usize)
    requires
        sorted.no_duplicates(),
        !sorted.contains(x),
    ensures
        put_in_order(nodes, sorted, x).no_duplicates(),
        put_in_order(nodes, sorted, x).len() == sorted.len() + 1,
        forall|y: usize| #[trigger]
            put_in_order(nodes, sorted, x).contains(y) <==> (sorted.contains(y) || y == x),
    decreases sorted.len(),
{
    let put = put_in_order(nodes, sorted, x);
    if sorted.len() == 0 {
        assert(put[0] == x);
    } else if info_before(nodes[x as int].info, nodes[sorted[0] as int].info) {
        assert forall|y: usize| #[trigger] put.contains(y) <==> (sorted.contains(y) || y == x) by {
            lemma_first_contains(x, sorted, y);
        }
        assert forall|i: int, j: int| 0 <= i < put.len() && 0 <= j < put.len() && i != j implies put[i]
            != put[j] by {
            if i > 0 {
                assert(put[i] == sorted[i - 1]);
            }
            if j > 0 {
                assert(put[j] == sorted[j - 1]);
            }
        }
    } else {
        let first = sorted[0];
        let rest = sorted.drop_first();
        assert(sorted =~= seq![first] + rest);
        lemma_first_contains(first, rest, x);
        assert(!rest.contains(first)) by {
            if rest.contains(first) {
                let i = choose|i: int| 0 <= i < rest.len() && rest[i] == first;
                assert(sorted[i + 1] == sorted[0]);
            }
        }
        lemma_put_in_order(nodes, rest, x);
        let tail = put_in_order(nodes, rest, x);
        assert(put =~= seq![first] + tail);
        assert forall|y: usize| #[trigger] put.contains(y) <==> (sorted.contains(y) || y == x) by {
            lemma_first_contains(first, rest, y);
            lemma_first_contains(first, tail, y);
            assert(tail.contains(y) <==> (rest.contains(y) || y == x));
        }
        assert(first != x) by {
            assert(sorted[0] == first);
        }
        assert(!tail.contains(first));
        assert forall|i: int, j: int| 0 <= i < put.len() && 0 <= j < put.len() && i != j implies put[i]
            != put[j] by {
            if i > 0 {
                assert(put[i] == tail[i - 1]);
            }
            if j > 0 {
                assert(put[j] == tail[j - 1]);
            }
        }
    }
}

pub proof fn lemma_first_contains(first: usize, rest: Seq<usize>, x: usize)
    ensures
        (seq![first] + rest).contains(x) <==> (rest.contains(x) || x == first),
{
    let all = seq![first] + rest;
    if rest.contains(x) {
        let i = choose|i: int| 0 <= i < rest.len() && rest[i] == x;
        assert(all[i + 1] == x);
    }
    if x == first {
        assert(all[0] == x);
    }
    if all.contains(x) && x != first {
        let i = choose|i: int| 0 <= i < all.len() && all[i] == x;
        assert(rest[i - 1] == x);
    }
}

/// The sorted places are all places, each once.
pub proof fn lemma_sorted_places(nodes: Seq<NodeModel>)
    requires
        nodes.len() <= usize::MAX,
    ensures
        sorted_places(nodes).no_duplicates(),
        sorted_places(nodes).len() == nodes.len(),
        forall|y: usize| #[trigger] sorted_places(nodes).contains(y) <==> y < nodes.len(),
    decreases nodes.len(),
{
    if nodes.len() > 0 {
        lemma_sorted_places(nodes.drop_last());
        lemma_put_in_order(nodes, sorted_places(nodes.drop_last()), (nodes.len() - 1) as usize);
    }
}

/// The free places among `places` are those without dependencies, each once.
pub proof fn lemma_free_places(deps: Seq<Seq<usize>>, places: Seq<usize>)
    requires
        places.no_duplicates(),
    ensures
        free_places(deps, places).no_duplicates(),
        forall|y: usize| #[trigger]
            free_places(deps, places).contains(y) <==> (places.contains(y) && deps[y as int].len() == 0),
    decreases places.len(),
{
    if places.len() > 0 {
        let front = places.drop_last();
        let last = places.last();
        let before = free_places(deps, front);
        lemma_free_places(deps, front);
        assert(places =~= front.push(last));
        assert(!front.contains(last)) by {
            if front.contains(last) {
                let i = choose|i: int| 0 <= i < front.len() && front[i] == last;
                assert(places[i] == places[places.len() - 1]);
            }
        }
        assert forall|y: usize| #[trigger]
            free_places(deps, places).contains(y) <==> (places.contains(y) && deps[y as int].len()
                == 0) by {
            lemma_push_contains(front, last, y);
            lemma_push_contains(before, last, y);
            assert(before.contains(y) <==> (front.contains(y) && deps[y as int].len() == 0));
        }
        assert(!before.contains(last));
    }
}

/// The invariant holds at the start.
pub proof fn lemma_start_inv(g: GraphModel)
    requires
        g.wf(),
    ensures
        order_inv(g, order_start(g), Seq::empty()),
{
    let st = order_start(g);
    lemma_sorted_places(g.nodes);
    lemma_free_places(g.deps, sorted_places(g.nodes));
    assert forall|x: usize| x < g.nodes.len() implies #[trigger] st.counts[x as int] == unmet(
        g.deps[x as int],
        st.done,
    ) + times(Seq::empty(), x) by {
        lemma_unmet_none_done(g.deps[x as int]);
    }
    assert forall|j: int, i: int|
        0 <= j < st.made.len() && 0 <= i < g.deps[st.made[j] as int].len() implies st.made.take(
        j,
    ).contains(#[trigger] g.deps[st.made[j] as int][i]) by {
        assert(st.made.contains(st.made[j]));
    }
}

/// Places that occur once each are no more than there are manifests, and where
/// they are as many they are all.
pub proof fn lemma_places_fit(nodes: Seq<NodeModel>, places: Seq<usize>)
    requires
        nodes.len() <= usize::MAX,
        places.no_duplicates(),
        forall|x: usize| #[trigger] places.contains(x) ==> x < nodes.len(),
    ensures
        places.len() <= nodes.len(),
        places.len() == nodes.len() ==> forall|x: usize|
            x < nodes.len() ==> #[trigger] places.contains(x),
{
    let all = sorted_places(nodes);
    lemma_sorted_places(nodes);
    places.unique_seq_to_set();
    all.unique_seq_to_set();
    vstd::seq_lib::seq_to_set_is_finite(places);
    vstd::seq_lib::seq_to_set_is_finite(all);
    assert(places.to_set().subset_of(all.to_set())) by {
        assert forall|x: usize| places.to_set().contains(x) implies all.to_set().contains(x) by {
            assert(places.contains(x));
            assert(all.contains(x));
        }
    }
    vstd::set_lib::lemma_len_subset(places.to_set(), all.to_set());
    if places.len() == nodes.len() {
        vstd::set_lib::lemma_subset_equality(places.to_set(), all.to_set());
        assert forall|x: usize| x < nodes.len() implies #[trigger] places.contains(x) by {
            assert(all.contains(x));
            assert(all.to_set().contains(x));
            assert(places.to_set().contains(x));
        }
    }
}

/// What the invariant says at the end of the order.
pub proof fn lemma_order_end(g: GraphModel)
    requires
        g.wf(),
    ensures
        order_inv(g, order_end(g, order_start(g)), Seq::empty()),
        order_end(g, order_start(g)).ready.len() == 0,
        order_end(g, order_start(g)).made.len() <= g.nodes.len(),
        forall|x: usize| #[trigger]
            order_end(g, order_start(g)).made.contains(x) ==> x < g.nodes.len(),
        order_end(g, order_start(g)).made.len() == g.nodes.len() ==> forall|x: usize|
            x < g.nodes.len() ==> #[trigger] order_end(g, order_start(g)).made.contains(x),
{
    lemma_start_inv(g);
    lemma_end_inv(g, order_start(g));
    lemma_places_fit(g.nodes, order_end(g, order_start(g)).made);
}

/// Leaving out the places with the base URL keeps what is left, in its order.
pub proof fn lemma_without_base(g: GraphModel, made: Seq<usize>, base_url: Seq<char>)
    requires
        made.no_duplicates(),
        behind_deps(g, made),
    ensures
        without_base(g.nodes, made, base_url).no_duplicates(),
        forall|x: usize| #[trigger]
            without_base(g.nodes, made, base_url).contains(x) <==> (made.contains(x)
                && g.nodes[x as int].info.url != base_url),
        deps_first(g, without_base(g.nodes, made, base_url), base_url),
    decreases made.len(),
{
    if made.len() > 0 {
        let front = made.drop_last();
        let last = made.last();
        let before = without_base(g.nodes, front, base_url);
        let all = without_base(g.nodes, made, base_url);
        assert(made =~= front.push(last));
        assert forall|j: int, i: int|
            0 <= j < front.len() && 0 <= i < g.deps[front[j] as int].len() implies front.take(
            j,
        ).contains(#[trigger] g.deps[front[j] as int][i]) by {
            assert(front[j] == made[j]);
            assert(front.take(j) =~= made.take(j));
            assert(made.take(j).contains(g.deps[made[j] as int][i]));
        }
        lemma_without_base(g, front, base_url);
        assert(!front.contains(last)) by {
            if front.contains(last) {
                let i = choose|i: int| 0 <= i < front.len() && front[i] == last;
                assert(made[i] == made[made.len() - 1]);
            }
        }
        assert forall|x: usize| #[trigger]
            all.contains(x) <==> (made.contains(x) && g.nodes[x as int].info.url != base_url) by {
            lemma_push_contains(front, last, x);
            lemma_push_contains(before, last, x);
            assert(before.contains(x) <==> (front.contains(x) && g.nodes[x as int].info.url
                != base_url));
        }
        assert(!before.contains(last));
        assert forall|j: int, i: int|
            0 <= j < all.len() && 0 <= i < g.deps[all[j] as int].len()
                && g.nodes[g.deps[all[j] as int][i] as int].info.url != base_url implies all.take(
            j,
        ).contains(#[trigger] g.deps[all[j] as int][i]) by {
            let d = g.deps[all[j] as int][i];
            if j < before.len() {
                assert(all[j] == before[j]);
                assert(all.take(j) =~= before.take(j));
                assert(before.take(j).contains(g.deps[before[j] as int][i]));
            } else {
                assert(all[j] == last);
                assert(all.take(j) =~= before);
                assert(made[made.len() - 1] == last);
                assert(made.take(made.len() - 1) =~= front);
                assert(front.contains(g.deps[made[made.len() - 1] as int][i]));
            }
        }
    }
}

/// Whether each manifest in `order` comes behind all that it depends on, the
/// one with the base URL left out of account.
pub open spec fn deps_first(g: GraphModel, order: Seq<usize>, base_url: Seq<char>) -> bool {
    forall|j: int, i: int|
        0 <= j < order.len() && 0 <= i < g.deps[order[j] as int].len()
            && g.nodes[g.deps[order[j] as int][i] as int].info.url != base_url ==> order.take(
            j,
        ).contains(#[trigger] g.deps[order[j] as int][i])
}

/// An order that is found holds every manifest with another URL than the base
/// once, and no other, and each one behind all that it depends on.
pub proof fn load_order_puts_dependencies_first(g: GraphModel, base_url: Seq<char>)
    requires
        g.wf(),
        order_of(g, base_url) is Some,
    ensures
        order_of(g, base_url)->0.no_duplicates(),
        forall|x: usize| #[trigger]
            order_of(g, base_url)->0.contains(x) <==> (x < g.nodes.len()
                && g.nodes[x as int].info.url != base_url),
        deps_first(g, order_of(g, base_url)->0, base_url),
{
    let made = order_end(g, order_start(g)).made;
    lemma_order_end(g);
    lemma_without_base(g, made, base_url);
    assert forall|x: usize| #[trigger]
        order_of(g, base_url)->0.contains(x) <==> (x < g.nodes.len()
            && g.nodes[x as int].info.url != base_url) by {
        if x < g.nodes.len() {
            assert(made.contains(x));
        }
    }
}

/// The place behind `i` on a circle of `len` places.
pub open spec fn around(i: int, len: nat) -> int {
    if i + 1 == len {
        0
    } else {
        i + 1
    }
}

/// Whether each manifest of `circle` depends on the next one, and the last on the first.
pub open spec fn is_circle(g: GraphModel, circle: Seq<usize>) -> bool {
    &&& circle.len() > 0
    &&& forall|i: int|
        0 <= i < circle.len() ==> {
            &&& (#[trigger] circle[i]) < g.nodes.len()
            &&& g.deps[circle[i] as int].contains(circle[around(i, circle.len())])
        }
}

/// Whether some manifests depend on each other in a circle.
pub open spec fn has_circle(g: GraphModel) -> bool {
    exists|circle: Seq<usize>| is_circle(g, circle)
}

/// The position of `x` in `s`.
spec fn position(s: Seq<usize>, x: usize) -> int {
    choose|i: int| 0 <= i < s.len() && s[i] == x
}

/// Along a circle each manifest would stand behind the next one.
proof fn lemma_circle_descends(g: GraphModel, made: Seq<usize>, circle: Seq<usize>, i: int)
    requires
        made.no_duplicates(),
        behind_deps(g, made),
        forall|x: usize| x < g.nodes.len() ==> #[trigger] made.contains(x),
        is_circle(g, circle),
        0 <= i < circle.len(),
    ensures
        position(made, circle[i]) <= position(made, circle[0]) - i,
        position(made, circle[around(i, circle.len())]) < position(made, circle[i]),
        0 <= position(made, circle[i]),
    decreases i,
{
    let x = circle[i];
    let y = circle[around(i, circle.len())];
    assert(made.contains(x));
    let p = position(made, x);
    assert(made[p] == x);
    assert(circle[around(i, circle.len())] < g.nodes.len());
    assert(made.contains(y));
    let q = position(made, y);
    assert(made[q] == y);
    let k = choose|k: int| 0 <= k < g.deps[x as int].len() && g.deps[x as int][k] == y;
    assert(made.take(p).contains(g.deps[made[p] as int][k]));
    let r = choose|r: int| 0 <= r < made.take(p).len() && made.take(p)[r] == y;
    assert(made[r] == y);
    assert(r == q);
    if i > 0 {
        lemma_circle_descends(g, made, circle, i - 1);
    }
}

/// Whether each manifest in `left` depends on one in `left`.
#[verifier::opaque]
spec fn each_waits(g: GraphModel, left: Set<usize>) -> bool {
    forall|x: usize| #[trigger]
        left.contains(x) ==> exists|d: usize|
            g.deps[x as int].contains(d) && #[trigger] left.contains(d)
}

/// Manifests that each depend on another one of those: a path from `from` with `k` further steps.
spec fn path(g: GraphModel, left: Set<usize>, from: usize, k: nat) -> Seq<usize>
    decreases k,
{
    if k == 0 {
        seq![from]
    } else {
        let shorter = path(g, left, from, (k - 1) as nat);
        shorter.push(
            choose|d: usize| g.deps[shorter.last() as int].contains(d) && #[trigger] left.contains(d),
        )
    }
}

proof fn lemma_path(g: GraphModel, left: Set<usize>, from: usize, k: nat)
    requires
        left.contains(from),
        each_waits(g, left),
    ensures
        path(g, left, from, k).len() == k + 1,
        forall|i: int| 0 <= i <= k ==> left.contains(#[trigger] path(g, left, from, k)[i]),
        forall|i: int|
            0 <= i < k ==> g.deps[(#[trigger] path(g, left, from, k)[i]) as int].contains(
                path(g, left, from, k)[i + 1],
            ),
    decreases k,
{
    if k > 0 {
        let shorter = path(g, left, from, (k - 1) as nat);
        lemma_path(g, left, from, (k - 1) as nat);
        let p = path(g, left, from, k);
        assert(left.contains(shorter[k - 1]));
        assert(shorter.last() == shorter[k - 1]);
        let d = choose|d: usize|
            g.deps[shorter.last() as int].contains(d) && #[trigger] left.contains(d);
        assert(g.deps[shorter.last() as int].contains(d) && left.contains(d)) by {
            reveal(each_waits);
        }
        assert(p =~= shorter.push(d));
        assert forall|i: int| 0 <= i <= k implies left.contains(#[trigger] p[i]) by {
            if i < k {
                assert(p[i] == shorter[i]);
            }
        }
        assert forall|i: int| 0 <= i < k implies g.deps[(#[trigger] p[i]) as int].contains(p[i + 1]) by {
            assert(p[i] == shorter[i]);
            if i + 1 < k {
                assert(p[i + 1] == shorter[i + 1]);
            }
        }
    }
}

/// Where each of some manifests depends on another one of those, there is a circle.
proof fn lemma_left_has_circle(g: GraphModel, left: Set<usize>, from: usize)
    requires
        g.wf(),
        left.contains(from),
        forall|x: usize| #[trigger] left.contains(x) ==> x < g.nodes.len(),
        each_waits(g, left),
    ensures
        has_circle(g),
{
    let p = path(g, left, from, g.nodes.len());
    lemma_path(g, left, from, g.nodes.len());
    if p.no_duplicates() {
        assert forall|x: usize| #[trigger] p.contains(x) implies x < g.nodes.len() by {
            let i = choose|i: int| 0 <= i < p.len() && p[i] == x;
            assert(left.contains(p[i]));
        }
        lemma_places_fit(g.nodes, p);
    }
    let (a, b) = choose|a: int, b: int|
        0 <= a < p.len() && 0 <= b < p.len() && a != b && p[a] == p[b];
    let (i, j) = if a < b {
        (a, b)
    } else {
        (b, a)
    };
    let circle = p.subrange(i, j);
    assert forall|k: int| 0 <= k < circle.len() implies ({
        &&& (#[trigger] circle[k]) < g.nodes.len()
        &&& g.deps[circle[k] as int].contains(circle[around(k, circle.len())])
    }) by {
        assert(circle[k] == p[i + k]);
        assert(left.contains(p[i + k]));
        assert(g.deps[p[i + k] as int].contains(p[i + k + 1]));
        if k + 1 == circle.len() {
            assert(p[i + k + 1] == p[j]);
            assert(circle[0] == p[i]);
        } else {
            assert(circle[k + 1] == p[i + k + 1]);
        }
    }
    assert(is_circle(g, circle));
}

/// Fewer places than manifests leave one out.
proof fn lemma_one_left(nodes: Seq<NodeModel>, made: Seq<usize>) -> (x: usize)
    requires
        nodes.len() <= usize::MAX,
        made.len() < nodes.len(),
        made.no_duplicates(),
        forall|x: usize| #[trigger] made.contains(x) ==> x < nodes.len(),
    ensures
        x < nodes.len(),
        !made.contains(x),
{
    if forall|x: usize| x < nodes.len() ==> #[trigger] made.contains(x) {
        let all = sorted_places(nodes);
        lemma_sorted_places(nodes);
        all.unique_seq_to_set();
        made.unique_seq_to_set();
        assert(all.to_set() =~= made.to_set()) by {
            assert forall|x: usize| all.to_set().contains(x) <==> made.to_set().contains(x) by {
                assert(all.contains(x) <==> x < nodes.len());
                assert(made.contains(x) ==> x < nodes.len());
            }
        }
        assert(false);
    }
    choose|x: usize| x < nodes.len() && !#[trigger] made.contains(x)
}

/// What is not loadable at the end depends on something that is not either.
proof fn lemma_left_waits(g: GraphModel, end: OrderModel, x: usize) -> (d: usize)
    requires
        g.wf(),
        order_inv(g, end, Seq::empty()),
        end.ready.len() == 0,
        x < g.nodes.len(),
        !end.made.contains(x),
    ensures
        g.deps[x as int].contains(d),
        d < g.nodes.len(),
        !end.made.contains(d),
{
    assert(end.counts[x as int] == unmet(g.deps[x as int], end.done) + times(Seq::empty(), x));
    lemma_unmet_zero(g.deps[x as int], end.done);
    let i = choose|i: int|
        0 <= i < g.deps[x as int].len() && !end.done.contains(#[trigger] g.deps[x as int][i]);
    let d = g.deps[x as int][i];
    assert(!end.ready.contains(d));
    d
}

/// No order is found exactly where dependencies form a circle.
pub proof fn load_order_fails_on_circles(g: GraphModel, base_url: Seq<char>)
    requires
        g.wf(),
    ensures
        order_of(g, base_url) is None <==> has_circle(g),
{
    let end = order_end(g, order_start(g));
    let made = end.made;
    lemma_order_end(g);
    if made.len() < g.nodes.len() {
        let left = Set::new(|x: usize| x < g.nodes.len() && !made.contains(x));
        let from = lemma_one_left(g.nodes, made);
        assert(each_waits(g, left)) by {
            reveal(each_waits);
            assert forall|x: usize| #[trigger] left.contains(x) implies exists|d: usize|
                g.deps[x as int].contains(d) && #[trigger] left.contains(d) by {
                let d = lemma_left_waits(g, end, x);
                assert(g.deps[x as int].contains(d) && left.contains(d));
            }
        }
        lemma_left_has_circle(g, left, from);
    } else if has_circle(g) {
        let circle = choose|circle: Seq<usize>| is_circle(g, circle);
        lemma_circle_descends(g, made, circle, circle.len() - 1);
    }
}

} // verus!
