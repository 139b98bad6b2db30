//! The order in which libraries are loaded, where the dependencies leave a choice: what
//! became loadable last goes on first.
use vstd::prelude::*;

use crate::graph::{times, GraphModel, NodeModel};
use crate::order::{
    lemma_less_to_take, order_end, order_of, order_start, without_base, OrderModel,
};
use crate::order_laws::{
    lemma_less_inv, lemma_less_one_inv, lemma_start_inv, lemma_taken_inv, lemma_times_first,
    lemma_unmet_zero, order_inv, unmet,
};
use crate::sort_laws::{ascending, load_order_starts_sorted};

verus! {

/// Whether all that the manifest at `x` depends on is in `taken`.
pub open spec fn loadable(g: GraphModel, taken: Seq<usize>, x: usize) -> bool {
    &&& x < g.nodes.len()
    &&& forall|i: int|
        0 <= i < g.deps[x as int].len() ==> taken.contains(#[trigger] g.deps[x as int][i])
}

/// Whether `x` is the last entry of `known` that is not in `taken`.
pub open spec fn is_last_left(known: Seq<usize>, taken: Seq<usize>, x: usize) -> bool {
    &&& !taken.contains(x)
    &&& exists|p: int|
        0 <= p < known.len() && #[trigger] known[p] == x && forall|q: int|
            p < q < known.len() ==> taken.contains(#[trigger] known[q])
}

/// Whether `at` are the last places in `users` of the entries of `some`, in ascending order.
pub open spec fn last_named_at(users: Seq<usize>, some: Seq<usize>, at: Seq<int>) -> bool {
    &&& at.len() == some.len()
    &&& forall|i: int|
        0 <= i < some.len() ==> 0 <= #[trigger] at[i] < users.len() && users[at[i]] == some[i]
            && !users.skip(at[i] + 1).contains(some[i])
    &&& forall|i: int, j: int| 0 <= i < j < at.len() ==> #[trigger] at[i] < #[trigger] at[j]
}

/// How a load order comes about.
pub struct Schedule {
    /// All that becomes loadable, in that order.
    pub made: Seq<usize>,
    /// The same, in the order in which it is taken as loaded.
    pub taken: Seq<usize>,
    /// How much is loadable when so many are taken as loaded.
    pub marks: Seq<nat>,
}

/// Whether the step at `k` is right: of what is loadable and not yet taken the last is
/// taken. What becomes loadable by that, and only that, is appended, in the order in
/// which it was last linked to it.
pub open spec fn is_step(g: GraphModel, s: Schedule, k: int) -> bool {
    let before = s.taken.take(k);
    let new = s.made.subrange(s.marks[k] as int, s.marks[k + 1] as int);
    &&& s.marks[k] <= s.marks[k + 1] <= s.made.len()
    &&& is_last_left(s.made.take(s.marks[k] as int), before, s.taken[k])
    &&& forall|x: usize| #[trigger]
        new.contains(x) <==> (loadable(g, before.push(s.taken[k]), x) && !loadable(g, before, x))
    &&& exists|at: Seq<int>| last_named_at(g.reverse[s.taken[k] as int], new, at)
}

/// Whether a schedule starts with what depends on nothing, in ascending order, and goes
/// on by right steps.
pub open spec fn is_begun(g: GraphModel, s: Schedule) -> bool {
    let first = s.made.take(s.marks[0] as int);
    &&& s.marks.len() == s.taken.len() + 1
    &&& s.marks[0] <= s.made.len()
    &&& s.marks[s.taken.len() as int] == s.made.len()
    &&& s.made.no_duplicates()
    &&& forall|x: usize| #[trigger] first.contains(x) <==> loadable(g, Seq::empty(), x)
    &&& ascending(g.nodes, first)
    &&& forall|k: int| 0 <= k < s.taken.len() ==> #[trigger] is_step(g, s, k)
}

/// Whether a schedule is right, and goes on until nothing is left.
pub open spec fn is_schedule(g: GraphModel, s: Schedule) -> bool {
    &&& is_begun(g, s)
    &&& forall|x: usize| #[trigger] s.made.contains(x) ==> s.taken.contains(x)
}

/// What does not occur is not there.
proof fn lemma_times_zero(s: Seq<usize>, x: usize)
    ensures
        times(s, x) == 0 ==> !s.contains(x),
    decreases s.len(),
{
    if s.len() > 0 {
        let front = s.drop_last();
        lemma_times_zero(front, x);
        if s.contains(x) && times(s, x) == 0 {
            let i = choose|i: int| 0 <= i < s.len() && s[i] == x;
            assert(front[i] == x);
        }
    }
}

/// What accounting for dependencies appends.
proof fn lemma_less_made(g: GraphModel, st: OrderModel, users: Seq<usize>) -> (new: (
    Seq<usize>,
    Seq<int>,
))
    requires
        g.wf(),
        forall|i: int| 0 <= i < users.len() ==> #[trigger] users[i] < g.nodes.len(),
        order_inv(g, st, users),
    ensures
        st.less(users).made == st.made + new.0,
        st.less(users).ready == st.ready + new.0,
        st.less(users).done == st.done,
        last_named_at(users, new.0, new.1),
    decreases users.len(),
{
    if users.len() == 0 {
        let none = Seq::<usize>::empty();
        assert(st.made + none =~= st.made);
        assert(st.ready + none =~= st.ready);
        (none, Seq::empty())
    } else {
        let user = users[0];
        let rest = users.drop_first();
        let one = st.less_one(user);
        lemma_less_one_inv(g, st, users);
        assert forall|i: int| 0 <= i < rest.len() implies #[trigger] rest[i] < g.nodes.len() by {
            assert(rest[i] == users[i + 1]);
        }
        let (some, later) = lemma_less_made(g, one, rest);
        let shifted = later.map_values(|p: int| p + 1);
        assert forall|i: int| 0 <= i < some.len() implies 0 <= #[trigger] shifted[i] < users.len()
            && users[shifted[i]] == some[i] && !users.skip(shifted[i] + 1).contains(some[i]) by {
            assert(0 <= later[i] < rest.len());
            assert(rest[later[i]] == users[later[i] + 1]);
            assert(users.skip(shifted[i] + 1) =~= rest.skip(later[i] + 1));
        }
        assert forall|i: int, j: int| 0 <= i < j < shifted.len() implies #[trigger] shifted[i]
            < #[trigger] shifted[j] by {
            assert(later[i] < later[j]);
        }
        if st.counts[user as int] - 1 == 0 {
            let new = seq![user] + some;
            let at = seq![0int] + shifted;
            lemma_times_first(users, user);
            assert(st.counts[user as int] == unmet(g.deps[user as int], st.done) + times(users, user));
            lemma_times_zero(rest, user);
            assert(users.skip(1) =~= rest);
            assert forall|i: int| 0 <= i < new.len() implies 0 <= #[trigger] at[i] < users.len()
                && users[at[i]] == new[i] && !users.skip(at[i] + 1).contains(new[i]) by {
                if i > 0 {
                    assert(at[i] == shifted[i - 1]);
                    assert(new[i] == some[i - 1]);
                }
            }
            assert forall|i: int, j: int| 0 <= i < j < at.len() implies #[trigger] at[i]
                < #[trigger] at[j] by {
                assert(at[j] == shifted[j - 1]);
                if i > 0 {
                    assert(at[i] == shifted[i - 1]);
                }
            }
            assert(st.made.push(user) + some =~= st.made + new);
            assert(st.ready.push(user) + some =~= st.ready + new);
            (new, at)
        } else {
            (some, shifted)
        }
    }
}

/// Whether `at` are the places in `made` of what is ready, in ascending order.
spec fn ready_at(made: Seq<usize>, ready: Seq<usize>, at: Seq<int>) -> bool {
    &&& at.len() == ready.len()
    &&& forall|i: int| 0 <= i < at.len() ==> 0 <= #[trigger] at[i] < made.len() && made[at[i]] == ready[i]
    &&& forall|i: int, j: int| 0 <= i < j < at.len() ==> #[trigger] at[i] < #[trigger] at[j]
}

/// What is found loadable is loadable.
proof fn lemma_made_loadable(g: GraphModel, st: OrderModel, taken: Seq<usize>, x: usize)
    requires
        order_inv(g, st, Seq::empty()),
        forall|y: usize| #[trigger] taken.contains(y) <==> st.done.contains(y),
    ensures
        st.made.contains(x) <==> loadable(g, taken, x),
{
    assert(st.made.contains(x) <==> (x < g.nodes.len() && st.counts[x as int] == 0));
    if x < g.nodes.len() {
        assert(st.counts[x as int] == unmet(g.deps[x as int], st.done) + times(Seq::empty(), x));
        lemma_unmet_zero(g.deps[x as int], st.done);
    }
}

/// The last that is ready is the last that is left.
proof fn lemma_last_left(
    g: GraphModel,
    st: OrderModel,
    taken: Seq<usize>,
    at: Seq<int>,
)
    requires
        order_inv(g, st, Seq::empty()),
        forall|y: usize| #[trigger] taken.contains(y) <==> st.done.contains(y),
        ready_at(st.made, st.ready, at),
        st.ready.len() > 0,
    ensures
        is_last_left(st.made, taken, st.ready.last()),
{
    let u = st.ready.last();
    let p = at[at.len() - 1];
    assert(st.made[p] == u);
    assert(st.ready.contains(u));
    assert forall|q: int| p < q < st.made.len() implies taken.contains(#[trigger] st.made[q]) by {
        let y = st.made[q];
        assert(st.made.contains(y));
        if !st.done.contains(y) {
            assert(st.ready.contains(y));
            let i = choose|i: int| 0 <= i < st.ready.len() && st.ready[i] == y;
            assert(st.made[at[i]] == y);
            assert(at[i] == q);
            if i < at.len() - 1 {
                assert(at[i] < at[at.len() - 1]);
            }
        }
    }
}

/// Steps stay right when a schedule goes on.
proof fn lemma_steps_stay(g: GraphModel, s: Schedule, u: usize, new: Seq<usize>)
    requires
        is_begun(g, s),
        (s.made + new).no_duplicates(),
    ensures
        ({
            let later = Schedule {
                made: s.made + new,
                taken: s.taken.push(u),
                marks: s.marks.push((s.made + new).len()),
            };
            &&& forall|k: int| 0 <= k < s.taken.len() ==> #[trigger] is_step(g, later, k)
            &&& later.made.take(later.marks[0] as int) == s.made.take(s.marks[0] as int)
        }),
{
    let later = Schedule {
        made: s.made + new,
        taken: s.taken.push(u),
        marks: s.marks.push((s.made + new).len()),
    };
    assert forall|k: int| 0 <= k < s.taken.len() implies #[trigger] is_step(g, later, k) by {
        assert(is_step(g, s, k));
        assert(later.marks[k] == s.marks[k]);
        assert(later.marks[k + 1] == s.marks[k + 1]);
        assert(later.taken[k] == s.taken[k]);
        assert(later.taken.take(k) =~= s.taken.take(k));
        assert(later.made.take(s.marks[k] as int) =~= s.made.take(s.marks[k] as int));
        assert(later.made.subrange(s.marks[k] as int, s.marks[k + 1] as int) =~= s.made.subrange(
            s.marks[k] as int,
            s.marks[k + 1] as int,
        ));
    }
    assert(later.marks[0] == s.marks[0]);
    assert(later.made.take(s.marks[0] as int) =~= s.made.take(s.marks[0] as int));
}

/// A schedule that has begun goes on to its end.
proof fn lemma_schedule_on(g: GraphModel, st: OrderModel, s: Schedule, at: Seq<int>) -> (all:
    Schedule)
    requires
        g.wf(),
        order_inv(g, st, Seq::empty()),
        is_begun(g, s),
        s.made == st.made,
        forall|y: usize| #[trigger] s.taken.contains(y) <==> st.done.contains(y),
        ready_at(st.made, st.ready, at),
    ensures
        all.made == order_end(g, st).made,
        is_schedule(g, all),
    decreases st.to_take(),
{
    if st.ready.len() == 0 {
        assert forall|x: usize| #[trigger] s.made.contains(x) implies s.taken.contains(x) by {
            assert(!st.ready.contains(x));
        }
        s
    } else {
        let u = st.ready.last();
        let users = g.reverse[u as int];
        lemma_taken_inv(g, st);
        let (new, named) = lemma_less_made(g, st.taken(), users);
        lemma_less_inv(g, st.taken(), users);
        lemma_less_to_take(st.taken(), users);
        let next = st.taken().less(users);
        let k = s.taken.len() as int;
        let later = Schedule {
            made: s.made + new,
            taken: s.taken.push(u),
            marks: s.marks.push((s.made + new).len()),
        };
        lemma_steps_stay(g, s, u, new);
        lemma_last_left(g, st, s.taken, at);
        assert forall|y: usize| #[trigger] later.taken.contains(y) <==> next.done.contains(y) by {
            crate::order_laws::lemma_push_contains(s.taken, u, y);
            assert(s.taken.contains(y) <==> st.done.contains(y));
        }
        assert(is_step(g, later, k)) by {
            let before = later.taken.take(k);
            assert(before =~= s.taken);
            assert(later.marks[k] == s.made.len());
            assert(later.marks[k + 1] == later.made.len());
            assert(later.made.take(s.made.len() as int) =~= s.made);
            let appended = later.made.subrange(later.marks[k] as int, later.marks[k + 1] as int);
            assert(appended =~= new);
            assert forall|x: usize| #[trigger]
                appended.contains(x) <==> (loadable(g, before.push(u), x) && !loadable(g, before, x)) by {
                lemma_made_loadable(g, st, s.taken, x);
                lemma_made_loadable(g, next, later.taken, x);
                if new.contains(x) {
                    let i = choose|i: int| 0 <= i < new.len() && new[i] == x;
                    assert(next.made[s.made.len() + i] == x);
                    if s.made.contains(x) {
                        let j = choose|j: int| 0 <= j < s.made.len() && s.made[j] == x;
                        assert(next.made[j] == x);
                    }
                }
                if next.made.contains(x) && !s.made.contains(x) {
                    let i = choose|i: int| 0 <= i < next.made.len() && next.made[i] == x;
                    if i < s.made.len() {
                        assert(s.made[i] == x);
                    }
                    assert(new[i - s.made.len()] == x);
                }
            }
            assert(last_named_at(g.reverse[later.taken[k] as int], appended, named));
        }
        assert(is_begun(g, later)) by {
            assert(later.marks[0] == s.marks[0]);
            assert forall|i: int| 0 <= i < later.taken.len() implies #[trigger] is_step(g, later, i) by {
                if i < k {
                    assert(is_step(g, later, i));
                }
            }
        }
        let longer = at.drop_last() + Seq::new(new.len(), |i: int| s.made.len() + i);
        assert(ready_at(next.made, next.ready, longer)) by {
            assert forall|i: int| 0 <= i < longer.len() implies 0 <= #[trigger] longer[i]
                < next.made.len() && next.made[longer[i]] == next.ready[i] by {
                if i < at.len() - 1 {
                    assert(longer[i] == at[i]);
                    assert(next.ready[i] == st.ready[i]);
                }
            }
            assert forall|i: int, j: int| 0 <= i < j < longer.len() implies #[trigger] longer[i]
                < #[trigger] longer[j] by {
                if i < at.len() - 1 {
                    assert(longer[i] == at[i]);
                    assert(at[i] < st.made.len());
                    if j < at.len() - 1 {
                        assert(longer[j] == at[j]);
                    }
                }
            }
        }
        lemma_schedule_on(g, next, later, longer)
    }
}

/// What is left without the base is what has another URL, in its order.
proof fn lemma_without_base_filters(nodes: Seq<NodeModel>, made: Seq<usize>, base_url: Seq<char>)
    ensures
        without_base(nodes, made, base_url) == made.filter(
            |x: usize| nodes[x as int].info.url != base_url,
        ),
    decreases made.len(),
{
    reveal(Seq::filter);
    if made.len() > 0 {
        lemma_without_base_filters(nodes, made.drop_last(), base_url);
    }
}

/// The order in which the libraries of a graph are loaded, exactly. First comes what
/// depends on nothing, in the order of the manifests. Then, of all that is loadable and
/// not yet taken as loaded, the one that became so last is taken, and what becomes
/// loadable by that is appended in the order in which it was last linked to it. The
/// manifests with the base URL are left out at the end.
pub proof fn load_order_takes_the_last_first(g: GraphModel, base_url: Seq<char>) -> (s: Schedule)
    requires
        g.wf(),
    ensures
        is_schedule(g, s),
        order_of(g, base_url) is None <==> s.made.len() < g.nodes.len(),
        order_of(g, base_url) matches Some(order) ==> order == s.made.filter(
            |x: usize| g.nodes[x as int].info.url != base_url,
        ),
{
    let st = order_start(g);
    let s = Schedule { made: st.made, taken: Seq::empty(), marks: seq![st.made.len()] };
    lemma_start_inv(g);
    load_order_starts_sorted(g);
    assert(is_begun(g, s)) by {
        let first = s.made.take(s.marks[0] as int);
        assert(first =~= st.made);
        assert forall|x: usize| #[trigger] first.contains(x) <==> loadable(g, Seq::empty(), x) by {
            lemma_made_loadable(g, st, Seq::empty(), x);
        }
    }
    let at = Seq::new(st.ready.len(), |i: int| i);
    let all = lemma_schedule_on(g, st, s, at);
    lemma_without_base_filters(g.nodes, all.made, base_url);
    all
}

} // verus!
