//! The order of manifests, and what is sorted by it.
use vstd::prelude::*;
use vstd::utf8::encode_utf8;

use crate::graph::{GraphModel, NodeModel};
use crate::manifest::{info_before, InfoModel};
use crate::order::{free_places, order_start, put_in_order, sorted_places};
use crate::order_laws::lemma_sorted_places;
use crate::pack_url::url_before;
use crate::text::bytes_before;

verus! {

/// Byte strings are ordered strictly and totally.
pub proof fn bytes_are_ordered(a: Seq<u8>, b: Seq<u8>)
    ensures
        bytes_before(a, b) ==> a != b && !bytes_before(b, a),
        a != b ==> bytes_before(a, b) || bytes_before(b, a),
    decreases a.len(),
{
    if a.len() > 0 && b.len() > 0 {
        bytes_are_ordered(a.drop_first(), b.drop_first());
        if a[0] == b[0] && a.drop_first() == b.drop_first() {
            assert(a =~= seq![a[0]] + a.drop_first());
            assert(b =~= seq![b[0]] + b.drop_first());
        }
    } else if a.len() == 0 && b.len() == 0 {
        assert(a =~= b);
    }
}

/// What comes before a byte string comes before all that come after it.
pub proof fn bytes_order_carries_on(a: Seq<u8>, b: Seq<u8>, c: Seq<u8>)
    requires
        bytes_before(a, b),
        bytes_before(b, c),
    ensures
        bytes_before(a, c),
    decreases a.len(),
{
    if a.len() > 0 && a[0] == b[0] && b[0] == c[0] {
        bytes_order_carries_on(a.drop_first(), b.drop_first(), c.drop_first());
    }
}

/// URLs are ordered strictly and totally.
pub proof fn urls_are_ordered(a: Seq<char>, b: Seq<char>)
    ensures
        url_before(a, b) ==> a != b && !url_before(b, a),
        a != b ==> url_before(a, b) || url_before(b, a),
{
    bytes_are_ordered(encode_utf8(a), encode_utf8(b));
    vstd::utf8::encode_utf8_decode_utf8(a);
    vstd::utf8::encode_utf8_decode_utf8(b);
}

/// Manifests are ordered strictly and totally.
pub proof fn infos_are_ordered(a: InfoModel, b: InfoModel)
    ensures
        info_before(a, b) ==> a != b && !info_before(b, a),
        a != b ==> info_before(a, b) || info_before(b, a),
{
    urls_are_ordered(a.url, b.url);
    bytes_are_ordered(a.path, b.path);
}

/// What comes before a manifest comes before all that come after it.
pub proof fn infos_order_carries_on(a: InfoModel, b: InfoModel, c: InfoModel)
    requires
        info_before(a, b),
        info_before(b, c),
    ensures
        info_before(a, c),
{
    if a.url == b.url && b.url == c.url {
        bytes_order_carries_on(a.path, b.path, c.path);
    } else if a.url != b.url && b.url != c.url {
        if a.url == c.url {
            urls_are_ordered(a.url, b.url);
        } else {
            bytes_order_carries_on(encode_utf8(a.url), encode_utf8(b.url), encode_utf8(c.url));
        }
    }
}

/// Whether the manifests at `places` are in ascending order.
pub open spec fn ascending(nodes: Seq<NodeModel>, places: Seq<usize>) -> bool {
    forall|i: int, j: int|
        0 <= i < j < places.len() ==> info_before(
            nodes[#[trigger] places[i] as int].info,
            nodes[#[trigger] places[j] as int].info,
        )
}

/// Putting a place where it belongs keeps the order.
proof fn lemma_put_ascending(nodes: Seq<NodeModel>, sorted: Seq<usize>, x: usize)
    requires
        ascending(nodes, sorted),
        forall|i: int|
            0 <= i < sorted.len() ==> nodes[#[trigger] sorted[i] as int].info != nodes[x as int].info,
    ensures
        ascending(nodes, put_in_order(nodes, sorted, x)),
        forall|y: usize| #[trigger]
            put_in_order(nodes, sorted, x).contains(y) ==> y == x || sorted.contains(y),
    decreases sorted.len(),
{
    let put = put_in_order(nodes, sorted, x);
    let info = nodes[x as int].info;
    if sorted.len() == 0 {
    } else if info_before(info, nodes[sorted[0] as int].info) {
        assert forall|i: int, j: int| 0 <= i < j < put.len() implies info_before(
            nodes[#[trigger] put[i] as int].info,
            nodes[#[trigger] put[j] as int].info,
        ) by {
            assert(put[j] == sorted[j - 1]);
            if i > 0 {
                assert(put[i] == sorted[i - 1]);
            } else if j > 1 {
                infos_order_carries_on(
                    info,
                    nodes[sorted[0] as int].info,
                    nodes[sorted[j - 1] as int].info,
                );
            }
        }
        assert forall|y: usize| #[trigger] put.contains(y) implies y == x || sorted.contains(y) by {
            let i = choose|i: int| 0 <= i < put.len() && put[i] == y;
            if i > 0 {
                assert(sorted[i - 1] == y);
            }
        }
    } else {
        let rest = sorted.drop_first();
        assert forall|i: int| 0 <= i < rest.len() implies nodes[#[trigger] rest[i] as int].info != info by {
            assert(rest[i] == sorted[i + 1]);
        }
        assert forall|i: int, j: int| 0 <= i < j < rest.len() implies info_before(
            nodes[#[trigger] rest[i] as int].info,
            nodes[#[trigger] rest[j] as int].info,
        ) by {
            assert(rest[i] == sorted[i + 1] && rest[j] == sorted[j + 1]);
        }
        lemma_put_ascending(nodes, rest, x);
        let tail = put_in_order(nodes, rest, x);
        let first = nodes[sorted[0] as int].info;
        assert forall|y: usize| #[trigger] tail.contains(y) implies info_before(
            first,
            nodes[y as int].info,
        ) && (y == x || sorted.contains(y)) by {
            if y == x {
                assert(first != info);
                infos_are_ordered(info, first);
            } else {
                let i = choose|i: int| 0 <= i < rest.len() && rest[i] == y;
                assert(sorted[i + 1] == y);
            }
        }
        assert forall|i: int, j: int| 0 <= i < j < put.len() implies info_before(
            nodes[#[trigger] put[i] as int].info,
            nodes[#[trigger] put[j] as int].info,
        ) by {
            assert(put[j] == tail[j - 1]);
            assert(tail.contains(tail[j - 1]));
            if i > 0 {
                assert(put[i] == tail[i - 1]);
            }
        }
        assert forall|y: usize| #[trigger] put.contains(y) implies y == x || sorted.contains(y) by {
            let i = choose|i: int| 0 <= i < put.len() && put[i] == y;
            if i > 0 {
                assert(tail[i - 1] == y);
                assert(tail.contains(y));
            } else {
                assert(sorted[0] == y);
            }
        }
    }
}

/// The places of different manifests are sorted into ascending order.
pub proof fn places_are_sorted(nodes: Seq<NodeModel>)
    requires
        nodes.len() <= usize::MAX,
        forall|i: int, j: int|
            0 <= i < j < nodes.len() ==> (#[trigger] nodes[i]).info != (#[trigger] nodes[j]).info,
    ensures
        ascending(nodes, sorted_places(nodes)),
    decreases nodes.len(),
{
    if nodes.len() > 0 {
        let front = nodes.drop_last();
        let sorted = sorted_places(front);
        places_are_sorted(front);
        lemma_sorted_places(front);
        assert forall|i: int| 0 <= i < sorted.len() implies #[trigger] sorted[i] < front.len() by {
            assert(sorted.contains(sorted[i]));
        }
        lemma_put_ascending(nodes, sorted, (nodes.len() - 1) as usize);
    }
}

/// What is free among ascending places is ascending.
proof fn lemma_free_ascending(nodes: Seq<NodeModel>, deps: Seq<Seq<usize>>, places: Seq<usize>)
    requires
        ascending(nodes, places),
    ensures
        ascending(nodes, free_places(deps, places)),
        forall|y: usize| #[trigger] free_places(deps, places).contains(y) ==> places.contains(y),
    decreases places.len(),
{
    let free = free_places(deps, places);
    if places.len() > 0 {
        let front = places.drop_last();
        let before = free_places(deps, front);
        lemma_free_ascending(nodes, deps, front);
        assert forall|i: int, j: int| 0 <= i < j < free.len() implies info_before(
            nodes[#[trigger] free[i] as int].info,
            nodes[#[trigger] free[j] as int].info,
        ) by {
            assert(free[i] == before[i]);
            assert(before.contains(before[i]));
            if j < before.len() {
                assert(free[j] == before[j]);
            } else {
                let k = choose|k: int| 0 <= k < front.len() && front[k] == before[i];
                assert(places[k] == free[i]);
            }
        }
        assert forall|y: usize| #[trigger] free.contains(y) implies places.contains(y) by {
            let i = choose|i: int| 0 <= i < free.len() && free[i] == y;
            if i < before.len() {
                assert(before[i] == y);
                assert(before.contains(y));
                let k = choose|k: int| 0 <= k < front.len() && front[k] == y;
                assert(places[k] == y);
            } else {
                assert(places[places.len() - 1] == y);
            }
        }
    }
}

/// The load order starts with the manifests that depend on nothing, in ascending
/// order.
pub proof fn load_order_starts_sorted(g: GraphModel)
    requires
        g.wf(),
    ensures
        ascending(g.nodes, order_start(g).made),
{
    places_are_sorted(g.nodes);
    lemma_free_ascending(g.nodes, g.deps, sorted_places(g.nodes));
}

} // verus!
