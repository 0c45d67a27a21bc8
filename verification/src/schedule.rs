//! Scheduling of items that need each other.
//!
//! Nodes are texts, and each has a list of texts that it needs. A schedule places one node
//! after the other: always the least of those whose needs among the nodes are placed.
use crate::text::{
    precedes, same, text_lt, text_lt_irreflexive, text_lt_total, text_lt_transitive, texts,
};
use vstd::prelude::*;
use vstd::string::*;

verus! {

/// The texts of lists of strings.
pub open spec fn text_lists(v: Seq<Vec<String>>) -> Seq<Seq<Seq<char>>> {
    v.map_values(|list: Vec<String>| texts(list@))
}

/// Whether every need that is a node is placed.
pub open spec fn is_met(nodes: Seq<Seq<char>>, needs: Seq<Seq<char>>, placed: Seq<Seq<char>>) -> bool {
    forall|t: Seq<char>| #[trigger]
        needs.contains(t) && nodes.contains(t) ==> placed.contains(t)
}

/// Whether a node can be placed next.
pub open spec fn is_open(
    nodes: Seq<Seq<char>>,
    edges: Seq<Seq<Seq<char>>>,
    placed: Seq<Seq<char>>,
    i: int,
) -> bool {
    0 <= i < nodes.len() && !placed.contains(nodes[i]) && is_met(nodes, edges[i], placed)
}

/// Whether a node is the least that can be placed next.
pub open spec fn is_next(
    nodes: Seq<Seq<char>>,
    edges: Seq<Seq<Seq<char>>>,
    placed: Seq<Seq<char>>,
    name: Seq<char>,
) -> bool {
    &&& exists|i: int| #[trigger] is_open(nodes, edges, placed, i) && nodes[i] == name
    &&& forall|i: int| #[trigger] is_open(nodes, edges, placed, i) ==> !text_lt(nodes[i], name)
}

/// Whether each node of the order was the next one at its place.
pub open spec fn is_schedule(
    nodes: Seq<Seq<char>>,
    edges: Seq<Seq<Seq<char>>>,
    order: Seq<Seq<char>>,
) -> bool {
    forall|k: int|
        0 <= k < order.len() ==> is_next(nodes, edges, order.take(k), #[trigger] order[k])
}

/// Whether nothing more can be placed.
pub open spec fn is_stuck(
    nodes: Seq<Seq<char>>,
    edges: Seq<Seq<Seq<char>>>,
    order: Seq<Seq<char>>,
) -> bool {
    forall|i: int| !#[trigger] is_open(nodes, edges, order, i)
}

/// Whether every node is placed.
pub open spec fn covers(nodes: Seq<Seq<char>>, order: Seq<Seq<char>>) -> bool {
    forall|i: int| 0 <= i < nodes.len() ==> order.contains(#[trigger] nodes[i])
}

/// The nodes among the first `n` that are not placed.
pub open spec fn left_over(nodes: Seq<Seq<char>>, order: Seq<Seq<char>>, n: nat) -> Seq<Seq<char>>
    decreases n,
{
    if n == 0 || n > nodes.len() {
        Seq::empty()
    } else if order.contains(nodes[n - 1]) {
        left_over(nodes, order, (n - 1) as nat)
    } else {
        left_over(nodes, order, (n - 1) as nat).push(nodes[n - 1])
    }
}

/// There is one schedule that nothing can be added to.
pub proof fn schedule_is_unique(
    nodes: Seq<Seq<char>>,
    edges: Seq<Seq<Seq<char>>>,
    a: Seq<Seq<char>>,
    b: Seq<Seq<char>>,
)
    requires
        is_schedule(nodes, edges, a),
        is_stuck(nodes, edges, a),
        is_schedule(nodes, edges, b),
        is_stuck(nodes, edges, b),
    ensures
        a == b,
{
    let n: int = if a.len() < b.len() {
        a.len() as int
    } else {
        b.len() as int
    };
    schedules_agree(nodes, edges, a, b, n as nat);
    if a.len() < b.len() {
        assert(a =~= b.take(n));
        assert(is_next(nodes, edges, b.take(n), b[n]));
    } else if b.len() < a.len() {
        assert(b =~= a.take(n));
        assert(is_next(nodes, edges, a.take(n), a[n]));
    } else {
        assert(a =~= a.take(n));
        assert(b =~= b.take(n));
    }
}

proof fn schedules_agree(
    nodes: Seq<Seq<char>>,
    edges: Seq<Seq<Seq<char>>>,
    a: Seq<Seq<char>>,
    b: Seq<Seq<char>>,
    n: nat,
)
    requires
        is_schedule(nodes, edges, a),
        is_schedule(nodes, edges, b),
        n <= a.len(),
        n <= b.len(),
    ensures
        a.take(n as int) == b.take(n as int),
    decreases n,
{
    if n > 0 {
        let k = n - 1;
        schedules_agree(nodes, edges, a, b, k as nat);
        assert(is_next(nodes, edges, a.take(k), a[k]));
        assert(is_next(nodes, edges, b.take(k), b[k]));
        text_lt_total(a[k], b[k]);
        assert(a.take(n as int) =~= a.take(k).push(a[k]));
        assert(b.take(n as int) =~= b.take(k).push(b[k]));
    } else {
        assert(a.take(0) =~= b.take(0));
    }
}

/// Whether what the named node needs among the nodes is placed.
pub open spec fn has_needs(
    nodes: Seq<Seq<char>>,
    edges: Seq<Seq<Seq<char>>>,
    placed: Seq<Seq<char>>,
    name: Seq<char>,
) -> bool {
    exists|i: int|
        0 <= i < nodes.len() && nodes[i] == name && is_met(nodes, #[trigger] edges[i], placed)
}

/// What a scheduled node needs among the nodes is scheduled before it, and no node is
/// scheduled twice.
pub proof fn needs_come_first(
    nodes: Seq<Seq<char>>,
    edges: Seq<Seq<Seq<char>>>,
    order: Seq<Seq<char>>,
)
    requires
        is_schedule(nodes, edges, order),
    ensures
        order.no_duplicates(),
        forall|k: int|
            0 <= k < order.len() ==> has_needs(nodes, edges, order.take(k), #[trigger] order[k]),
{
    assert forall|k: int| 0 <= k < order.len() implies has_needs(
        nodes,
        edges,
        order.take(k),
        #[trigger] order[k],
    ) by {
        assert(is_next(nodes, edges, order.take(k), order[k]));
        let i = choose|i: int| #[trigger]
            is_open(nodes, edges, order.take(k), i) && nodes[i] == order[k];
        assert(is_met(nodes, edges[i], order.take(k)));
    }
    assert forall|j: int, k: int| 0 <= j < order.len() && 0 <= k < order.len() && j != k implies order[j]
        != order[k] by {
        let (lo, hi) = if j < k {
            (j, k)
        } else {
            (k, j)
        };
        assert(is_next(nodes, edges, order.take(hi), order[hi]));
        assert(order.take(hi)[lo] == order[lo]);
        assert(order.take(hi).contains(order[lo]));
    }
}

/// Whether each node of the trail needs the next one, and the last needs one of the trail.
pub open spec fn is_cycle_trail(
    nodes: Seq<Seq<char>>,
    edges: Seq<Seq<Seq<char>>>,
    trail: Seq<int>,
) -> bool {
    &&& trail.len() > 0
    &&& forall|k: int| 0 <= k < trail.len() ==> 0 <= #[trigger] trail[k] < nodes.len()
    &&& forall|k: int|
        0 < k < trail.len() ==> edges[trail[k - 1]].contains(nodes[#[trigger] trail[k]])
    &&& exists|k: int|
        0 <= k < trail.len() && edges[trail.last()].contains(nodes[#[trigger] trail[k]])
}

/// Where nodes need each other in a circle, not every node is scheduled.
pub proof fn circle_is_left_over(
    nodes: Seq<Seq<char>>,
    edges: Seq<Seq<Seq<char>>>,
    order: Seq<Seq<char>>,
    trail: Seq<int>,
)
    requires
        nodes.no_duplicates(),
        is_schedule(nodes, edges, order),
        is_cycle_trail(nodes, edges, trail),
    ensures
        !covers(nodes, order),
{
    if covers(nodes, order) {
        let back = choose|k: int|
            0 <= k < trail.len() && edges[trail.last()].contains(nodes[#[trigger] trail[k]]);
        trail_goes_back(nodes, edges, order, trail, back, trail.len() - 1);
        needs_come_first(nodes, edges, order);
        let last = order.index_of(nodes[trail.last()]);
        assert(order.contains(nodes[trail.last()]));
        earlier(nodes, edges, order, trail.last(), nodes[trail[back]]);
        assert(nodes.contains(nodes[trail[back]]));
    }
}

/// A need of a scheduled node has an earlier place.
pub(crate) proof fn earlier(
    nodes: Seq<Seq<char>>,
    edges: Seq<Seq<Seq<char>>>,
    order: Seq<Seq<char>>,
    i: int,
    need: Seq<char>,
)
    requires
        nodes.no_duplicates(),
        is_schedule(nodes, edges, order),
        0 <= i < nodes.len(),
        order.contains(nodes[i]),
        edges[i].contains(need),
        nodes.contains(need),
    ensures
        order.contains(need),
        order.index_of(need) < order.index_of(nodes[i]),
{
    needs_come_first(nodes, edges, order);
    let k = order.index_of(nodes[i]);
    assert(order[k] == nodes[i]);
    let j = choose|j: int|
        0 <= j < nodes.len() && nodes[j] == order[k] && is_met(
            nodes,
            #[trigger] edges[j],
            order.take(k),
        );
    assert(j == i);
    assert(order.take(k).contains(need));
    let at = order.take(k).index_of(need);
    assert(order[at] == need);
    assert(order.contains(need));
    assert(order.index_of(need) == at);
}

proof fn trail_goes_back(
    nodes: Seq<Seq<char>>,
    edges: Seq<Seq<Seq<char>>>,
    order: Seq<Seq<char>>,
    trail: Seq<int>,
    from: int,
    to: int,
)
    requires
        nodes.no_duplicates(),
        is_schedule(nodes, edges, order),
        is_cycle_trail(nodes, edges, trail),
        covers(nodes, order),
        0 <= from <= to < trail.len(),
    ensures
        order.index_of(nodes[trail[to]]) <= order.index_of(nodes[trail[from]]),
    decreases to - from,
{
    if from < to {
        trail_goes_back(nodes, edges, order, trail, from, to - 1);
        assert(order.contains(nodes[trail[to - 1]]));
        assert(edges[trail[to - 1]].contains(nodes[trail[to]]));
        assert(nodes.contains(nodes[trail[to]]));
        earlier(nodes, edges, order, trail[to - 1], nodes[trail[to]]);
    }
}

pub(crate) fn holds_text(list: &Vec<String>, text: &str) -> (r: bool)
    ensures
        r == texts(list@).contains(text@),
{
    let mut i: usize = 0;
    while i < list.len()
        invariant
            i <= list@.len(),
            forall|j: int| 0 <= j < i ==> #[trigger] texts(list@)[j] != text@,
        decreases list@.len() - i,
    {
        if same(list[i].as_str(), text) {
            assert(texts(list@)[i as int] == text@);
            return true;
        }
        i = i + 1;
    }
    false
}

/// A need that is a node and is not placed.
fn unmet(nodes: &Vec<String>, needs: &Vec<String>, placed: &Vec<String>) -> (r: Option<usize>)
    ensures
        match r {
            Some(k) => k < needs@.len() && texts(nodes@).contains(needs@[k as int]@) && !texts(
                placed@,
            ).contains(needs@[k as int]@),
            None => is_met(texts(nodes@), texts(needs@), texts(placed@)),
        },
{
    let mut i: usize = 0;
    while i < needs.len()
        invariant
            i <= needs@.len(),
            forall|j: int|
                0 <= j < i && texts(nodes@).contains(#[trigger] texts(needs@)[j]) ==> texts(
                    placed@,
                ).contains(texts(needs@)[j]),
        decreases needs@.len() - i,
    {
        let need = needs[i].as_str();
        assert(texts(needs@)[i as int] == need@);
        if holds_text(nodes, need) && !holds_text(placed, need) {
            return Some(i);
        }
        i = i + 1;
    }
    proof {
        assert forall|t: Seq<char>| #[trigger]
            texts(needs@).contains(t) && texts(nodes@).contains(t) implies texts(placed@).contains(
            t,
        ) by {
            let j = texts(needs@).index_of(t);
            assert(texts(needs@)[j] == t);
        }
    }
    None
}

/// The least node that can be placed next.
fn next_open(nodes: &Vec<String>, edges: &Vec<Vec<String>>, placed: &Vec<String>) -> (r: Option<
    usize,
>)
    requires
        nodes@.len() == edges@.len(),
    ensures
        match r {
            Some(i) => i < nodes@.len() && is_open(
                texts(nodes@),
                text_lists(edges@),
                texts(placed@),
                i as int,
            ) && is_next(
                texts(nodes@),
                text_lists(edges@),
                texts(placed@),
                nodes@[i as int]@,
            ),
            None => is_stuck(texts(nodes@), text_lists(edges@), texts(placed@)),
        },
{
    let ghost (ns, es, ps) = (texts(nodes@), text_lists(edges@), texts(placed@));
    let mut best: Option<usize> = None;
    let mut i: usize = 0;
    while i < nodes.len()
        invariant
            i <= nodes@.len(),
            nodes@.len() == edges@.len(),
            ns == texts(nodes@),
            es == text_lists(edges@),
            ps == texts(placed@),
            match best {
                Some(b) => b < i && is_open(ns, es, ps, b as int) && forall|j: int|
                    j < i && #[trigger] is_open(ns, es, ps, j) ==> !text_lt(ns[j], ns[b as int]),
                None => forall|j: int| j < i ==> !#[trigger] is_open(ns, es, ps, j),
            },
        decreases nodes@.len() - i,
    {
        assert(ns[i as int] == nodes@[i as int]@);
        assert(es[i as int] == texts(edges@[i as int]@));
        let free = match unmet(nodes, &edges[i], placed) {
            None => true,
            Some(k) => {
                assert(es[i as int][k as int] == edges@[i as int]@[k as int]@);
                assert(es[i as int].contains(edges@[i as int]@[k as int]@));
                false
            },
        };
        if !holds_text(placed, nodes[i].as_str()) && free {
            assert(is_open(ns, es, ps, i as int));
            proof {
                text_lt_irreflexive(ns[i as int]);
            }
            match best {
                None => {
                    best = Some(i);
                },
                Some(b) => {
                    assert(ns[b as int] == nodes@[b as int]@);
                    if precedes(nodes[i].as_str(), nodes[b].as_str()) {
                        proof {
                            assert forall|j: int| j < i + 1 && #[trigger] is_open(
                                ns,
                                es,
                                ps,
                                j,
                            ) implies !text_lt(ns[j], ns[i as int]) by {
                                if j < i && text_lt(ns[j], ns[i as int]) {
                                    text_lt_transitive(ns[j], ns[i as int], ns[b as int]);
                                }
                            }
                        }
                        best = Some(i);
                    }
                },
            }
        } else {
            assert(!is_open(ns, es, ps, i as int));
        }
        i = i + 1;
    }
    proof {
        assert forall|j: int| #[trigger] is_open(ns, es, ps, j) implies j < i by {}
    }
    best
}

/// Distinct nodes are no more than all.
proof fn distinct_are_no_more(order: Seq<Seq<char>>, nodes: Seq<Seq<char>>)
    requires
        order.no_duplicates(),
        forall|t: Seq<char>| #[trigger] order.contains(t) ==> nodes.contains(t),
    ensures
        order.len() <= nodes.len(),
{
    order.unique_seq_to_set();
    nodes.lemma_cardinality_of_set();
    assert(order.to_set().subset_of(nodes.to_set())) by {
        assert forall|t: Seq<char>| order.to_set().contains(t) implies nodes.to_set().contains(
            t,
        ) by {
            assert(order.contains(t));
        }
    }
    vstd::set_lib::lemma_len_subset(order.to_set(), nodes.to_set());
}

pub(crate) proof fn scheduled_are_nodes(
    nodes: Seq<Seq<char>>,
    edges: Seq<Seq<Seq<char>>>,
    order: Seq<Seq<char>>,
)
    requires
        is_schedule(nodes, edges, order),
    ensures
        forall|t: Seq<char>| #[trigger] order.contains(t) ==> nodes.contains(t),
        order.len() <= nodes.len(),
{
    needs_come_first(nodes, edges, order);
    assert forall|t: Seq<char>| #[trigger] order.contains(t) implies nodes.contains(t) by {
        let k = order.index_of(t);
        assert(is_next(nodes, edges, order.take(k), order[k]));
        let i = choose|i: int| #[trigger]
            is_open(nodes, edges, order.take(k), i) && nodes[i] == order[k];
        assert(nodes[i] == t);
    }
    distinct_are_no_more(order, nodes);
}

/// A complete schedule of distinct nodes has each of them.
pub proof fn complete_has_all(
    nodes: Seq<Seq<char>>,
    edges: Seq<Seq<Seq<char>>>,
    order: Seq<Seq<char>>,
)
    requires
        nodes.no_duplicates(),
        is_schedule(nodes, edges, order),
    ensures
        covers(nodes, order) <==> order.len() == nodes.len(),
{
    scheduled_are_nodes(nodes, edges, order);
    needs_come_first(nodes, edges, order);
    if covers(nodes, order) {
        assert forall|t: Seq<char>| #[trigger] nodes.contains(t) implies order.contains(t) by {
            let i = nodes.index_of(t);
            assert(order.contains(nodes[i]));
        }
        distinct_are_no_more(nodes, order);
    } else {
        let i = choose|i: int| 0 <= i < nodes.len() && !order.contains(#[trigger] nodes[i]);
        let more = order.push(nodes[i]);
        assert(more.no_duplicates()) by {
            assert forall|j: int, k: int| 0 <= j < more.len() && 0 <= k < more.len() && j != k implies more[j]
                != more[k] by {
                if j < order.len() {
                    assert(order.contains(order[j]));
                }
                if k < order.len() {
                    assert(order.contains(order[k]));
                }
            }
        }
        assert forall|t: Seq<char>| #[trigger] more.contains(t) implies nodes.contains(t) by {
            let k = more.index_of(t);
            if k < order.len() {
                assert(order[k] == t);
                assert(order.contains(t));
            }
        }
        distinct_are_no_more(more, nodes);
    }
}

/// Schedules nodes until nothing more can be placed.
pub fn schedule(nodes: &Vec<String>, edges: &Vec<Vec<String>>) -> (r: Vec<String>)
    requires
        nodes@.len() == edges@.len(),
    ensures
        is_schedule(texts(nodes@), text_lists(edges@), texts(r@)),
        is_stuck(texts(nodes@), text_lists(edges@), texts(r@)),
{
    let ghost (ns, es) = (texts(nodes@), text_lists(edges@));
    let mut order: Vec<String> = Vec::new();
    loop
        invariant
            nodes@.len() == edges@.len(),
            ns == texts(nodes@),
            es == text_lists(edges@),
            is_schedule(ns, es, texts(order@)),
            order@.len() <= nodes@.len(),
        ensures
            is_stuck(ns, es, texts(order@)),
        decreases nodes@.len() - order@.len(),
    {
        let next: usize = match next_open(nodes, edges, &order) {
            Some(next) => next,
            None => {
                break ;
            },
        };
        let ghost before = texts(order@);
        order.push(nodes[next].clone());
        proof {
            let after = texts(order@);
            assert(after =~= before.push(nodes@[next as int]@));
            assert forall|k: int| 0 <= k < after.len() implies is_next(
                ns,
                es,
                after.take(k),
                #[trigger] after[k],
            ) by {
                assert(after.take(k) =~= before.take(k));
                if k < before.len() {
                    assert(after[k] == before[k]);
                } else {
                    assert(before.take(k) =~= before);
                }
            }
            scheduled_are_nodes(ns, es, after);
        }
    }
    order
}

/// The first node that is not placed.
pub(crate) fn first_left(nodes: &Vec<String>, order: &Vec<String>) -> (r: Option<usize>)
    ensures
        match r {
            Some(i) => i < nodes@.len() && !texts(order@).contains(nodes@[i as int]@),
            None => covers(texts(nodes@), texts(order@)),
        },
{
    let mut i: usize = 0;
    while i < nodes.len()
        invariant
            i <= nodes@.len(),
            forall|j: int|
                0 <= j < i ==> texts(order@).contains(#[trigger] texts(nodes@)[j]),
        decreases nodes@.len() - i,
    {
        assert(texts(nodes@)[i as int] == nodes@[i as int]@);
        if !holds_text(order, nodes[i].as_str()) {
            return Some(i);
        }
        i = i + 1;
    }
    None
}

/// The nodes that are not placed.
pub(crate) fn nodes_left(nodes: &Vec<String>, order: &Vec<String>) -> (r: Vec<String>)
    ensures
        texts(r@) == left_over(texts(nodes@), texts(order@), nodes@.len()),
{
    let ghost (ns, os) = (texts(nodes@), texts(order@));
    let mut out: Vec<String> = Vec::new();
    let mut i: usize = 0;
    assert(texts(out@) =~= left_over(ns, os, 0));
    while i < nodes.len()
        invariant
            i <= nodes@.len(),
            ns == texts(nodes@),
            os == texts(order@),
            texts(out@) == left_over(ns, os, i as nat),
        decreases nodes@.len() - i,
    {
        assert(ns[i as int] == nodes@[i as int]@);
        if !holds_text(order, nodes[i].as_str()) {
            out.push(nodes[i].clone());
            assert(texts(out@) =~= left_over(ns, os, (i + 1) as nat));
        }
        i = i + 1;
    }
    out
}

fn index_of_text(list: &Vec<String>, text: &str) -> (r: usize)
    requires
        texts(list@).contains(text@),
    ensures
        r < list@.len(),
        list@[r as int]@ == text@,
{
    let ghost at = texts(list@).index_of(text@);
    let mut i: usize = 0;
    while i < list.len()
        invariant
            i <= list@.len(),
            0 <= at < list@.len(),
            texts(list@)[at] == text@,
            i <= at,
        decreases list@.len() - i,
    {
        assert(texts(list@)[i as int] == list@[i as int]@);
        if same(list[i].as_str(), text) {
            return i;
        }
        i = i + 1;
    }
    proof {
        assert(false);
    }
    0
}

pub open spec fn trail_of(trail: Seq<usize>) -> Seq<int> {
    trail.map_values(|i: usize| i as int)
}

fn holds_index(list: &Vec<usize>, index: usize) -> (r: bool)
    ensures
        r == list@.contains(index),
{
    let mut i: usize = 0;
    while i < list.len()
        invariant
            i <= list@.len(),
            forall|j: int| 0 <= j < i ==> list@[j] != index,
        decreases list@.len() - i,
    {
        if list[i] == index {
            return true;
        }
        i = i + 1;
    }
    false
}

proof fn distinct_indices(trail: Seq<usize>, n: nat)
    requires
        trail.no_duplicates(),
        forall|k: int| 0 <= k < trail.len() ==> #[trigger] trail[k] < n,
    ensures
        trail.len() <= n,
{
    let t = trail_of(trail);
    let all = Set::new(|i: int| 0 <= i < n);
    vstd::set_lib::lemma_int_range(0, n as int);
    assert(all =~= vstd::set_lib::set_int_range(0, n as int));
    assert(t.no_duplicates());
    t.unique_seq_to_set();
    assert(t.to_set().subset_of(all)) by {
        assert forall|i: int| t.to_set().contains(i) implies all.contains(i) by {
            let k = t.index_of(i);
            assert(t[k] == i);
            assert(trail[k] < n);
        }
    }
    vstd::set_lib::lemma_len_subset(t.to_set(), all);
}

/// Nodes that need each other in a circle, with the nodes on the way to it.
pub(crate) fn find_circle(
    nodes: &Vec<String>,
    edges: &Vec<Vec<String>>,
    order: &Vec<String>,
    start: usize,
) -> (r: Vec<usize>)
    requires
        nodes@.len() == edges@.len(),
        is_stuck(texts(nodes@), text_lists(edges@), texts(order@)),
        start < nodes@.len(),
        !texts(order@).contains(nodes@[start as int]@),
    ensures
        is_cycle_trail(texts(nodes@), text_lists(edges@), trail_of(r@)),
        r@.no_duplicates(),
        forall|k: int| 0 <= k < r@.len() ==> #[trigger] r@[k] < nodes@.len(),
{
    let ghost (ns, es, os) = (texts(nodes@), text_lists(edges@), texts(order@));
    let mut trail: Vec<usize> = Vec::new();
    trail.push(start);
    let mut at: usize = start;
    loop
        invariant
            nodes@.len() == edges@.len(),
            ns == texts(nodes@),
            es == text_lists(edges@),
            os == texts(order@),
            is_stuck(ns, es, os),
            at < nodes@.len(),
            !os.contains(ns[at as int]),
            trail@.len() > 0,
            trail@.last() == at,
            trail@.no_duplicates(),
            forall|k: int| 0 <= k < trail@.len() ==> #[trigger] trail@[k] < nodes@.len(),
            forall|k: int|
                0 < k < trail@.len() ==> es[trail@[k - 1] as int].contains(
                    ns[#[trigger] trail@[k] as int],
                ),
        ensures
            exists|k: int|
                0 <= k < trail@.len() && es[at as int].contains(
                    ns[#[trigger] trail@[k] as int],
                ),
        decreases nodes@.len() + 1 - trail@.len(),
    {
        assert(!is_open(ns, es, os, at as int));
        assert(es[at as int] == texts(edges@[at as int]@));
        let need: usize = match unmet(nodes, &edges[at], order) {
            Some(need) => need,
            None => {
                proof {
                    assert(false);
                }
                break ;
            },
        };
        let text = edges[at][need].as_str();
        assert(es[at as int][need as int] == text@);
        assert(es[at as int].contains(text@));
        let next: usize = index_of_text(nodes, text);
        assert(ns[next as int] == text@);
        if holds_index(&trail, next) {
            proof {
                let k = trail@.index_of(next);
                assert(es[at as int].contains(ns[trail@[k] as int]));
            }
            break ;
        }
        let ghost before = trail@;
        trail.push(next);
        at = next;
        proof {
            assert(trail@.no_duplicates()) by {
                assert forall|j: int, k: int| 0 <= j < trail@.len() && 0 <= k < trail@.len() && j
                    != k implies trail@[j] != trail@[k] by {
                    if j < before.len() {
                        assert(before.contains(before[j]));
                    }
                    if k < before.len() {
                        assert(before.contains(before[k]));
                    }
                }
            }
            distinct_indices(trail@, nodes@.len());
        }
    }
    proof {
        let t = trail_of(trail@);
        assert forall|k: int| 0 < k < t.len() implies es[t[k - 1]].contains(
            ns[#[trigger] t[k]],
        ) by {
            assert(es[trail@[k - 1] as int].contains(ns[trail@[k] as int]));
        }
        let k = choose|k: int|
            0 <= k < trail@.len() && es[at as int].contains(ns[#[trigger] trail@[k] as int]);
        assert(es[t.last()].contains(ns[t[k]]));
    }
    trail
}

} // verus!
