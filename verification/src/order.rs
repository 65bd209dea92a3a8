//! Dependencies-first ordering of a dependency graph by depth-first search.

use vstd::prelude::*;

verus! {

/// Every edge of the graph leads to a node of the graph.
pub open spec fn graph_ok(adj: Seq<Vec<usize>>) -> bool {
    forall|x: int, w: int| 0 <= x < adj.len() && 0 <= w < adj[x]@.len() ==> (#[trigger] adj[x]@[w]) < adj.len()
}

/// No node occurs twice.
pub open spec fn no_repeats(order: Seq<usize>) -> bool {
    forall|a: int, b: int| 0 <= a < b < order.len() ==> #[trigger] order[a] != #[trigger] order[b]
}

/// Node `x` occurs in `order` before position `a`.
pub open spec fn occurs_before(order: Seq<usize>, a: int, x: usize) -> bool {
    exists|b: int| 0 <= b < a && order[b] == x
}

/// Every node of `order` comes after all the nodes it has an edge to.
pub open spec fn deps_first(adj: Seq<Vec<usize>>, order: Seq<usize>) -> bool {
    forall|a: int, w: int| 0 <= a < order.len() && 0 <= w < adj[order[a] as int]@.len()
        ==> occurs_before(order, a, #[trigger] adj[order[a] as int]@[w])
}

/// Number of entries set.
pub open spec fn count_set(s: Seq<bool>) -> nat
    decreases s.len(),
{
    if s.len() == 0 {
        0
    } else {
        count_set(s.drop_last()) + if s.last() { 1nat } else { 0nat }
    }
}

proof fn lemma_count_bound(s: Seq<bool>)
    ensures
        count_set(s) <= s.len(),
    decreases s.len(),
{
    if s.len() > 0 {
        lemma_count_bound(s.drop_last());
    }
}

proof fn lemma_count_set_one(s: Seq<bool>, i: int)
    requires
        0 <= i < s.len(),
        !s[i],
    ensures
        count_set(s.update(i, true)) == count_set(s) + 1,
    decreases s.len(),
{
    let t = s.update(i, true);
    if i == s.len() - 1 {
        assert(t.drop_last() =~= s.drop_last());
    } else {
        assert(t.drop_last() =~= s.drop_last().update(i, true));
        lemma_count_set_one(s.drop_last(), i);
    }
}

/// `p` walks the graph: each node after the first is reached by an edge from
/// the one before.
pub open spec fn is_walk(adj: Seq<Vec<usize>>, p: Seq<usize>) -> bool {
    &&& forall|i: int| 0 <= i < p.len() ==> (#[trigger] p[i]) < adj.len()
    &&& forall|i: int| 0 < i < p.len() ==> adj[p[i - 1] as int]@.contains(#[trigger] p[i])
}

/// Some walk of at least one edge leads from `x` back to `x`.
pub open spec fn on_cycle(adj: Seq<Vec<usize>>, x: usize) -> bool {
    exists|p: Seq<usize>| #[trigger] is_walk(adj, p) && p.len() >= 2 && p[0] == x && p.last() == x
}

/// Some walk leads from `root` to `x`.
pub open spec fn reachable(adj: Seq<Vec<usize>>, root: usize, x: usize) -> bool {
    exists|p: Seq<usize>| #[trigger] is_walk(adj, p) && p.len() >= 1 && p[0] == root && p.last() == x
}

/// The search state: the finished nodes are exactly those of `order`, listed
/// once each, dependencies first; no node is both finished and on the stack.
pub open spec fn search_ok(adj: Seq<Vec<usize>>, on_stack: Seq<bool>, done: Seq<bool>, order: Seq<usize>) -> bool {
    &&& on_stack.len() == adj.len()
    &&& done.len() == adj.len()
    &&& no_repeats(order)
    &&& forall|a: int| 0 <= a < order.len() ==> (#[trigger] order[a]) < adj.len()
    &&& forall|x: usize| x < adj.len() ==> (#[trigger] done[x as int] <==> order.contains(x))
    &&& forall|x: usize| x < adj.len() ==> !(#[trigger] on_stack[x as int] && done[x as int])
    &&& deps_first(adj, order)
}

/// Finishes node `v` and everything reachable from it, appending each node after
/// the nodes it has edges to. Meeting a node that is still on the stack means a
/// cycle: that node is returned as the error.
fn visit(
    adj: &Vec<Vec<usize>>,
    v: usize,
    on_stack: &mut Vec<bool>,
    done: &mut Vec<bool>,
    order: &mut Vec<usize>,
    Ghost(stack): Ghost<Seq<usize>>,
) -> (r: Result<(), usize>)
    requires
        graph_ok(adj@),
        v < adj@.len(),
        search_ok(adj@, old(on_stack)@, old(done)@, old(order)@),
        is_walk(adj@, stack.push(v)),
        forall|y: usize| y < adj@.len() ==> (#[trigger] old(on_stack)@[y as int] <==> stack.contains(y)),
    ensures
        r is Ok ==> {
            &&& search_ok(adj@, final(on_stack)@, final(done)@, final(order)@)
            &&& final(on_stack)@ == old(on_stack)@
            &&& final(done)@[v as int]
            &&& final(order)@.len() >= old(order)@.len()
            &&& final(order)@.take(old(order)@.len() as int) == old(order)@
        },
        r matches Err(x) ==> x < adj@.len() && on_cycle(adj@, x) && reachable(adj@, stack.push(v)[0], x),
    decreases adj@.len() - count_set(old(on_stack)@),
{
    if done[v] {
        proof {
            assert(order@.take(order@.len() as int) =~= order@);
        }
        return Ok(());
    }
    if on_stack[v] {
        proof {
            let i = choose|i: int| 0 <= i < stack.len() && stack[i] == v;
            let walk = stack.push(v);
            let cycle = walk.subrange(i, walk.len() as int);
            assert forall|j: int| 0 < j < cycle.len() implies adj@[cycle[j - 1] as int]@.contains(#[trigger] cycle[j]) by {
                assert(cycle[j] == walk[i + j] && cycle[j - 1] == walk[i + j - 1]);
            }
            assert(is_walk(adj@, cycle));
            assert(cycle[0] == v && cycle.last() == v);
            let lead = walk.subrange(0, i + 1);
            assert forall|j: int| 0 < j < lead.len() implies adj@[lead[j - 1] as int]@.contains(#[trigger] lead[j]) by {
                assert(lead[j] == walk[j] && lead[j - 1] == walk[j - 1]);
            }
            assert(is_walk(adj@, lead));
            assert(lead[0] == walk[0] && lead.last() == v);
        }
        return Err(v);
    }
    let ghost start_stack = on_stack@;
    let ghost start_order = order@;
    proof {
        lemma_count_set_one(on_stack@, v as int);
        lemma_count_bound(on_stack@.update(v as int, true));
    }
    on_stack.set(v, true);
    let mut w: usize = 0;
    while w < adj[v].len()
        invariant
            graph_ok(adj@),
            v < adj@.len(),
            search_ok(adj@, on_stack@, done@, order@),
            start_stack.len() == adj@.len(),
            start_stack == old(on_stack)@,
            on_stack@ == start_stack.update(v as int, true),
            count_set(on_stack@) == count_set(start_stack) + 1,
            count_set(on_stack@) <= adj@.len(),
            !done@[v as int],
            w <= adj@[v as int]@.len(),
            forall|k: int| 0 <= k < w ==> done@[#[trigger] adj@[v as int]@[k] as int],
            order@.len() >= start_order.len(),
            order@.take(start_order.len() as int) == start_order,
            is_walk(adj@, stack.push(v)),
            forall|y: usize| y < adj@.len() ==> (#[trigger] start_stack[y as int] <==> stack.contains(y)),
        decreases adj@[v as int]@.len() - w,
    {
        let next = adj[v][w];
        proof {
            let walk = stack.push(v);
            let longer = walk.push(next);
            assert(adj@[v as int]@[w as int] == next);
            assert forall|j: int| 0 < j < longer.len() implies adj@[longer[j - 1] as int]@.contains(#[trigger] longer[j]) by {
                if j == longer.len() - 1 {
                    assert(longer[j - 1] == v);
                } else {
                    assert(longer[j] == walk[j] && longer[j - 1] == walk[j - 1]);
                }
            }
            assert(is_walk(adj@, longer));
            assert forall|y: usize| y < adj@.len() implies (#[trigger] on_stack@[y as int] <==> walk.contains(y)) by {
                if y == v {
                    assert(walk[walk.len() - 1] == v);
                } else {
                    if walk.contains(y) {
                        let k = choose|k: int| 0 <= k < walk.len() && walk[k] == y;
                        assert(stack[k] == y);
                    }
                    if stack.contains(y) {
                        let k = choose|k: int| 0 <= k < stack.len() && stack[k] == y;
                        assert(walk[k] == y);
                    }
                }
            }
        }
        let ghost before_order = order@;
        let ghost before_done = done@;
        assert(on_stack@[v as int]);
        assert(count_set(on_stack@) == count_set(start_stack) + 1);
        match visit(adj, next, on_stack, done, order, Ghost(stack.push(v))) {
            Ok(()) => {},
            Err(x) => {
                proof {
                    assert(stack.push(v).push(next)[0] == stack.push(v)[0]);
                }
                return Err(x);
            },
        }
        proof {
            assert(order@.take(start_order.len() as int) =~= start_order) by {
                assert forall|i: int| 0 <= i < start_order.len() implies order@[i] == start_order[i] by {
                    assert(order@.take(before_order.len() as int)[i] == before_order[i]);
                    assert(before_order.take(start_order.len() as int)[i] == start_order[i]);
                }
            }
            assert forall|k: int| 0 <= k < w + 1 implies done@[#[trigger] adj@[v as int]@[k] as int] by {
                if k < w {
                    let y = adj@[v as int]@[k];
                    assert(before_done[y as int]);
                    assert(before_order.contains(y));
                    let i = choose|i: int| 0 <= i < before_order.len() && before_order[i] == y;
                    assert(order@.take(before_order.len() as int)[i] == before_order[i]);
                    assert(order@.contains(y));
                }
            }
        }
        w = w + 1;
    }
    let ghost pre_order = order@;
    let ghost pre_stack = on_stack@;
    let ghost pre_done = done@;
    on_stack.set(v, false);
    done.set(v, true);
    order.push(v);
    proof {
        assert(order@ == pre_order.push(v));
        assert(order@[pre_order.len() as int] == v);
        assert(on_stack@ =~= start_stack);
        assert forall|x: usize| x < adj@.len() implies !(#[trigger] on_stack@[x as int] && done@[x as int]) by {
            if x != v {
                assert(pre_stack[x as int] == on_stack@[x as int]);
                assert(!(pre_stack[x as int] && pre_done[x as int]));
            }
        }
        assert forall|a: int, b: int| 0 <= a < b < order@.len() implies #[trigger] order@[a] != #[trigger] order@[b] by {
            if b == pre_order.len() {
                assert(order@[a] == pre_order[a]);
                if pre_order[a] == v {
                    assert(pre_order.contains(v));
                }
            } else {
                assert(order@[a] == pre_order[a] && order@[b] == pre_order[b]);
            }
        }
        assert forall|x: usize| x < adj@.len() implies (#[trigger] done@[x as int] <==> order@.contains(x)) by {
            if x == v {
                assert(order@[pre_order.len() as int] == v);
            } else {
                if pre_order.contains(x) {
                    let i = choose|i: int| 0 <= i < pre_order.len() && pre_order[i] == x;
                    assert(order@[i] == pre_order[i]);
                }
                if order@.contains(x) {
                    let i = choose|i: int| 0 <= i < order@.len() && order@[i] == x;
                    assert(i < pre_order.len());
                    assert(pre_order[i] == order@[i]);
                }
            }
        }
        assert forall|a: int, k: int| 0 <= a < order@.len() && 0 <= k < adj@[order@[a] as int]@.len()
            implies occurs_before(order@, a, #[trigger] adj@[order@[a] as int]@[k]) by {
            if a == pre_order.len() {
                let y = adj@[v as int]@[k];
                assert(done@[y as int]);
                assert(y != v);
                assert(pre_order.contains(y));
                let b = choose|b: int| 0 <= b < pre_order.len() && pre_order[b] == y;
                assert(order@[b] == pre_order[b]);
            } else {
                assert(order@[a] == pre_order[a]);
                assert(occurs_before(pre_order, a, adj@[pre_order[a] as int]@[k]));
                let b = choose|b: int| 0 <= b < a && pre_order[b] == adj@[pre_order[a] as int]@[k];
                assert(order@[b] == pre_order[b]);
            }
        }
        assert(order@.take(start_order.len() as int) =~= start_order) by {
            assert forall|i: int| 0 <= i < start_order.len() implies order@[i] == start_order[i] by {
                assert(pre_order.take(start_order.len() as int)[i] == start_order[i]);
                assert(order@[i] == pre_order[i]);
            }
        }
        assert(done@[v as int]);
        assert forall|a: int| 0 <= a < order@.len() implies (#[trigger] order@[a]) < adj@.len() by {
            if a < pre_order.len() {
                assert(order@[a] == pre_order[a]);
            }
        }
        assert(on_stack@.len() == adj@.len());
        assert(done@.len() == adj@.len());
        assert(deps_first(adj@, order@));
        assert(no_repeats(order@));
        assert(search_ok(adj@, on_stack@, done@, order@));
    }
    Ok(())
}

/// Lists `root` and every node reachable from it, each after the nodes it has
/// edges to; or returns a node at which a cycle closes.
pub fn dependencies_first(adj: &Vec<Vec<usize>>, root: usize) -> (r: Result<Vec<usize>, usize>)
    requires
        graph_ok(adj@),
        root < adj@.len(),
    ensures
        match r {
            Ok(order) => {
                &&& no_repeats(order@)
                &&& deps_first(adj@, order@)
                &&& order@.contains(root)
                &&& forall|a: int| 0 <= a < order@.len() ==> (#[trigger] order@[a]) < adj@.len()
            },
            Err(x) => x < adj@.len() && on_cycle(adj@, x) && reachable(adj@, root, x),
        },
{
    let n = adj.len();
    let mut on_stack: Vec<bool> = Vec::new();
    let mut done: Vec<bool> = Vec::new();
    let mut i: usize = 0;
    while i < n
        invariant
            n == adj@.len(),
            i <= n,
            on_stack@.len() == i,
            done@.len() == i,
            forall|x: int| 0 <= x < i ==> !(#[trigger] on_stack@[x]),
            forall|x: int| 0 <= x < i ==> !(#[trigger] done@[x]),
        decreases n - i,
    {
        on_stack.push(false);
        done.push(false);
        i = i + 1;
    }
    let mut order: Vec<usize> = Vec::new();
    proof {
        assert forall|x: usize| x < adj@.len() implies (#[trigger] done@[x as int] <==> order@.contains(x)) by {
            assert(!done@[x as int]);
        }
    }
    proof {
        assert(Seq::<usize>::empty().push(root)[0] == root);
        assert(is_walk(adj@, Seq::<usize>::empty().push(root)));
    }
    visit(adj, root, &mut on_stack, &mut done, &mut order, Ghost(Seq::empty()))?;
    proof {
        assert(done@[root as int]);
    }
    Ok(order)
}

} // verus!
