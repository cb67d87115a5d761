//! Cycles among the dependencies of rules.
//!
//! Rules are numbered; a dependency is a pair of numbers. Dependencies form a
//! cycle exactly where some rules are bound to one another: a set of rules
//! each of which depends on a rule of the set. The rules of all such sets are
//! what is reported.

use vstd::prelude::*;

verus! {

/// A dependency: the rule at `from` depends on the rule at `to`.
#[derive(Debug, Clone, Copy, PartialEq, Eq, Structural)]
pub struct Edge {
    pub from: usize,
    pub to: usize,
}

/// Whether the rule `a` depends on the rule `b`.
pub open spec fn depends_on(edges: Seq<Edge>, a: int, b: int) -> bool {
    exists|e: int| 0 <= e < edges.len() && (#[trigger] edges[e]).from == a && edges[e].to == b
}

/// Whether the rules of `bound` are bound to one another: there is at least
/// one, each is one of the `count` rules, and each depends on one of them.
pub open spec fn is_bound(edges: Seq<Edge>, count: int, bound: Set<int>) -> bool {
    &&& exists|v: int| bound.contains(v)
    &&& forall|v: int| bound.contains(v) ==> 0 <= v < count
    &&& forall|v: int| #[trigger]
        bound.contains(v) ==> exists|w: int| bound.contains(w) && depends_on(edges, v, w)
}

/// Whether the rule `v` lies on a cycle of dependencies or leads into one:
/// it is among rules that are bound to one another.
pub open spec fn is_entangled(edges: Seq<Edge>, count: int, v: int) -> bool {
    exists|bound: Set<int>| #[trigger] is_bound(edges, count, bound) && bound.contains(v)
}

/// The rules that `alive` still holds.
pub open spec fn alive_set(alive: Seq<bool>) -> Set<int> {
    Set::new(|v: int| 0 <= v < alive.len() && alive[v])
}

/// The number of rules that `alive` still holds among the first `upto`.
pub open spec fn alive_count(alive: Seq<bool>, upto: int) -> nat
    decreases upto,
{
    if upto <= 0 {
        0
    } else {
        alive_count(alive, upto - 1) + if alive[upto - 1] {
            1nat
        } else {
            0nat
        }
    }
}

/// Taking a rule out takes one from the count.
proof fn lemma_count_after_kill(alive: Seq<bool>, v: int, upto: int)
    requires
        0 <= v < alive.len(),
        alive[v],
        0 <= upto <= alive.len(),
    ensures
        alive_count(alive.update(v, false), upto) == alive_count(alive, upto) - if v < upto {
            1int
        } else {
            0int
        },
        v < upto ==> alive_count(alive, upto) > 0,
    decreases upto,
{
    if upto > 0 {
        lemma_count_after_kill(alive, v, upto - 1);
    }
}

/// Whether the rule `v` depends on a rule that `alive` still holds.
fn has_alive_target(edges: &Vec<Edge>, alive: &Vec<bool>, v: usize) -> (yes: bool)
    ensures
        yes == exists|w: int| 0 <= w < alive@.len() && alive@[w] && depends_on(edges@, v as int, w),
{
    let mut e: usize = 0;
    while e < edges.len()
        invariant
            e <= edges@.len(),
            forall|k: int|
                0 <= k < e ==> !((#[trigger] edges@[k]).from == v && edges@[k].to < alive@.len()
                    && alive@[edges@[k].to as int]),
        decreases edges@.len() - e,
    {
        let edge = edges[e];
        if edge.from == v && edge.to < alive.len() && alive[edge.to] {
            assert(depends_on(edges@, v as int, edge.to as int));
            return true;
        }
        e += 1;
    }
    assert forall|w: int| 0 <= w < alive@.len() && alive@[w] implies !depends_on(
        edges@,
        v as int,
        w,
    ) by {
        if depends_on(edges@, v as int, w) {
            let k = choose|k: int|
                0 <= k < edges@.len() && (#[trigger] edges@[k]).from == v as int && edges@[k].to == w;
            assert(edges@[k].to < alive@.len());
        }
    }
    false
}

/// Whether every rule of every bound set is still held.
pub open spec fn holds_all_bound(edges: Seq<Edge>, count: int, alive: Seq<bool>) -> bool {
    forall|bound: Set<int>, v: int|
        #[trigger] is_bound(edges, count, bound) && #[trigger] bound.contains(v) ==> alive[v]
}

/// Whether every rule that is held depends on one that is held.
pub open spec fn is_closed(edges: Seq<Edge>, alive: Seq<bool>) -> bool {
    forall|v: int|
        0 <= v < alive.len() && #[trigger] alive[v] ==> exists|w: int|
            0 <= w < alive.len() && alive[w] && depends_on(edges, v, w)
}

/// Takes out one rule that depends on no rule that is still held, if there
/// is one.
fn prune_one(edges: &Vec<Edge>, alive: &mut Vec<bool>) -> (changed: bool)
    requires
        holds_all_bound(edges@, old(alive)@.len() as int, old(alive)@),
    ensures
        final(alive)@.len() == old(alive)@.len(),
        holds_all_bound(edges@, final(alive)@.len() as int, final(alive)@),
        changed ==> alive_count(final(alive)@, final(alive)@.len() as int) < alive_count(
            old(alive)@,
            old(alive)@.len() as int,
        ),
        !changed ==> final(alive)@ == old(alive)@ && is_closed(edges@, final(alive)@),
{
    let count = alive.len();
    let mut v: usize = 0;
    while v < count
        invariant
            v <= count,
            alive@ == old(alive)@,
            alive@.len() == count,
            holds_all_bound(edges@, count as int, alive@),
            forall|x: int|
                0 <= x < v && #[trigger] alive@[x] ==> exists|w: int|
                    0 <= w < count && alive@[w] && depends_on(edges@, x, w),
        decreases count - v,
    {
        if alive[v] && !has_alive_target(edges, alive, v) {
            let ghost before = alive@;
            alive.set(v, false);
            proof {
                lemma_count_after_kill(before, v as int, count as int);
                assert forall|bound: Set<int>, x: int|
                    #[trigger] is_bound(edges@, count as int, bound) && #[trigger] bound.contains(
                        x,
                    ) implies alive@[x] by {
                    assert(before[x]);
                    if bound.contains(v as int) {
                        let w = choose|w: int| bound.contains(w) && depends_on(edges@, v as int, w);
                        assert(before[w]);
                    }
                }
            }
            return true;
        }
        v += 1;
    }
    false
}

/// Finds the rules that lie on a cycle of dependencies or lead into one. The
/// answer holds one flag for each of the `count` rules. Dependencies that
/// name a rule beyond `count` are passed over.
pub fn entangled_rules(count: usize, edges: &Vec<Edge>) -> (entangled: Vec<bool>)
    ensures
        entangled@.len() == count,
        forall|v: int| 0 <= v < count ==> #[trigger] entangled@[v] == is_entangled(edges@, count as int, v),
{
    let mut alive: Vec<bool> = Vec::new();
    let mut n: usize = 0;
    while n < count
        invariant
            n <= count,
            alive@.len() == n,
            forall|v: int| 0 <= v < n ==> alive@[v],
        decreases count - n,
    {
        alive.push(true);
        n += 1;
    }
    assert(holds_all_bound(edges@, count as int, alive@));
    let mut changed = true;
    while changed
        invariant
            alive@.len() == count,
            holds_all_bound(edges@, count as int, alive@),
            !changed ==> is_closed(edges@, alive@),
        decreases alive_count(alive@, count as int), changed as int,
    {
        changed = prune_one(edges, &mut alive);
    }
    proof {
        let held = alive_set(alive@);
        assert forall|v: int| 0 <= v < count implies #[trigger] alive@[v] == is_entangled(
            edges@,
            count as int,
            v,
        ) by {
            if alive@[v] {
                assert(held.contains(v));
                assert forall|x: int| #[trigger] held.contains(x) implies exists|w: int|
                    held.contains(w) && depends_on(edges@, x, w) by {
                    assert(alive@[x]);
                    let w = choose|w: int|
                        0 <= w < alive@.len() && alive@[w] && depends_on(edges@, x, w);
                    assert(held.contains(w));
                }
                assert(is_bound(edges@, count as int, held));
            }
            if is_entangled(edges@, count as int, v) {
                let bound = choose|bound: Set<int>| #[trigger]
                    is_bound(edges@, count as int, bound) && bound.contains(v);
                assert(alive@[v]);
            }
        }
    }
    alive
}

} // verus!
