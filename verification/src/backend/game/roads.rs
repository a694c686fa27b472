//! Length of a player's longest road: the longest trail (a walk that drives no road
//! twice) in the graph of the player's roads.
use vstd::prelude::*;

verus! {

/// Road `road` ends at `v`.
pub open spec fn incident(road: (usize, usize), v: usize) -> bool {
    road.0 == v || road.1 == v
}

/// The end of `road` reached when it is driven from `v`.
pub open spec fn other_end(road: (usize, usize), v: usize) -> usize {
    if road.0 == v {
        road.1
    } else {
        road.0
    }
}

/// Driving the roads with indices `t`, in order, from `v` is possible.
pub open spec fn is_walk(roads: Seq<(usize, usize)>, v: usize, t: Seq<usize>) -> bool
    decreases t.len(),
{
    if t.len() == 0 {
        true
    } else {
        &&& t[0] < roads.len()
        &&& incident(roads[t[0] as int], v)
        &&& is_walk(roads, other_end(roads[t[0] as int], v), t.drop_first())
    }
}

/// `t` is a trail from `v`: a walk that drives no road twice and none marked in `used`.
pub open spec fn is_trail(roads: Seq<(usize, usize)>, used: Seq<bool>, v: usize, t: Seq<usize>) -> bool {
    &&& is_walk(roads, v, t)
    &&& t.no_duplicates()
    &&& forall|k: int| 0 <= k < t.len() ==> !used[#[trigger] t[k] as int]
}

/// `n` is the length of the longest trail from `v`.
pub open spec fn is_longest_from(roads: Seq<(usize, usize)>, used: Seq<bool>, v: usize, n: nat) -> bool {
    &&& exists|t: Seq<usize>| is_trail(roads, used, v, t) && t.len() == n
    &&& forall|t: Seq<usize>| is_trail(roads, used, v, t) ==> t.len() <= n
}

pub open spec fn none_used(len: nat) -> Seq<bool> {
    Seq::new(len, |i: int| false)
}

/// `n` is the length of the longest trail in the whole road graph.
pub open spec fn is_longest_road(roads: Seq<(usize, usize)>, n: nat) -> bool {
    &&& exists|v: usize, t: Seq<usize>|
        is_trail(roads, none_used(roads.len()), v, t) && t.len() == n
    &&& forall|v: usize, t: Seq<usize>|
        is_trail(roads, none_used(roads.len()), v, t) ==> t.len() <= n
}

/// The length of the longest trail in the graph of `roads`.
pub open spec fn longest_road_len(roads: Seq<(usize, usize)>) -> nat {
    choose|n: nat| is_longest_road(roads, n)
}

/// Number of roads not yet marked.
pub open spec fn unused_count(used: Seq<bool>) -> nat
    decreases used.len(),
{
    if used.len() == 0 {
        0
    } else {
        unused_count(used.drop_last()) + (if used.last() {
            0nat
        } else {
            1nat
        })
    }
}

proof fn lemma_unused_count_mark(used: Seq<bool>, i: int)
    requires
        0 <= i < used.len(),
        !used[i],
    ensures
        unused_count(used.update(i, true)) + 1 == unused_count(used),
    decreases used.len(),
{
    if i == used.len() - 1 {
        assert(used.update(i, true).drop_last() =~= used.drop_last());
    } else {
        assert(used.update(i, true).drop_last() =~= used.drop_last().update(i, true));
        lemma_unused_count_mark(used.drop_last(), i);
    }
}

proof fn lemma_unused_count_bound(used: Seq<bool>)
    ensures
        unused_count(used) <= used.len(),
    decreases used.len(),
{
    if used.len() > 0 {
        lemma_unused_count_bound(used.drop_last());
    }
}

proof fn lemma_walk_in_range(roads: Seq<(usize, usize)>, v: usize, t: Seq<usize>)
    requires
        is_walk(roads, v, t),
    ensures
        forall|k: int| 0 <= k < t.len() ==> #[trigger] t[k] < roads.len(),
    decreases t.len(),
{
    if t.len() > 0 {
        lemma_walk_in_range(roads, other_end(roads[t[0] as int], v), t.drop_first());
        assert forall|k: int| 0 <= k < t.len() implies #[trigger] t[k] < roads.len() by {
            if k > 0 {
                assert(t[k] == t.drop_first()[k - 1]);
            }
        }
    }
}

/// A trail from `v` that starts with road `j` continues as a trail from the far end of
/// `j`, with `j` marked.
proof fn lemma_trail_tail(roads: Seq<(usize, usize)>, used: Seq<bool>, v: usize, t: Seq<usize>)
    requires
        is_trail(roads, used, v, t),
        t.len() > 0,
        used.len() == roads.len(),
    ensures
        is_trail(roads, used.update(t[0] as int, true), other_end(roads[t[0] as int], v), t.drop_first()),
{
    let u2 = used.update(t[0] as int, true);
    let tail = t.drop_first();
    lemma_walk_in_range(roads, v, t);
    assert forall|k: int| 0 <= k < tail.len() implies !u2[#[trigger] tail[k] as int] by {
        assert(tail[k] == t[k + 1]);
        assert(t[k + 1] != t[0]);
    }
}

/// Prepending an unmarked road `j` at `v` to a trail from its far end, computed with `j`
/// marked, gives a trail from `v`.
proof fn lemma_trail_cons(roads: Seq<(usize, usize)>, used: Seq<bool>, v: usize, j: usize, t: Seq<usize>)
    requires
        j < roads.len(),
        used.len() == roads.len(),
        !used[j as int],
        incident(roads[j as int], v),
        is_trail(roads, used.update(j as int, true), other_end(roads[j as int], v), t),
    ensures
        is_trail(roads, used, v, seq![j].add(t)),
        seq![j].add(t).len() == t.len() + 1,
{
    let s = seq![j].add(t);
    assert(s.drop_first() =~= t);
    lemma_walk_in_range(roads, other_end(roads[j as int], v), t);
    assert forall|k: int| 0 <= k < t.len() implies t[k] != j by {
        assert(!used.update(j as int, true)[t[k] as int]);
    }
    assert forall|a: int, b: int| 0 <= a < s.len() && 0 <= b < s.len() && a != b implies s[a] != s[b] by {
        assert(s[0] == j);
        if a > 0 && b > 0 {
            assert(s[a] == t[a - 1] && s[b] == t[b - 1]);
        } else if a == 0 {
            assert(s[b] == t[b - 1]);
            assert(t[b - 1] != j);
        } else {
            assert(s[a] == t[a - 1]);
            assert(t[a - 1] != j);
        }
    }
    assert forall|k: int| 0 <= k < s.len() implies !used[#[trigger] s[k] as int] by {
        if k > 0 {
            assert(s[k] == t[k - 1]);
            assert(!used.update(j as int, true)[t[k - 1] as int]);
            assert(t[k - 1] != j);
        } else {
            assert(s[0] == j);
        }
    }
}

/// Length of the longest trail from `current` that avoids the roads marked in `used`.
fn longest_trail_from(roads: &Vec<(usize, usize)>, used: &mut Vec<bool>, current: usize) -> (n: usize)
    requires
        old(used)@.len() == roads@.len(),
    ensures
        final(used)@ == old(used)@,
        n <= unused_count(old(used)@),
        is_longest_from(roads@, old(used)@, current, n as nat),
    decreases unused_count(old(used)@),
{
    let ghost start = used@;
    proof {
        lemma_unused_count_bound(start);
    }
    let mut max_len: usize = 0;
    let ghost mut best: Seq<usize> = Seq::empty();
    proof {
        assert(is_trail(roads@, start, current, best));
    }
    let mut i: usize = 0;
    while i < roads.len()
        invariant
            i <= roads@.len(),
            used@ == start,
            start == old(used)@,
            start.len() == roads@.len(),
            max_len <= unused_count(start),
            unused_count(start) <= start.len(),
            is_trail(roads@, start, current, best),
            best.len() == max_len,
            forall|t: Seq<usize>|
                is_trail(roads@, start, current, t) && t.len() > 0 && t[0] < i ==> t.len() <= max_len,
        decreases roads@.len() - i,
    {
        let road = roads[i];
        if !used[i] && (road.0 == current || road.1 == current) {
            let next = if road.0 == current { road.1 } else { road.0 };
            used[i] = true;
            proof {
                lemma_unused_count_mark(start, i as int);
                assert(used@ == start.update(i as int, true));
                assert(unused_count(used@) < unused_count(start));
            }
            let sub = longest_trail_from(roads, used, next);
            used[i] = false;
            proof {
                assert(used@ =~= start);
            }
            let ghost marked = start.update(i as int, true);
            let ghost sub_t = choose|t: Seq<usize>| is_trail(roads@, marked, next, t) && t.len() == sub;
            proof {
                lemma_trail_cons(roads@, start, current, i, sub_t);
            }
            if sub + 1 > max_len {
                max_len = sub + 1;
                proof {
                    best = seq![i].add(sub_t);
                }
            }
            assert forall|t: Seq<usize>|
                is_trail(roads@, start, current, t) && t.len() > 0 && t[0] < i + 1 implies t.len() <= max_len by {
                if t[0] == i {
                    lemma_trail_tail(roads@, start, current, t);
                    assert(t.drop_first().len() <= sub);
                }
            }
        }
        i += 1;
    }
    proof {
        assert forall|t: Seq<usize>| is_trail(roads@, start, current, t) implies t.len() <= max_len by {
            if t.len() > 0 {
                assert(t[0] < roads@.len());
            }
        }
    }
    max_len
}

/// Length of the longest road the roads form: the longest trail, over all start points.
pub fn longest_road(roads: &Vec<(usize, usize)>) -> (n: usize)
    ensures
        is_longest_road(roads@, n as nat),
        n == longest_road_len(roads@),
        n <= roads@.len(),
{
    let ghost none = none_used(roads@.len());
    let mut used: Vec<bool> = Vec::new();
    let mut k: usize = 0;
    while k < roads.len()
        invariant
            k <= roads@.len(),
            used@ =~= none_used(k as nat),
        decreases roads@.len() - k,
    {
        used.push(false);
        k += 1;
    }
    assert(used@ =~= none);
    proof {
        lemma_unused_count_bound(none);
    }
    let mut overall: usize = 0;
    let ghost mut best_v: usize = 0;
    let ghost mut best_t: Seq<usize> = Seq::empty();
    assert(is_trail(roads@, none, best_v, best_t));
    let mut i: usize = 0;
    while i < roads.len()
        invariant
            i <= roads@.len(),
            used@ == none,
            none.len() == roads@.len(),
            overall <= roads@.len(),
            unused_count(none) <= roads@.len(),
            is_trail(roads@, none, best_v, best_t),
            best_t.len() == overall,
            forall|v: usize, t: Seq<usize>|
                is_trail(roads@, none, v, t) && t.len() > 0 && t[0] < i ==> t.len() <= overall,
        decreases roads@.len() - i,
    {
        let road = roads[i];
        let a = longest_trail_from(roads, &mut used, road.0);
        if a > overall {
            overall = a;
            proof {
                best_v = road.0;
                best_t = choose|t: Seq<usize>| is_trail(roads@, none, road.0, t) && t.len() == a;
            }
        }
        let b = longest_trail_from(roads, &mut used, road.1);
        if b > overall {
            overall = b;
            proof {
                best_v = road.1;
                best_t = choose|t: Seq<usize>| is_trail(roads@, none, road.1, t) && t.len() == b;
            }
        }
        assert forall|v: usize, t: Seq<usize>|
            is_trail(roads@, none, v, t) && t.len() > 0 && t[0] < i + 1 implies t.len() <= overall by {
            if t[0] == i {
                if roads@[i as int].0 == v {
                    assert(t.len() <= a);
                } else {
                    assert(t.len() <= b);
                }
            }
        }
        i += 1;
    }
    proof {
        assert forall|v: usize, t: Seq<usize>| is_trail(roads@, none, v, t) implies t.len() <= overall by {
            if t.len() > 0 {
                assert(t[0] < roads@.len());
            }
        }
        assert(is_longest_road(roads@, overall as nat));
        lemma_longest_road_unique(roads@, overall as nat);
    }
    overall
}

/// The longest road has one length.
pub proof fn lemma_longest_road_unique(roads: Seq<(usize, usize)>, n: nat)
    requires
        is_longest_road(roads, n),
    ensures
        longest_road_len(roads) == n,
{
    let m = longest_road_len(roads);
    assert(is_longest_road(roads, m));
    let (v1, t1) = choose|v: usize, t: Seq<usize>|
        is_trail(roads, none_used(roads.len()), v, t) && t.len() == n;
    let (v2, t2) = choose|v: usize, t: Seq<usize>|
        is_trail(roads, none_used(roads.len()), v, t) && t.len() == m;
    assert(t1.len() <= m);
    assert(t2.len() <= n);
}

} // verus!
