//! The board: hex tiles, their shared corners, and the roads between corners.
use vstd::prelude::*;
use rand::rngs::ThreadRng;
use super::{Game, Harbor, HarborType, Resource, Tile, Vertex, VertexView};
use super::rng::{random_ratio, shuffle_vec};

verus! {

/// Offset of corner `c` (clockwise from the top) from the centre of its hex, on the lattice
/// of corners: `x` in units of `sqrt(3) / 2`, `y` in units of `1 / 2`.
pub open spec fn corner_offset(c: int) -> (int, int) {
    if c == 0 {
        (0, -2)
    } else if c == 1 {
        (1, -1)
    } else if c == 2 {
        (1, 1)
    } else if c == 3 {
        (0, 2)
    } else if c == 4 {
        (-1, 1)
    } else {
        (-1, -1)
    }
}

/// Lattice position of corner `c` of the hex at axial coordinates `(q, r)`.
pub open spec fn corner_key(hex: (i32, i32), c: int) -> (i32, i32) {
    ((2 * hex.0 + hex.1 + corner_offset(c).0) as i32, (3 * hex.1 + corner_offset(c).1) as i32)
}

/// Axial coordinates small enough for every corner position to fit an `i32`.
pub open spec fn coords_in_range(coords: Seq<(i32, i32)>) -> bool {
    forall|i: int| 0 <= i < coords.len() ==> -100_000_000 <= (#[trigger] coords[i]).0 <= 100_000_000 && -100_000_000 <= coords[i].1 <= 100_000_000
}

/// The corners of all hexes, six per hex, in order.
pub open spec fn all_corner_keys(coords: Seq<(i32, i32)>) -> Seq<(i32, i32)> {
    Seq::new(6 * coords.len(), |p: int| corner_key(coords[p / 6], p % 6))
}

/// The items of `s`, each at its first occurrence.
pub open spec fn first_occurrences(s: Seq<(i32, i32)>) -> Seq<(i32, i32)>
    decreases s.len(),
{
    if s.len() == 0 {
        Seq::empty()
    } else {
        let d = first_occurrences(s.drop_last());
        if d.contains(s.last()) {
            d
        } else {
            d.push(s.last())
        }
    }
}

proof fn lemma_contains_push(d: Seq<(i32, i32)>, l: (i32, i32), x: (i32, i32))
    ensures
        d.push(l).contains(x) <==> d.contains(x) || x == l,
{
    if d.contains(x) {
        let k = choose|k: int| 0 <= k < d.len() && d[k] == x;
        assert(d.push(l)[k] == x);
    }
    if x == l {
        assert(d.push(l)[d.len() as int] == x);
    }
    if d.push(l).contains(x) && x != l {
        let k = choose|k: int| 0 <= k < d.push(l).len() && d.push(l)[k] == x;
        assert(d[k] == x);
    }
}

pub proof fn lemma_first_occurrences(s: Seq<(i32, i32)>)
    ensures
        first_occurrences(s).no_duplicates(),
        forall|x: (i32, i32)| first_occurrences(s).contains(x) <==> s.contains(x),
    decreases s.len(),
{
    if s.len() > 0 {
        lemma_first_occurrences(s.drop_last());
        let d = first_occurrences(s.drop_last());
        assert(s.drop_last().push(s.last()) =~= s);
        assert forall|x: (i32, i32)| first_occurrences(s).contains(x) <==> s.contains(x) by {
            lemma_contains_push(s.drop_last(), s.last(), x);
            lemma_contains_push(d, s.last(), x);
        }
    }
}

/// The numbers of non-desert tiles among the first `i`, with resources taken cyclically
/// from `order`.
pub open spec fn non_deserts_before(order: Seq<Resource>, i: int) -> nat
    decreases i,
{
    if i <= 0 {
        0
    } else {
        non_deserts_before(order, i - 1) + (if order[(i - 1) % (order.len() as int)] == Resource::Desert {
            0nat
        } else {
            1nat
        })
    }
}

/// The token of tile `i`: none on a desert; otherwise the numbers of `numbers` are handed
/// out from its end, and `2` once they are used up.
pub open spec fn token_for(order: Seq<Resource>, numbers: Seq<u8>, i: int) -> Option<u8> {
    if order[i % (order.len() as int)] == Resource::Desert {
        None
    } else {
        let k = non_deserts_before(order, i);
        if k < numbers.len() {
            Some(numbers[numbers.len() - 1 - k])
        } else {
            Some(2u8)
        }
    }
}

/// Side `c` of a tile: from corner `c` to the next corner clockwise.
pub open spec fn tile_side(t: Tile, c: int) -> (usize, usize) {
    (t.vertices@[c], t.vertices@[(c + 1) % 6])
}

/// `v` and `u` are the ends of a side among the sides before side `c` of tile `t`.
pub open spec fn sides_join(tiles: Seq<Tile>, t: int, c: int, v: usize, u: usize) -> bool {
    exists|a: int, b: int|
        0 <= a < tiles.len() && 0 <= b < 6 && (a < t || (a == t && b < c))
            && (#[trigger] tile_side(tiles[a], b) == (v, u) || tile_side(tiles[a], b) == (u, v))
}

/// Corners `v` and `u` are joined by a side of some tile.
pub open spec fn adjacent_corners(tiles: Seq<Tile>, v: usize, u: usize) -> bool {
    sides_join(tiles, tiles.len() as int, 0, v, u)
}

/// The board built from hex coordinates, a cyclic order of resources and a stack of numbers:
/// tile `i` lies at `coords[i]`; corners shared by hexes are one vertex; vertices are
/// numbered in the order their corners first occur; two vertices are neighbors when a tile
/// side joins them.
pub open spec fn is_board(
    coords: Seq<(i32, i32)>,
    order: Seq<Resource>,
    numbers: Seq<u8>,
    vs: Seq<VertexView>,
    tiles: Seq<Tile>,
) -> bool {
    let keys = first_occurrences(all_corner_keys(coords));
    &&& tiles.len() == coords.len()
    &&& vs.len() == keys.len()
    &&& forall|j: int| 0 <= j < vs.len() ==> {
        &&& (#[trigger] vs[j]).id == j
        &&& vs[j].lattice == keys[j]
        &&& vs[j].neighbors.no_duplicates()
        &&& forall|u: usize| vs[j].neighbors.contains(u) <==> adjacent_corners(tiles, j as usize, u)
    }
    &&& forall|i: int| 0 <= i < tiles.len() ==> {
        &&& (#[trigger] tiles[i]).resource == order[i % (order.len() as int)]
        &&& tiles[i].number_token == token_for(order, numbers, i)
        &&& forall|c: int| 0 <= c < 6 ==> {
            &&& (#[trigger] tiles[i].vertices@[c]) < vs.len()
            &&& keys[tiles[i].vertices@[c] as int] == corner_key(coords[i], c)
        }
    }
}

pub open spec fn lattices(vs: Seq<Vertex>) -> Seq<(i32, i32)> {
    vs.map_values(|v: Vertex| v.lattice)
}

fn corner_offset_exec(c: usize) -> (o: (i32, i32))
    requires
        c < 6,
    ensures
        o.0 == corner_offset(c as int).0,
        o.1 == corner_offset(c as int).1,
{
    if c == 0 {
        (0, -2)
    } else if c == 1 {
        (1, -1)
    } else if c == 2 {
        (1, 1)
    } else if c == 3 {
        (0, 2)
    } else if c == 4 {
        (-1, 1)
    } else {
        (-1, -1)
    }
}

/// Index of the vertex at `key`, which is added when there is none yet.
fn find_or_add_vertex(vertices: &mut Vec<Vertex>, key: (i32, i32)) -> (idx: usize)
    requires
        forall|j: int| 0 <= j < old(vertices)@.len() ==> (#[trigger] old(vertices)@[j]).id == j
            && old(vertices)@[j].neighbors@ == Seq::<usize>::empty(),
    ensures
        lattices(final(vertices)@) == if lattices(old(vertices)@).contains(key) {
            lattices(old(vertices)@)
        } else {
            lattices(old(vertices)@).push(key)
        },
        forall|j: int| 0 <= j < final(vertices)@.len() ==> (#[trigger] final(vertices)@[j]).id == j
            && final(vertices)@[j].neighbors@ == Seq::<usize>::empty(),
        idx < final(vertices)@.len(),
        final(vertices)@[idx as int].lattice == key,
{
    let ghost v0 = vertices@;
    let mut j: usize = 0;
    while j < vertices.len()
        invariant
            vertices@ == v0,
            v0 == old(vertices)@,
            forall|m: int| 0 <= m < v0.len() ==> (#[trigger] v0[m]).id == m
                && v0[m].neighbors@ == Seq::<usize>::empty(),
            j <= vertices@.len(),
            forall|m: int| 0 <= m < j ==> vertices@[m].lattice != key,
        decreases vertices@.len() - j,
    {
        if vertices[j].lattice.0 == key.0 && vertices[j].lattice.1 == key.1 {
            assert(lattices(vertices@)[j as int] == key);
            return j;
        }
        j += 1;
    }
    let ghost before = vertices@;
    let n = vertices.len();
    vertices.push(Vertex::new(n, key));
    proof {
        assert(lattices(vertices@) =~= lattices(before).push(key));
        assert(!lattices(before).contains(key)) by {
            if lattices(before).contains(key) {
                let m = choose|m: int| 0 <= m < lattices(before).len() && lattices(before)[m] == key;
                assert(before[m].lattice == key);
            }
        }
    }
    n
}

proof fn lemma_corner_index(i: int, c: int)
    requires
        0 <= i,
        0 <= c < 6,
    ensures
        (6 * i + c) / 6 == i,
        (6 * i + c) % 6 == c,
{
    vstd::arithmetic::div_mod::lemma_fundamental_div_mod_converse_div(6 * i + c, 6, i, c);
    vstd::arithmetic::div_mod::lemma_fundamental_div_mod_converse_mod(6 * i + c, 6, i, c);
}

proof fn lemma_non_deserts_step(order: Seq<Resource>, i: int)
    requires
        0 <= i,
    ensures
        non_deserts_before(order, i + 1) == non_deserts_before(order, i) + (if order[i % (order.len() as int)] == Resource::Desert {
            0nat
        } else {
            1nat
        }),
{
}

/// Builds the board for tiles at `hex_coords`, with resources taken cyclically from
/// `resource_order` and number tokens taken from the end of `number_order` (`2` once they
/// run out; none on a desert).
pub fn build_board(hex_coords: &Vec<(i32, i32)>, resource_order: &Vec<Resource>, number_order: &Vec<u8>) -> (board: (Vec<Vertex>, Vec<Tile>))
    requires
        resource_order@.len() > 0,
        coords_in_range(hex_coords@),
    ensures
        is_board(hex_coords@, resource_order@, number_order@, board.0@.map_values(|v: Vertex| v@), board.1@),
{
    let ghost coords = hex_coords@;
    let ghost all = all_corner_keys(coords);
    let mut vertices: Vec<Vertex> = Vec::new();
    let mut tiles: Vec<Tile> = Vec::new();
    let mut numbers_used: usize = 0;
    let n = hex_coords.len();
    let order_len = resource_order.len();
    let number_len = number_order.len();
    let mut i: usize = 0;
    proof {
        assert(lattices(vertices@) =~= first_occurrences(all.subrange(0, 0)));
    }
    while i < n
        invariant
            n == coords.len(),
            coords == hex_coords@,
            all == all_corner_keys(coords),
            coords_in_range(coords),
            order_len == resource_order@.len(),
            order_len > 0,
            number_len == number_order@.len(),
            i <= n,
            tiles@.len() == i,
            numbers_used == non_deserts_before(resource_order@, i as int),
            numbers_used <= i,
            lattices(vertices@) == first_occurrences(all.subrange(0, 6 * i)),
            forall|j: int| 0 <= j < vertices@.len() ==> (#[trigger] vertices@[j]).id == j
                && vertices@[j].neighbors@ == Seq::<usize>::empty(),
            forall|t: int| 0 <= t < i ==> {
                &&& (#[trigger] tiles@[t]).resource == resource_order@[t % (order_len as int)]
                &&& tiles@[t].number_token == token_for(resource_order@, number_order@, t)
                &&& forall|c: int| 0 <= c < 6 ==> {
                    &&& (#[trigger] tiles@[t].vertices@[c]) < vertices@.len()
                    &&& vertices@[tiles@[t].vertices@[c] as int].lattice == corner_key(coords[t], c)
                }
            },
        decreases n - i,
    {
        let (q, r) = hex_coords[i];
        let resource = resource_order[i % order_len];
        let number_token = if resource == Resource::Desert {
            None
        } else if numbers_used < number_len {
            let tok = number_order[number_len - 1 - numbers_used];
            numbers_used = numbers_used + 1;
            Some(tok)
        } else {
            numbers_used = numbers_used + 1;
            Some(2u8)
        };
        proof {
            lemma_non_deserts_step(resource_order@, i as int);
        }
        let mut corners: [usize; 6] = [0usize; 6];
        let mut c: usize = 0;
        while c < 6
            invariant
                i < n,
                n == coords.len(),
                all == all_corner_keys(coords),
                coords_in_range(coords),
                (q, r) == coords[i as int],
                c <= 6,
                lattices(vertices@) == first_occurrences(all.subrange(0, 6 * i + c)),
                forall|j: int| 0 <= j < vertices@.len() ==> (#[trigger] vertices@[j]).id == j
                    && vertices@[j].neighbors@ == Seq::<usize>::empty(),
                forall|t: int, cc: int| 0 <= t < i && 0 <= cc < 6 ==> {
                    &&& (#[trigger] tiles@[t].vertices@[cc]) < vertices@.len()
                    &&& vertices@[tiles@[t].vertices@[cc] as int].lattice == corner_key(coords[t], cc)
                },
                tiles@.len() == i,
                forall|cc: int| 0 <= cc < c ==> {
                    &&& (#[trigger] corners@[cc]) < vertices@.len()
                    &&& vertices@[corners@[cc] as int].lattice == corner_key(coords[i as int], cc)
                },
            decreases 6 - c,
        {
            let off = corner_offset_exec(c);
            let key: (i32, i32) = (2 * q + r + off.0, 3 * r + off.1);
            let ghost before = vertices@;
            proof {
                lemma_corner_index(i as int, c as int);
                assert(all[6 * i + c] == key);
                assert(all.subrange(0, 6 * i + c + 1) =~= all.subrange(0, 6 * i + c).push(key));
            }
            let idx = find_or_add_vertex(&mut vertices, key);
            proof {
                let sub = all.subrange(0, 6 * i + c);
                assert(all.subrange(0, 6 * i + c + 1).drop_last() =~= sub);
                assert(all.subrange(0, 6 * i + c + 1).last() == key);
                assert(lattices(vertices@).len() == vertices@.len());
                assert(lattices(before).len() == before.len());
                assert(vertices@.len() >= before.len());
                assert forall|j: int| 0 <= j < before.len() implies #[trigger] vertices@[j].lattice == before[j].lattice by {
                    assert(lattices(vertices@)[j] == vertices@[j].lattice);
                    assert(lattices(before)[j] == before[j].lattice);
                    assert(lattices(vertices@)[j] == lattices(before)[j]);
                }
            }
            corners[c] = idx;
            c += 1;
        }
        let tile = Tile { resource, number_token, vertices: corners };
        tiles.push(tile);
        proof {
            assert(tiles@[i as int] == tile);
        }
        i += 1;
    }
    proof {
        assert(all.subrange(0, 6 * n as int) =~= all);
    }
    let ghost keys = first_occurrences(all);
    proof {
        lemma_first_occurrences(all);
        assert forall|j: int| 0 <= j < vertices@.len() implies (#[trigger] vertices@[j]).lattice == keys[j] by {
            assert(lattices(vertices@)[j] == vertices@[j].lattice);
        }
    }
    // Join the corners along every side of every tile.
    let mut t: usize = 0;
    while t < tiles.len()
        invariant
            t <= tiles@.len(),
            vertices@.len() == keys.len(),
            forall|j: int| 0 <= j < vertices@.len() ==> {
                &&& (#[trigger] vertices@[j]).id == j
                &&& vertices@[j].lattice == keys[j]
                &&& vertices@[j].neighbors@.no_duplicates()
                &&& forall|u: usize| vertices@[j].neighbors@.contains(u) <==> sides_join(tiles@, t as int, 0, j as usize, u)
            },
            forall|a: int, cc: int| 0 <= a < tiles@.len() && 0 <= cc < 6 ==> (#[trigger] tiles@[a].vertices@[cc]) < vertices@.len(),
        decreases tiles@.len() - t,
    {
        let mut c: usize = 0;
        proof {
            assert forall|j: usize, u: usize| sides_join(tiles@, t as int, 0, j, u) == sides_join(tiles@, t as int - 1, 6, j, u) by {
                if sides_join(tiles@, t as int, 0, j, u) {
                    let (a, b) = choose|a: int, b: int| 0 <= a < tiles@.len() && 0 <= b < 6 && (a < t || (a == t && b < 0))
                        && (#[trigger] tile_side(tiles@[a], b) == (j, u) || tile_side(tiles@[a], b) == (u, j));
                    assert(a < t as int - 1 || (a == t - 1 && b < 6));
                }
                if sides_join(tiles@, t as int - 1, 6, j, u) {
                    let (a, b) = choose|a: int, b: int| 0 <= a < tiles@.len() && 0 <= b < 6 && (a < t - 1 || (a == t - 1 && b < 6))
                        && (#[trigger] tile_side(tiles@[a], b) == (j, u) || tile_side(tiles@[a], b) == (u, j));
                    assert(a < t);
                }
            }
        }
        while c < 6
            invariant
                t < tiles@.len(),
                c <= 6,
                vertices@.len() == keys.len(),
                forall|j: int| 0 <= j < vertices@.len() ==> {
                    &&& (#[trigger] vertices@[j]).id == j
                    &&& vertices@[j].lattice == keys[j]
                    &&& vertices@[j].neighbors@.no_duplicates()
                    &&& forall|u: usize| vertices@[j].neighbors@.contains(u) <==> sides_join(tiles@, t as int, c as int, j as usize, u)
                },
                forall|a: int, cc: int| 0 <= a < tiles@.len() && 0 <= cc < 6 ==> (#[trigger] tiles@[a].vertices@[cc]) < vertices@.len(),
            decreases 6 - c,
        {
            let v1 = tiles[t].vertices[c];
            let v2 = tiles[t].vertices[(c + 1) % 6];
            assert(tiles@[t as int].vertices@[c as int] == v1);
            assert(tiles@[t as int].vertices@[((c + 1) % 6) as int] == v2);
            assert(tile_side(tiles@[t as int], c as int) == (v1, v2));
            let ghost before = vertices@;
            vertices[v1].connect(v2);
            let ghost mid = vertices@;
            vertices[v2].connect(v1);
            proof {
                assert(mid[v1 as int].neighbors@.contains(v2)) by {
                    if !before[v1 as int].neighbors@.contains(v2) {
                        assert(mid[v1 as int].neighbors@[before[v1 as int].neighbors@.len() as int] == v2);
                    }
                }
                assert(vertices@[v2 as int].neighbors@.contains(v1)) by {
                    if !mid[v2 as int].neighbors@.contains(v1) {
                        assert(vertices@[v2 as int].neighbors@[mid[v2 as int].neighbors@.len() as int] == v1);
                    }
                }
                assert(vertices@[v1 as int].neighbors@.contains(v2)) by {
                    if v1 != v2 {
                        assert(vertices@[v1 as int] == mid[v1 as int]);
                    } else {
                        let k = choose|k: int| 0 <= k < mid[v1 as int].neighbors@.len() && mid[v1 as int].neighbors@[k] == v2;
                        assert(vertices@[v1 as int].neighbors@[k] == v2);
                    }
                }
                assert forall|j: int, u: usize| 0 <= j < vertices@.len() && before[j].neighbors@.contains(u) implies vertices@[j].neighbors@.contains(u) by {
                    let k = choose|k: int| 0 <= k < before[j].neighbors@.len() && before[j].neighbors@[k] == u;
                    assert(mid[j].neighbors@[k] == u);
                    assert(vertices@[j].neighbors@[k] == u);
                }
                assert forall|j: int, u: usize| 0 <= j < vertices@.len() && vertices@[j].neighbors@.contains(u)
                    && !((j == v1 && u == v2) || (j == v2 && u == v1)) implies before[j].neighbors@.contains(u) by {
                    let k = choose|k: int| 0 <= k < vertices@[j].neighbors@.len() && vertices@[j].neighbors@[k] == u;
                    if j == v2 && k == mid[j].neighbors@.len() && !mid[j].neighbors@.contains(v1) {
                        assert(u == v1);
                    } else {
                        assert(mid[j].neighbors@[k] == u);
                        if j == v1 && k == before[j].neighbors@.len() && !before[j].neighbors@.contains(v2) {
                            assert(u == v2);
                        } else {
                            assert(before[j].neighbors@[k] == u);
                        }
                    }
                }
                assert forall|j: int| 0 <= j < vertices@.len() implies {
                    &&& (#[trigger] vertices@[j]).id == j
                    &&& vertices@[j].lattice == keys[j]
                    &&& vertices@[j].neighbors@.no_duplicates()
                    &&& forall|u: usize| vertices@[j].neighbors@.contains(u) <==> sides_join(tiles@, t as int, c + 1, j as usize, u)
                } by {
                    assert forall|u: usize| vertices@[j].neighbors@.contains(u) <==> sides_join(tiles@, t as int, c + 1, j as usize, u) by {
                        let old_has = before[j].neighbors@.contains(u);
                        let added = (j == v1 && u == v2) || (j == v2 && u == v1);
                        if added {
                            assert(sides_join(tiles@, t as int, c + 1, j as usize, u)) by {
                                assert(tile_side(tiles@[t as int], c as int) == (v1, v2));
                            }
                        }
                        if sides_join(tiles@, t as int, c + 1, j as usize, u) && !added {
                            let (a, b) = choose|a: int, b: int| 0 <= a < tiles@.len() && 0 <= b < 6 && (a < t || (a == t && b < c + 1))
                                && (#[trigger] tile_side(tiles@[a], b) == (j as usize, u) || tile_side(tiles@[a], b) == (u, j as usize));
                            assert(a < t || (a == t && b < c));
                            assert(sides_join(tiles@, t as int, c as int, j as usize, u));
                        }
                        if old_has {
                            let (a, b) = choose|a: int, b: int| 0 <= a < tiles@.len() && 0 <= b < 6 && (a < t || (a == t && b < c))
                                && (#[trigger] tile_side(tiles@[a], b) == (j as usize, u) || tile_side(tiles@[a], b) == (u, j as usize));
                            assert(a < t || (a == t && b < c + 1));
                        }
                    }
                }
            }
            c += 1;
        }
        t += 1;
    }
    let ghost vs = vertices@.map_values(|v: Vertex| v@);
    proof {
        assert forall|j: int| 0 <= j < vs.len() implies {
            &&& (#[trigger] vs[j]).id == j
            &&& vs[j].lattice == keys[j]
            &&& vs[j].neighbors.no_duplicates()
            &&& forall|u: usize| vs[j].neighbors.contains(u) <==> adjacent_corners(tiles@, j as usize, u)
        } by {
            assert(vs[j] == vertices@[j]@);
        }
        assert forall|i: int| 0 <= i < tiles@.len() implies {
            &&& (#[trigger] tiles@[i]).resource == resource_order@[i % (resource_order@.len() as int)]
            &&& tiles@[i].number_token == token_for(resource_order@, number_order@, i)
            &&& forall|c: int| 0 <= c < 6 ==> {
                &&& (#[trigger] tiles@[i].vertices@[c]) < vs.len()
                &&& keys[tiles@[i].vertices@[c] as int] == corner_key(coords[i], c)
            }
        } by {
            assert forall|c: int| 0 <= c < 6 implies {
                &&& (#[trigger] tiles@[i].vertices@[c]) < vs.len()
                &&& keys[tiles@[i].vertices@[c] as int] == corner_key(coords[i], c)
            } by {
                assert(vertices@[tiles@[i].vertices@[c] as int].lattice == keys[tiles@[i].vertices@[c] as int]);
            }
        }
    }
    (vertices, tiles)
}

/// The terrain of the base game: 3 brick, 4 lumber, 4 wool, 4 grain, 3 ore, 1 desert.
pub open spec fn standard_resource_pool() -> Seq<Resource> {
    seq![
        Resource::Brick, Resource::Brick, Resource::Brick,
        Resource::Lumber, Resource::Lumber, Resource::Lumber, Resource::Lumber,
        Resource::Wool, Resource::Wool, Resource::Wool, Resource::Wool,
        Resource::Grain, Resource::Grain, Resource::Grain, Resource::Grain,
        Resource::Ore, Resource::Ore, Resource::Ore,
        Resource::Desert,
    ]
}

/// The number tokens of the base game.
pub open spec fn standard_number_pool() -> Seq<u8> {
    seq![2u8, 3u8, 3u8, 4u8, 4u8, 5u8, 5u8, 6u8, 6u8, 8u8, 8u8, 9u8, 9u8, 10u8, 10u8, 11u8, 11u8, 12u8]
}

/// Axial coordinates of the 19 hexes of the base game map.
pub open spec fn standard_coords() -> Seq<(i32, i32)> {
    seq![
        (0i32, -2i32), (1i32, -2i32), (2i32, -2i32),
        (-1i32, -1i32), (0i32, -1i32), (1i32, -1i32), (2i32, -1i32),
        (-2i32, 0i32), (-1i32, 0i32), (0i32, 0i32), (1i32, 0i32), (2i32, 0i32),
        (-2i32, 1i32), (-1i32, 1i32), (0i32, 1i32), (1i32, 1i32),
        (-2i32, 2i32), (-1i32, 2i32), (0i32, 2i32),
    ]
}

/// A board for `coords` whose terrain and numbers are some shuffle of the standard pools.
pub open spec fn is_shuffled_board(coords: Seq<(i32, i32)>, vs: Seq<VertexView>, tiles: Seq<Tile>) -> bool {
    exists|order: Seq<Resource>, numbers: Seq<u8>|
        order.to_multiset() == standard_resource_pool().to_multiset()
            && order.len() == standard_resource_pool().len()
            && numbers.to_multiset() == standard_number_pool().to_multiset()
            && numbers.len() == standard_number_pool().len()
            && #[trigger] is_board(coords, order, numbers, vs, tiles)
}

fn standard_resource_pool_exec() -> (v: Vec<Resource>)
    ensures
        v@ == standard_resource_pool(),
{
    let v = vec![
        Resource::Brick, Resource::Brick, Resource::Brick,
        Resource::Lumber, Resource::Lumber, Resource::Lumber, Resource::Lumber,
        Resource::Wool, Resource::Wool, Resource::Wool, Resource::Wool,
        Resource::Grain, Resource::Grain, Resource::Grain, Resource::Grain,
        Resource::Ore, Resource::Ore, Resource::Ore,
        Resource::Desert,
    ];
    assert(v@ =~= standard_resource_pool());
    v
}

fn standard_number_pool_exec() -> (v: Vec<u8>)
    ensures
        v@ == standard_number_pool(),
{
    let v = vec![2u8, 3u8, 3u8, 4u8, 4u8, 5u8, 5u8, 6u8, 6u8, 8u8, 8u8, 9u8, 9u8, 10u8, 10u8, 11u8, 11u8, 12u8];
    assert(v@ =~= standard_number_pool());
    v
}

/// The two harbor layouts of the base game map, as pairs of coastal vertices.
pub open spec fn harbor_spots(first: bool) -> Seq<(usize, usize)> {
    if first {
        seq![(0usize, 5usize), (6usize, 7usize), (12usize, 22usize), (35usize, 36usize), (45usize, 46usize),
            (50usize, 51usize), (48usize, 49usize), (26usize, 40usize), (16usize, 17usize)]
    } else {
        seq![(10usize, 11usize), (1usize, 6usize), (4usize, 17usize), (27usize, 28usize), (39usize, 40usize),
            (47usize, 51usize), (52usize, 53usize), (37usize, 45usize), (22usize, 23usize)]
    }
}

/// The nine harbors of the base game: four generic, one for each resource but desert.
pub open spec fn standard_harbor_types() -> Seq<HarborType> {
    seq![
        HarborType::Generic, HarborType::Generic, HarborType::Generic, HarborType::Generic,
        HarborType::Resource(Resource::Brick), HarborType::Resource(Resource::Lumber),
        HarborType::Resource(Resource::Ore), HarborType::Resource(Resource::Grain),
        HarborType::Resource(Resource::Wool),
    ]
}

/// Harbors placed on the spots of one layout, paired in order with `types`.
pub open spec fn is_harbor_layout(first: bool, types: Seq<HarborType>, harbors: Seq<Harbor>) -> bool {
    let spots = harbor_spots(first);
    &&& harbors.len() == if types.len() < spots.len() { types.len() } else { spots.len() }
    &&& forall|i: int| 0 <= i < harbors.len() ==> (#[trigger] harbors[i]).loc0 == spots[i].0
        && harbors[i].loc1 == spots[i].1 && harbors[i].htype == types[i]
}

fn harbor_spots_exec(first: bool) -> (v: Vec<(usize, usize)>)
    ensures
        v@ == harbor_spots(first),
{
    if first {
        let v = vec![(0usize, 5usize), (6usize, 7usize), (12usize, 22usize), (35usize, 36usize), (45usize, 46usize),
            (50usize, 51usize), (48usize, 49usize), (26usize, 40usize), (16usize, 17usize)];
        assert(v@ =~= harbor_spots(first));
        v
    } else {
        let v = vec![(10usize, 11usize), (1usize, 6usize), (4usize, 17usize), (27usize, 28usize), (39usize, 40usize),
            (47usize, 51usize), (52usize, 53usize), (37usize, 45usize), (22usize, 23usize)];
        assert(v@ =~= harbor_spots(first));
        v
    }
}

/// Places harbors of the given types, in order, on the spots of the first or second layout.
pub fn harbors_from(first: bool, types: &Vec<HarborType>) -> (harbors: Vec<Harbor>)
    ensures
        is_harbor_layout(first, types@, harbors@),
{
    let spots = harbor_spots_exec(first);
    let mut harbors: Vec<Harbor> = Vec::new();
    let mut i: usize = 0;
    while i < spots.len() && i < types.len()
        invariant
            spots@ == harbor_spots(first),
            i <= spots@.len(),
            i <= types@.len(),
            harbors@.len() == i,
            forall|k: int| 0 <= k < i ==> (#[trigger] harbors@[k]).loc0 == spots@[k].0
                && harbors@[k].loc1 == spots@[k].1 && harbors@[k].htype == types@[k],
        decreases spots@.len() - i,
    {
        let (loc0, loc1) = spots[i];
        harbors.push(Harbor { loc0, loc1, htype: types[i] });
        i += 1;
    }
    harbors
}

impl Game {
    /// Builds a board for tiles at `hex_coords`, with the standard terrain and number tokens
    /// shuffled at random (terrain repeats cyclically past 19 tiles; numbers run out to `2`).
    pub fn generate_board_from_coords(rng: &mut ThreadRng, hex_coords: Vec<(i32, i32)>) -> (board: (Vec<Vertex>, Vec<Tile>))
        requires
            coords_in_range(hex_coords@),
        ensures
            is_shuffled_board(hex_coords@, board.0@.map_values(|v: Vertex| v@), board.1@),
    {
        let mut resource_pool = standard_resource_pool_exec();
        shuffle_vec(rng, &mut resource_pool);
        let mut number_pool = standard_number_pool_exec();
        shuffle_vec(rng, &mut number_pool);
        let board = build_board(&hex_coords, &resource_pool, &number_pool);
        assert(is_board(hex_coords@, resource_pool@, number_pool@, board.0@.map_values(|v: Vertex| v@), board.1@));
        board
    }

    /// The 19-tile map of the base game.
    pub fn generate_board(rng: &mut ThreadRng) -> (board: (Vec<Vertex>, Vec<Tile>))
        ensures
            is_shuffled_board(standard_coords(), board.0@.map_values(|v: Vertex| v@), board.1@),
    {
        let hex_coords = vec![
            (0i32, -2i32), (1i32, -2i32), (2i32, -2i32),
            (-1i32, -1i32), (0i32, -1i32), (1i32, -1i32), (2i32, -1i32),
            (-2i32, 0i32), (-1i32, 0i32), (0i32, 0i32), (1i32, 0i32), (2i32, 0i32),
            (-2i32, 1i32), (-1i32, 1i32), (0i32, 1i32), (1i32, 1i32),
            (-2i32, 2i32), (-1i32, 2i32), (0i32, 2i32),
        ];
        assert(hex_coords@ =~= standard_coords());
        Self::generate_board_from_coords(rng, hex_coords)
    }

    /// A board of any shape, given by the axial coordinates of its hexes.
    pub fn generate_board_custom(rng: &mut ThreadRng, hex_coords: Vec<(i32, i32)>) -> (board: (Vec<Vertex>, Vec<Tile>))
        requires
            coords_in_range(hex_coords@),
        ensures
            is_shuffled_board(hex_coords@, board.0@.map_values(|v: Vertex| v@), board.1@),
    {
        Self::generate_board_from_coords(rng, hex_coords)
    }

    /// The nine harbors, on one of the two layouts chosen by a fair coin, with their types
    /// shuffled.
    pub fn generate_harbors(rng: &mut ThreadRng) -> (harbors: Vec<Harbor>)
        ensures
            exists|first: bool, types: Seq<HarborType>|
                types.to_multiset() == standard_harbor_types().to_multiset()
                    && types.len() == 9
                    && is_harbor_layout(first, types, harbors@),
    {
        let first = random_ratio(rng, 1, 2);
        let mut harbor_types: Vec<HarborType> = vec![
            HarborType::Generic,
            HarborType::Generic,
            HarborType::Generic,
            HarborType::Generic,
        ];
        let extra = [Resource::Brick, Resource::Lumber, Resource::Ore, Resource::Grain, Resource::Wool];
        let mut k: usize = 0;
        while k < 5
            invariant
                k <= 5,
                extra@ == seq![Resource::Brick, Resource::Lumber, Resource::Ore, Resource::Grain, Resource::Wool],
                harbor_types@ == standard_harbor_types().subrange(0, 4 + k),
            decreases 5 - k,
        {
            harbor_types.push(HarborType::Resource(extra[k]));
            assert(harbor_types@ =~= standard_harbor_types().subrange(0, 4 + k + 1));
            k += 1;
        }
        assert(harbor_types@ =~= standard_harbor_types());
        shuffle_vec(rng, &mut harbor_types);
        let harbors = harbors_from(first, &harbor_types);
        assert(is_harbor_layout(first, harbor_types@, harbors@));
        harbors
    }
}

} // verus!
