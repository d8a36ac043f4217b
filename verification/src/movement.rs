//! The movement policy: an entity hops to an orthogonal neighbor chosen by
//! cascading uniform samples against its aggressiveness, biased toward cells
//! near other entities; a sufficiently agile entity hops twice per turn.

use vstd::prelude::*;

use crate::distance::DistanceField;
use crate::game::Entity;
use crate::rng::rand_below;
use crate::AGILITY_GATE;
use crate::TRAIT_MAX;

verus! {

/// `(nx, ny)` is an in-bounds orthogonal neighbor of `(x, y)` under the
/// field's dimensions.
pub open spec fn neighbor_ok(f: DistanceField, x: int, y: int, nx: int, ny: int) -> bool {
    &&& 0 <= nx < f.cols
    &&& 0 <= ny < f.rows
    &&& ((nx + 1 == x && ny == y) || (nx == x + 1 && ny == y) || (nx == x && ny + 1 == y) || (nx
        == x && ny == y + 1))
}

/// `(nx, ny)` is a legal hop from `(x, y)` whose field value is minimal
/// among all legal hops from `(x, y)`.
pub open spec fn min_hop(f: DistanceField, x: int, y: int, nx: int, ny: int) -> bool {
    &&& neighbor_ok(f, x, y, nx, ny)
    &&& forall|ax: int, ay: int|
        #[trigger] neighbor_ok(f, x, y, ax, ay) ==> f.at(nx, ny) <= f.at(ax, ay)
}

/// `(nx, ny)` is a legal hop from `(x, y)` whose field value is maximal
/// among all legal hops from `(x, y)`.
pub open spec fn max_hop(f: DistanceField, x: int, y: int, nx: int, ny: int) -> bool {
    &&& neighbor_ok(f, x, y, nx, ny)
    &&& forall|ax: int, ay: int|
        #[trigger] neighbor_ok(f, x, y, ax, ay) ==> f.at(ax, ay) <= f.at(nx, ny)
}

/// Manhattan distance between two cell coordinates.
pub open spec fn manhattan(x1: int, y1: int, x2: int, y2: int) -> int {
    (if x1 >= x2 {
        x1 - x2
    } else {
        x2 - x1
    }) + (if y1 >= y2 {
        y1 - y2
    } else {
        y2 - y1
    })
}

/// `e` is `o` after its hops for one turn with the agile flag set: the
/// chromosome is carried unchanged, and the entity is displaced by exactly
/// one orthogonal hop when its agility is at most `AGILITY_GATE`, and by two
/// chained orthogonal hops — which may cancel or stack — when it is above.
pub open spec fn moved_from(e: Entity, o: Entity) -> bool {
    &&& e.chromosome == o.chromosome
    &&& (if o.chromosome.agility <= AGILITY_GATE {
        manhattan(e.x as int, e.y as int, o.x as int, o.y as int) == 1
    } else {
        manhattan(e.x as int, e.y as int, o.x as int, o.y as int) == 0 || manhattan(
            e.x as int,
            e.y as int,
            o.x as int,
            o.y as int,
        ) == 2
    })
}

/// One orthogonal hop displaces an entity by Manhattan distance exactly 1.
proof fn lemma_hop_manhattan(f: DistanceField, x0: int, y0: int, x1: int, y1: int)
    requires
        neighbor_ok(f, x0, y0, x1, y1),
    ensures
        manhattan(x1, y1, x0, y0) == 1,
{
}

/// Two chained orthogonal hops displace by Manhattan distance 0 or 2.
proof fn lemma_two_hop_manhattan(
    f: DistanceField,
    x0: int,
    y0: int,
    x1: int,
    y1: int,
    x2: int,
    y2: int,
)
    requires
        neighbor_ok(f, x0, y0, x1, y1),
        neighbor_ok(f, x1, y1, x2, y2),
    ensures
        manhattan(x2, y2, x0, y0) == 0 || manhattan(x2, y2, x0, y0) == 2,
{
}

/// The field value of a candidate destination.
pub open spec fn fval(f: DistanceField, p: (u32, u32)) -> u32 {
    f.at(p.0 as int, p.1 as int)
}

/// Sort the candidate list ascending by field value (insertion sort, stable).
fn sort_by_field(field: &DistanceField, v: &mut Vec<(u32, u32)>)
    requires
        field.wf(),
        forall|i: int|
            0 <= i < old(v)@.len() ==> (#[trigger] old(v)@[i]).0 < field.cols && old(v)@[i].1
                < field.rows,
        forall|p: int, q: int|
            #![trigger old(v)@[p], old(v)@[q]]
            0 <= p < q < old(v)@.len() ==> old(v)@[p] != old(v)@[q],
    ensures
        forall|p: int, q: int|
            #![trigger final(v)@[p], final(v)@[q]]
            0 <= p < q < final(v)@.len() ==> final(v)@[p] != final(v)@[q],
        final(v)@.len() == old(v)@.len(),
        forall|i: int|
            0 <= i < final(v)@.len() ==> (#[trigger] final(v)@[i]).0 < field.cols
                && final(v)@[i].1 < field.rows,
        forall|i: int, j: int|
            #![trigger final(v)@[i], final(v)@[j]]
            0 <= i <= j < final(v)@.len() ==> fval(*field, final(v)@[i]) <= fval(
                *field,
                final(v)@[j],
            ),
        forall|i: int| 0 <= i < final(v)@.len() ==> old(v)@.contains(#[trigger] final(v)@[i]),
        forall|e: (u32, u32)| #[trigger] old(v)@.contains(e) ==> final(v)@.contains(e),
{
    let n: usize = v.len();
    let mut i: usize = 1;
    while i < n
        invariant
            1 <= i,
            n == v@.len(),
            v@.len() == old(v)@.len(),
            field.wf(),
            forall|k: int|
                0 <= k < v@.len() ==> (#[trigger] v@[k]).0 < field.cols && v@[k].1 < field.rows,
            forall|p: int, q: int|
                #![trigger v@[p], v@[q]]
                0 <= p <= q < i && q < v@.len() ==> fval(*field, v@[p]) <= fval(*field, v@[q]),
            forall|k: int| 0 <= k < v@.len() ==> old(v)@.contains(#[trigger] v@[k]),
            forall|e: (u32, u32)| #[trigger] old(v)@.contains(e) ==> v@.contains(e),
            forall|p: int, q: int|
                #![trigger v@[p], v@[q]]
                0 <= p < q < v@.len() ==> v@[p] != v@[q],
        decreases n - i,
    {
        let mut j: usize = i;
        while j > 0 && field.get(v[j - 1].0, v[j - 1].1) > field.get(v[j].0, v[j].1)
            invariant
                j <= i < n,
                n == v@.len(),
                v@.len() == old(v)@.len(),
                field.wf(),
                forall|k: int|
                    0 <= k < v@.len() ==> (#[trigger] v@[k]).0 < field.cols && v@[k].1
                        < field.rows,
                forall|p: int, q: int|
                    #![trigger v@[p], v@[q]]
                    0 <= p <= q <= i && q != j ==> fval(*field, v@[p]) <= fval(*field, v@[q]),
                forall|k: int| 0 <= k < v@.len() ==> old(v)@.contains(#[trigger] v@[k]),
                forall|e: (u32, u32)| #[trigger] old(v)@.contains(e) ==> v@.contains(e),
                forall|p: int, q: int|
                    #![trigger v@[p], v@[q]]
                    0 <= p < q < v@.len() ==> v@[p] != v@[q],
            decreases j,
        {
            let ghost pre = v@;
            let a = v[j - 1];
            let b = v[j];
            v[j - 1] = b;
            v[j] = a;
            proof {
                assert forall|e: (u32, u32)| #[trigger] old(v)@.contains(e) implies v@.contains(
                    e,
                ) by {
                    assert(pre.contains(e));
                    let w: int = choose|w: int| 0 <= w < pre.len() && pre[w] == e;
                    if w == j - 1 {
                        assert(v@[j as int] == e);
                    } else if w == j {
                        assert(v@[j - 1] == e);
                    } else {
                        assert(v@[w] == e);
                    }
                }
                assert forall|p: int, q: int|
                    #![trigger v@[p], v@[q]]
                    0 <= p < q < v@.len() implies v@[p] != v@[q] by {
                    let p2: int = if p == j - 1 {
                        j as int
                    } else if p == j {
                        j - 1
                    } else {
                        p
                    };
                    let q2: int = if q == j - 1 {
                        j as int
                    } else if q == j {
                        j - 1
                    } else {
                        q
                    };
                    assert(v@[p] == pre[p2]);
                    assert(v@[q] == pre[q2]);
                    assert(p2 != q2);
                }
            }
            j = j - 1;
        }
        proof {
            assert forall|p: int, q: int|
                #![trigger v@[p], v@[q]]
                0 <= p <= q <= i implies fval(*field, v@[p]) <= fval(*field, v@[q]) by {
                if q == j && p < q {
                    assert(fval(*field, v@[p]) <= fval(*field, v@[j - 1]));
                }
            }
        }
        i = i + 1;
    }
}

/// The number of in-bounds orthogonal neighbors of `(x, y)`.
pub open spec fn neighbor_count(f: DistanceField, x: int, y: int) -> int {
    (if x > 0 {
        1int
    } else {
        0int
    }) + (if x + 1 < f.cols {
        1int
    } else {
        0int
    }) + (if y > 0 {
        1int
    } else {
        0int
    }) + (if y + 1 < f.rows {
        1int
    } else {
        0int
    })
}

/// The movement candidate list for `(x, y)`: the in-bounds orthogonal
/// neighbors, sorted ascending by field value and padded to exactly 4
/// entries by repeating the farthest entry. The first entry minimizes the
/// field value over all legal hops; the last maximizes it.
pub fn padded_neighbors(field: &DistanceField, x: u32, y: u32) -> (v: Vec<(u32, u32)>)
    requires
        field.wf(),
        x < field.cols,
        y < field.rows,
    ensures
        v@.len() == 4,
        forall|i: int|
            0 <= i < 4 ==> neighbor_ok(
                *field,
                x as int,
                y as int,
                (#[trigger] v@[i]).0 as int,
                v@[i].1 as int,
            ),
        forall|i: int, j: int|
            #![trigger v@[i], v@[j]]
            0 <= i <= j < 4 ==> fval(*field, v@[i]) <= fval(*field, v@[j]),
        forall|nx: int, ny: int|
            #[trigger] neighbor_ok(*field, x as int, y as int, nx, ny) ==> fval(*field, v@[0])
                <= field.at(nx, ny),
        forall|nx: int, ny: int|
            #[trigger] neighbor_ok(*field, x as int, y as int, nx, ny) ==> field.at(nx, ny)
                <= fval(*field, v@[3]),
        forall|nx: int, ny: int|
            #[trigger] neighbor_ok(*field, x as int, y as int, nx, ny) && field.at(nx, ny) < fval(
                *field,
                v@[1],
            ) ==> nx == v@[0].0 && ny == v@[0].1,
        forall|nx: int, ny: int|
            #[trigger] neighbor_ok(*field, x as int, y as int, nx, ny) && field.at(nx, ny) < fval(
                *field,
                v@[2],
            ) ==> (nx == v@[0].0 && ny == v@[0].1) || (nx == v@[1].0 && ny == v@[1].1),
        1 <= neighbor_count(*field, x as int, y as int) <= 4,
        forall|p: int, q: int|
            #![trigger v@[p], v@[q]]
            0 <= p < q < neighbor_count(*field, x as int, y as int) ==> v@[p] != v@[q],
        forall|i: int|
            neighbor_count(*field, x as int, y as int) <= i < 4 ==> #[trigger] v@[i] == v@[
                neighbor_count(*field, x as int, y as int) - 1
            ],
        forall|nx: int, ny: int|
            #[trigger] neighbor_ok(*field, x as int, y as int, nx, ny) ==> exists|i: int|
                0 <= i < neighbor_count(*field, x as int, y as int) && #[trigger] v@[i] == ((
                nx as u32), (ny as u32)),
{
    broadcast use vstd::seq_lib::lemma_seq_contains_after_push;

    let mut v: Vec<(u32, u32)> = Vec::new();
    if x > 0 {
        v.push((x - 1, y));
    }
    if x + 1 < field.cols {
        v.push((x + 1, y));
    }
    if y > 0 {
        v.push((x, y - 1));
    }
    if y + 1 < field.rows {
        v.push((x, y + 1));
    }
    proof {
        assert(v@.len() >= 1);
        assert forall|nx: int, ny: int|
            #[trigger] neighbor_ok(*field, x as int, y as int, nx, ny) implies v@.contains(
            ((nx as u32), (ny as u32)),
        ) by {
            if nx + 1 == x as int && ny == y as int {
                assert(v@.contains((((x - 1) as u32), y)));
            } else if nx == x as int + 1 && ny == y as int {
                assert(v@.contains((((x + 1) as u32), y)));
            } else if nx == x as int && ny + 1 == y as int {
                assert(v@.contains((x, ((y - 1) as u32))));
            } else {
                assert(v@.contains((x, ((y + 1) as u32))));
            }
        }
    }
    proof {
        assert(v@.len() == neighbor_count(*field, x as int, y as int));
        assert forall|p: int, q: int|
            #![trigger v@[p], v@[q]]
            0 <= p < q < v@.len() implies v@[p] != v@[q] by {}
    }
    let ghost enumerated = v@;
    sort_by_field(field, &mut v);
    let ghost l = v@.len() as int;
    let mut count: usize = v.len();
    while count < 4
        invariant
            count == v@.len(),
            1 <= count <= 4,
            l == neighbor_count(*field, x as int, y as int),
            l <= count,
            field.wf(),
            forall|p: int, q: int|
                #![trigger v@[p], v@[q]]
                0 <= p < q < l ==> v@[p] != v@[q],
            forall|i: int| l <= i < count ==> #[trigger] v@[i] == v@[l - 1],
            forall|i: int|
                0 <= i < v@.len() ==> enumerated.contains(#[trigger] v@[i]),
            forall|e: (u32, u32)| #[trigger] enumerated.contains(e) ==> v@.contains(e),
            forall|i: int, j: int|
                #![trigger v@[i], v@[j]]
                0 <= i <= j < v@.len() ==> fval(*field, v@[i]) <= fval(*field, v@[j]),
            forall|i: int|
                0 <= i < v@.len() ==> (#[trigger] v@[i]).0 < field.cols && v@[i].1 < field.rows,
        decreases 4 - count,
    {
        let last = v[count - 1];
        let ghost pre = v@;
        v.push(last);
        proof {
            assert(last == pre[l - 1]);
            assert forall|e: (u32, u32)| #[trigger] enumerated.contains(e) implies v@.contains(
                e,
            ) by {
                assert(pre.contains(e));
                let w: int = choose|w: int| 0 <= w < pre.len() && pre[w] == e;
                assert(v@[w] == e);
            }
        }
        count = count + 1;
    }
    proof {
        assert forall|i: int|
            0 <= i < 4 implies neighbor_ok(
            *field,
            x as int,
            y as int,
            (#[trigger] v@[i]).0 as int,
            v@[i].1 as int,
        ) by {
            assert(enumerated.contains(v@[i]));
            let w: int = choose|w: int| 0 <= w < enumerated.len() && enumerated[w] == v@[i];
        }
        assert forall|nx: int, ny: int|
            #[trigger] neighbor_ok(*field, x as int, y as int, nx, ny) implies exists|i: int|
            0 <= i < neighbor_count(*field, x as int, y as int) && #[trigger] v@[i] == ((nx as u32),
        (ny as u32)) by {
            let e = ((nx as u32), (ny as u32));
            assert(enumerated.contains(e));
            assert(v@.contains(e));
            let w: int = choose|w: int| 0 <= w < v@.len() && v@[w] == e;
            if w >= l {
                assert(v@[l - 1] == e);
            }
        }
        assert forall|nx: int, ny: int|
            #[trigger] neighbor_ok(*field, x as int, y as int, nx, ny) implies fval(*field, v@[0])
            <= field.at(nx, ny) && field.at(nx, ny) <= fval(*field, v@[3]) by {
            let e = ((nx as u32), (ny as u32));
            assert(enumerated.contains(e));
            assert(v@.contains(e));
            let w: int = choose|w: int| 0 <= w < v@.len() && v@[w] == e;
            assert(fval(*field, v@[0]) <= fval(*field, v@[w]));
            assert(fval(*field, v@[w]) <= fval(*field, v@[3]));
        }
        assert forall|nx: int, ny: int|
            #[trigger] neighbor_ok(*field, x as int, y as int, nx, ny) && field.at(nx, ny) < fval(
            *field,
            v@[1],
        ) implies nx == v@[0].0 && ny == v@[0].1 by {
            let e = ((nx as u32), (ny as u32));
            assert(v@.contains(e));
            let w: int = choose|w: int| 0 <= w < v@.len() && v@[w] == e;
            if w >= 1 {
                assert(fval(*field, v@[1]) <= fval(*field, v@[w]));
            }
        }
        assert forall|nx: int, ny: int|
            #[trigger] neighbor_ok(*field, x as int, y as int, nx, ny) && field.at(nx, ny) < fval(
            *field,
            v@[2],
        ) implies (nx == v@[0].0 && ny == v@[0].1) || (nx == v@[1].0 && ny == v@[1].1) by {
            let e = ((nx as u32), (ny as u32));
            assert(v@.contains(e));
            let w: int = choose|w: int| 0 <= w < v@.len() && v@[w] == e;
            if w >= 2 {
                assert(fval(*field, v@[2]) <= fval(*field, v@[w]));
            }
        }
    }
    v
}

/// How many of the legal hops from `(x, y)` have a field value strictly
/// below `v`.
pub open spec fn hops_closer_than(f: DistanceField, x: int, y: int, v: u32) -> int {
    (if neighbor_ok(f, x, y, x - 1, y) && f.at(x - 1, y) < v {
        1int
    } else {
        0int
    }) + (if neighbor_ok(f, x, y, x + 1, y) && f.at(x + 1, y) < v {
        1int
    } else {
        0int
    }) + (if neighbor_ok(f, x, y, x, y - 1) && f.at(x, y - 1) < v {
        1int
    } else {
        0int
    }) + (if neighbor_ok(f, x, y, x, y + 1) && f.at(x, y + 1) < v {
        1int
    } else {
        0int
    })
}

/// Pick the destination of one hop from `(x, y)`: the sorted, padded
/// candidate list is indexed by cascading the three samples against the
/// aggressiveness threshold. A first sample below the threshold chooses the
/// candidate nearest to an occupied cell; each later sample falls back one
/// rank; three samples at or above the threshold choose the farthest.
pub fn choose_destination(
    field: &DistanceField,
    x: u32,
    y: u32,
    aggressive: u32,
    s1: u32,
    s2: u32,
    s3: u32,
) -> (dest: (u32, u32))
    requires
        field.wf(),
        x < field.cols,
        y < field.rows,
    ensures
        neighbor_ok(*field, x as int, y as int, dest.0 as int, dest.1 as int),
        s1 < aggressive ==> min_hop(*field, x as int, y as int, dest.0 as int, dest.1 as int),
        s1 >= aggressive && s2 < aggressive ==> hops_closer_than(
            *field,
            x as int,
            y as int,
            field.at(dest.0 as int, dest.1 as int),
        ) <= 1,
        s1 >= aggressive && s2 >= aggressive && s3 < aggressive ==> hops_closer_than(
            *field,
            x as int,
            y as int,
            field.at(dest.0 as int, dest.1 as int),
        ) <= 2,
        s1 >= aggressive && s2 >= aggressive && s3 >= aggressive ==> max_hop(
            *field,
            x as int,
            y as int,
            dest.0 as int,
            dest.1 as int,
        ),
{
    let v = padded_neighbors(field, x, y);
    if s1 < aggressive {
        v[0]
    } else if s2 < aggressive {
        proof {
            assert(hops_closer_than(*field, x as int, y as int, fval(*field, v@[1])) <= 1);
        }
        v[1]
    } else if s3 < aggressive {
        proof {
            assert(hops_closer_than(*field, x as int, y as int, fval(*field, v@[2])) <= 2);
        }
        v[2]
    } else {
        v[3]
    }
}

impl Entity {
    /// Move one hop — or two, when `agile` is set and the entity's agility
    /// exceeds `AGILITY_GATE` — with every hop decided against the same
    /// distance field snapshot. The chromosome is unchanged; the entity
    /// never leaves the field's bounds; a maximally aggressive entity always
    /// takes a field-minimizing hop.
    pub fn move_entity(&mut self, field: &DistanceField, agile: bool)
        requires
            field.wf(),
            old(self).x < field.cols,
            old(self).y < field.rows,
        ensures
            final(self).chromosome == old(self).chromosome,
            final(self).x < field.cols,
            final(self).y < field.rows,
            agile ==> moved_from(*final(self), *old(self)),
            !(agile && old(self).chromosome.agility > AGILITY_GATE) ==> {
                &&& neighbor_ok(
                    *field,
                    old(self).x as int,
                    old(self).y as int,
                    final(self).x as int,
                    final(self).y as int,
                )
                &&& old(self).chromosome.aggressive == TRAIT_MAX ==> min_hop(
                    *field,
                    old(self).x as int,
                    old(self).y as int,
                    final(self).x as int,
                    final(self).y as int,
                )
                &&& old(self).chromosome.aggressive == 0 ==> max_hop(
                    *field,
                    old(self).x as int,
                    old(self).y as int,
                    final(self).x as int,
                    final(self).y as int,
                )
            },
            (agile && old(self).chromosome.agility > AGILITY_GATE) ==> exists|mx: int, my: int|
                {
                    &&& #[trigger] neighbor_ok(*field, old(self).x as int, old(self).y as int, mx, my)
                    &&& neighbor_ok(*field, mx, my, final(self).x as int, final(self).y as int)
                    &&& old(self).chromosome.aggressive == TRAIT_MAX ==> min_hop(
                        *field,
                        old(self).x as int,
                        old(self).y as int,
                        mx,
                        my,
                    ) && min_hop(*field, mx, my, final(self).x as int, final(self).y as int)
                    &&& old(self).chromosome.aggressive == 0 ==> max_hop(
                        *field,
                        old(self).x as int,
                        old(self).y as int,
                        mx,
                        my,
                    ) && max_hop(*field, mx, my, final(self).x as int, final(self).y as int)
                },
    {
        let s1: u32 = rand_below(TRAIT_MAX);
        let s2: u32 = rand_below(TRAIT_MAX);
        let s3: u32 = rand_below(TRAIT_MAX);
        let dest = choose_destination(field, self.x, self.y, self.chromosome.aggressive, s1, s2, s3);
        self.x = dest.0;
        self.y = dest.1;
        if agile && self.chromosome.agility > AGILITY_GATE {
            let ghost mx = self.x as int;
            let ghost my = self.y as int;
            let t1: u32 = rand_below(TRAIT_MAX);
            let t2: u32 = rand_below(TRAIT_MAX);
            let t3: u32 = rand_below(TRAIT_MAX);
            let dest2 = choose_destination(
                field,
                self.x,
                self.y,
                self.chromosome.aggressive,
                t1,
                t2,
                t3,
            );
            self.x = dest2.0;
            self.y = dest2.1;
            proof {
                assert(neighbor_ok(*field, old(self).x as int, old(self).y as int, mx, my));
                lemma_two_hop_manhattan(
                    *field,
                    old(self).x as int,
                    old(self).y as int,
                    mx,
                    my,
                    self.x as int,
                    self.y as int,
                );
            }
        } else {
            proof {
                lemma_hop_manhattan(
                    *field,
                    old(self).x as int,
                    old(self).y as int,
                    self.x as int,
                    self.y as int,
                );
            }
        }
    }
}

} // verus!
