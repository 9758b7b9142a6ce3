//! Wire routes on a grid: a wire is laid out move by move from the
//! origin, remembering for every visited position the fewest steps that
//! reach it; two laid-out wires can then be intersected.

use vstd::prelude::*;
use vstd::string::StrSliceExecFns;
use crate::loader::{first_comma, lemma_first_comma};
use crate::numerals::{digits_val, is_u32_literal, literal_digits, parse_u32};

verus! {

#[derive(Clone, Copy, Debug, PartialEq, Eq, Structural)]
pub enum Directions {
    U,
    D,
    R,
    L,
}

/// One routing move: a direction and how many unit steps to take.
#[derive(Clone, Copy, Debug, PartialEq, Eq, Structural)]
pub struct Move {
    pub direction: Directions,
    pub steps: u32,
}

/// A grid position.
#[derive(Clone, Copy, Debug, PartialEq, Eq, Structural)]
pub struct Pos {
    pub x: i32,
    pub y: i32,
}

impl Pos {
    /// The origin, where every wire starts.
    pub fn start() -> (p: Pos)
        ensures
            p == (Pos { x: 0, y: 0 }),
    {
        Pos { x: 0, y: 0 }
    }
}

/// The unit displacement of a direction.
pub open spec fn dir_delta(d: Directions) -> (int, int) {
    match d {
        Directions::U => (0, 1),
        Directions::D => (0, -1),
        Directions::R => (1, 0),
        Directions::L => (-1, 0),
    }
}

/// The model of a wire being laid out: the visited positions with their
/// fewest step counts, the position the head rests on, and the step
/// counter the next visit will record.
pub ghost struct RouteState {
    pub route: Map<(int, int), int>,
    pub current: (int, int),
    pub total: int,
}

/// Lay one unit step: move the head, record the step count at the new
/// position (keeping an earlier, smaller count), and advance the counter.
pub open spec fn route_step(st: RouteState, d: Directions) -> RouteState {
    let np = (st.current.0 + dir_delta(d).0, st.current.1 + dir_delta(d).1);
    let steps = if st.route.dom().contains(np) && st.route[np] < st.total {
        st.route[np]
    } else {
        st.total
    };
    RouteState { route: st.route.insert(np, steps), current: np, total: st.total + 1 }
}

/// Lay `n` unit steps in one direction.
pub open spec fn route_steps_n(st: RouteState, d: Directions, n: nat) -> RouteState
    decreases n,
{
    if n == 0 {
        st
    } else {
        route_steps_n(route_step(st, d), d, (n - 1) as nat)
    }
}

/// Lay out a whole list of moves.
pub open spec fn route_moves(st: RouteState, moves: Seq<Move>) -> RouteState
    decreases moves.len(),
{
    if moves.len() == 0 {
        st
    } else {
        route_moves(route_steps_n(st, moves[0].direction, moves[0].steps as nat), moves.skip(1))
    }
}

/// The total number of unit steps a move list takes.
pub open spec fn sum_steps(moves: Seq<Move>) -> nat
    decreases moves.len(),
{
    if moves.len() == 0 {
        0
    } else {
        (moves[0].steps + sum_steps(moves.skip(1))) as nat
    }
}

proof fn lemma_sum_steps_snoc(moves: Seq<Move>, m: Move)
    ensures
        sum_steps(moves.push(m)) == sum_steps(moves) + m.steps,
    decreases moves.len(),
{
    if moves.len() == 0 {
        assert(moves.push(m)[0] == m);
        assert(moves.push(m).skip(1) =~= Seq::<Move>::empty());
        assert(sum_steps(Seq::<Move>::empty()) == 0);
    } else {
        assert(moves.push(m)[0] == moves[0]);
        assert(moves.push(m).skip(1) =~= moves.skip(1).push(m));
        lemma_sum_steps_snoc(moves.skip(1), m);
    }
}

/// The recorded steps for a position in the backing list: the first
/// entry with that key.
pub open spec fn vec_lookup(r: Seq<(Pos, i32)>, p: (int, int)) -> Option<i32>
    decreases r.len(),
{
    if r.len() == 0 {
        None
    } else if r[0].0.x == p.0 && r[0].0.y == p.1 {
        Some(r[0].1)
    } else {
        vec_lookup(r.skip(1), p)
    }
}

/// The backing list read as a map from positions to recorded steps.
pub open spec fn as_map(r: Seq<(Pos, i32)>) -> Map<(int, int), int> {
    Map::new(
        |p: (int, int)| vec_lookup(r, p) is Some,
        |p: (int, int)|
            match vec_lookup(r, p) {
                Some(v) => v as int,
                None => 0,
            },
    )
}

/// No position occurs twice in the backing list.
pub open spec fn unique_keys(r: Seq<(Pos, i32)>) -> bool {
    forall|k1: int, k2: int|
        0 <= k1 < k2 < r.len() ==> !((#[trigger] r[k1]).0 == (#[trigger] r[k2]).0)
}

/// An entry's key is found by `vec_lookup`, and when keys are unique it
/// yields exactly that entry's value.
proof fn lemma_lookup_at(r: Seq<(Pos, i32)>, k: int)
    requires
        0 <= k < r.len(),
        unique_keys(r),
    ensures
        vec_lookup(r, (r[k].0.x as int, r[k].0.y as int)) == Some(r[k].1),
    decreases r.len(),
{
    if k > 0 {
        assert(!(r[0].0 == r[k].0));
        assert(r.skip(1)[k - 1] == r[k]);
        assert forall|k1: int, k2: int| 0 <= k1 < k2 < r.skip(1).len() implies !((#[trigger] r.skip(
            1,
        )[k1]).0 == (#[trigger] r.skip(1)[k2]).0) by {
            assert(r.skip(1)[k1] == r[k1 + 1]);
            assert(r.skip(1)[k2] == r[k2 + 1]);
        }
        lemma_lookup_at(r.skip(1), k - 1);
    }
}

/// A successful lookup names some entry of the list.
proof fn lemma_lookup_index(r: Seq<(Pos, i32)>, p: (int, int))
    requires
        vec_lookup(r, p) is Some,
    ensures
        exists|k: int|
            0 <= k < r.len() && ((#[trigger] r[k]).0.x == p.0 && r[k].0.y == p.1) && vec_lookup(
                r,
                p,
            ) == Some(r[k].1),
    decreases r.len(),
{
    if r.len() > 0 {
        if r[0].0.x == p.0 && r[0].0.y == p.1 {
            assert(r[0] == r[0]);
        } else {
            lemma_lookup_index(r.skip(1), p);
            let k0 = choose|k: int|
                0 <= k < r.skip(1).len() && ((#[trigger] r.skip(1)[k]).0.x == p.0 && r.skip(
                    1,
                )[k].0.y == p.1) && vec_lookup(r.skip(1), p) == Some(r.skip(1)[k].1);
            assert(r[k0 + 1] == r.skip(1)[k0]);
        }
    }
}

/// Updating the entry that holds a key changes only that key's value.
proof fn lemma_lookup_update(r: Seq<(Pos, i32)>, k: int, v: i32, q: (int, int))
    requires
        0 <= k < r.len(),
        unique_keys(r),
    ensures
        vec_lookup(r.update(k, (r[k].0, v)), q) == (if q.0 == r[k].0.x && q.1 == r[k].0.y {
            Some(v)
        } else {
            vec_lookup(r, q)
        }),
    decreases r.len(),
{
    let r2 = r.update(k, (r[k].0, v));
    if k == 0 {
        if !(q.0 == r[0].0.x && q.1 == r[0].0.y) {
            assert(r2.skip(1) =~= r.skip(1));
        }
    } else {
        assert(r2[0] == r[0]);
        if q.0 == r[0].0.x && q.1 == r[0].0.y {
        } else {
            assert(r2.skip(1) =~= r.skip(1).update(k - 1, (r.skip(1)[k - 1].0, v)));
            assert forall|k1: int, k2: int|
                0 <= k1 < k2 < r.skip(1).len() implies !((#[trigger] r.skip(1)[k1]).0
                == (#[trigger] r.skip(1)[k2]).0) by {
                assert(r.skip(1)[k1] == r[k1 + 1]);
                assert(r.skip(1)[k2] == r[k2 + 1]);
            }
            lemma_lookup_update(r.skip(1), k - 1, v, q);
        }
    }
}

/// Appending a fresh key leaves old keys' values alone and gives the new
/// key the appended value.
proof fn lemma_lookup_push(r: Seq<(Pos, i32)>, p: Pos, v: i32, q: (int, int))
    requires
        vec_lookup(r, (p.x as int, p.y as int)) is None,
    ensures
        vec_lookup(r.push((p, v)), q) == (if q.0 == p.x && q.1 == p.y {
            Some(v)
        } else {
            vec_lookup(r, q)
        }),
    decreases r.len(),
{
    if r.len() == 0 {
        assert(r.push((p, v))[0] == (p, v));
        if !(q.0 == p.x && q.1 == p.y) {
            assert(r.push((p, v)).skip(1) =~= Seq::<(Pos, i32)>::empty());
            assert(vec_lookup(Seq::<(Pos, i32)>::empty(), q) is None);
        }
    } else {
        assert(r.push((p, v))[0] == r[0]);
        if q.0 == r[0].0.x && q.1 == r[0].0.y {
        } else {
            assert(r.push((p, v)).skip(1) =~= r.skip(1).push((p, v)));
            lemma_lookup_push(r.skip(1), p, v, q);
        }
    }
}

/// A laid-out wire: the visited positions with their fewest recorded
/// steps, and the position the head rests on.
#[derive(Debug)]
pub struct Wire {
    route: Vec<(Pos, i32)>,
    current: Pos,
}

impl Wire {
    /// The positions the wire has visited and their recorded steps.
    pub closed spec fn route_map(&self) -> Map<(int, int), int> {
        as_map(self.route@)
    }

    /// Where the wire's head rests.
    pub closed spec fn current_pos(&self) -> (int, int) {
        (self.current.x as int, self.current.y as int)
    }

    pub closed spec fn wf(&self) -> bool {
        unique_keys(self.route@)
    }

    /// A fresh wire: only the origin is visited, with zero steps.
    pub fn new() -> (w: Wire)
        ensures
            w.wf(),
            w.route_map() == Map::<(int, int), int>::empty().insert((0, 0), 0),
            w.current_pos() == (0int, 0int),
    {
        let mut route: Vec<(Pos, i32)> = Vec::new();
        route.push((Pos::start(), 0));
        let w = Wire { route, current: Pos::start() };
        proof {
            assert(w.route@[0] == (Pos { x: 0, y: 0 }, 0i32));
            assert(w.route@.len() == 1);
            assert forall|q: (int, int)| true implies vec_lookup(w.route@, q) == (if q == (
            0int,
            0int,
            ) {
                Some(0i32)
            } else {
                None::<i32>
            }) by {
                if !(q == (0int, 0int)) {
                    assert(w.route@.skip(1) =~= Seq::<(Pos, i32)>::empty());
                    assert(vec_lookup(Seq::<(Pos, i32)>::empty(), q) is None);
                }
            }
            assert(w.route_map() =~= Map::<(int, int), int>::empty().insert((0, 0), 0));
        }
        w
    }

    /// Lay out the moves from the wire's current head, counting unit
    /// steps from one, exactly as `route_moves` describes. The bounds
    /// keep every coordinate and step count within a cell.
    pub fn apply_moves(&mut self, moves: Vec<Move>)
        requires
            old(self).wf(),
            sum_steps(moves@) + 1 <= i32::MAX,
            abs_int(old(self).current_pos().0) + sum_steps(moves@) <= i32::MAX,
            abs_int(old(self).current_pos().1) + sum_steps(moves@) <= i32::MAX,
        ensures
            final(self).wf(),
            ({
                let end = route_moves(
                    (RouteState {
                        route: old(self).route_map(),
                        current: old(self).current_pos(),
                        total: 1,
                    }),
                    moves@,
                );
                final(self).route_map() == end.route && final(self).current_pos() == end.current
            }),
    {
        let ghost init = RouteState {
            route: old(self).route_map(),
            current: old(self).current_pos(),
            total: 1,
        };
        let ghost all = moves@;
        let mut total_steps: i32 = 1;
        let mut m: usize = 0;
        proof {
            assert(all.take(0) =~= Seq::<Move>::empty());
        }
        while m < moves.len()
            invariant
                m <= all.len(),
                all == moves@,
                self.wf(),
                sum_steps(all) + 1 <= i32::MAX,
                abs_int(init.current.0) + sum_steps(all) <= i32::MAX,
                abs_int(init.current.1) + sum_steps(all) <= i32::MAX,
                init.total == 1,
                (RouteState {
                    route: self.route_map(),
                    current: self.current_pos(),
                    total: total_steps as int,
                }) == route_moves(init, all.take(m as int)),
                total_steps == 1 + sum_steps(all.take(m as int)),
                sum_steps(all.take(m as int)) <= sum_steps(all),
                abs_int(self.current_pos().0) <= abs_int(init.current.0) + sum_steps(
                    all.take(m as int),
                ),
                abs_int(self.current_pos().1) <= abs_int(init.current.1) + sum_steps(
                    all.take(m as int),
                ),
            decreases all.len() - m,
        {
            let mov = moves[m];
            let ghost mid = route_moves(init, all.take(m as int));
            let mut t: u32 = 0;
            proof {
                lemma_sum_prefix(all, m as int);
            }
            while t < mov.steps
                invariant
                    t <= mov.steps,
                    m < all.len(),
                    all == moves@,
                    mov == all[m as int],
                    self.wf(),
                    init.total == 1,
                    mid == route_moves(init, all.take(m as int)),
                    sum_steps(all.take(m as int)) + mov.steps + 1 <= i32::MAX,
                    abs_int(init.current.0) + sum_steps(all.take(m as int)) + mov.steps
                        <= i32::MAX,
                    abs_int(init.current.1) + sum_steps(all.take(m as int)) + mov.steps
                        <= i32::MAX,
                    (RouteState {
                        route: self.route_map(),
                        current: self.current_pos(),
                        total: total_steps as int,
                    }) == route_steps_n(mid, mov.direction, t as nat),
                    total_steps == 1 + sum_steps(all.take(m as int)) + t,
                    abs_int(self.current_pos().0) <= abs_int(init.current.0) + sum_steps(
                        all.take(m as int),
                    ) + t,
                    abs_int(self.current_pos().1) <= abs_int(init.current.1) + sum_steps(
                        all.take(m as int),
                    ) + t,
                decreases mov.steps - t,
            {
                let ghost st_pre = RouteState {
                    route: self.route_map(),
                    current: self.current_pos(),
                    total: total_steps as int,
                };
                let pos = self.current;
                let new_pos = match mov.direction {
                    Directions::U => Pos { x: pos.x, y: pos.y + 1 },
                    Directions::D => Pos { x: pos.x, y: pos.y - 1 },
                    Directions::R => Pos { x: pos.x + 1, y: pos.y },
                    Directions::L => Pos { x: pos.x - 1, y: pos.y },
                };
                self.upsert_min(new_pos, total_steps);
                proof {
                    assert(route_step(st_pre, mov.direction) == (RouteState {
                        route: self.route_map(),
                        current: self.current_pos(),
                        total: total_steps + 1,
                    }));
                    lemma_route_steps_n_unfold(mid, mov.direction, t as nat);
                }
                total_steps = total_steps + 1;
                t = t + 1;
            }
            proof {
                lemma_route_moves_snoc(init, all, m as int);
                lemma_sum_snoc_take(all, m as int);
            }
            m = m + 1;
        }
        proof {
            assert(all.take(all.len() as int) =~= all);
        }
    }

    /// Move the head to a position and record the step count there,
    /// keeping an already-recorded smaller count.
    fn upsert_min(&mut self, new_pos: Pos, total_steps: i32)
        requires
            old(self).wf(),
        ensures
            final(self).wf(),
            ({
                let np = (new_pos.x as int, new_pos.y as int);
                let pre = old(self).route_map();
                let steps = if pre.dom().contains(np) && pre[np] < total_steps {
                    pre[np]
                } else {
                    total_steps as int
                };
                final(self).route_map() == pre.insert(np, steps) && final(self).current_pos()
                    == np
            }),
    {
        let ghost pre = self.route@;
        let ghost np = (new_pos.x as int, new_pos.y as int);
        let mut k: usize = 0;
        let mut found = false;
        let mut at: usize = 0;
        while k < self.route.len() && !found
            invariant
                k <= self.route@.len(),
                self.route@ == pre,
                !found ==> forall|j: int|
                    0 <= j < k ==> !((#[trigger] pre[j]).0.x == new_pos.x && pre[j].0.y
                        == new_pos.y),
                found ==> at < k <= pre.len() && pre[at as int].0 == new_pos,
            decreases pre.len() - k,
        {
            let entry = self.route[k];
            if entry.0.x == new_pos.x && entry.0.y == new_pos.y {
                found = true;
                at = k;
                proof {
                    assert(pre[k as int].0.x == new_pos.x && pre[k as int].0.y == new_pos.y);
                    assert(pre[k as int].0 == new_pos);
                }
            }
            k = k + 1;
        }
        if found {
            proof {
                lemma_lookup_at(pre, at as int);
            }
            let existing = self.route[at].1;
            let steps = if total_steps < existing {
                total_steps
            } else {
                existing
            };
            self.route.set(at, (new_pos, steps));
            self.current = new_pos;
            proof {
                assert(pre.update(at as int, (pre[at as int].0, steps)) =~= self.route@);
                assert forall|q: (int, int)| true implies vec_lookup(self.route@, q) == (if q
                    == np {
                    Some(steps)
                } else {
                    vec_lookup(pre, q)
                }) by {
                    lemma_lookup_update(pre, at as int, steps, q);
                }
                assert forall|k1: int, k2: int|
                    0 <= k1 < k2 < self.route@.len() implies !((#[trigger] self.route@[k1]).0
                    == (#[trigger] self.route@[k2]).0) by {
                    if k1 != at && k2 != at {
                        assert(self.route@[k1] == pre[k1] && self.route@[k2] == pre[k2]);
                    } else if k1 == at {
                        assert(self.route@[k2] == pre[k2]);
                        assert(pre[k1 as int].0 == self.route@[k1].0);
                    } else {
                        assert(self.route@[k1] == pre[k1]);
                        assert(pre[k2 as int].0 == self.route@[k2].0);
                    }
                }
                assert(self.route_map() =~= as_map(pre).insert(np, steps as int));
            }
        } else {
            proof {
                if vec_lookup(pre, np) is Some {
                    lemma_lookup_index(pre, np);
                    assert(false);
                }
            }
            self.route.push((new_pos, total_steps));
            self.current = new_pos;
            proof {
                assert forall|q: (int, int)| true implies vec_lookup(self.route@, q) == (if q
                    == np {
                    Some(total_steps)
                } else {
                    vec_lookup(pre, q)
                }) by {
                    lemma_lookup_push(pre, new_pos, total_steps, q);
                }
                assert forall|k1: int, k2: int|
                    0 <= k1 < k2 < self.route@.len() implies !((#[trigger] self.route@[k1]).0
                    == (#[trigger] self.route@[k2]).0) by {
                    if k2 == pre.len() {
                        assert(self.route@[k1] == pre[k1]);
                        if self.route@[k1].0 == new_pos {
                            lemma_lookup_at(pre, k1);
                            assert(false);
                        }
                    } else {
                        assert(self.route@[k1] == pre[k1] && self.route@[k2] == pre[k2]);
                    }
                }
                assert(self.route_map() =~= as_map(pre).insert(np, total_steps as int));
            }
        }
    }

    /// Lay out a whole route on a fresh wire.
    pub fn new_from_route(moves: Vec<Move>) -> (w: Wire)
        requires
            sum_steps(moves@) + 1 <= i32::MAX,
        ensures
            w.wf(),
            ({
                let end = route_moves(
                    (RouteState {
                        route: Map::<(int, int), int>::empty().insert((0, 0), 0),
                        current: (0, 0),
                        total: 1,
                    }),
                    moves@,
                );
                w.route_map() == end.route && w.current_pos() == end.current
            }),
    {
        let mut wire = Wire::new();
        wire.apply_moves(moves);
        wire
    }

    /// The fewest steps recorded at a visited position.
    pub fn get_min_steps(&self, pos: &Pos) -> (r: i32)
        requires
            self.wf(),
            self.route_map().dom().contains((pos.x as int, pos.y as int)),
        ensures
            r == self.route_map()[(pos.x as int, pos.y as int)],
    {
        let ghost p = (pos.x as int, pos.y as int);
        let mut k: usize = 0;
        while k < self.route.len()
            invariant
                k <= self.route@.len(),
                self.wf(),
                vec_lookup(self.route@, p) is Some,
                p == (pos.x as int, pos.y as int),
                forall|j: int|
                    0 <= j < k ==> !((#[trigger] self.route@[j]).0.x == pos.x && self.route@[j].0.y
                        == pos.y),
            decreases self.route@.len() - k,
        {
            let entry = self.route[k];
            if entry.0.x == pos.x && entry.0.y == pos.y {
                proof {
                    lemma_lookup_at(self.route@, k as int);
                }
                return entry.1;
            }
            k = k + 1;
        }
        proof {
            lemma_lookup_index(self.route@, p);
            assert(false);
        }
        0
    }
}

impl Wire {
    /// Whether the wire has visited a position.
    pub fn contains_pos(&self, pos: &Pos) -> (r: bool)
        requires
            self.wf(),
        ensures
            r == self.route_map().dom().contains((pos.x as int, pos.y as int)),
    {
        let ghost p = (pos.x as int, pos.y as int);
        let mut k: usize = 0;
        while k < self.route.len()
            invariant
                k <= self.route@.len(),
                self.wf(),
                p == (pos.x as int, pos.y as int),
                forall|j: int|
                    0 <= j < k ==> !((#[trigger] self.route@[j]).0.x == pos.x && self.route@[j].0.y
                        == pos.y),
            decreases self.route@.len() - k,
        {
            let entry = self.route[k];
            if entry.0.x == pos.x && entry.0.y == pos.y {
                proof {
                    lemma_lookup_at(self.route@, k as int);
                }
                return true;
            }
            k = k + 1;
        }
        proof {
            if vec_lookup(self.route@, p) is Some {
                lemma_lookup_index(self.route@, p);
                assert(false);
            }
        }
        false
    }
}

/// A position both wires have visited, the origin excepted.
pub open spec fn common_point(a: &Wire, b: &Wire, p: Pos) -> bool {
    &&& a.route_map().dom().contains((p.x as int, p.y as int))
    &&& b.route_map().dom().contains((p.x as int, p.y as int))
    &&& !(p.x == 0 && p.y == 0)
}

/// Every position, other than the origin, that both wires have visited;
/// each exactly once, in no promised order.
pub fn intersect(wire_a: &Wire, wire_b: &Wire) -> (r: Vec<Pos>)
    requires
        wire_a.wf(),
        wire_b.wf(),
    ensures
        forall|k: int| 0 <= k < r@.len() ==> common_point(wire_a, wire_b, #[trigger] r@[k]),
        forall|p: Pos| common_point(wire_a, wire_b, p) ==> #[trigger] r@.contains(p),
        forall|k1: int, k2: int| 0 <= k1 < k2 < r@.len() ==> r@[k1] != r@[k2],
{
    let ghost a = wire_a.route@;
    let mut r: Vec<Pos> = Vec::new();
    let mut i: usize = 0;
    while i < wire_a.route.len()
        invariant
            i <= a.len(),
            a == wire_a.route@,
            wire_a.wf(),
            wire_b.wf(),
            forall|k: int| 0 <= k < r@.len() ==> common_point(wire_a, wire_b, #[trigger] r@[k]),
            forall|j: int|
                0 <= j < i ==> (common_point(wire_a, wire_b, (#[trigger] a[j]).0) ==> r@.contains(
                    a[j].0,
                )),
            forall|k: int|
                0 <= k < r@.len() ==> exists|j: int| 0 <= j < i && (#[trigger] r@[k]) == a[j].0,
            forall|k1: int, k2: int| 0 <= k1 < k2 < r@.len() ==> r@[k1] != r@[k2],
        decreases a.len() - i,
    {
        let entry = wire_a.route[i];
        let candidate = entry.0;
        if (candidate.x != 0 || candidate.y != 0) && wire_b.contains_pos(&candidate) {
            proof {
                lemma_lookup_at(a, i as int);
                assert(wire_a.route_map().dom().contains(
                    (candidate.x as int, candidate.y as int),
                ));
                assert forall|k: int| 0 <= k < r@.len() implies r@[k] != candidate by {
                    let j = choose|j: int| 0 <= j < i && (#[trigger] r@[k]) == a[j].0;
                    assert(!(a[j].0 == a[i as int].0));
                }
            }
            let ghost before = r@;
            r.push(candidate);
            proof {
                assert forall|k: int| 0 <= k < r@.len() implies exists|j: int|
                    0 <= j < i + 1 && (#[trigger] r@[k]) == a[j].0 by {
                    if k < before.len() {
                        assert(r@[k] == before[k]);
                        let j = choose|j: int| 0 <= j < i && before[k] == a[j].0;
                        assert(0 <= j < i + 1 && r@[k] == a[j].0);
                    } else {
                        assert(r@[k] == a[i as int].0);
                    }
                }
                assert forall|j: int|
                    0 <= j < i + 1 && common_point(wire_a, wire_b, (#[trigger] a[j]).0) implies r@.contains(
                    a[j].0,
                ) by {
                    if j < i {
                        assert(before.contains(a[j].0));
                        let k = choose|k: int| 0 <= k < before.len() && before[k] == a[j].0;
                        assert(r@[k] == a[j].0);
                    } else {
                        assert(r@[r@.len() - 1] == a[j].0);
                    }
                }
            }
        } else {
            proof {
                lemma_lookup_at(a, i as int);
                assert(!common_point(wire_a, wire_b, a[i as int].0));
            }
        }
        i = i + 1;
    }
    proof {
        assert forall|p: Pos| common_point(wire_a, wire_b, p) implies #[trigger] r@.contains(
            p,
        ) by {
            assert(wire_a.route_map().dom().contains((p.x as int, p.y as int)));
            lemma_lookup_index(a, (p.x as int, p.y as int));
            let j = choose|j: int|
                0 <= j < a.len() && ((#[trigger] a[j]).0.x == p.x && a[j].0.y == p.y)
                    && vec_lookup(a, (p.x as int, p.y as int)) == Some(a[j].1);
            assert(a[j].0 == p);
            assert(common_point(wire_a, wire_b, a[j].0));
        }
    }
    r
}

/// The taxicab distance between two positions given as coordinate pairs.
pub fn manhattan_distance(start: [i32; 2], end: [i32; 2]) -> (r: i32)
    requires
        -i32::MAX <= start@[0] - end@[0] <= i32::MAX,
        -i32::MAX <= start@[1] - end@[1] <= i32::MAX,
        abs_int(start@[0] - end@[0]) + abs_int(start@[1] - end@[1]) <= i32::MAX,
    ensures
        r == abs_int(start@[0] - end@[0]) + abs_int(start@[1] - end@[1]),
{
    let d0 = start[0] - end[0];
    let d1 = start[1] - end[1];
    let a0 = if d0 < 0 {
        -d0
    } else {
        d0
    };
    let a1 = if d1 < 0 {
        -d1
    } else {
        d1
    };
    a0 + a1
}

/// A position's taxicab distance from the origin.
pub open spec fn manhattan_of(p: Pos) -> int {
    abs_int(p.x as int) + abs_int(p.y as int)
}

fn manhattan_exec(p: &Pos) -> (r: i64)
    ensures
        r == manhattan_of(*p),
{
    let ax: i64 = if p.x < 0 {
        -(p.x as i64)
    } else {
        p.x as i64
    };
    let ay: i64 = if p.y < 0 {
        -(p.y as i64)
    } else {
        p.y as i64
    };
    ax + ay
}

/// The smallest taxicab distance from the origin to a crossing of the
/// two wires; nothing when they never cross.
pub fn closest_intersection_distance(wire_a: &Wire, wire_b: &Wire) -> (r: Option<i64>)
    requires
        wire_a.wf(),
        wire_b.wf(),
    ensures
        r matches Some(m) ==> (exists|p: Pos| common_point(wire_a, wire_b, p) && manhattan_of(p)
            == m) && (forall|p: Pos|
            common_point(wire_a, wire_b, p) ==> manhattan_of(p) >= m),
        r is None ==> forall|p: Pos| !common_point(wire_a, wire_b, p),
{
    let pts = intersect(wire_a, wire_b);
    if pts.len() == 0 {
        proof {
            assert forall|p: Pos| !common_point(wire_a, wire_b, p) by {
                if common_point(wire_a, wire_b, p) {
                    assert(pts@.contains(p));
                    assert(false);
                }
            }
        }
        return None;
    }
    let mut best: i64 = manhattan_exec(&pts[0]);
    let mut k: usize = 1;
    while k < pts.len()
        invariant
            1 <= k <= pts@.len(),
            forall|j: int| 0 <= j < pts@.len() ==> common_point(
                wire_a,
                wire_b,
                #[trigger] pts@[j],
            ),
            forall|p: Pos| common_point(wire_a, wire_b, p) ==> #[trigger] pts@.contains(p),
            exists|j: int| 0 <= j < k && manhattan_of(#[trigger] pts@[j]) == best,
            forall|j: int| 0 <= j < k ==> manhattan_of(#[trigger] pts@[j]) >= best,
        decreases pts@.len() - k,
    {
        let d = manhattan_exec(&pts[k]);
        if d < best {
            best = d;
        }
        k = k + 1;
    }
    proof {
        assert forall|p: Pos| common_point(wire_a, wire_b, p) implies manhattan_of(p) >= best by {
            assert(pts@.contains(p));
            let j = choose|j: int| 0 <= j < pts@.len() && pts@[j] == p;
            assert(manhattan_of(pts@[j]) >= best);
        }
    }
    Some(best)
}

/// The combined step count both wires take to reach a position.
pub open spec fn combined_steps(a: &Wire, b: &Wire, p: Pos) -> int {
    a.route_map()[(p.x as int, p.y as int)] + b.route_map()[(p.x as int, p.y as int)]
}

/// The fewest combined steps the two wires take to reach a common
/// crossing; nothing when they never cross.
pub fn fewest_combined_steps(wire_a: &Wire, wire_b: &Wire) -> (r: Option<i64>)
    requires
        wire_a.wf(),
        wire_b.wf(),
    ensures
        r matches Some(m) ==> (exists|p: Pos| common_point(wire_a, wire_b, p) && combined_steps(
            wire_a,
            wire_b,
            p,
        ) == m) && (forall|p: Pos|
            common_point(wire_a, wire_b, p) ==> combined_steps(wire_a, wire_b, p) >= m),
        r is None ==> forall|p: Pos| !common_point(wire_a, wire_b, p),
{
    let pts = intersect(wire_a, wire_b);
    if pts.len() == 0 {
        proof {
            assert forall|p: Pos| !common_point(wire_a, wire_b, p) by {
                if common_point(wire_a, wire_b, p) {
                    assert(pts@.contains(p));
                    assert(false);
                }
            }
        }
        return None;
    }
    let first = pts[0];
    let mut best: i64 = wire_a.get_min_steps(&first) as i64 + wire_b.get_min_steps(&first) as i64;
    let mut k: usize = 1;
    while k < pts.len()
        invariant
            1 <= k <= pts@.len(),
            wire_a.wf(),
            wire_b.wf(),
            forall|j: int| 0 <= j < pts@.len() ==> common_point(
                wire_a,
                wire_b,
                #[trigger] pts@[j],
            ),
            forall|p: Pos| common_point(wire_a, wire_b, p) ==> #[trigger] pts@.contains(p),
            exists|j: int| 0 <= j < k && combined_steps(wire_a, wire_b, #[trigger] pts@[j])
                == best,
            forall|j: int| 0 <= j < k ==> combined_steps(wire_a, wire_b, #[trigger] pts@[j])
                >= best,
        decreases pts@.len() - k,
    {
        let p = pts[k];
        let d = wire_a.get_min_steps(&p) as i64 + wire_b.get_min_steps(&p) as i64;
        if d < best {
            best = d;
        }
        k = k + 1;
    }
    proof {
        assert forall|p: Pos| common_point(wire_a, wire_b, p) implies combined_steps(
            wire_a,
            wire_b,
            p,
        ) >= best by {
            assert(pts@.contains(p));
            let j = choose|j: int| 0 <= j < pts@.len() && pts@[j] == p;
            assert(combined_steps(wire_a, wire_b, pts@[j]) >= best);
        }
    }
    Some(best)
}

/// Magnitude of an integer.
pub open spec fn abs_int(x: int) -> int {
    if x < 0 {
        -x
    } else {
        x
    }
}

proof fn lemma_route_steps_n_unfold(st: RouteState, d: Directions, t: nat)
    ensures
        route_steps_n(st, d, t + 1) == route_step(route_steps_n(st, d, t), d),
    decreases t,
{
    if t == 0 {
        assert(route_steps_n(route_step(st, d), d, 0) == route_step(st, d));
    } else {
        lemma_route_steps_n_unfold(route_step(st, d), d, (t - 1) as nat);
    }
}

proof fn lemma_route_moves_snoc(init: RouteState, all: Seq<Move>, m: int)
    requires
        0 <= m < all.len(),
    ensures
        route_moves(init, all.take(m + 1)) == route_steps_n(
            route_moves(init, all.take(m)),
            all[m].direction,
            all[m].steps as nat,
        ),
    decreases m,
{
    if m == 0 {
        assert(all.take(1)[0] == all[0]);
        assert(all.take(1).skip(1) =~= Seq::<Move>::empty());
        assert(all.take(0) =~= Seq::<Move>::empty());
        assert(route_moves(init, all.take(0)) == init);
        let stepped = route_steps_n(init, all[0].direction, all[0].steps as nat);
        assert(route_moves(stepped, Seq::<Move>::empty()) == stepped);
        assert(route_moves(init, all.take(1)) == stepped);
    } else {
        lemma_route_moves_snoc(
            route_steps_n(init, all[0].direction, all[0].steps as nat),
            all.skip(1),
            m - 1,
        );
        assert(all.take(m + 1)[0] == all[0]);
        assert(all.take(m + 1).skip(1) =~= all.skip(1).take(m));
        assert(all.take(m).skip(1) =~= all.skip(1).take(m - 1));
        assert(all.take(m)[0] == all[0]);
        assert(all.skip(1)[m - 1] == all[m]);
        let stepped = route_steps_n(init, all[0].direction, all[0].steps as nat);
        assert(route_moves(init, all.take(m + 1)) == route_moves(stepped, all.skip(1).take(m)));
        assert(route_moves(init, all.take(m)) == route_moves(stepped, all.skip(1).take(m - 1)));
    }
}

proof fn lemma_sum_snoc_take(all: Seq<Move>, m: int)
    requires
        0 <= m < all.len(),
    ensures
        sum_steps(all.take(m + 1)) == sum_steps(all.take(m)) + all[m].steps,
{
    assert(all.take(m + 1) =~= all.take(m).push(all[m]));
    lemma_sum_steps_snoc(all.take(m), all[m]);
}

/// A prefix of a move list never takes more unit steps than the whole,
/// and the whole splits around any index.
proof fn lemma_sum_prefix(all: Seq<Move>, m: int)
    requires
        0 <= m < all.len(),
    ensures
        sum_steps(all.take(m)) + all[m].steps <= sum_steps(all),
        sum_steps(all.take(m + 1)) <= sum_steps(all),
    decreases m,
{
    lemma_sum_snoc_take(all, m);
    lemma_sum_take_le(all, m + 1);
}

proof fn lemma_sum_take_le(all: Seq<Move>, m: int)
    requires
        0 <= m <= all.len(),
    ensures
        sum_steps(all.take(m)) <= sum_steps(all),
    decreases all.len(),
{
    if m == 0 {
        assert(all.take(0) =~= Seq::<Move>::empty());
    } else if all.len() > 0 {
        assert(all.take(m)[0] == all[0]);
        assert(all.take(m).skip(1) =~= all.skip(1).take(m - 1));
        lemma_sum_take_le(all.skip(1), m - 1);
    }
}

/// The direction a route letter names.
pub open spec fn dir_of_char(c: char) -> Option<Directions> {
    if c == 'U' {
        Some(Directions::U)
    } else if c == 'D' {
        Some(Directions::D)
    } else if c == 'R' {
        Some(Directions::R)
    } else if c == 'L' {
        Some(Directions::L)
    } else {
        None
    }
}

/// A move token: one direction letter followed by an unsigned step
/// count.
pub open spec fn parse_move(s: Seq<char>) -> Option<Move> {
    if s.len() == 0 {
        None
    } else {
        match dir_of_char(s[0]) {
            None => None,
            Some(d) => {
                if is_u32_literal(s.skip(1)) {
                    Some(
                        Move {
                            direction: d,
                            steps: digits_val(literal_digits(s.skip(1))) as u32,
                        },
                    )
                } else {
                    None
                }
            },
        }
    }
}

/// A route text: move tokens separated by commas.
pub open spec fn parse_route(s: Seq<char>) -> Option<Seq<Move>>
    decreases s.len(),
{
    let k = first_comma(s) as int;
    if k >= s.len() {
        match parse_move(s) {
            None => None,
            Some(m) => Some(seq![m]),
        }
    } else {
        match parse_move(s.take(k)) {
            None => None,
            Some(m) => match parse_route(s.skip(k + 1)) {
                None => None,
                Some(rest) => Some(seq![m] + rest),
            },
        }
    }
}

impl Move {
    /// Read one move token, exactly realising `parse_move`.
    pub fn from_text(text: &str) -> (r: Option<Move>)
        ensures
            r == parse_move(text@),
    {
        let len = text.unicode_len();
        if len == 0 {
            return None;
        }
        let c = text.get_char(0);
        let direction = if c == 'U' {
            Directions::U
        } else if c == 'D' {
            Directions::D
        } else if c == 'R' {
            Directions::R
        } else if c == 'L' {
            Directions::L
        } else {
            return None;
        };
        let rest = text.substring_char(1, len);
        proof {
            assert(rest@ =~= text@.skip(1));
        }
        match parse_u32(rest) {
            Ok(steps) => Some(Move { direction, steps }),
            Err(_) => None,
        }
    }
}

/// Read a whole route text into its moves, exactly realising
/// `parse_route`.
fn parse_route_text(s: &str) -> (r: Option<Vec<Move>>)
    ensures
        parse_route(s@) matches Some(moves) ==> (r matches Some(v) && v@ == moves),
        parse_route(s@) is None ==> r is None,
{
    let len = s.unicode_len();
    let mut out: Vec<Move> = Vec::new();
    let mut start: usize = 0;
    proof {
        assert(s@.skip(0) =~= s@);
    }
    loop
        invariant
            start <= len,
            len == s@.len(),
            parse_route(s@.skip(start as int)) matches Some(rest) ==> parse_route(s@) == Some(
                out@ + rest,
            ),
            parse_route(s@.skip(start as int)) is None ==> parse_route(s@) is None,
        decreases len - start,
    {
        let ghost d = s@.skip(start as int);
        let mut end = start;
        while end < len && s.get_char(end) != ','
            invariant
                start <= end <= len,
                len == s@.len(),
                forall|j: int| start <= j < end ==> s@[j] != ',',
            decreases len - end,
        {
            end = end + 1;
        }
        proof {
            lemma_first_comma(d);
            let fc = first_comma(d) as int;
            assert forall|j: int| 0 <= j < end - start implies d[j] != ',' by {
                assert(d[j] == s@[start + j]);
            }
            if end < len {
                assert(d[end - start] == s@[end as int]);
                assert(fc == end - start);
            } else {
                if fc < d.len() {
                    assert(d[fc] != ',');
                    assert(false);
                }
                assert(fc == end - start);
            }
        }
        let token = s.substring_char(start, end);
        proof {
            assert(token@ =~= d.take(end - start));
        }
        let m = match Move::from_text(token) {
            None => {
                proof {
                    if end == len {
                        assert(d.take(end - start) =~= d);
                    }
                    assert(parse_route(d) is None);
                }
                return None;
            },
            Some(m) => m,
        };
        let ghost prefix = out@;
        out.push(m);
        if end == len {
            proof {
                assert(d.take(end - start) =~= d);
                assert(parse_route(d) == Some(seq![m]));
                assert(prefix + seq![m] =~= out@);
            }
            return Some(out);
        }
        proof {
            let fc = first_comma(d) as int;
            assert(d.skip(fc + 1) =~= s@.skip(end + 1));
            match parse_route(s@.skip(end + 1)) {
                Some(rest) => {
                    assert(parse_route(d) == Some(seq![m] + rest));
                    assert(prefix + (seq![m] + rest) =~= out@ + rest);
                },
                None => {
                    assert(parse_route(d) is None);
                },
            }
        }
        start = end + 1;
    }
}

impl Wire {
    /// Read a route text and lay it out on a fresh wire. Nothing is
    /// returned when the text is malformed, or when the route is too
    /// long for its step counts to stay within a cell.
    pub fn from_text(text: &str) -> (r: Option<Wire>)
        ensures
            parse_route(text@) is None ==> r is None,
            parse_route(text@) matches Some(moves) ==> {
                if sum_steps(moves) + 1 <= i32::MAX {
                    let end = route_moves(
                        (RouteState {
                            route: Map::<(int, int), int>::empty().insert((0, 0), 0),
                            current: (0, 0),
                            total: 1,
                        }),
                        moves,
                    );
                    r matches Some(w) && w.wf() && w.route_map() == end.route && w.current_pos()
                        == end.current
                } else {
                    r is None
                }
            },
    {
        let moves = match parse_route_text(text) {
            None => {
                return None;
            },
            Some(v) => v,
        };
        let mut sum: u64 = 0;
        let mut i: usize = 0;
        while i < moves.len()
            invariant
                i <= moves@.len(),
                sum == sum_steps(moves@.take(i as int)),
                sum <= i32::MAX - 1,
                parse_route(text@) == Some(moves@),
            decreases moves@.len() - i,
        {
            proof {
                lemma_sum_snoc_take(moves@, i as int);
            }
            sum = sum + moves[i].steps as u64;
            i = i + 1;
            if sum > (i32::MAX - 1) as u64 {
                proof {
                    lemma_sum_take_le(moves@, i as int);
                }
                return None;
            }
        }
        proof {
            assert(moves@.take(moves@.len() as int) =~= moves@);
        }
        Some(Wire::new_from_route(moves))
    }
}

} // verus!
