//! One tick of the world, as a state machine the host drives agent by agent:
//! the host evaluates each agent's controller between the steps.

use vstd::prelude::*;
use crate::cell::{Cell, Step, moved, wrap_move, color_inherited};
use crate::food::MAX_SIDE;
use crate::game::{GameObjects, HUNGER_LIMIT};
use crate::random::draw_below;

verus! {

/// What became of the agent a step visited.
#[derive(Clone, Copy, Debug, PartialEq, Eq, Structural)]
pub enum Outcome {
    /// The agent was not alive; nothing changed.
    Skipped,
    /// The agent moved and found no food.
    Moved,
    /// The agent moved onto food and ate one marker; an offspring is owed.
    Ate,
    /// The agent went hungry too long: it will be removed, and food was added.
    Starved,
}

/// The progress of a tick: the next agent to visit, the agents to remove,
/// the offspring to add, and the pre-move position of a parent whose
/// offspring still waits for its controller.
pub struct Tick<C> {
    pub next: usize,
    pub dead: Vec<usize>,
    pub born: Vec<Cell<C>>,
    pub pending: Option<(i32, i32)>,
}

/// The elements of `s` whose indices are not in `dead`, in order.
pub open spec fn survivors<T>(s: Seq<T>, dead: Seq<usize>) -> Seq<T>
    decreases s.len(),
{
    if s.len() == 0 {
        Seq::empty()
    } else if dead.contains((s.len() - 1) as usize) {
        survivors(s.drop_last(), dead)
    } else {
        survivors(s.drop_last(), dead).push(s.last())
    }
}

/// `s` back to front.
pub open spec fn reversed<T>(s: Seq<T>) -> Seq<T>
    decreases s.len(),
{
    if s.len() == 0 {
        Seq::empty()
    } else {
        seq![s.last()] + reversed(s.drop_last())
    }
}

/// Agent `c` after a visit: moved by `(mx, my)`, fed or one tick hungrier.
pub open spec fn after_move<C>(c: Cell<C>, columns: int, rows: int, mx: Step, my: Step, ate: bool) -> Cell<C> {
    Cell {
        x: moved(c.x as int, columns, mx) as i32,
        y: moved(c.y as int, rows, my) as i32,
        ticks_since_food: if ate { 0 } else { (c.ticks_since_food + 1) as u32 },
        ..c
    }
}


proof fn lemma_survivors_gap<T>(s: Seq<T>, dead: Seq<usize>, a: int, b: int)
    requires
        0 <= a <= b <= s.len(),
        forall|j: int| a <= j < b ==> !#[trigger] dead.contains(j as usize),
    ensures
        survivors(s.take(b), dead) == survivors(s.take(a), dead) + s.subrange(a, b),
    decreases b - a,
{
    if b == a {
        assert(s.subrange(a, b) =~= Seq::<T>::empty());
        assert(survivors(s.take(a), dead) + s.subrange(a, b) =~= survivors(s.take(a), dead));
    } else {
        lemma_survivors_gap(s, dead, a, b - 1);
        assert(s.take(b).drop_last() =~= s.take(b - 1));
        assert(s.take(b).len() - 1 == b - 1);
        assert(s.subrange(a, b) =~= s.subrange(a, b - 1).push(s[b - 1]));
        assert(survivors(s.take(b), dead) =~= survivors(s.take(a), dead) + s.subrange(a, b));
    }
}

proof fn lemma_survivors_members<T>(s: Seq<T>, dead: Seq<usize>)
    ensures
        forall|k: int| 0 <= k < survivors(s, dead).len() ==> exists|j: int| {
            &&& 0 <= j < s.len()
            &&& !dead.contains(j as usize)
            &&& #[trigger] survivors(s, dead)[k] == s[j]
        },
    decreases s.len(),
{
    if s.len() > 0 {
        let p = s.drop_last();
        lemma_survivors_members(p, dead);
        assert forall|k: int| 0 <= k < survivors(s, dead).len() implies exists|j: int| {
            &&& 0 <= j < s.len()
            &&& !dead.contains(j as usize)
            &&& #[trigger] survivors(s, dead)[k] == s[j]
        } by {
            if k < survivors(p, dead).len() {
                let j = choose|j: int| {
                    &&& 0 <= j < p.len()
                    &&& !dead.contains(j as usize)
                    &&& #[trigger] survivors(p, dead)[k] == p[j]
                };
                assert(s[j] == p[j]);
            } else {
                assert(s[s.len() - 1] == s.last());
            }
        }
    }
}

/// Removing a tick's dead agents drops exactly as many agents as were marked,
/// and every agent left was not marked.
pub proof fn lemma_dead_are_removed<T>(s: Seq<T>, dead: Seq<usize>)
    requires
        s.len() <= usize::MAX,
        forall|k: int| 0 <= k < dead.len() ==> #[trigger] dead[k] < s.len(),
        forall|k: int, l: int| 0 <= k < l < dead.len() ==> dead[k] < dead[l],
    ensures
        survivors(s, dead).len() == s.len() - dead.len(),
        forall|k: int| 0 <= k < survivors(s, dead).len() ==> exists|j: int| {
            &&& 0 <= j < s.len()
            &&& !dead.contains(j as usize)
            &&& #[trigger] survivors(s, dead)[k] == s[j]
        },
    decreases s.len(),
{
    if s.len() == 0 {
        if dead.len() > 0 {
            assert(dead[0] < s.len());
        }
    } else {
        let n = s.len() - 1;
        if dead.contains(n as usize) {
            let m = choose|m: int| 0 <= m < dead.len() && dead[m] == n as usize;
            assert(m == dead.len() - 1) by {
                assert(dead[dead.len() - 1] < s.len());
                if m < dead.len() - 1 {
                    assert(dead[m] < dead[dead.len() - 1]);
                }
            }
            let d2 = dead.drop_last();
            assert forall|k: int| 0 <= k < d2.len() implies #[trigger] d2[k] < s.drop_last().len() by {
                assert(dead[k] < dead[m]);
            }
            lemma_dead_are_removed(s.drop_last(), d2);
            assert forall|j: int| 0 <= j < n implies #[trigger] dead.contains(j as usize) == d2.contains(j as usize) by {
                if dead.contains(j as usize) {
                    let q = choose|q: int| 0 <= q < dead.len() && dead[q] == j as usize;
                    assert(q != m);
                    assert(d2[q] == j as usize);
                }
                if d2.contains(j as usize) {
                    let q = choose|q: int| 0 <= q < d2.len() && d2[q] == j as usize;
                    assert(dead[q] == j as usize);
                }
            }
            lemma_survivors_agree(s.drop_last(), dead, d2);
        } else {
            assert forall|k: int| 0 <= k < dead.len() implies #[trigger] dead[k] < s.drop_last().len() by {
                assert(dead[k] != n as usize);
            }
            lemma_dead_are_removed(s.drop_last(), dead);
        }
    }
    lemma_survivors_members(s, dead);
}

proof fn lemma_survivors_agree<T>(s: Seq<T>, d1: Seq<usize>, d2: Seq<usize>)
    requires
        forall|j: int| 0 <= j < s.len() ==> #[trigger] d1.contains(j as usize) == d2.contains(j as usize),
    ensures
        survivors(s, d1) == survivors(s, d2),
    decreases s.len(),
{
    if s.len() > 0 {
        assert(d1.contains((s.len() - 1) as usize) == d2.contains((s.len() - 1) as usize));
        lemma_survivors_agree(s.drop_last(), d1, d2);
    }
}

proof fn lemma_reversed_index<T>(s: Seq<T>)
    ensures
        reversed(s).len() == s.len(),
        forall|k: int| 0 <= k < s.len() ==> #[trigger] reversed(s)[k] == s[s.len() - 1 - k],
    decreases s.len(),
{
    if s.len() > 0 {
        lemma_reversed_index(s.drop_last());
        assert forall|k: int| 0 <= k < s.len() implies #[trigger] reversed(s)[k] == s[s.len() - 1 - k] by {
            if k > 0 {
                assert(reversed(s)[k] == reversed(s.drop_last())[k - 1]);
            }
        }
    }
}

/// Removes the entries at the indices in `dead`, ascending: each index is
/// lowered by the number of removals made before it.
fn remove_marked<T>(v: &mut Vec<T>, dead: &Vec<usize>)
    requires
        forall|m: int| 0 <= m < dead@.len() ==> #[trigger] dead@[m] < old(v)@.len(),
        forall|m: int, l: int| 0 <= m < l < dead@.len() ==> dead@[m] < dead@[l],
    ensures
        final(v)@ == survivors(old(v)@, dead@),
{
    let total = v.len();
    let ghost old_cells = v@;
    let ghost n = old_cells.len() as int;
    let ghost mut lim: int = 0;
    let mut k: usize = 0;
    proof {
        assert(old_cells.take(0) =~= Seq::<T>::empty());
        assert(old_cells.subrange(0, n) =~= old_cells);
        assert(survivors(old_cells.take(0), dead@) + old_cells.subrange(0, n) =~= old_cells);
    }
    while k < dead.len()
        invariant
            0 <= k <= dead@.len(),
            n == old_cells.len(),
            n == total,
            0 <= lim <= n,
            k == 0 ==> lim == 0,
            k > 0 ==> lim == dead@[k - 1] + 1,
            forall|m: int| 0 <= m < dead@.len() ==> #[trigger] dead@[m] < n,
            forall|m: int, l: int| 0 <= m < l < dead@.len() ==> dead@[m] < dead@[l],
            v@ == survivors(old_cells.take(lim), dead@) + old_cells.subrange(lim, n),
            survivors(old_cells.take(lim), dead@).len() == lim - k,
        decreases dead@.len() - k,
    {
        let d = dead[k];
        proof {
            assert forall|j: int| lim <= j < d implies !#[trigger] dead@.contains(j as usize) by {
                if dead@.contains(j as usize) {
                    let m = choose|m: int| 0 <= m < dead@.len() && dead@[m] == j as usize;
                    if m < k as int {
                        if m < k - 1 {
                            assert(dead@[m] < dead@[k - 1]);
                        }
                    } else if m > k as int {
                        assert(dead@[k as int] < dead@[m]);
                    }
                }
            }
            if k > 0 {
                assert(dead@[k - 1] < dead@[k as int]);
            }
            lemma_survivors_gap(old_cells, dead@, lim, d as int);
            assert(old_cells.take(d + 1).drop_last() =~= old_cells.take(d as int));
            assert(dead@[k as int] == d);
            assert(dead@.contains(((d + 1) - 1) as usize));
        }
        let ghost before = v@;
        v.remove(d - k);
        proof {
            let sv = survivors(old_cells.take(lim), dead@);
            assert(before =~= sv + old_cells.subrange(lim, d as int) + seq![old_cells[d as int]] + old_cells.subrange(d + 1, n));
            assert(v@ =~= sv + old_cells.subrange(lim, d as int) + old_cells.subrange(d + 1, n));
            lim = d + 1;
        }
        k = k + 1;
    }
    proof {
        assert(k == dead@.len());
        assert forall|j: int| lim <= j < n implies !#[trigger] dead@.contains(j as usize) by {
            if dead@.contains(j as usize) {
                let m = choose|m: int| 0 <= m < dead@.len() && dead@[m] == j as usize;
                assert(dead@[m] < n);
                if m < k - 1 {
                    assert(dead@[m] < dead@[k - 1]);
                }
            }
        }
        lemma_survivors_gap(old_cells, dead@, lim, n);
        assert(old_cells.take(n) =~= old_cells);
        assert(v@ =~= survivors(old_cells, dead@));
    }
}

/// Appends `born` back to front.
fn append_reversed<T>(v: &mut Vec<T>, born: Vec<T>)
    ensures
        final(v)@ == old(v)@ + reversed(born@),
{
    let ghost mid = v@;
    let ghost all_born = born@;
    let mut born = born;
    proof {
        assert(v@ + reversed(born@) =~= mid + reversed(all_born));
    }
    while born.len() > 0
        invariant
            v@ + reversed(born@) == mid + reversed(all_born),
        decreases born@.len(),
    {
        let ghost b = born@;
        match born.pop() {
            Some(c) => {
                v.push(c);
                proof {
                    assert(born@ =~= b.drop_last());
                    assert(reversed(b) == seq![b.last()] + reversed(born@));
                    assert(v@ + reversed(born@) =~= (v@.drop_last() + reversed(b)));
                }
            },
            None => {},
        }
    }
    proof {
        assert(reversed(born@) =~= Seq::<T>::empty());
        assert(v@ =~= mid + reversed(all_born));
    }
}

/// One visit of `step_cell`: `g0`, `t0` before it and `g1`, `t1` after,
/// with the moves `(mx, my)` and the outcome `r`.
pub open spec fn stepped<C>(g0: GameObjects<C>, t0: Tick<C>, g1: GameObjects<C>, t1: Tick<C>, mx: Step, my: Step, r: Outcome) -> bool {
    &&& t1.next == t0.next + 1
    &&& t1.born@ == t0.born@
    &&& g1.columns == g0.columns
    &&& g1.rows == g0.rows
    &&& g1.cells@.len() == g0.cells@.len()
    &&& ({
        let i = t0.next as int;
        let c = g0.cells@[i];
        let nx = moved(c.x as int, g0.columns as int, mx);
        let ny = moved(c.y as int, g0.rows as int, my);
        let ate = g0.food_tree@.contains((nx as i32, ny as i32));
        &&& !c.alive ==> {
            &&& r == Outcome::Skipped
            &&& g1.cells@ == g0.cells@
            &&& g1.food_tree@ == g0.food_tree@
            &&& t1.dead@ == t0.dead@
            &&& t1.pending is None
        }
        &&& c.alive ==> g1.cells@ == g0.cells@.update(
            i,
            after_move(c, g0.columns as int, g0.rows as int, mx, my, ate),
        )
        &&& c.alive && ate ==> {
            &&& r == Outcome::Ate
            &&& g1.food_tree@ == g0.food_tree@.remove((nx as i32, ny as i32))
            &&& t1.dead@ == t0.dead@
            &&& t1.pending == Some((c.x, c.y))
        }
        &&& c.alive && !ate && c.ticks_since_food + 1 > HUNGER_LIMIT ==> {
            &&& r == Outcome::Starved
            &&& t1.dead@ == t0.dead@.push(i as usize)
            &&& t1.pending is None
            &&& exists|p: (i32, i32)| {
                &&& 0 <= p.0 < g0.columns && 0 <= p.1 < g0.rows
                &&& g1.food_tree@ == g0.food_tree@.insert(p)
            }
        }
        &&& c.alive && !ate && c.ticks_since_food + 1 <= HUNGER_LIMIT ==> {
            &&& r == Outcome::Moved
            &&& g1.food_tree@ == g0.food_tree@
            &&& t1.dead@ == t0.dead@
            &&& t1.pending is None
        }
    })
}

/// A step is fixed by the state it starts from, the moves and the food it
/// leaves: two visits that agree on these agree on the agents, the tick's
/// bookkeeping and the outcome. Only where a starving agent's replacement food
/// lands is drawn, and that point shows in the food.
pub proof fn lemma_step_deterministic<C>(
    g0: GameObjects<C>,
    t0: Tick<C>,
    mx: Step,
    my: Step,
    g1: GameObjects<C>,
    t1: Tick<C>,
    r1: Outcome,
    g2: GameObjects<C>,
    t2: Tick<C>,
    r2: Outcome,
)
    requires
        stepped(g0, t0, g1, t1, mx, my, r1),
        stepped(g0, t0, g2, t2, mx, my, r2),
        g1.food_tree@ == g2.food_tree@,
    ensures
        r1 == r2,
        g1.cells@ == g2.cells@,
        t1.next == t2.next,
        t1.dead@ == t2.dead@,
        t1.born@ == t2.born@,
        t1.pending == t2.pending,
{
}

impl<C> GameObjects<C> {
    /// The bookkeeping that holds between the steps of a tick.
    pub open spec fn tick_wf(&self, t: &Tick<C>) -> bool {
        &&& self.bounds_ok()
        &&& self.food_placed()
        &&& t.next <= self.cells@.len()
        &&& forall|i: int| 0 <= i < self.cells@.len() ==> self.placed(#[trigger] self.cells@[i])
        &&& forall|i: int| t.next <= i < self.cells@.len() ==> (#[trigger] self.cells@[i]).ticks_since_food <= HUNGER_LIMIT
        &&& forall|i: int| 0 <= i < t.next && !t.dead@.contains(i as usize)
            ==> (#[trigger] self.cells@[i]).ticks_since_food <= HUNGER_LIMIT
        &&& forall|k: int| 0 <= k < t.dead@.len() ==> #[trigger] t.dead@[k] < t.next
        &&& forall|k: int, l: int| 0 <= k < l < t.dead@.len() ==> t.dead@[k] < t.dead@[l]
        &&& forall|k: int| 0 <= k < t.born@.len() ==> {
            &&& self.placed(#[trigger] t.born@[k])
            &&& t.born@[k].ticks_since_food == 0
        }
        &&& t.pending matches Some(p) ==> {
            &&& 0 < t.next
            &&& 0 <= p.0 <= self.columns && 0 <= p.1 <= self.rows
        }
    }

    /// Starts a tick over the agents alive now.
    pub fn begin_tick(&self) -> (t: Tick<C>)
        requires
            self.wf(),
        ensures
            self.tick_wf(&t),
            t.next == 0,
            t.dead@.len() == 0,
            t.born@.len() == 0,
            t.pending is None,
    {
        Tick { next: 0, dead: Vec::new(), born: Vec::new(), pending: None }
    }

    /// Visits agent `t.next` with the moves its controller chose. A living
    /// agent grows one tick hungrier and moves. Food at its new position is
    /// eaten, one marker of it: its hunger drops to 0 and an offspring is owed
    /// at its position before the move (`give_birth`). An agent hungrier than
    /// `HUNGER_LIMIT` is marked for removal and one food marker is added at a
    /// random point of the grid.
    pub fn step_cell(&mut self, t: &mut Tick<C>, mx: Step, my: Step, rng: &mut rand::rngs::StdRng) -> (r: Outcome)
        requires
            old(self).tick_wf(old(t)),
            old(t).next < old(self).cells@.len(),
            old(t).pending is None,
        ensures
            final(self).tick_wf(final(t)),
            stepped(*old(self), *old(t), *final(self), *final(t), mx, my, r),
    {
        let i = t.next;
        let count = self.cells.len();
        assert(i < count);
        t.next = i + 1;
        if !self.cells[i].alive {
            return Outcome::Skipped;
        }
        let prev_x = self.cells[i].x;
        let prev_y = self.cells[i].y;
        let hunger = self.cells[i].ticks_since_food + 1;
        let new_x = wrap_move(prev_x, self.columns, mx);
        let new_y = wrap_move(prev_y, self.rows, my);
        let ate = self.food_tree.present_at(new_x, new_y);
        let ghost before = self.food_tree@;
        let ghost old_cells = self.cells@;
        if ate {
            self.food_tree.remove_one_at(new_x, new_y);
            assert forall|p: (i32, i32)| #[trigger] self.food_tree@.contains(p) implies before.contains(p) by {
                if p != (new_x, new_y) {
                    assert(self.food_tree@.count(p) == before.count(p));
                }
            }
        }
        let fed: u32 = if ate { 0 } else { hunger };
        self.cells[i].x = new_x;
        self.cells[i].y = new_y;
        self.cells[i].ticks_since_food = fed;
        assert(self.cells@ =~= old_cells.update(i as int, after_move(old_cells[i as int], self.columns as int, self.rows as int, mx, my, ate)));
        if ate {
            t.pending = Some((prev_x, prev_y));
            return Outcome::Ate;
        }
        if hunger > HUNGER_LIMIT {
            let ghost old_dead = t.dead@;
            t.dead.push(i);
            assert(t.dead@[t.dead@.len() - 1] == i);
            assert forall|j: usize| old_dead.contains(j) implies #[trigger] t.dead@.contains(j) by {
                let k = choose|k: int| 0 <= k < old_dead.len() && old_dead[k] == j;
                assert(t.dead@[k] == j);
            }
            let fx = draw_below(rng, self.columns as u32) as i32;
            let fy = draw_below(rng, self.rows as u32) as i32;
            self.food_tree.insert(fx, fy);
            assert forall|p: (i32, i32)| #[trigger] self.food_tree@.contains(p) implies p == (fx, fy) || before.contains(p) by {
                if p != (fx, fy) {
                    assert(self.food_tree@.count(p) == before.count(p));
                }
            }
            return Outcome::Starved;
        }
        Outcome::Moved
    }

    /// Gives the offspring owed by the agent just visited its controller
    /// (`network`, inherited from the parent's by the host). The offspring
    /// stands where the parent stood before its move; it is added to the live
    /// set when the tick finishes.
    pub fn give_birth(&self, t: &mut Tick<C>, network: C, rng: &mut rand::rngs::StdRng)
        requires
            self.tick_wf(old(t)),
            old(t).pending is Some,
        ensures
            self.tick_wf(final(t)),
            final(t).next == old(t).next,
            final(t).dead@ == old(t).dead@,
            final(t).pending is None,
            final(t).born@.len() == old(t).born@.len() + 1,
            final(t).born@.take(old(t).born@.len() as int) == old(t).born@,
            ({
                let child = final(t).born@.last();
                let parent = self.cells@[old(t).next - 1];
                &&& old(t).pending == Some((child.x, child.y))
                &&& child.alive
                &&& child.ticks_since_food == 0
                &&& child.network == network
                &&& color_inherited(parent.color, child.color)
            }),
    {
        let p = match t.pending {
            Some(p) => p,
            None => (0, 0),
        };
        let child = Cell::inherit_from(&self.cells[t.next - 1], p.0, p.1, network, rng);
        t.born.push(child);
        t.pending = None;
        assert(t.born@.take(t.born@.len() - 1) =~= old(t).born@);
    }

    /// Ends a tick once every agent was visited: the agents marked dead are
    /// removed, in ascending index order, each index lowered by the number of
    /// removals before it, and the offspring are then appended, last born first.
    pub fn finish_tick(&mut self, t: Tick<C>)
        requires
            old(self).tick_wf(&t),
            t.next == old(self).cells@.len(),
            t.pending is None,
        ensures
            final(self).wf(),
            final(self).cells@ == survivors(old(self).cells@, t.dead@) + reversed(t.born@),
            final(self).food_tree@ == old(self).food_tree@,
            final(self).columns == old(self).columns,
            final(self).rows == old(self).rows,
    {
        let Tick { next: _, dead, born, pending: _ } = t;
        let ghost old_cells = self.cells@;
        remove_marked(&mut self.cells, &dead);
        let ghost mid = self.cells@;
        let ghost all_born = born@;
        append_reversed(&mut self.cells, born);
        proof {
            lemma_survivors_members(old_cells, dead@);
            lemma_reversed_index(all_born);
            assert forall|i: int| 0 <= i < self.cells@.len() implies {
                &&& self.placed(#[trigger] self.cells@[i])
                &&& self.cells@[i].ticks_since_food <= HUNGER_LIMIT
            } by {
                if i < mid.len() {
                    let j = choose|j: int| {
                        &&& 0 <= j < old_cells.len()
                        &&& !dead@.contains(j as usize)
                        &&& #[trigger] survivors(old_cells, dead@)[i] == old_cells[j]
                    };
                    assert(self.cells@[i] == old_cells[j]);
                } else {
                    let k = i - mid.len();
                    assert(self.cells@[i] == reversed(all_born)[k]);
                    assert(reversed(all_born)[k] == all_born[all_born.len() - 1 - k]);
                    assert(old(self).placed(t.born@[all_born.len() - 1 - k]));
                }
            }
        }
    }

}

} // verus!
