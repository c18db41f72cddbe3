//! The world: its bounds, its agents and its food, and one tick of it.

use vstd::prelude::*;
use vstd::multiset::Multiset;
use vstd::arithmetic::div_mod::lemma_fundamental_div_mod_converse;
use crate::cell::{Cell, Food};
use crate::food::{FoodTree, MAX_SIDE};
use crate::random::draw_below;

verus! {

/// Ticks without food that an agent survives; one more and it dies.
pub const HUNGER_LIMIT: u32 = 10;

/// Steps a sensor ray takes before it gives up.
pub const RAY_STEPS: u32 = 9;

/// Scatter rolls are drawn from `0..SCATTER_SCALE`, one per grid point.
pub const SCATTER_SCALE: u32 = 1000;

/// A roll below this places an agent: 15 in 100.
pub const AGENT_ROLL_BELOW: u32 = 150;

/// A roll from this on, where no agent was placed, places food: 10 in 100.
pub const FOOD_ROLL_FROM: u32 = 900;

/// The live agents and the food of a grid of `columns` by `rows`.
pub struct GameObjects<C> {
    pub cells: Vec<Cell<C>>,
    pub food_tree: FoodTree,
    pub columns: i32,
    pub rows: i32,
}

/// `(ax, ay)` comes before `(bx, by)` in the order the grid is scanned.
pub open spec fn scan_before(ax: int, ay: int, bx: int, by: int) -> bool {
    ax < bx || (ax == bx && ay < by)
}

impl<C> GameObjects<C> {
    pub open spec fn bounds_ok(&self) -> bool {
        0 < self.columns < MAX_SIDE && 0 < self.rows < MAX_SIDE
    }

    /// Agents stand in `[0, columns] x [0, rows]`: a forward move from the last
    /// column reaches the bound itself before it wraps.
    pub open spec fn placed(&self, c: Cell<C>) -> bool {
        0 <= c.x <= self.columns && 0 <= c.y <= self.rows
    }

    /// Food lies inside the grid.
    pub open spec fn food_placed(&self) -> bool {
        forall|p: (i32, i32)| #[trigger] self.food_tree@.contains(p)
            ==> 0 <= p.0 < self.columns && 0 <= p.1 < self.rows
    }

    pub open spec fn wf(&self) -> bool {
        &&& self.bounds_ok()
        &&& self.food_placed()
        &&& forall|i: int| 0 <= i < self.cells@.len() ==> {
            &&& self.placed(#[trigger] self.cells@[i])
            &&& self.cells@[i].ticks_since_food <= HUNGER_LIMIT
        }
    }

    /// Adds an agent to the live set.
    pub fn add_cell(&mut self, cell: Cell<C>)
        requires
            old(self).wf(),
            old(self).placed(cell),
            cell.ticks_since_food <= HUNGER_LIMIT,
        ensures
            final(self).wf(),
            final(self).cells@ == old(self).cells@.push(cell),
            final(self).food_tree@ == old(self).food_tree@,
            final(self).columns == old(self).columns,
            final(self).rows == old(self).rows,
    {
        self.cells.push(cell);
    }
}

/// The roll of grid point `(x, y)` when the grid is scanned column by column.
pub open spec fn roll_at(rolls: Seq<u32>, rows: int, x: int, y: int) -> u32 {
    rolls[x * rows + y]
}

/// The food markers a roll puts on its point: one where the roll places no
/// agent and reaches `FOOD_ROLL_FROM`, none otherwise.
pub open spec fn food_for(roll: u32) -> nat {
    if roll >= AGENT_ROLL_BELOW && roll >= FOOD_ROLL_FROM { 1 } else { 0 }
}

/// The points among the first `k` of the scan whose roll places an agent, in
/// scan order.
pub open spec fn agents_upto(rolls: Seq<u32>, rows: int, k: int) -> Seq<(i32, i32)>
    decreases k,
{
    if k <= 0 {
        Seq::empty()
    } else if rolls[k - 1] < AGENT_ROLL_BELOW {
        agents_upto(rolls, rows, k - 1).push((((k - 1) / rows) as i32, ((k - 1) % rows) as i32))
    } else {
        agents_upto(rolls, rows, k - 1)
    }
}

/// What a scan of a `columns` by `rows` grid with `rolls` yields: no agents
/// yet, the agent points `agents_upto` the whole grid, and on each point
/// exactly the food its roll gives.
pub open spec fn scattered<C>(r: (GameObjects<C>, Vec<(i32, i32)>), columns: int, rows: int, rolls: Seq<u32>) -> bool {
    &&& r.0.wf()
    &&& r.0.columns == columns
    &&& r.0.rows == rows
    &&& r.0.cells@.len() == 0
    &&& r.1@ == agents_upto(rolls, rows, columns * rows)
    &&& forall|p: (i32, i32)| 0 <= p.0 < columns && 0 <= p.1 < rows
        ==> #[trigger] r.0.food_tree@.count(p) == food_for(roll_at(rolls, rows, p.0 as int, p.1 as int))
    &&& forall|k: int| 0 <= k < r.1@.len() ==> {
        let p = #[trigger] r.1@[k];
        &&& 0 <= p.0 < columns && 0 <= p.1 < rows
        &&& !r.0.food_tree@.contains(p)
    }
    &&& forall|k: int, l: int| 0 <= k < l < r.1@.len()
        ==> scan_before(r.1@[k].0 as int, r.1@[k].1 as int, r.1@[l].0 as int, r.1@[l].1 as int)
}

/// Scans every grid point once, column by column, with its roll from
/// `rolls`. A roll below `AGENT_ROLL_BELOW` marks the point for an agent;
/// otherwise a roll from `FOOD_ROLL_FROM` on puts food there. Returns the
/// world with its food and no agents yet, and the points marked for agents in
/// scan order: the caller gives each a controller and adds it with `add_cell`.
pub fn scatter<C>(columns: usize, rows: usize, rolls: &Vec<u32>) -> (r: (GameObjects<C>, Vec<(i32, i32)>))
    requires
        0 < columns < MAX_SIDE,
        0 < rows < MAX_SIDE,
        rolls@.len() == columns * rows,
    ensures
        scattered(r, columns as int, rows as int, rolls@),
{
    let mut game = GameObjects {
        cells: Vec::new(),
        food_tree: FoodTree::new(),
        columns: columns as i32,
        rows: rows as i32,
    };
    let mut agents: Vec<(i32, i32)> = Vec::new();
    let cols: i32 = columns as i32;
    let rws: i32 = rows as i32;
    let mut x: i32 = 0;
    let mut y: i32 = 0;
    let mut k: usize = 0;
    while x < cols
        invariant
            0 <= x <= cols,
            0 <= y < rws,
            x == cols ==> y == 0,
            cols == columns,
            rws == rows,
            rolls@.len() == cols * rws,
            k == x * rws + y,
            game.columns == cols,
            game.rows == rws,
            game.wf(),
            game.cells@.len() == 0,
            agents@ == agents_upto(rolls@, rws as int, k as int),
            forall|p: (i32, i32)| 0 <= p.0 < cols && 0 <= p.1 < rws ==> #[trigger] game.food_tree@.count(p)
                == if scan_before(p.0 as int, p.1 as int, x as int, y as int) {
                    food_for(roll_at(rolls@, rws as int, p.0 as int, p.1 as int))
                } else {
                    0
                },
            forall|p: (i32, i32)| #[trigger] game.food_tree@.contains(p)
                ==> scan_before(p.0 as int, p.1 as int, x as int, y as int),
            forall|j: int| 0 <= j < agents@.len() ==> {
                let p = #[trigger] agents@[j];
                &&& 0 <= p.0 < cols && 0 <= p.1 < rws
                &&& scan_before(p.0 as int, p.1 as int, x as int, y as int)
                &&& !game.food_tree@.contains(p)
            },
            forall|j: int, l: int| 0 <= j < l < agents@.len()
                ==> scan_before(agents@[j].0 as int, agents@[j].1 as int, agents@[l].0 as int, agents@[l].1 as int),
        decreases cols - x, rws - y,
    {
        proof {
            assert(x * rws + y < cols * rws) by (nonlinear_arith)
                requires 0 <= x < cols, 0 <= y < rws;
            lemma_fundamental_div_mod_converse(k as int, rws as int, x as int, y as int);
        }
        let roll = rolls[k];
        let ghost before = game.food_tree@;
        if roll < AGENT_ROLL_BELOW {
            agents.push((x, y));
        } else if roll >= FOOD_ROLL_FROM {
            let food = Food::new(x, y);
            assert(!before.contains((x, y)));
            game.food_tree.insert(food.x, food.y);
        }
        proof {
            assert forall|p: (i32, i32)| p != (x, y) implies #[trigger] game.food_tree@.count(p) == before.count(p) by {}
            assert(game.food_tree@.count((x, y)) == food_for(roll));
            assert forall|p: (i32, i32)| #[trigger] game.food_tree@.contains(p)
                implies 0 <= p.0 < cols && 0 <= p.1 < rws by {
                if p != (x, y) {
                    assert(game.food_tree@.count(p) == before.count(p));
                    assert(before.contains(p));
                }
            }
            assert(cols * rws <= MAX_SIDE * MAX_SIDE) by (nonlinear_arith)
                requires 0 < cols < MAX_SIDE, 0 < rws < MAX_SIDE;
        }
        let ghost (ox, oy) = (x as int, y as int);
        k = k + 1;
        if y + 1 < rws {
            y = y + 1;
        } else {
            proof {
                assert((x + 1) * rws == x * rws + rws) by (nonlinear_arith);
            }
            y = 0;
            x = x + 1;
        }
        proof {
            assert forall|px: int, py: int| 0 <= py < rws implies
                #[trigger] scan_before(px, py, x as int, y as int) == (scan_before(px, py, ox, oy) || (px == ox && py == oy)) by {}
            assert forall|p: (i32, i32)| 0 <= p.0 < cols && 0 <= p.1 < rws implies #[trigger] game.food_tree@.count(p)
                == if scan_before(p.0 as int, p.1 as int, x as int, y as int) {
                    food_for(roll_at(rolls@, rws as int, p.0 as int, p.1 as int))
                } else {
                    0
                } by {
                assert(scan_before(p.0 as int, p.1 as int, x as int, y as int)
                    == (scan_before(p.0 as int, p.1 as int, ox, oy) || (p.0 as int == ox && p.1 as int == oy)));
            }
            assert forall|p: (i32, i32)| #[trigger] game.food_tree@.contains(p)
                implies scan_before(p.0 as int, p.1 as int, x as int, y as int) by {
                if p != (ox as i32, oy as i32) {
                    assert(before.contains(p));
                }
            }
        }
    }
    proof {
        assert forall|p: (i32, i32)| 0 <= p.0 < cols && 0 <= p.1 < rws
            implies scan_before(p.0 as int, p.1 as int, x as int, y as int) by {}
    }
    (game, agents)
}

/// Draws one roll in `0..SCATTER_SCALE` for each grid point and scatters
/// agents and food by them (`scatter`).
pub fn game_init<C>(columns: usize, rows: usize, rng: &mut rand::rngs::StdRng) -> (r: (GameObjects<C>, Vec<(i32, i32)>))
    requires
        0 < columns < MAX_SIDE,
        0 < rows < MAX_SIDE,
    ensures
        exists|rolls: Seq<u32>| {
            &&& rolls.len() == columns * rows
            &&& forall|i: int| 0 <= i < rolls.len() ==> #[trigger] rolls[i] < SCATTER_SCALE
            &&& scattered(r, columns as int, rows as int, rolls)
        },
{
    proof {
        assert(columns * rows < MAX_SIDE * MAX_SIDE) by (nonlinear_arith)
            requires 0 < columns < MAX_SIDE, 0 < rows < MAX_SIDE;
    }
    let n: usize = columns * rows;
    let mut rolls: Vec<u32> = Vec::new();
    let mut i: usize = 0;
    while i < n
        invariant
            i <= n,
            rolls@.len() == i,
            forall|j: int| 0 <= j < i ==> #[trigger] rolls@[j] < SCATTER_SCALE,
        decreases n - i,
    {
        rolls.push(draw_below(rng, SCATTER_SCALE));
        i = i + 1;
    }
    scatter(columns, rows, &rolls)
}

/// A scan is fixed by its rolls: two scans of one grid with the same rolls
/// yield the same agent points in the same order and the same food.
pub proof fn lemma_scatter_deterministic<C>(
    r1: (GameObjects<C>, Vec<(i32, i32)>),
    r2: (GameObjects<C>, Vec<(i32, i32)>),
    columns: int,
    rows: int,
    rolls: Seq<u32>,
)
    requires
        scattered(r1, columns, rows, rolls),
        scattered(r2, columns, rows, rolls),
    ensures
        r1.1@ == r2.1@,
        r1.0.food_tree@ == r2.0.food_tree@,
        r1.0.cells@ == r2.0.cells@,
        r1.0.columns == r2.0.columns && r1.0.rows == r2.0.rows,
{
    assert forall|p: (i32, i32)| r1.0.food_tree@.count(p) == r2.0.food_tree@.count(p) by {
        if !(0 <= p.0 < columns && 0 <= p.1 < rows) {
            if r1.0.food_tree@.count(p) > 0 {
                assert(r1.0.food_tree@.contains(p));
            }
            if r2.0.food_tree@.count(p) > 0 {
                assert(r2.0.food_tree@.contains(p));
            }
        } else {
            assert(r1.0.food_tree@.count(p) == food_for(roll_at(rolls, rows, p.0 as int, p.1 as int)));
            assert(r2.0.food_tree@.count(p) == food_for(roll_at(rolls, rows, p.0 as int, p.1 as int)));
        }
    }
    assert(r1.0.food_tree@ =~= r2.0.food_tree@);
    assert(r1.0.cells@ =~= r2.0.cells@);
}

/// The score of a ray whose step `k` stands at `(px, py)`: `k` at the first
/// step that finds food, 0 once the ray leaves the `w` by `h` grid or passes
/// `RAY_STEPS` steps.
pub open spec fn ray_from(food: Multiset<(i32, i32)>, px: int, py: int, dx: int, dy: int, w: int, h: int, k: int) -> int
    decreases RAY_STEPS + 1 - k,
{
    if k < 1 || k > RAY_STEPS {
        0
    } else if !(0 <= px < w && 0 <= py < h) {
        0
    } else if food.contains((px as i32, py as i32)) {
        k
    } else {
        ray_from(food, px + dx, py + dy, dx, dy, w, h, k + 1)
    }
}

/// The score of the ray cast from `(x, y)` in direction `(dx, dy)`: the number
/// of steps to the nearest food on it, or 0 for none in reach.
pub open spec fn ray_score(food: Multiset<(i32, i32)>, x: int, y: int, dx: int, dy: int, w: int, h: int) -> int {
    ray_from(food, x + dx, y + dy, dx, dy, w, h, 1)
}

/// Step `m` of the ray from `(x, y)` along `(dx, dy)` stays on the grid and finds no food.
pub open spec fn clear_step(food: Multiset<(i32, i32)>, x: int, y: int, dx: int, dy: int, w: int, h: int, m: int) -> bool {
    &&& 0 <= x + m * dx < w
    &&& 0 <= y + m * dy < h
    &&& !food.contains(((x + m * dx) as i32, (y + m * dy) as i32))
}

proof fn lemma_ray_tail(food: Multiset<(i32, i32)>, x: int, y: int, dx: int, dy: int, w: int, h: int, m: int, k: int)
    requires
        1 <= m <= k <= RAY_STEPS + 1,
        forall|j: int| m <= j < k ==> #[trigger] clear_step(food, x, y, dx, dy, w, h, j),
        k <= RAY_STEPS ==> {
            &&& 0 <= x + k * dx < w
            &&& 0 <= y + k * dy < h
            &&& food.contains(((x + k * dx) as i32, (y + k * dy) as i32))
        },
    ensures
        ray_from(food, x + m * dx, y + m * dy, dx, dy, w, h, m) == if k <= RAY_STEPS { k } else { 0 },
    decreases k - m,
{
    if m < k {
        assert(clear_step(food, x, y, dx, dy, w, h, m));
        lemma_ray_tail(food, x, y, dx, dy, w, h, m + 1, k);
        assert((m + 1) * dx == m * dx + dx) by (nonlinear_arith);
        assert((m + 1) * dy == m * dy + dy) by (nonlinear_arith);
    }
}

/// A ray scores `k` when its first `k - 1` steps stay on the grid and find no
/// food and step `k`, within reach, lands on food; it scores 0 when none of
/// its `RAY_STEPS` steps finds food before it leaves the grid.
pub proof fn lemma_ray_finds_nearest(food: Multiset<(i32, i32)>, x: int, y: int, dx: int, dy: int, w: int, h: int, k: int)
    requires
        1 <= k <= RAY_STEPS + 1,
        forall|j: int| 1 <= j < k ==> #[trigger] clear_step(food, x, y, dx, dy, w, h, j),
        k <= RAY_STEPS ==> {
            &&& 0 <= x + k * dx < w
            &&& 0 <= y + k * dy < h
            &&& food.contains(((x + k * dx) as i32, (y + k * dy) as i32))
        },
    ensures
        ray_score(food, x, y, dx, dy, w, h) == if k <= RAY_STEPS { k } else { 0 },
{
    lemma_ray_tail(food, x, y, dx, dy, w, h, 1, k);
    assert(1 * dx == dx && 1 * dy == dy);
}

/// The eight sensor directions. The horizontal pair is listed twice and the
/// vertical pair not at all. Controllers read their inputs in this order.
pub open spec fn direction(j: int) -> (int, int) {
    if j == 0 { (1, 0) }
    else if j == 1 { (-1, 0) }
    else if j == 2 { (1, 0) }
    else if j == 3 { (-1, 0) }
    else if j == 4 { (1, 1) }
    else if j == 5 { (-1, 1) }
    else if j == 6 { (1, -1) }
    else { (-1, -1) }
}

fn direction_of(j: usize) -> (r: (i32, i32))
    requires
        j < 8,
    ensures
        r.0 as int == direction(j as int).0,
        r.1 as int == direction(j as int).1,
        -1 <= r.0 <= 1,
        -1 <= r.1 <= 1,
{
    if j == 0 { (1, 0) }
    else if j == 1 { (-1, 0) }
    else if j == 2 { (1, 0) }
    else if j == 3 { (-1, 0) }
    else if j == 4 { (1, 1) }
    else if j == 5 { (-1, 1) }
    else if j == 6 { (1, -1) }
    else { (-1, -1) }
}

/// Casts a ray from `(x, y)` along `(dx, dy)` over the `width` by `height`
/// grid. Each step is an exact-point lookup. Returns the step count of the
/// first food found; the caller's score is its reciprocal, and 0 means none.
pub fn get_food_collision(x: i32, y: i32, dx: i32, dy: i32, width: i32, height: i32, food_tree: &FoodTree) -> (r: u32)
    requires
        0 < width < MAX_SIDE,
        0 < height < MAX_SIDE,
        0 <= x <= width,
        0 <= y <= height,
        -1 <= dx <= 1,
        -1 <= dy <= 1,
    ensures
        r as int == ray_score(food_tree@, x as int, y as int, dx as int, dy as int, width as int, height as int),
        r <= RAY_STEPS,
{
    let mut k: u32 = 1;
    let mut px: i32 = x + dx;
    let mut py: i32 = y + dy;
    while k <= RAY_STEPS
        invariant
            1 <= k <= RAY_STEPS + 1,
            -1 <= dx <= 1,
            -1 <= dy <= 1,
            0 < width < MAX_SIDE,
            0 < height < MAX_SIDE,
            -1 <= px <= width + 1 && -1 <= py <= height + 1,
            ray_score(food_tree@, x as int, y as int, dx as int, dy as int, width as int, height as int)
                == ray_from(food_tree@, px as int, py as int, dx as int, dy as int, width as int, height as int, k as int),
        decreases RAY_STEPS + 1 - k,
    {
        if px < 0 || px >= width || py < 0 || py >= height {
            return 0;
        }
        if food_tree.present_at(px, py) {
            return k;
        }
        px = px + dx;
        py = py + dy;
        k = k + 1;
    }
    0
}

impl<C> GameObjects<C> {
    /// The eight ray scores from the position of agent `i`, in the order of
    /// `direction`.
    pub fn sense(&self, i: usize) -> (r: Vec<u32>)
        requires
            self.bounds_ok(),
            i < self.cells@.len(),
            self.placed(self.cells@[i as int]),
        ensures
            r@.len() == 8,
            forall|j: int| 0 <= j < 8 ==> #[trigger] r@[j] as int == ray_score(
                self.food_tree@,
                self.cells@[i as int].x as int,
                self.cells@[i as int].y as int,
                direction(j).0,
                direction(j).1,
                self.columns as int,
                self.rows as int,
            ),
    {
        let x = self.cells[i].x;
        let y = self.cells[i].y;
        let mut r: Vec<u32> = Vec::new();
        let mut j: usize = 0;
        while j < 8
            invariant
                j <= 8,
                r@.len() == j,
                self.bounds_ok(),
                i < self.cells@.len(),
                x == self.cells@[i as int].x,
                y == self.cells@[i as int].y,
                self.placed(self.cells@[i as int]),
                forall|l: int| 0 <= l < j ==> #[trigger] r@[l] as int == ray_score(
                    self.food_tree@, x as int, y as int, direction(l).0, direction(l).1,
                    self.columns as int, self.rows as int,
                ),
            decreases 8 - j,
        {
            let d = direction_of(j);
            let score = get_food_collision(x, y, d.0, d.1, self.columns, self.rows, &self.food_tree);
            r.push(score);
            j = j + 1;
        }
        r
    }
}

} // verus!
