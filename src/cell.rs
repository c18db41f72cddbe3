//! Agents ("cells"), food markers, and the movement rule along one axis.

use vstd::prelude::*;
use crate::random::draw_below;

verus! {

/// Chance, in thousandths, that one channel of an offspring's color drifts from the parent's.
pub const COLOR_MUTATION_PER_MILLE: u32 = 0;

/// Size of one color drift on a channel.
pub const COLOR_MUTATION_VAL: i32 = 10;

/// An RGB color, the agents' cosmetic trait.
#[derive(Clone, Copy, Debug, PartialEq, Eq, Structural)]
pub struct Color {
    pub r: u8,
    pub g: u8,
    pub b: u8,
}

/// A food marker: a bare grid position.
#[derive(Clone, Copy, Debug, PartialEq, Eq, Structural)]
pub struct Food {
    pub x: i32,
    pub y: i32,
}

impl Food {
    pub fn new(x: i32, y: i32) -> (r: Food)
        ensures
            r.x == x,
            r.y == y,
    {
        Food { x: x, y: y }
    }
}

/// An agent: its position, the ticks since it last ate, whether it lives,
/// the controller that steers it, and its color.
pub struct Cell<C> {
    pub network: C,
    pub x: i32,
    pub y: i32,
    pub ticks_since_food: u32,
    pub alive: bool,
    pub color: Color,
}

/// A channel after one drift: `|c + delta|`, kept to a byte as `as u8` keeps it.
pub open spec fn drifted(c: u8, delta: int) -> u8 {
    let v = c + delta;
    let a = if v < 0 { -v } else { v };
    (a % 256) as u8
}

/// A channel of an offspring: the parent's, or the parent's drifted by the
/// mutation step either way.
pub open spec fn channel_inherited(parent: u8, child: u8) -> bool {
    ||| child == parent
    ||| child == drifted(parent, COLOR_MUTATION_VAL as int)
    ||| child == drifted(parent, -COLOR_MUTATION_VAL)
}

/// Each channel of `child` is inherited from `parent` on its own.
pub open spec fn color_inherited(parent: Color, child: Color) -> bool {
    &&& channel_inherited(parent.r, child.r)
    &&& channel_inherited(parent.g, child.g)
    &&& channel_inherited(parent.b, child.b)
}

fn drift(c: u8, up: bool) -> (r: u8)
    ensures
        r == drifted(c, if up { COLOR_MUTATION_VAL as int } else { -COLOR_MUTATION_VAL }),
{
    let v: i32 = if up { c as i32 + COLOR_MUTATION_VAL } else { c as i32 - COLOR_MUTATION_VAL };
    let a: i32 = if v < 0 { -v } else { v };
    (a % 256) as u8
}

/// One channel of an offspring: drifted with chance
/// `COLOR_MUTATION_PER_MILLE` in 1000, up or down with equal chance.
fn inherit_channel(c: u8, rng: &mut rand::rngs::StdRng) -> (r: u8)
    ensures
        channel_inherited(c, r),
        COLOR_MUTATION_PER_MILLE == 0 ==> r == c,
{
    if draw_below(rng, 1000) < COLOR_MUTATION_PER_MILLE {
        let up = draw_below(rng, 2) != 0;
        drift(c, up)
    } else {
        c
    }
}

impl<C> Cell<C> {
    /// A fresh agent at `(x, y)` with a random color and the given controller.
    pub fn new(x: i32, y: i32, alive: bool, network: C, rng: &mut rand::rngs::StdRng) -> (r: Cell<C>)
        ensures
            r.x == x,
            r.y == y,
            r.alive == alive,
            r.ticks_since_food == 0,
            r.network == network,
            r.color.r < 255 && r.color.g < 255 && r.color.b < 255,
    {
        let r = draw_below(rng, 255) as u8;
        let g = draw_below(rng, 255) as u8;
        let b = draw_below(rng, 255) as u8;
        Cell {
            network: network,
            x: x,
            y: y,
            ticks_since_food: 0,
            alive: alive,
            color: Color { r: r, g: g, b: b },
        }
    }

    /// An offspring of `parent`, alive and fed, at `(new_x, new_y)`, steered by
    /// `network` (the parent's controller after inheritance), with the parent's
    /// color, each channel of it drifting on its own chance.
    pub fn inherit_from(parent: &Cell<C>, new_x: i32, new_y: i32, network: C, rng: &mut rand::rngs::StdRng) -> (r: Cell<C>)
        ensures
            r.x == new_x,
            r.y == new_y,
            r.alive,
            r.ticks_since_food == 0,
            r.network == network,
            color_inherited(parent.color, r.color),
            COLOR_MUTATION_PER_MILLE == 0 ==> r.color == parent.color,
    {
        let color = Color {
            r: inherit_channel(parent.color.r, rng),
            g: inherit_channel(parent.color.g, rng),
            b: inherit_channel(parent.color.b, rng),
        };
        Cell {
            network: network,
            x: new_x,
            y: new_y,
            ticks_since_food: 0,
            alive: true,
            color: color,
        }
    }
}

/// Where a controller's signal sends an agent along one axis.
#[derive(Clone, Copy, Debug, PartialEq, Eq, Structural)]
pub enum Step {
    Back,
    Stay,
    Forward,
}

/// One move along an axis of size `bound`. Going back from 0 wraps to
/// `bound - 1`. Going forward wraps to 0 only from a coordinate that is not
/// below `bound`; from `bound - 1` it reaches `bound` itself, and the next
/// forward move wraps.
pub open spec fn moved(pos: int, bound: int, step: Step) -> int {
    match step {
        Step::Stay => pos,
        Step::Back => if pos > 0 { pos - 1 } else { bound - 1 },
        Step::Forward => if pos < bound { pos + 1 } else { 0 },
    }
}

pub fn wrap_move(pos: i32, bound: i32, step: Step) -> (r: i32)
    requires
        0 <= pos <= bound,
        0 < bound < i32::MAX,
    ensures
        r == moved(pos as int, bound as int, step),
        0 <= r <= bound,
{
    match step {
        Step::Stay => pos,
        Step::Back => if pos > 0 { pos - 1 } else { bound - 1 },
        Step::Forward => if pos < bound { pos + 1 } else { 0 },
    }
}

} // verus!
