//! Direction cursor for the border tracer: a four-way rotation over
//! up / right / down / left, probed in a fixed rotational order.

use vstd::prelude::*;

verus! {

/// One of the four edge-adjacent walk directions on the doubled grid.
#[derive(Clone, Copy, Debug, PartialEq, Eq, Structural)]
pub enum Direction {
    Up,
    Right,
    Down,
    Left,
}

/// The horizontal step a direction takes.
pub open spec fn direction_dx(d: Direction) -> int {
    match d {
        Direction::Right => 1,
        Direction::Left => -1,
        _ => 0,
    }
}

/// The vertical step a direction takes.
pub open spec fn direction_dy(d: Direction) -> int {
    match d {
        Direction::Up => 1,
        Direction::Down => -1,
        _ => 0,
    }
}

/// The fixed rotational order the tracer probes directions in.
pub open spec fn direction_cycle() -> Seq<Direction> {
    seq![Direction::Up, Direction::Right, Direction::Down, Direction::Left]
}

/// A cursor into the four-direction cycle; the tracer turns it forward and
/// backward while it walks a region's boundary.
pub struct Rotation {
    pub position: usize,
}

impl Rotation {
    /// The cursor's position always stays inside the cycle.
    pub open spec fn wf(&self) -> bool {
        self.position < 4
    }

    /// The direction the cursor currently faces.
    pub open spec fn direction(&self) -> Direction {
        direction_cycle()[self.position as int]
    }

    /// A fresh cursor starts facing down, matching the walk's entry direction.
    pub fn new() -> (r: Rotation)
        ensures
            r.wf(),
            r.position == 2,
    {
        Rotation { position: 2 }
    }

    /// The four directions in rotational order.
    pub fn cycle(&self) -> (r: [Direction; 4])
        ensures
            r@ == direction_cycle(),
    {
        let r = [Direction::Up, Direction::Right, Direction::Down, Direction::Left];
        proof {
            assert(r@ =~= direction_cycle());
        }
        r
    }

    /// Turn one step forward in the cycle, wrapping after the last direction.
    pub fn cycle_forward(&mut self)
        requires
            old(self).wf(),
        ensures
            final(self).wf(),
            final(self).position == (old(self).position + 1) % 4,
    {
        if self.position + 1 < 4 {
            self.position = self.position + 1;
        } else {
            self.position = 0;
        }
    }

    /// Turn one step backward in the cycle, wrapping before the first direction.
    pub fn cycle_backward(&mut self)
        requires
            old(self).wf(),
        ensures
            final(self).wf(),
            final(self).position == (old(self).position + 3) % 4,
    {
        if self.position == 0 {
            self.position = 3;
        } else {
            self.position = self.position - 1;
        }
    }

    /// The direction the cursor currently faces.
    pub fn position_name(&self) -> (r: Direction)
        requires
            self.wf(),
        ensures
            r == self.direction(),
    {
        let cycle = self.cycle();
        cycle[self.position]
    }

    /// The horizontal step of the current direction.
    pub fn x_modifier(&self) -> (r: i64)
        requires
            self.wf(),
        ensures
            r == direction_dx(self.direction()),
    {
        match self.position_name() {
            Direction::Right => 1,
            Direction::Left => -1,
            _ => 0,
        }
    }

    /// The vertical step of the current direction.
    pub fn y_modifier(&self) -> (r: i64)
        requires
            self.wf(),
        ensures
            r == direction_dy(self.direction()),
    {
        match self.position_name() {
            Direction::Up => 1,
            Direction::Down => -1,
            _ => 0,
        }
    }

    /// The neighbor of `coord` one step in the current direction.
    pub fn next_coord(&self, coord: (i64, i64)) -> (r: (i64, i64))
        requires
            self.wf(),
            i64::MIN < coord.0 < i64::MAX,
            i64::MIN < coord.1 < i64::MAX,
        ensures
            r.0 == coord.0 + direction_dx(self.direction()),
            r.1 == coord.1 + direction_dy(self.direction()),
    {
        (coord.0 + self.x_modifier(), coord.1 + self.y_modifier())
    }
}

} // verus!
