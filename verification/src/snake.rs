//! Snake state machine: the ordered body, the committed heading, the
//! single-slot pending turn buffer, and the per-tick movement, growth
//! and collision step.

use crate::grid::{advance, in_bounds, spec_advance, Direction, Position};
use vstd::prelude::*;

verus! {

/// One unit of the snake's body: an opaque render handle plus its cell.
#[derive(Copy, Clone, Eq, PartialEq, Structural, Debug)]
pub struct SnakeElement {
    pub entity: u64,
    pub pos: Position,
}

/// The snake: committed heading, buffered turn request, and the body
/// ordered from head (index 0) to tail (last index).
pub struct Snake {
    pub dir: Direction,
    pub input_dir: Option<Direction>,
    pub elements: Vec<SnakeElement>,
}

/// Mathematical image of a `Snake`.
#[verifier::ext_equal]
pub ghost struct SnakeModel {
    pub dir: Direction,
    pub pending: Option<Direction>,
    pub body: Seq<SnakeElement>,
}

impl View for Snake {
    type V = SnakeModel;

    open spec fn view(&self) -> SnakeModel {
        SnakeModel { dir: self.dir, pending: self.input_dir, body: self.elements@ }
    }
}

impl SnakeModel {
    /// The body is nonempty and on the grid, and a buffered turn is never
    /// the reverse of the committed heading.
    pub open spec fn wf(self) -> bool {
        &&& self.body.len() >= 1
        &&& forall|i: int| 0 <= i < self.body.len() ==> in_bounds(#[trigger] self.body[i].pos)
        &&& match self.pending {
            Some(d) => d != self.dir.opposite(),
            None => true,
        }
    }

    /// The cells the body stands on, in body order.
    pub open spec fn positions(self) -> Seq<Position> {
        self.body.map_values(|e: SnakeElement| e.pos)
    }

    /// Whether some segment stands on `p`.
    pub open spec fn occupies(self, p: Position) -> bool {
        exists|i: int| 0 <= i < self.body.len() && self.body[i].pos == p
    }

    /// No two segments share a cell.
    pub open spec fn positions_distinct(self) -> bool {
        forall|i: int, j: int|
            0 <= i < j < self.body.len() ==> #[trigger] self.body[i].pos != #[trigger] self.body[j].pos
    }

    /// The state after a turn request: recorded unless it would reverse
    /// the committed heading, in which case it is dropped whole.
    pub open spec fn requested(self, d: Direction) -> SnakeModel {
        if d == self.dir.opposite() {
            self
        } else {
            SnakeModel { pending: Some(d), ..self }
        }
    }

    /// The heading the next tick commits.
    pub open spec fn committed(self) -> Direction {
        match self.pending {
            Some(d) => d,
            None => self.dir,
        }
    }

    /// The cell the head moves onto this tick.
    pub open spec fn next_head(self) -> Position {
        spec_advance(self.body[0].pos, self.committed())
    }

    /// Whether the head lands on the food this tick.
    pub open spec fn eats(self, food: Option<Position>) -> bool {
        food == Some(self.next_head())
    }

    /// The body after the follow-the-leader shift: the head takes the
    /// next head cell, every other segment the cell of the one ahead.
    pub open spec fn shifted(self) -> Seq<SnakeElement> {
        Seq::new(
            self.body.len(),
            |i: int|
                SnakeElement {
                    entity: self.body[i].entity,
                    pos: if i == 0 {
                        self.next_head()
                    } else {
                        self.body[i - 1].pos
                    },
                },
        )
    }

    /// The body after the tick: shifted, plus — on a pickup — one new
    /// segment with handle `new_entity` on the cell the tail vacated.
    pub open spec fn ticked_body(self, food: Option<Position>, new_entity: u64) -> Seq<
        SnakeElement,
    > {
        if self.eats(food) {
            self.shifted().push(SnakeElement { entity: new_entity, pos: self.body.last().pos })
        } else {
            self.shifted()
        }
    }

    /// The whole snake state after the tick.
    pub open spec fn ticked(self, food: Option<Position>, new_entity: u64) -> SnakeModel {
        SnakeModel {
            dir: self.committed(),
            pending: None,
            body: self.ticked_body(food, new_entity),
        }
    }

    /// Whether the body stands on every cell of the grid.
    pub open spec fn covers_grid(self) -> bool {
        forall|p: Position| in_bounds(p) ==> self.occupies(p)
    }

    /// Whether the head shares a cell with a later segment.
    pub open spec fn head_collides(self) -> bool {
        exists|i: int| 1 <= i < self.body.len() && #[trigger] self.body[i].pos == self.body[0].pos
    }
}

impl Snake {
    /// Records `d` as the buffered turn unless it is the reverse of the
    /// committed heading; a later request before the tick overwrites it.
    pub fn request_turn(&mut self, d: Direction)
        ensures
            final(self)@ == old(self)@.requested(d),
    {
        if !self.dir.is_opposite(d) {
            self.input_dir = Some(d);
        }
    }

    /// One simulation step: commit the buffered turn, move the head one
    /// cell (wrapping at the edges), shift every other segment onto the
    /// cell of the one ahead, grow by one segment on a pickup, and report
    /// whether food was eaten and whether the head hit the body.
    pub fn tick(&mut self, food_pos: Option<Position>, new_tail_entity: u64) -> (r: TickOutcome)
        requires
            old(self)@.wf(),
        ensures
            final(self)@ == old(self)@.ticked(food_pos, new_tail_entity),
            r.ate == old(self)@.eats(food_pos),
            r.game_over == old(self)@.ticked(food_pos, new_tail_entity).head_collides(),
            final(self)@.wf(),
    {
        let ghost s0 = self@;

        // Commit the buffered turn.
        if let Some(d) = self.input_dir {
            self.dir = d;
            self.input_dir = None;
        }
        assert(self.dir == s0.committed());

        // The head's next cell.
        let new_head = advance(self.elements[0].pos, self.dir);
        assert(new_head == s0.next_head());

        // Pickup test, and the tail cell freed by the shift.
        let ate = match food_pos {
            Some(fp) => fp == new_head,
            None => false,
        };
        assert(ate == s0.eats(food_pos));
        let n = self.elements.len();
        let tail_pos = self.elements[n - 1].pos;

        // Follow-the-leader shift, back to front.
        let mut i = n - 1;
        while 1 <= i
            invariant
                1 <= n == self.elements.len() == s0.body.len(),
                0 <= i < n,
                self.dir == s0.committed(),
                self.input_dir is None,
                forall|j: int| 0 <= j <= i ==> self.elements@[j] == s0.body[j],
                forall|j: int|
                    i < j < n ==> self.elements@[j] == (SnakeElement {
                        entity: s0.body[j].entity,
                        pos: s0.body[j - 1].pos,
                    }),
            decreases i,
        {
            let moved = SnakeElement {
                entity: self.elements[i].entity,
                pos: self.elements[i - 1].pos,
            };
            self.elements.set(i, moved);
            i = i - 1;
        }
        let head = SnakeElement { entity: self.elements[0].entity, pos: new_head };
        self.elements.set(0, head);

        // Growth: the new segment appears on the freed tail cell.
        if ate {
            self.elements.push(SnakeElement { entity: new_tail_entity, pos: tail_pos });
        }
        proof {
            assert(self.elements@ =~= s0.ticked_body(food_pos, new_tail_entity));
            assert(self@ =~= s0.ticked(food_pos, new_tail_entity));
        }

        // Collision: does the head now share a cell with a later segment?
        let mut game_over = false;
        let len = self.elements.len();
        let mut k: usize = 1;
        while k < len
            invariant
                1 <= k <= len == self.elements@.len(),
                self@ == s0.ticked(food_pos, new_tail_entity),
                self.elements@[0].pos == new_head,
                game_over == exists|j: int|
                    1 <= j < k && #[trigger] self.elements@[j].pos == self.elements@[0].pos,
            decreases len - k,
        {
            if self.elements[k].pos == new_head {
                game_over = true;
            }
            k = k + 1;
        }

        proof {
            let t = s0.ticked(food_pos, new_tail_entity);
            if game_over {
                let j = choose|j: int|
                    1 <= j < k && #[trigger] self.elements@[j].pos == self.elements@[0].pos;
                assert(t.body[j].pos == t.body[0].pos);
            } else {
                assert forall|i: int|
                    1 <= i < t.body.len() implies #[trigger] t.body[i].pos != t.body[0].pos by {
                    assert(self.elements@[i].pos != self.elements@[0].pos);
                }
            }
        }
        TickOutcome { ate, game_over }
    }
}

/// What one tick reports back to the lifecycle controller.
#[derive(Copy, Clone, Eq, PartialEq, Structural, Debug)]
pub struct TickOutcome {
    pub ate: bool,
    pub game_over: bool,
}

/// Law: every tick keeps the snake well formed — the body stays nonempty
/// and on the grid, and the turn buffer is left empty.
pub proof fn lemma_tick_wf(s: SnakeModel, food: Option<Position>, e: u64)
    requires
        s.wf(),
    ensures
        s.ticked(food, e).wf(),
{
    crate::grid::lemma_advance_in_bounds(s.body[0].pos, s.committed());
    let t = s.ticked(food, e);
    assert forall|i: int| 0 <= i < t.body.len() implies in_bounds(#[trigger] t.body[i].pos) by {
        if i >= s.body.len() {
            assert(t.body[i].pos == s.body.last().pos);
        }
    }
}

/// Law: within a life the body never shrinks — a tick keeps the length,
/// or grows it by exactly one on a pickup.
pub proof fn lemma_length_monotone(s: SnakeModel, food: Option<Position>, e: u64)
    ensures
        s.ticked(food, e).body.len() == s.body.len() + (if s.eats(food) {
            1int
        } else {
            0int
        }),
{
}

/// Law: a turn request that would reverse the committed heading is
/// dropped whole — the snake is left exactly as it was.
pub proof fn lemma_no_reverse(s: SnakeModel, d: Direction)
    requires
        d == s.dir.opposite(),
    ensures
        s.requested(d) == s,
{
}

/// Law: a turn request that does not reverse the heading is the one the
/// next tick commits.
pub proof fn lemma_turn_commits(s: SnakeModel, d: Direction, food: Option<Position>, e: u64)
    requires
        d != s.dir.opposite(),
    ensures
        s.requested(d).ticked(food, e).dir == d,
{
}

/// Law: repeating a turn request changes nothing after the first time.
pub proof fn lemma_request_idempotent(s: SnakeModel, d: Direction)
    ensures
        s.requested(d).requested(d) == s.requested(d),
{
}

/// Law: requesting the heading the snake already travels has no effect on
/// the next tick, as long as the buffer is empty or holds that heading.
pub proof fn lemma_noop_turn(s: SnakeModel, food: Option<Position>, e: u64)
    requires
        s.pending == None::<Direction> || s.pending == Some(s.dir),
    ensures
        s.requested(s.dir).ticked(food, e) == s.ticked(food, e),
{
    let a = s.requested(s.dir).ticked(food, e);
    let b = s.ticked(food, e);
    assert(s.requested(s.dir).committed() == s.committed());
    assert(a.body =~= b.body);
    assert(a =~= b);
}

/// Law (follow invariant): on a tick without a pickup the body keeps its
/// length, each segment takes the cell of the one ahead of it, and the
/// head takes the advanced cell.
pub proof fn lemma_follow(s: SnakeModel, food: Option<Position>, e: u64)
    requires
        s.wf(),
        !s.eats(food),
    ensures
        s.ticked(food, e).body.len() == s.body.len(),
        forall|i: int|
            1 <= i < s.body.len() ==> #[trigger] s.ticked(food, e).body[i].pos == s.body[i
                - 1].pos,
        s.ticked(food, e).body[0].pos == spec_advance(s.body[0].pos, s.committed()),
{
}

/// Law (growth): a pickup adds exactly one segment, bearing the fresh
/// handle, on the cell the tail vacated; the rest of the body shifts as
/// on any other tick.
pub proof fn lemma_growth(s: SnakeModel, food: Option<Position>, e: u64)
    requires
        s.wf(),
        s.eats(food),
    ensures
        s.ticked(food, e).body.len() == s.body.len() + 1,
        s.ticked(food, e).body.last().pos == s.body.last().pos,
        s.ticked(food, e).body.last().entity == e,
        forall|i: int|
            1 <= i < s.body.len() ==> #[trigger] s.ticked(food, e).body[i].pos == s.body[i
                - 1].pos,
        s.ticked(food, e).body[0].pos == spec_advance(s.body[0].pos, s.committed()),
{
}

/// Law: movement never makes two segments share a cell silently — when
/// the body's cells are distinct and the tick reports no collision, the
/// cells after the tick are distinct again.
pub proof fn lemma_move_preserves_distinct(s: SnakeModel, food: Option<Position>, e: u64)
    requires
        s.wf(),
        s.positions_distinct(),
        !s.ticked(food, e).head_collides(),
    ensures
        s.ticked(food, e).positions_distinct(),
{
    let t = s.ticked(food, e);
    let n = s.body.len() as int;
    assert forall|i: int, j: int|
        0 <= i < j < t.body.len() implies #[trigger] t.body[i].pos != #[trigger] t.body[j].pos by {
        if i == 0 {
            assert(!(1 <= j < t.body.len() && t.body[j].pos == t.body[0].pos));
        } else {
            // Both cells are old body cells at distinct old indices.
            let oi = i - 1;
            let oj = if j < n {
                j - 1
            } else {
                n - 1
            };
            assert(t.body[i].pos == s.body[oi].pos);
            assert(t.body[j].pos == s.body[oj].pos);
            assert(oi < oj);
        }
    }
}

} // verus!
