//! Game lifecycle controller: orchestrates the per-tick step — pickup,
//! food respawn, collision — and performs the immediate reset to the
//! fixed initial configuration when a round ends.

use crate::food::{respawn_position, Food};
use crate::grid::{in_bounds, Direction, Position};
use crate::snake::{Snake, SnakeElement, SnakeModel};
use vstd::prelude::*;

verus! {

/// The signal that a tick ended the round and the state was rebuilt.
#[derive(Copy, Clone, Eq, PartialEq, Structural, Debug)]
pub struct GameOverEvent;

/// What one lifecycle step reports to the host: whether food was eaten,
/// and whether the round ended (in which case the state was reset).
#[derive(Copy, Clone, Eq, PartialEq, Structural, Debug)]
pub struct StepOutcome {
    pub ate: bool,
    pub game_over: Option<GameOverEvent>,
}

/// The whole simulation: the snake, the single food item, and the
/// counter handing out fresh entity handles.
pub struct Game {
    pub snake: Snake,
    pub food: Option<Food>,
    pub next_entity: u64,
}

/// Mathematical image of a `Game`.
#[verifier::ext_equal]
pub ghost struct GameModel {
    pub snake: SnakeModel,
    pub food: Option<Food>,
    pub next_entity: u64,
}

impl View for Game {
    type V = GameModel;

    open spec fn view(&self) -> GameModel {
        GameModel { snake: self.snake@, food: self.food, next_entity: self.next_entity }
    }
}

impl GameModel {
    /// The cell of the active food, if one is present.
    pub open spec fn food_cell(self) -> Option<Position> {
        match self.food {
            Some(f) => Some(f.pos),
            None => None,
        }
    }

    /// Entity handles in play are pairwise distinct and below the counter.
    pub open spec fn entities_ok(self) -> bool {
        &&& forall|i: int|
            0 <= i < self.snake.body.len() ==> #[trigger] self.snake.body[i].entity
                < self.next_entity
        &&& forall|i: int, j: int|
            0 <= i < j < self.snake.body.len() ==> #[trigger] self.snake.body[i].entity
                != #[trigger] self.snake.body[j].entity
        &&& match self.food {
            Some(f) => f.entity < self.next_entity && forall|i: int|
                0 <= i < self.snake.body.len() ==> #[trigger] self.snake.body[i].entity
                    != f.entity,
            None => true,
        }
    }

    /// Well-formed game: a well-formed snake on pairwise-distinct cells,
    /// food — when present — on the grid and off the snake, and all
    /// entity handles distinct.
    pub open spec fn wf(self) -> bool {
        &&& self.snake.wf()
        &&& self.snake.positions_distinct()
        &&& match self.food {
            Some(f) => in_bounds(f.pos) && !self.snake.occupies(f.pos),
            None => true,
        }
        &&& self.entities_ok()
    }

    /// Whether this step ends the round: the moved head hits the body,
    /// or a pickup leaves no free cell for new food.
    pub open spec fn round_ends(self) -> bool {
        ||| self.snake.ticked(self.food_cell(), self.next_entity).head_collides()
        ||| (self.snake.eats(self.food_cell()) && self.snake.ticked(
            self.food_cell(),
            self.next_entity,
        ).covers_grid())
    }
}

/// The fixed initial configuration: three segments stacked at the grid
/// center heading up, one food item in the lower-left quarter, and the
/// handle counter past the four handles in use.
pub open spec fn initial_model() -> GameModel {
    GameModel {
        snake: SnakeModel {
            dir: Direction::Up,
            pending: None,
            body: seq![
                SnakeElement { entity: 0, pos: Position { x: 8, y: 8 } },
                SnakeElement { entity: 1, pos: Position { x: 8, y: 7 } },
                SnakeElement { entity: 2, pos: Position { x: 8, y: 6 } },
            ],
        },
        food: Some(Food { entity: 3, pos: Position { x: 2, y: 2 } }),
        next_entity: 4,
    }
}

impl Game {
    /// A game in the initial configuration.
    pub fn new() -> (g: Game)
        ensures
            g@ == initial_model(),
            g@.wf(),
    {
        let mut elements: Vec<SnakeElement> = Vec::new();
        elements.push(SnakeElement { entity: 0, pos: Position { x: 8, y: 8 } });
        elements.push(SnakeElement { entity: 1, pos: Position { x: 8, y: 7 } });
        elements.push(SnakeElement { entity: 2, pos: Position { x: 8, y: 6 } });
        let g = Game {
            snake: Snake { dir: Direction::Up, input_dir: None, elements },
            food: Some(Food { entity: 3, pos: Position { x: 2, y: 2 } }),
            next_entity: 4,
        };
        proof {
            assert(g@.snake.body =~= initial_model().snake.body);
            assert(g@ =~= initial_model());
        }
        g
    }

    /// Destroys the whole state and rebuilds the initial configuration.
    pub fn reset(&mut self)
        ensures
            final(self)@ == initial_model(),
            final(self)@.wf(),
    {
        *self = Game::new();
    }

    /// The cells the snake stands on, head to tail — what the renderer
    /// pulls each tick, and what food placement must avoid.
    pub fn occupied_cells(&self) -> (v: Vec<Position>)
        ensures
            v@ == self.snake@.positions(),
    {
        let mut v: Vec<Position> = Vec::new();
        let mut i: usize = 0;
        while i < self.snake.elements.len()
            invariant
                0 <= i <= self.snake.elements@.len(),
                v@.len() == i,
                forall|j: int| 0 <= j < i ==> v@[j] == self.snake.elements@[j].pos,
            decreases self.snake.elements@.len() - i,
        {
            v.push(self.snake.elements[i].pos);
            i = i + 1;
        }
        proof {
            assert(v@ =~= self.snake@.positions());
        }
        v
    }

    /// Clears the active food item; the caller respawns one afterwards.
    pub fn consume(&mut self)
        requires
            old(self)@.wf(),
        ensures
            final(self)@ == (GameModel { food: None::<Food>, ..old(self)@ }),
            final(self)@.wf(),
    {
        self.food = None;
    }

    /// Makes sure a food item is active: when none is, places one with a
    /// fresh handle on a free cell. Reports whether one was placed; food
    /// stays missing only when the snake covers the whole grid.
    pub fn ensure_active(&mut self) -> (spawned: bool)
        requires
            old(self)@.wf(),
            old(self).next_entity < u64::MAX,
        ensures
            final(self)@.wf(),
            old(self).food is Some ==> final(self)@ == old(self)@ && !spawned,
            old(self).food is None && spawned ==> {
                &&& final(self)@.snake == old(self)@.snake
                &&& final(self).next_entity == old(self).next_entity + 1
                &&& match final(self).food {
                    Some(f) => f.entity == old(self).next_entity && in_bounds(f.pos)
                        && !old(self)@.snake.occupies(f.pos),
                    None => false,
                }
            },
            old(self).food is None && !spawned ==> final(self)@ == old(self)@
                && old(self)@.snake.covers_grid(),
    {
        if self.food.is_some() {
            return false;
        }
        let occ = self.occupied_cells();
        let ghost s = self.snake@;
        match respawn_position(&occ) {
            Some(p) => {
                proof {
                    lemma_positions_contains(s, p);
                }
                self.food = Some(Food { entity: self.next_entity, pos: p });
                self.next_entity = self.next_entity + 1;
                true
            },
            None => {
                proof {
                    assert forall|q: Position| in_bounds(q) implies s.occupies(q) by {
                        assert(occ@.contains(q));
                        lemma_positions_contains(s, q);
                    }
                }
                false
            },
        }
    }

    /// One simulation step, the single per-tick transition: ticks the
    /// snake, consumes and respawns food on a pickup, and — when the
    /// round ends by self-collision or by a full grid — resets the whole
    /// state to the initial configuration before returning.
    pub fn step(&mut self) -> (r: StepOutcome)
        requires
            old(self)@.wf(),
            old(self).next_entity + 2 <= u64::MAX,
        ensures
            final(self)@.wf(),
            r.ate == old(self)@.snake.eats(old(self)@.food_cell()),
            (r.game_over is Some) == old(self)@.round_ends(),
            old(self)@.round_ends() ==> final(self)@ == initial_model(),
            !old(self)@.round_ends() ==> {
                &&& final(self)@.snake == old(self)@.snake.ticked(
                    old(self)@.food_cell(),
                    old(self).next_entity,
                )
                &&& (!r.ate ==> final(self).food == old(self).food && final(self).next_entity
                    == old(self).next_entity)
                &&& (r.ate ==> match final(self).food {
                    Some(f) => {
                        &&& f.entity == old(self).next_entity + 1
                        &&& in_bounds(f.pos)
                        &&& !final(self)@.snake.occupies(f.pos)
                        &&& final(self).next_entity == old(self).next_entity + 2
                    },
                    None => false,
                })
            },
    {
        let ghost g0 = self@;
        let fc = match &self.food {
            Some(f) => Some(f.pos),
            None => None,
        };
        let e = self.next_entity;
        let out = self.snake.tick(fc, e);
        let ghost t = g0.snake.ticked(g0.food_cell(), g0.next_entity);

        if out.ate {
            self.next_entity = self.next_entity + 1;
            // The food was consumed: place a new item off the grown body.
            let occ = self.occupied_cells();
            match respawn_position(&occ) {
                Some(p) => {
                    proof {
                        lemma_positions_contains(t, p);
                    }
                    self.food = Some(Food { entity: self.next_entity, pos: p });
                    self.next_entity = self.next_entity + 1;
                },
                None => {
                    // No free cell is left for food: the round ends.
                    proof {
                        assert forall|q: Position| in_bounds(q) implies t.occupies(q) by {
                            assert(occ@.contains(q));
                            lemma_positions_contains(t, q);
                        }
                    }
                    self.reset();
                    return StepOutcome { ate: true, game_over: Some(GameOverEvent) };
                },
            }
        }
        if out.game_over {
            self.reset();
            return StepOutcome { ate: out.ate, game_over: Some(GameOverEvent) };
        }
        proof {
            let fin = self@;
            let s = g0.snake;
            assert(fin.snake == t);

            // The body's cells stay pairwise distinct.
            crate::snake::lemma_move_preserves_distinct(s, g0.food_cell(), g0.next_entity);

            // Without a pickup, the untouched food stays off the body:
            // the head missed it, and every other cell was already a body
            // cell the food avoided.
            if !out.ate {
                match g0.food {
                    Some(f) => {
                        assert forall|i: int|
                            0 <= i < t.body.len() implies #[trigger] t.body[i].pos != f.pos by {
                            if i == 0 {
                                assert(t.body[0].pos == s.next_head());
                            } else {
                                assert(t.body[i].pos == s.body[i - 1].pos);
                                assert(s.body[i - 1].pos != f.pos);
                            }
                        }
                        assert(!t.occupies(f.pos));
                    },
                    None => {},
                }
            }

            // Entity handles stay below the counter and pairwise distinct.
            let oldn = s.body.len() as int;
            assert forall|i: int|
                0 <= i < t.body.len() implies #[trigger] t.body[i].entity < fin.next_entity by {
                if i < oldn {
                    assert(t.body[i].entity == s.body[i].entity);
                } else {
                    assert(t.body[i].entity == g0.next_entity);
                }
            }
            assert forall|i: int, j: int|
                0 <= i < j < t.body.len() implies #[trigger] t.body[i].entity
                    != #[trigger] t.body[j].entity by {
                assert(t.body[i].entity == s.body[i].entity);
                if j < oldn {
                    assert(t.body[j].entity == s.body[j].entity);
                } else {
                    assert(t.body[j].entity == g0.next_entity);
                }
            }
            match fin.food {
                Some(f) => {
                    assert forall|i: int|
                        0 <= i < t.body.len() implies #[trigger] t.body[i].entity != f.entity by {
                        if i < oldn {
                            assert(t.body[i].entity == s.body[i].entity);
                        } else {
                            assert(t.body[i].entity == g0.next_entity);
                        }
                    }
                },
                None => {},
            }
            assert(fin.wf());

            // The round did not end: no collision was reported, and on a
            // pickup the fresh food cell is a free cell of the grid.
            assert(!g0.round_ends()) by {
                if s.eats(g0.food_cell()) && t.covers_grid() {
                    let f = fin.food->Some_0;
                    assert(in_bounds(f.pos));
                    assert(t.occupies(f.pos));
                    assert(false);
                }
            }
        }
        StepOutcome { ate: out.ate, game_over: None }
    }
}

/// The snake's position sequence holds exactly the cells the body stands on.
proof fn lemma_positions_contains(s: SnakeModel, p: Position)
    ensures
        s.positions().contains(p) == s.occupies(p),
{
    if s.occupies(p) {
        let i = choose|i: int| 0 <= i < s.body.len() && s.body[i].pos == p;
        assert(s.positions()[i] == p);
    }
    if s.positions().contains(p) {
        let i = choose|i: int| 0 <= i < s.positions().len() && s.positions()[i] == p;
        assert(s.body[i].pos == p);
    }
}

} // verus!
