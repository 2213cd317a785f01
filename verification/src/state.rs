use vstd::prelude::*;

verus! {

use crate::component::facing_up;
use crate::component::ship_pos_ok;
use crate::component::BoxEntity;
use crate::component::EndPoint;
use crate::component::Fireball;
use crate::component::GameTimer;
use crate::component::Laser;
use crate::component::Ship;
use crate::component::ShipLives;
use crate::component::StartPoint;
use crate::geometry::Vec2;
use crate::GOAL_X;
use crate::GOAL_Y;
use crate::INITIAL_LIVES;
use crate::START_X;
use crate::START_Y;

/// How a finished game ended.
#[derive(Clone, Copy, PartialEq, Eq, Debug)]
pub enum GameOutcome {
    Won,
    Lost,
}

/// The mathematical model of a game state: what `GameState` holds,
/// with every collection as a `Seq`. Contracts and laws speak of this
/// type.
#[verifier::ext_equal]
pub struct StateModel {
    pub ship: Option<Ship>,
    pub lives: u32,
    pub boxes: Seq<BoxEntity>,
    pub lasers: Seq<Laser>,
    pub fireballs: Seq<Fireball>,
    pub timer: GameTimer,
    pub start: Vec2,
    pub goal: Vec2,
    pub outcome: Option<GameOutcome>,
}

impl StateModel {
    /// Validity of a game state:
    /// - every entity is well formed (in particular, obstacles sit
    ///   inside the arena and lasers inside their travel bounds);
    /// - a live ship always has at least one life left;
    /// - the clock is stopped exactly when the game has ended;
    /// - the markers sit inside the play area, so the ship can spawn
    ///   on the start marker.
    pub open spec fn wf(self) -> bool {
        &&& (self.ship matches Some(s) ==> s.wf())
        &&& (forall|i: int| 0 <= i < self.boxes.len() ==> #[trigger] self.boxes[i].wf())
        &&& (forall|i: int| 0 <= i < self.lasers.len() ==> #[trigger] self.lasers[i].wf())
        &&& (forall|i: int| 0 <= i < self.fireballs.len() ==> #[trigger] self.fireballs[i].wf())
        &&& (self.ship is Some ==> self.lives >= 1)
        &&& (self.timer.stopped <==> self.outcome is Some)
        &&& ship_pos_ok(self.start)
        &&& self.goal.in_range()
    }
}

/// The state the game starts in, before any obstacle is placed: the
/// ship on the start marker with full lives, both markers at their
/// fixed positions, clock not yet started, nothing else spawned.
pub open spec fn initial_model() -> StateModel {
    StateModel {
        ship: Some(
            Ship { pos: Vec2 { x: START_X, y: START_Y }, facing: facing_up() },
        ),
        lives: INITIAL_LIVES,
        boxes: Seq::empty(),
        lasers: Seq::empty(),
        fireballs: Seq::empty(),
        timer: GameTimer { elapsed_ms: None, stopped: false },
        start: Vec2 { x: START_X, y: START_Y },
        goal: Vec2 { x: GOAL_X, y: GOAL_Y },
        outcome: None,
    }
}

/// Every live game object together with the bookkeeping the updaters
/// read and write: the entity registry, the life counter and the game
/// clock.
pub struct GameState {
    pub ship: Option<Ship>,
    pub lives: ShipLives,
    pub boxes: Vec<BoxEntity>,
    pub lasers: Vec<Laser>,
    pub fireballs: Vec<Fireball>,
    pub timer: GameTimer,
    pub start: StartPoint,
    pub goal: EndPoint,
    pub outcome: Option<GameOutcome>,
}

impl View for GameState {
    type V = StateModel;

    open spec fn view(&self) -> StateModel {
        StateModel {
            ship: self.ship,
            lives: self.lives.0,
            boxes: self.boxes@,
            lasers: self.lasers@,
            fireballs: self.fireballs@,
            timer: self.timer,
            start: self.start.pos,
            goal: self.goal.pos,
            outcome: self.outcome,
        }
    }
}

impl GameState {
    /// The game as it stands before setup places the obstacles.
    pub fn new() -> (g: GameState)
        ensures
            g@ == initial_model(),
            g@.wf(),
    {
        let g = GameState {
            ship: Some(
                Ship { pos: Vec2 { x: START_X, y: START_Y }, facing: Vec2 { x: 0, y: crate::DIR_SCALE } },
            ),
            lives: ShipLives(INITIAL_LIVES),
            boxes: Vec::new(),
            lasers: Vec::new(),
            fireballs: Vec::new(),
            timer: GameTimer { elapsed_ms: None, stopped: false },
            start: StartPoint { pos: Vec2 { x: START_X, y: START_Y } },
            goal: EndPoint { pos: Vec2 { x: GOAL_X, y: GOAL_Y } },
            outcome: None,
        };
        proof {
            assert(g@ =~= initial_model());
        }
        g
    }
}

} // verus!
