//! Movement controllers: sources of player actions (a demo that walks at
//! random, button input with a demo mode before the first press, a resistor
//! ladder keypad), and the universe that feeds their actions to the engine.
use rand_chacha::ChaCha20Rng;
use vstd::prelude::*;

use crate::engine::{Action, Engine, Frame};
use crate::rng::{rng_from_seed, rng_range_i32};

verus! {

/// A source of player actions, polled once per frame.
pub trait MovementController: Sized {
    /// The action that the controller asks for now.
    spec fn movement(&self) -> Action;

    /// Whether one tick can take the controller from this state to `next`.
    spec fn ticks_to(&self, next: Self) -> bool;

    fn set_active(&mut self, index: usize);

    /// Advance the controller by one frame.
    fn tick(&mut self)
        ensures
            old(self).ticks_to(*final(self)),
    ;

    /// The action that the controller asks for.
    fn get_movement(&self) -> (r: Action)
        ensures
            r == self.movement(),
    ;
}

/// A controller that never moves.
pub struct NoMovementController;

impl NoMovementController {
    pub fn new() -> (r: Self) {
        NoMovementController
    }
}

impl MovementController for NoMovementController {
    open spec fn movement(&self) -> Action {
        Action::NoAction
    }

    open spec fn ticks_to(&self, next: Self) -> bool {
        true
    }

    fn tick(&mut self) {
    }

    fn set_active(&mut self, _index: usize) {
    }

    fn get_movement(&self) -> (r: Action)
        ensures
            r == Action::NoAction,
    {
        Action::NoAction
    }
}

/// The action that a demo draw of `n` stands for.
pub open spec fn demo_action(n: int) -> Action {
    if n == 0 {
        Action::Up
    } else if n == 1 {
        Action::Down
    } else if n == 2 {
        Action::Left
    } else if n == 3 {
        Action::Right
    } else {
        Action::NoAction
    }
}

/// A controller that walks in a random direction every frame.
pub struct DemoMovementController {
    pub rng: ChaCha20Rng,
    pub last_action: Action,
}

impl DemoMovementController {
    pub fn new(seed: [u8; 32]) -> (r: Self)
        ensures
            r.last_action == Action::NoAction,
    {
        DemoMovementController { rng: rng_from_seed(seed), last_action: Action::NoAction }
    }

    fn get_rand(&mut self) -> (r: i32)
        ensures
            0 <= r < 4,
    {
        rng_range_i32(&mut self.rng, 0, 4)
    }
}

impl MovementController for DemoMovementController {
    open spec fn movement(&self) -> Action {
        self.last_action
    }

    /// A tick draws one of the four directions.
    open spec fn ticks_to(&self, next: Self) -> bool {
        exists|n: int| 0 <= n < 4 && next.last_action == #[trigger] demo_action(n)
    }

    fn set_active(&mut self, _index: usize)
        ensures
            final(self).last_action == old(self).last_action,
    {
    }

    fn get_movement(&self) -> (r: Action)
        ensures
            r == self.last_action,
    {
        self.last_action
    }

    fn tick(&mut self) {
        let random_number = self.get_rand();
        self.last_action = match random_number {
            0 => Action::Up,
            1 => Action::Down,
            2 => Action::Left,
            3 => Action::Right,
            _ => Action::NoAction,
        };
        assert(self.last_action == demo_action(random_number as int));
    }
}

/// What a polled button keyboard reports.
#[derive(Debug, Copy, Clone, PartialEq, Eq, Structural)]
pub enum ButtonEvent {
    UpPressed,
    DownPressed,
    LeftPressed,
    RightPressed,
    DynamitePressed,
    TeleportPressed,
    NoEvent,
}

/// The action that a button event asks for.
pub open spec fn button_action(event: ButtonEvent) -> Action {
    match event {
        ButtonEvent::UpPressed => Action::Up,
        ButtonEvent::DownPressed => Action::Down,
        ButtonEvent::LeftPressed => Action::Left,
        ButtonEvent::RightPressed => Action::Right,
        ButtonEvent::DynamitePressed => Action::PlaceDynamite,
        ButtonEvent::TeleportPressed => Action::Teleport,
        ButtonEvent::NoEvent => Action::NoAction,
    }
}

/// Buttons with a demo mode: until the first button press the demo
/// controller plays (index 0); the first press starts the game and hands
/// control to the buttons (index 1).
pub struct EmbeddedMovementController {
    pub demo_movement_controller: DemoMovementController,
    pub active_index: usize,
    pub last_action: Action,
}

impl EmbeddedMovementController {
    pub fn new(demo_movement_controller: DemoMovementController) -> (r: Self)
        ensures
            r.demo_movement_controller == demo_movement_controller,
            r.active_index == 0,
            r.last_action == Action::NoAction,
    {
        Self { demo_movement_controller, active_index: 0, last_action: Action::NoAction }
    }

    fn react_to_event(&mut self, event: ButtonEvent)
        ensures
            final(self).last_action == button_action(event),
            final(self).active_index == old(self).active_index,
            final(self).demo_movement_controller == old(self).demo_movement_controller,
    {
        match event {
            ButtonEvent::UpPressed => self.last_action = Action::Up,
            ButtonEvent::DownPressed => self.last_action = Action::Down,
            ButtonEvent::LeftPressed => self.last_action = Action::Left,
            ButtonEvent::RightPressed => self.last_action = Action::Right,
            ButtonEvent::DynamitePressed => self.last_action = Action::PlaceDynamite,
            ButtonEvent::TeleportPressed => self.last_action = Action::Teleport,
            ButtonEvent::NoEvent => self.last_action = Action::NoAction,
        }
    }

    /// `next` is this controller after a frame in which the keyboard
    /// reported `event`: in demo mode (index 0) a press switches to the
    /// buttons (index 1) and asks to start, and the demo takes its step; in
    /// button mode the press becomes the action; any other index stays idle.
    pub open spec fn ticked_with(self, event: ButtonEvent, next: Self) -> bool {
        &&& (self.active_index == 0 ==> {
                &&& next.active_index == (if event != ButtonEvent::NoEvent {
                    1usize
                } else {
                    0usize
                })
                &&& next.last_action == (if event != ButtonEvent::NoEvent {
                    Action::Start
                } else {
                    Action::NoAction
                })
                &&& exists|n: int|
                    0 <= n < 4 && next.demo_movement_controller.last_action
                        == #[trigger] demo_action(n)
            })
        &&& (self.active_index == 1 ==> {
                &&& next.active_index == 1
                &&& next.last_action == button_action(event)
                &&& next.demo_movement_controller == self.demo_movement_controller
            })
        &&& (self.active_index > 1 ==> {
                &&& next.active_index == self.active_index
                &&& next.last_action == Action::NoAction
                &&& next.demo_movement_controller == self.demo_movement_controller
            })
    }

    /// One frame, given what the keyboard reported this frame; see
    /// [`EmbeddedMovementController::ticked_with`].
    pub fn tick(&mut self, event: ButtonEvent)
        ensures
            old(self).ticked_with(event, *final(self)),
    {
        self.last_action = Action::NoAction;
        match self.active_index {
            0 => {
                if event != ButtonEvent::NoEvent {
                    self.active_index = 1;
                    self.last_action = Action::Start;
                }
                self.demo_movement_controller.tick();
            },
            1 => self.react_to_event(event),
            _ => {},
        }
    }

    /// The action of this frame: a pending action first, otherwise the
    /// demo's in demo mode.
    pub fn get_movement(&self) -> (r: Action)
        ensures
            r == if self.last_action != Action::NoAction {
                self.last_action
            } else if self.active_index == 0 {
                self.demo_movement_controller.last_action
            } else if self.active_index == 1 {
                self.last_action
            } else {
                Action::NoAction
            },
    {
        if self.last_action != Action::NoAction {
            return self.last_action;
        }
        match self.active_index {
            0 => self.demo_movement_controller.get_movement(),
            1 => self.last_action,
            _ => Action::NoAction,
        }
    }

    pub fn set_active(&mut self, index: usize)
        ensures
            final(self).active_index == index,
            final(self).last_action == old(self).last_action,
            final(self).demo_movement_controller == old(self).demo_movement_controller,
    {
        self.active_index = index;
    }
}

/// Each button asks for the action it names, and only that button does:
/// up for up, down for down, left for left, right for right, the teleport
/// and dynamite buttons for a teleport and a dynamite, no press for nothing.
pub proof fn lemma_buttons_name_their_direction(event: ButtonEvent)
    ensures
        button_action(event) == Action::Up <==> event == ButtonEvent::UpPressed,
        button_action(event) == Action::Down <==> event == ButtonEvent::DownPressed,
        button_action(event) == Action::Left <==> event == ButtonEvent::LeftPressed,
        button_action(event) == Action::Right <==> event == ButtonEvent::RightPressed,
        button_action(event) == Action::Teleport <==> event == ButtonEvent::TeleportPressed,
        button_action(event) == Action::PlaceDynamite <==> event == ButtonEvent::DynamitePressed,
        button_action(event) == Action::NoAction <==> event == ButtonEvent::NoEvent,
{
}

/// In button mode a frame's movement is the direction of the button pressed
/// in that frame: after a tick with the up button the controller's action
/// (what `get_movement` hands out) is up, with the down button down, and so
/// on; a frame without a press asks for nothing.
pub proof fn lemma_button_mode_moves_as_pressed(
    c: EmbeddedMovementController,
    event: ButtonEvent,
    next: EmbeddedMovementController,
)
    requires
        c.active_index == 1,
        c.ticked_with(event, next),
    ensures
        event == ButtonEvent::UpPressed ==> next.last_action == Action::Up,
        event == ButtonEvent::DownPressed ==> next.last_action == Action::Down,
        event == ButtonEvent::LeftPressed ==> next.last_action == Action::Left,
        event == ButtonEvent::RightPressed ==> next.last_action == Action::Right,
        event == ButtonEvent::NoEvent ==> next.last_action == Action::NoAction,
{
}

/// Once the buttons have control they keep it: over any run of frames, each
/// taking the controller from one state to the next with the keyboard's
/// event, a controller in button mode stays in button mode (only
/// `set_active` leaves it), and each frame's action is its button's.
pub proof fn lemma_button_mode_kept(states: Seq<EmbeddedMovementController>, events: Seq<ButtonEvent>)
    requires
        states.len() == events.len() + 1,
        states[0].active_index == 1,
        forall|k: int| 0 <= k < events.len() ==> #[trigger] states[k].ticked_with(events[k], states[k + 1]),
    ensures
        forall|k: int| 0 <= k < states.len() ==> (#[trigger] states[k]).active_index == 1,
        forall|k: int| 0 < k < states.len() ==> (#[trigger] states[k]).last_action == button_action(events[k - 1]),
    decreases events.len(),
{
    if events.len() > 0 {
        let n = events.len() - 1;
        lemma_button_mode_kept(states.drop_last(), events.drop_last());
        assert(states.drop_last()[n] == states[n]);
        assert(states[n].ticked_with(events[n], states[n + 1]));
        assert forall|k: int| 0 <= k < states.len() implies (#[trigger] states[k]).active_index == 1 by {
            if k < states.len() - 1 {
                assert(states.drop_last()[k] == states[k]);
            }
        }
        assert forall|k: int| 0 < k < states.len() implies (#[trigger] states[k]).last_action == button_action(
            events[k - 1],
        ) by {
            if k < states.len() - 1 {
                assert(states.drop_last()[k] == states[k]);
                assert(events.drop_last()[k - 1] == events[k - 1]);
            }
        }
    }
}

/// The action that a resistor-ladder keypad reading stands for.
pub open spec fn ladder_action(value: u16) -> Action {
    if 4000 < value < 5000 {
        Action::Right
    } else if 5000 <= value < 6000 {
        Action::Left
    } else if 6000 <= value < 7000 {
        Action::Down
    } else if 7000 <= value < 8180 {
        Action::Up
    } else {
        Action::NoAction
    }
}

/// A keypad on a resistor ladder, read through an ADC: each button pulls
/// the reading into its own band.
pub struct LadderMovementController {
    pub last_action: Action,
}

impl LadderMovementController {
    pub fn new() -> (r: Self)
        ensures
            r.last_action == Action::NoAction,
    {
        Self { last_action: Action::NoAction }
    }

    /// Take a new reading of the ladder.
    pub fn update_last_action(&mut self, resistor_value: u16)
        ensures
            final(self).last_action == ladder_action(resistor_value),
    {
        if resistor_value > 4000 && resistor_value < 5000 {
            self.last_action = Action::Right;
        } else if resistor_value >= 5000 && resistor_value < 6000 {
            self.last_action = Action::Left;
        } else if resistor_value >= 6000 && resistor_value < 7000 {
            self.last_action = Action::Down;
        } else if resistor_value >= 7000 && resistor_value < 8180 {
            self.last_action = Action::Up;
        } else {
            self.last_action = Action::NoAction;
        }
    }

    pub fn get_movement(&self) -> (r: Action)
        ensures
            r == self.last_action,
    {
        self.last_action
    }
}

/// A game together with the controller that drives it.
pub struct Universe<M: MovementController> {
    pub engine: Engine,
    pub movement_controller: M,
}

impl<M: MovementController> Universe<M> {
    pub fn new_with_movement_controller(engine: Engine, movement_controller: M) -> (r: Self)
        ensures
            r.engine == engine,
            r.movement_controller == movement_controller,
    {
        Universe { engine, movement_controller }
    }

    pub fn set_active(&mut self, index: usize)
        ensures
            final(self).engine == old(self).engine,
    {
        self.movement_controller.set_active(index);
    }

    pub fn get_movement_controller_mut(&mut self) -> (r: &mut M)
        ensures
            *r == old(self).movement_controller,
            final(self).movement_controller == *final(r),
            final(self).engine == old(self).engine,
    {
        &mut self.movement_controller
    }

    pub fn initialize(&mut self)
        requires
            old(self).engine.wf(),
            old(self).engine.maze.width == 64,
            old(self).engine.maze.offset == 65,
        ensures
            old(self).engine.initialized(final(self).engine),
            final(self).movement_controller == old(self).movement_controller,
    {
        self.engine.initialize();
    }

    /// One frame: the controller ticks, its movement is carried out, the
    /// game ticks, and the new state is drawn. Returns the drawn frame: the
    /// maze tiles and the sprites over them.
    pub fn render_frame(&mut self) -> (r: Frame)
        requires
            old(self).engine.wf(),
        ensures
            final(self).engine.wf(),
            old(self).movement_controller.ticks_to(final(self).movement_controller),
            exists|mid: Engine| #[trigger]
                old(self).engine.acted(final(self).movement_controller.movement(), mid) && mid.ticked(
                    final(self).engine,
                ),
            final(self).engine.shows_tiles(r.tiles),
            r.sprites@ == final(self).engine.sprite_plan(),
    {
        self.movement_controller.tick();
        let movement = self.movement_controller.get_movement();
        self.engine.action(movement);
        let ghost mid = self.engine;
        self.engine.tick();
        assert(old(self).engine.acted(self.movement_controller.movement(), mid) && mid.ticked(self.engine));
        Frame { tiles: self.engine.draw_maze(), sprites: self.engine.draw() }
    }
}

} // verus!
