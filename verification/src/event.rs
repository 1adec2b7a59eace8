//! What the player can ask for, which key asks for it, and how the game answers.

use crate::game::{is_opening, ActionOutcome, Game, GameAction, GameState, Snapshot, SpawnError};
use vstd::prelude::*;

verus! {

/// A command of the player.
#[derive(Debug, PartialEq, Eq, Structural)]
pub enum Event {
    MoveUp,
    MoveDown,
    MoveLeft,
    MoveRight,
    Quit,
    Restart,
}

/// A key press, as far as the game tells keys apart.
#[derive(Debug)]
pub enum Key {
    Up,
    Down,
    Left,
    Right,
    Char(char),
    Other,
}

/// What the caller has to do after an event was handled.
#[derive(Debug)]
pub enum Reaction {
    /// Leave the game.
    Quit,
    /// Show this outcome.
    Redraw(ActionOutcome),
    /// Nothing to show: the move changed nothing and the game goes on.
    Idle,
}

impl Event {
    /// The direction that a move event pushes in; none for the other events.
    pub open spec fn heading(self) -> Option<GameAction> {
        match self {
            Event::MoveUp => Some(GameAction::Up),
            Event::MoveDown => Some(GameAction::Down),
            Event::MoveLeft => Some(GameAction::Left),
            Event::MoveRight => Some(GameAction::Right),
            Event::Quit | Event::Restart => None,
        }
    }

    /// The event that a key stands for: the arrows and `w`/`k`, `s`/`j`, `a`/`h`, `d`/`l`
    /// move, `r` restarts, `q` quits, and every other key means nothing.
    pub open spec fn bound_to(key: Key) -> Option<Event> {
        match key {
            Key::Up => Some(Event::MoveUp),
            Key::Down => Some(Event::MoveDown),
            Key::Left => Some(Event::MoveLeft),
            Key::Right => Some(Event::MoveRight),
            Key::Char(c) => if c == 'w' || c == 'k' {
                Some(Event::MoveUp)
            } else if c == 's' || c == 'j' {
                Some(Event::MoveDown)
            } else if c == 'a' || c == 'h' {
                Some(Event::MoveLeft)
            } else if c == 'd' || c == 'l' {
                Some(Event::MoveRight)
            } else if c == 'r' {
                Some(Event::Restart)
            } else if c == 'q' {
                Some(Event::Quit)
            } else {
                None
            },
            Key::Other => None,
        }
    }

    /// The direction that a move event pushes in; none for the other events.
    pub fn direction(&self) -> (direction: Option<GameAction>)
        ensures
            direction == self.heading(),
    {
        match self {
            Event::MoveUp => Some(GameAction::Up),
            Event::MoveDown => Some(GameAction::Down),
            Event::MoveLeft => Some(GameAction::Left),
            Event::MoveRight => Some(GameAction::Right),
            Event::Quit | Event::Restart => None,
        }
    }

    /// The event that a key stands for, if any.
    pub fn from_key(key: Key) -> (event: Option<Event>)
        ensures
            event == Event::bound_to(key),
    {
        match key {
            Key::Up | Key::Char('w') | Key::Char('k') => Some(Event::MoveUp),
            Key::Down | Key::Char('s') | Key::Char('j') => Some(Event::MoveDown),
            Key::Left | Key::Char('a') | Key::Char('h') => Some(Event::MoveLeft),
            Key::Right | Key::Char('d') | Key::Char('l') => Some(Event::MoveRight),
            Key::Char('r') => Some(Event::Restart),
            Key::Char('q') => Some(Event::Quit),
            _ => None,
        }
    }
}

/// Whether handling `event` may lead from `before` to `after` and call for `reaction`.
///
/// Quitting leaves the game as it is. A restart gives a game at its start and is always
/// drawn. A move is played as [`GameState::moves_to`] says, and its outcome is drawn exactly
/// if the board changed or the game is over.
pub open spec fn reacts(
    before: GameState,
    event: Event,
    after: GameState,
    reaction: Reaction,
) -> bool {
    match event {
        Event::Quit => reaction is Quit && after == before,
        Event::Restart => {
            &&& reaction is Redraw
            &&& after.score == 0
            &&& !after.game_over
            &&& is_opening(after.cells)
            &&& reaction->Redraw_0@ == (Snapshot { changed: true, ..after.snapshot() })
        },
        _ => {
            let direction = event.heading()->0;
            match reaction {
                Reaction::Quit => false,
                Reaction::Redraw(outcome) => {
                    &&& before.moves_to(direction, after, outcome@)
                    &&& outcome.changed || outcome.game_over
                },
                Reaction::Idle => exists|outcome: Snapshot|
                    {
                        &&& #[trigger] before.moves_to(direction, after, outcome)
                        &&& !outcome.changed
                        &&& !outcome.game_over
                    },
            }
        },
    }
}

/// Handles one event: a move is played, a restart starts the game over, and quitting leaves
/// the game as it is. The outcome of a move is worth drawing only if the move changed the
/// board or the game is over.
pub fn handle_event(game: &mut Game, event: Event) -> (res: Result<Reaction, SpawnError>)
    requires
        event.heading() matches Some(direction) ==> old(game)@.move_fits(direction),
    ensures
        res is Ok,
        reacts(old(game)@, event, final(game)@, res->Ok_0),
{
    match event.direction() {
        Some(direction) => {
            let outcome = match game.apply_move(direction) {
                Ok(outcome) => outcome,
                Err(error) => {
                    return Err(error);
                },
            };
            if outcome.changed || outcome.game_over {
                Ok(Reaction::Redraw(outcome))
            } else {
                Ok(Reaction::Idle)
            }
        },
        None => match event {
            Event::Restart => Ok(Reaction::Redraw(game.restart())),
            _ => Ok(Reaction::Quit),
        },
    }
}

} // verus!
