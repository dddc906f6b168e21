//! Commands that the event loop forwards from the user's callbacks to the
//! connection.
use vstd::prelude::*;

use crate::internal::{ComMessage, GameResult, GameState, RoomMessage};
use crate::neutral::Move;

verus! {

/// Something to send on the connection.
#[derive(Debug, Clone)]
pub enum SendCommnad {
    Move(Move),
    SendRaw { xml: String },
    Admin(SendAdminCommand),
}

/// A request of an admin client.
#[derive(Debug, Clone)]
pub enum SendAdminCommand {
    Authenticate { pass: String },
    Observe { room_id: String },
    Pause { room_id: String, pause: bool },
    /// Advance a paused room by one move.
    Step { room_id: String },
    Cancel { room_id: String },
    /// Prepare a new room.
    Prepare { pause: bool },
}

/// What the event loop saw when it polled its message channel.
#[derive(Debug)]
pub enum LoopEvent {
    Message(ComMessage),
    Empty,
    Disconnected,
}

/// The player callback that a message calls for.
#[derive(Debug)]
pub enum HandlerCall {
    GameJoined(String),
    GameLeft,
    GameStateUpdate(Box<GameState>),
    WelcomeMessage,
    CalculateMove,
    GameResult(Box<GameResult>),
}

/// One decision of the event loop: the callback to call, if any, whether to
/// wait before polling again, and whether to go on.
#[derive(Debug)]
pub struct LoopStep {
    pub call: Option<HandlerCall>,
    pub sleep: bool,
    pub keep_running: bool,
}

/// The step that `ev` calls for: each room, joined or left message calls its
/// callback, an admin message calls none, leaving the room ends the loop after
/// its callback, an empty channel waits, and a disconnected channel ends the
/// loop.
pub open spec fn loop_step(ev: LoopEvent) -> LoopStep {
    match ev {
        LoopEvent::Empty => LoopStep { call: None, sleep: true, keep_running: true },
        LoopEvent::Disconnected => LoopStep { call: None, sleep: false, keep_running: false },
        LoopEvent::Message(m) => match m {
            ComMessage::Joined(j) => LoopStep {
                call: Some(HandlerCall::GameJoined(j.room_id)),
                sleep: false,
                keep_running: true,
            },
            ComMessage::Left(_) => LoopStep {
                call: Some(HandlerCall::GameLeft),
                sleep: false,
                keep_running: false,
            },
            ComMessage::Admin(_) => LoopStep { call: None, sleep: false, keep_running: true },
            ComMessage::Room(r) => LoopStep {
                call: Some(
                    match *r {
                        RoomMessage::Memento(g) => HandlerCall::GameStateUpdate(g),
                        RoomMessage::Result(g) => HandlerCall::GameResult(g),
                        RoomMessage::WelcomeMessage => HandlerCall::WelcomeMessage,
                        RoomMessage::MoveRequest => HandlerCall::CalculateMove,
                    },
                ),
                sleep: false,
                keep_running: true,
            },
        },
    }
}

/// Decides what the event loop does with what it polled.
pub fn dispatch(ev: LoopEvent) -> (r: LoopStep)
    ensures
        r == loop_step(ev),
{
    match ev {
        LoopEvent::Empty => LoopStep { call: None, sleep: true, keep_running: true },
        LoopEvent::Disconnected => LoopStep { call: None, sleep: false, keep_running: false },
        LoopEvent::Message(m) => match m {
            ComMessage::Joined(j) => LoopStep {
                call: Some(HandlerCall::GameJoined(j.room_id)),
                sleep: false,
                keep_running: true,
            },
            ComMessage::Left(_) => LoopStep {
                call: Some(HandlerCall::GameLeft),
                sleep: false,
                keep_running: false,
            },
            ComMessage::Admin(_) => LoopStep { call: None, sleep: false, keep_running: true },
            ComMessage::Room(r) => {
                let call = match *r {
                    RoomMessage::Memento(g) => HandlerCall::GameStateUpdate(g),
                    RoomMessage::Result(g) => HandlerCall::GameResult(g),
                    RoomMessage::WelcomeMessage => HandlerCall::WelcomeMessage,
                    RoomMessage::MoveRequest => HandlerCall::CalculateMove,
                };
                LoopStep { call: Some(call), sleep: false, keep_running: true }
            },
        },
    }
}

} // verus!
