//! Loosely typed records of a received envelope, one per protocol element.
//! Attributes and children that the protocol may leave out are optional here;
//! their presence is checked when the records are turned into messages.
use vstd::prelude::*;

verus! {

/// `<field>TOKEN</field>`.
#[derive(Debug, Clone)]
pub struct Field {
    pub raw: String,
}

/// `<row>` of ten fields, left to right.
#[derive(Debug)]
pub struct ReicevedRow {
    pub fields: Vec<Field>,
}

/// `<board>` of ten rows, bottom to top.
#[derive(Debug)]
pub struct ReceivedBoard {
    pub rows: Vec<ReicevedRow>,
}

/// `<from x=".." y=".."/>` of a received last move.
#[derive(Debug)]
pub struct ReicevedFromPos {
    pub x: u8,
    pub y: u8,
}

/// `<direction>TOKEN</direction>`.
#[derive(Debug)]
pub struct ReceivedDirection {
    pub value: String,
}

/// `<lastMove>` with its optional children.
#[derive(Debug)]
pub struct ReceivedLastMove {
    pub from: Option<ReicevedFromPos>,
    pub direction: Option<ReceivedDirection>,
}

/// `<state class=".." startTeam=".." turn="..">`.
#[derive(Debug)]
pub struct ReceivedState {
    pub class: Option<String>,
    pub start_team: Option<String>,
    pub turn: Option<u32>,
    pub last_move: Option<ReceivedLastMove>,
    pub board: Option<ReceivedBoard>,
}

/// `<aggregation>SUM|AVERAGE</aggregation>`.
#[derive(Debug, PartialEq, Eq)]
pub struct ReceivedAggregation {
    pub agr_content: String,
}

/// `<relevantForRanking>true|false</relevantForRanking>`.
#[derive(Debug, PartialEq, Eq)]
pub struct ReceivedRelevantForRanking {
    pub rfr_content: String,
}

/// `<fragment name="..">` of a score definition.
#[derive(Debug, PartialEq, Eq)]
pub struct ReceivedFragment {
    pub frag_name: Option<String>,
    pub aggregation: Option<ReceivedAggregation>,
    pub relevant_for_ranking: Option<ReceivedRelevantForRanking>,
}

/// `<player team=".."/>`.
#[derive(Debug)]
pub struct ReceivedPlayer {
    pub team: Option<String>,
}

/// `<part>N</part>` of a player's score.
#[derive(Debug)]
pub struct ReceivedPartScore {
    pub part_content: String,
}

/// `<score>` with one part per score definition fragment.
#[derive(Debug)]
pub struct ReceivedScore {
    pub parts: Vec<ReceivedPartScore>,
}

/// `<entry>` of the scores: a player and its score.
#[derive(Debug)]
pub struct ReceivedEntry {
    pub player: ReceivedPlayer,
    pub score: Option<ReceivedScore>,
}

/// `<definition>`: the score kinds, in the order of every player's parts.
#[derive(Debug)]
pub struct ReceivedDefinition {
    pub fragments: Vec<ReceivedFragment>,
}

/// `<scores>`.
#[derive(Debug)]
pub struct ReceivedScores {
    pub entries: Vec<ReceivedEntry>,
}

/// `<winner team=".." regular=".." reason=".."/>`.
#[derive(Debug)]
pub struct ReceivedWinner {
    pub team: Option<String>,
    pub regular: Option<String>,
    pub reason: Option<String>,
}

/// `<data class="..">` of a room message.
#[derive(Debug)]
pub struct ReceivedData {
    pub class: Option<String>,
    pub definition: Option<ReceivedDefinition>,
    pub scores: Option<ReceivedScores>,
    pub winner: Option<ReceivedWinner>,
    pub state: Option<ReceivedState>,
}

/// `<room roomId="..">`.
#[derive(Debug)]
pub struct ReceivedRoom {
    pub room_id: Option<String>,
    pub data: Option<ReceivedData>,
}

/// `<joined roomId=".."/>`.
#[derive(Debug)]
pub struct ReceivedJoined {
    pub room_id: Option<String>,
}

/// `<left roomId=".."/>`.
#[derive(Debug)]
pub struct ReceivedLeft {
    pub room_id: Option<String>,
}

/// The envelope `<comMessage>` and the events it holds.
#[derive(Debug)]
pub struct ReceivedComMessage {
    pub left: Option<ReceivedLeft>,
    pub joined: Option<ReceivedJoined>,
    pub room: Vec<ReceivedRoom>,
    pub admin_prepared: Option<ReceivedAdminPrepared>,
}

/// `<prepared roomId="..">` with the reservation codes of a prepared room.
#[derive(Debug)]
pub struct ReceivedAdminPrepared {
    pub admin_reservation: Vec<ReceivedAdminReservation>,
    pub room_id: String,
}

/// `<reservation>CODE</reservation>`.
#[derive(Debug)]
pub struct ReceivedAdminReservation {
    pub reservation_id: String,
}

} // verus!
