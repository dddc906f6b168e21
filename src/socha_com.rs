//! Receive-side state of a connection and the decisions taken on it: framing
//! the byte stream into envelopes, turning envelope records into messages,
//! queueing them, noticing the end of the protocol, and building requests.
use vstd::prelude::*;
use vstd::string::*;

pub use crate::error::{ComError, ComMessageBuildErr, ConnectionClosedErr, ReceiveErr, SendErr};
use crate::incoming::{ReceivedComMessage, ReceivedRoom};
use crate::internal::{
    room_decodes, room_matches, AdminMessage, ComMessage, Joined, Left, PreparedRoom, RoomMessage,
};
use crate::neutral::Direction;
use crate::outgoing::{make_move_xml, make_prepare_xml, room_move_xml};
use crate::text::{first_occurrence, occurs_at, remove_through};

verus! {

/// Game type that this client plays.
pub const GAME_TYPE: &'static str = "swc_2026_piranhas";

/// Opening tag of a session, sent by the client and echoed by the server.
pub const PROTOCOL_TAG: &'static str = "<protocol>";

/// Empty envelope with which the server ends the protocol.
pub const PROTOCOL_END: &'static str = "<comMessage/>";

/// The rooms of an envelope that decode, in document order.
pub open spec fn decodable_rooms(rs: Seq<ReceivedRoom>) -> Seq<ReceivedRoom>
    decreases rs.len(),
{
    if rs.len() == 0 {
        Seq::empty()
    } else if room_decodes(rs.last()) {
        decodable_rooms(rs.drop_last()).push(rs.last())
    } else {
        decodable_rooms(rs.drop_last())
    }
}

/// The messages an envelope yields before its room messages: joined, left and
/// prepared room, each when present (joined and left only with a room id, the
/// prepared room only with exactly two reservations; a malformed prepared
/// record is dropped on its own).
pub open spec fn head_messages(recv: ReceivedComMessage) -> Seq<ComMessage> {
    let j = match recv.joined {
        Some(rj) => match rj.room_id {
            Some(id) => seq![ComMessage::Joined(Joined { room_id: id })],
            None => Seq::empty(),
        },
        None => Seq::empty(),
    };
    let l = match recv.left {
        Some(rl) => match rl.room_id {
            Some(id) => seq![ComMessage::Left(Left { room_id: id })],
            None => Seq::empty(),
        },
        None => Seq::empty(),
    };
    let a = match recv.admin_prepared {
        Some(p) => if p.admin_reservation@.len() == 2 {
            seq![
            ComMessage::Admin(
                AdminMessage::Prepared(
                    PreparedRoom {
                        reservations: (
                            p.admin_reservation@[0].reservation_id,
                            p.admin_reservation@[1].reservation_id,
                        ),
                        room_id: p.room_id,
                    },
                ),
            ),
        ]
        } else {
            Seq::empty()
        },
        None => Seq::empty(),
    };
    j + l + a
}

/// Room id after joined and left records with a room id have been seen.
pub open spec fn room_id_after_moves(old_id: Option<String>, recv: ReceivedComMessage) -> Option<
    String,
> {
    let a = match recv.joined {
        Some(rj) => match rj.room_id {
            Some(id) => Some(id),
            None => old_id,
        },
        None => old_id,
    };
    match recv.left {
        Some(rl) => match rl.room_id {
            Some(id) => Some(id),
            None => a,
        },
        None => a,
    }
}

/// Room id after all records of an envelope have been seen.
pub open spec fn room_id_after(old_id: Option<String>, recv: ReceivedComMessage) -> Option<String> {
    match recv.admin_prepared {
        Some(p) => Some(p.room_id),
        None => room_id_after_moves(old_id, recv),
    }
}

/// Whether `ms` are the messages of envelope `recv`: the head messages, then
/// one room message for each room that decodes, in order.
pub open spec fn envelope_messages(recv: ReceivedComMessage, ms: Seq<ComMessage>) -> bool {
    let head = head_messages(recv);
    let rooms = decodable_rooms(recv.room@);
    &&& ms.len() == head.len() + rooms.len()
    &&& ms.subrange(0, head.len() as int) == head
    &&& forall|i: int|
        0 <= i < rooms.len() ==> match #[trigger] ms[head.len() + i] {
            ComMessage::Room(m) => room_matches(*m, rooms[i]),
            _ => false,
        }
}

/// Text of the buffer after the chunks of `chunks` have been appended to `buf`
/// one after the other.
pub open spec fn fed(buf: Seq<char>, chunks: Seq<Seq<char>>) -> Seq<char>
    decreases chunks.len(),
{
    if chunks.len() == 0 {
        buf
    } else {
        fed(buf, chunks.drop_last()) + chunks.last()
    }
}

/// All chunks of `chunks` joined in order.
pub open spec fn joined_chunks(chunks: Seq<Seq<char>>) -> Seq<char>
    decreases chunks.len(),
{
    if chunks.len() == 0 {
        Seq::empty()
    } else {
        joined_chunks(chunks.drop_last()) + chunks.last()
    }
}

/// Incremental delivery: however a text is split into chunks, feeding them
/// one by one leaves the same buffer, and so the same envelope text to parse,
/// as feeding the whole text at once.
pub proof fn lemma_chunking_invisible(buf: Seq<char>, chunks: Seq<Seq<char>>)
    ensures
        fed(buf, chunks) == buf + joined_chunks(chunks),
        "<comMessage>"@ + fed(buf, chunks) + "</comMessage>"@ == "<comMessage>"@ + (buf
            + joined_chunks(chunks)) + "</comMessage>"@,
    decreases chunks.len(),
{
    if chunks.len() > 0 {
        lemma_chunking_invisible(buf, chunks.drop_last());
        assert(fed(buf, chunks) =~= buf + joined_chunks(chunks));
    } else {
        assert(buf + joined_chunks(chunks) =~= buf);
    }
}

/// The room message of a received room, wrapped as a protocol event.
pub fn create_com_message_from_received_room(room: ReceivedRoom) -> (r: Result<
    ComMessage,
    ComMessageBuildErr,
>)
    ensures
        match r {
            Ok(ComMessage::Room(m)) => room_decodes(room) && room_matches(*m, room),
            Ok(_) => false,
            Err(ComMessageBuildErr::FailedBuildingMemento(_)) => !room_decodes(room),
        },
{
    match RoomMessage::try_from(room) {
        Ok(m) => Ok(ComMessage::Room(Box::new(m))),
        Err(e) => Err(ComMessageBuildErr::FailedBuildingMemento(e)),
    }
}

/// Decides whether a wait for a message has run out: with `elapsed` and
/// `max_nanos` both in nanoseconds, the wait fails once the elapsed time is
/// past the bound, reporting the bound `max_time` it was given.
pub fn check_wait_time(elapsed: u128, max_nanos: u128, max_time: std::time::Duration) -> (r:
    Result<(), ReceiveErr>)
    ensures
        elapsed > max_nanos ==> r == Err::<(), ReceiveErr>(
            ReceiveErr::ConnectionClosed(ConnectionClosedErr::NoMessageReceivedFor(max_time)),
        ),
        elapsed <= max_nanos ==> r is Ok,
{
    if elapsed > max_nanos {
        Err(ReceiveErr::ConnectionClosed(ConnectionClosedErr::NoMessageReceivedFor(max_time)))
    } else {
        Ok(())
    }
}

/// A connection's receive buffer, protocol flag, room id and message queue.
pub struct ComState {
    /// Text received and not yet consumed.
    pub buf: String,
    /// Whether the server's opening tag has been seen and removed.
    pub protocol_tag_found: bool,
    /// Room of the last joined, left or prepared record.
    pub room_id: Option<String>,
    /// Messages decoded and not yet handed out, oldest first.
    pub msgs: Vec<ComMessage>,
}

impl ComState {
    pub fn new() -> (r: ComState)
        ensures
            r.buf@ == Seq::<char>::empty(),
            !r.protocol_tag_found,
            r.room_id.is_none(),
            r.msgs@ == Seq::<ComMessage>::empty(),
    {
        ComState { buf: String::new(), protocol_tag_found: false, room_id: None, msgs: Vec::new() }
    }

    /// Appends received text to the buffer.
    pub fn push_text(&mut self, chunk: &str)
        ensures
            final(self).buf@ == old(self).buf@ + chunk@,
            final(self).protocol_tag_found == old(self).protocol_tag_found,
            final(self).room_id == old(self).room_id,
            final(self).msgs == old(self).msgs,
    {
        self.buf.append(chunk);
    }

    /// Removes the buffer's text through the first occurrence of `pat`, if any.
    pub fn try_for_and_rm_str(&mut self, pat: &str) -> (found: bool)
        ensures
            found == exists|i: int| occurs_at(old(self).buf@, pat@, i),
            found ==> exists|i: int|
                first_occurrence(old(self).buf@, pat@, i) && final(self).buf@
                    == old(self).buf@.subrange(i + pat@.len(), old(self).buf@.len() as int),
            !found ==> final(self).buf@ == old(self).buf@,
            final(self).protocol_tag_found == old(self).protocol_tag_found,
            final(self).room_id == old(self).room_id,
            final(self).msgs == old(self).msgs,
    {
        remove_through(&mut self.buf, pat)
    }

    /// Until the opening tag has been seen, removes it (and what precedes it)
    /// once it is in the buffer.
    pub fn check_for_protocol_tag(&mut self)
        ensures
            old(self).protocol_tag_found ==> final(self).buf@ == old(self).buf@
                && final(self).protocol_tag_found,
            !old(self).protocol_tag_found ==> {
                &&& final(self).protocol_tag_found == exists|i: int|
                    occurs_at(old(self).buf@, PROTOCOL_TAG@, i)
                &&& final(self).protocol_tag_found ==> exists|i: int|
                    first_occurrence(old(self).buf@, PROTOCOL_TAG@, i) && final(self).buf@
                        == old(self).buf@.subrange(
                        i + PROTOCOL_TAG@.len(),
                        old(self).buf@.len() as int,
                    )
                &&& !final(self).protocol_tag_found ==> final(self).buf@ == old(self).buf@
            },
            final(self).room_id == old(self).room_id,
            final(self).msgs == old(self).msgs,
    {
        if !self.protocol_tag_found && self.try_for_and_rm_str(PROTOCOL_TAG) {
            self.protocol_tag_found = true;
        }
    }

    /// The buffer wrapped in an envelope element, after the opening tag has
    /// been looked for; this is the text to parse as one envelope.
    pub fn envelope(&mut self) -> (r: String)
        ensures
            r@ == "<comMessage>"@ + final(self).buf@ + "</comMessage>"@,
            old(self).protocol_tag_found ==> final(self).buf@ == old(self).buf@
                && final(self).protocol_tag_found,
            !old(self).protocol_tag_found ==> {
                &&& final(self).protocol_tag_found == exists|i: int|
                    occurs_at(old(self).buf@, PROTOCOL_TAG@, i)
                &&& final(self).protocol_tag_found ==> exists|i: int|
                    first_occurrence(old(self).buf@, PROTOCOL_TAG@, i) && final(self).buf@
                        == old(self).buf@.subrange(
                        i + PROTOCOL_TAG@.len(),
                        old(self).buf@.len() as int,
                    )
                &&& !final(self).protocol_tag_found ==> final(self).buf@ == old(self).buf@
            },
            final(self).room_id == old(self).room_id,
            final(self).msgs == old(self).msgs,
    {
        self.check_for_protocol_tag();
        let mut out = String::from_str("<comMessage>");
        out.append(self.buf.as_str());
        out.append("</comMessage>");
        out
    }
    /// Turns a parsed envelope into messages. `parsed` is the envelope text
    /// read as one record, or `None` when it is not complete yet; then nothing
    /// changes. Otherwise the buffer is consumed, the room id follows the
    /// joined, left and prepared records, and the messages are returned in the
    /// order joined, left, prepared, rooms. A record that does not decode is
    /// dropped on its own and the rest of the envelope is still delivered; a
    /// prepared room without exactly two reservations is also reported as the
    /// second component.
    pub fn attempt_get_com_messages(&mut self, parsed: Option<ReceivedComMessage>) -> (r: (
        Vec<ComMessage>,
        Option<ReceiveErr>,
    ))
        ensures
            final(self).protocol_tag_found == old(self).protocol_tag_found,
            final(self).msgs == old(self).msgs,
            match parsed {
                None => r.0@.len() == 0 && r.1.is_none() && final(self).buf@ == old(self).buf@
                    && final(self).room_id == old(self).room_id,
                Some(recv) => {
                    &&& final(self).buf@ == Seq::<char>::empty()
                    &&& envelope_messages(recv, r.0@)
                    &&& final(self).room_id == room_id_after(old(self).room_id, recv)
                    &&& match r.1 {
                        Some(e) => e is FailedToBuildAdminMessage && recv.admin_prepared.is_some()
                            && recv.admin_prepared.unwrap().admin_reservation@.len() != 2,
                        None => recv.admin_prepared.is_none()
                            || recv.admin_prepared.unwrap().admin_reservation@.len() == 2,
                    }
                },
            },
    {
        let recv = match parsed {
            Some(m) => m,
            None => {
                return (Vec::new(), None);
            },
        };
        self.buf = String::new();
        let mut messages: Vec<ComMessage> = Vec::new();
        let mut admin_error: Option<ReceiveErr> = None;
        match &recv.joined {
            Some(rj) => match &rj.room_id {
                Some(id) => {
                    self.room_id = Some(id.clone());
                    messages.push(ComMessage::Joined(Joined { room_id: id.clone() }));
                },
                None => {},
            },
            None => {},
        }
        match &recv.left {
            Some(rl) => match &rl.room_id {
                Some(id) => {
                    self.room_id = Some(id.clone());
                    messages.push(ComMessage::Left(Left { room_id: id.clone() }));
                },
                None => {},
            },
            None => {},
        }
        match &recv.admin_prepared {
            Some(p) => {
                self.room_id = Some(p.room_id.clone());
                if p.admin_reservation.len() == 2 {
                    messages.push(
                        ComMessage::Admin(
                            AdminMessage::Prepared(
                                PreparedRoom {
                                    reservations: (
                                        p.admin_reservation[0].reservation_id.clone(),
                                        p.admin_reservation[1].reservation_id.clone(),
                                    ),
                                    room_id: p.room_id.clone(),
                                },
                            ),
                        ),
                    );
                } else {
                    admin_error = Some(
                        ReceiveErr::FailedToBuildAdminMessage(
                            String::from_str("a prepared room should hold two reservations"),
                        ),
                    );
                }
            },
            None => {},
        }
        let ghost head = head_messages(recv);
        assert(messages@ =~= head);
        let ghost all = recv.room@;
        let mut rooms = recv.room;
        assert(rooms@.len() == rooms.len());
        let mut i: usize = 0;
        assert(all.subrange(0, 0) =~= Seq::<ReceivedRoom>::empty());
        while rooms.len() > 0
            invariant
                i <= all.len(),
                all.len() <= usize::MAX,
                rooms@ == all.subrange(i as int, all.len() as int),
                messages@.len() == head.len() + decodable_rooms(all.subrange(0, i as int)).len(),
                messages@.subrange(0, head.len() as int) == head,
                forall|k: int|
                    0 <= k < decodable_rooms(all.subrange(0, i as int)).len() ==> match #[trigger] messages@[head.len() + k] {
                        ComMessage::Room(m) => room_matches(*m, decodable_rooms(all.subrange(0, i as int))[k]),
                        _ => false,
                    },
            decreases rooms@.len(),
        {
            let room = rooms.remove(0);
            let ghost pre = all.subrange(0, i as int);
            let ghost cur = all.subrange(0, i + 1);
            assert(cur.drop_last() =~= pre);
            assert(cur.last() == room);
            let ghost old_msgs = messages@;
            match create_com_message_from_received_room(room) {
                Ok(msg) => {
                    messages.push(msg);
                    proof {
                        assert(messages@.subrange(0, head.len() as int) =~= old_msgs.subrange(0, head.len() as int));
                        assert forall|k: int|
                            0 <= k < decodable_rooms(cur).len() implies match #[trigger] messages@[head.len() + k] {
                                ComMessage::Room(m) => room_matches(*m, decodable_rooms(cur)[k]),
                                _ => false,
                            } by {
                            if k < decodable_rooms(pre).len() {
                                assert(messages@[head.len() + k] == old_msgs[head.len() + k]);
                            }
                        }
                    }
                },
                Err(_) => {},
            }
            i = i + 1;
        }
        assert(all.subrange(0, all.len() as int) =~= all);
        (messages, admin_error)
    }

    /// Queues `new` behind the waiting messages and hands out the oldest one.
    /// With none waiting, the end-of-protocol envelope in the buffer is
    /// consumed and reported; otherwise there is nothing yet.
    pub fn next_message(&mut self, new: Vec<ComMessage>) -> (r: Result<Option<ComMessage>, ReceiveErr>)
        ensures
            final(self).protocol_tag_found == old(self).protocol_tag_found,
            final(self).room_id == old(self).room_id,
            ({
                let queue = old(self).msgs@ + new@;
                if queue.len() > 0 {
                    &&& r == Ok::<Option<ComMessage>, ReceiveErr>(Some(queue[0]))
                    &&& final(self).msgs@ == queue.drop_first()
                    &&& final(self).buf@ == old(self).buf@
                } else if exists|i: int| occurs_at(old(self).buf@, PROTOCOL_END@, i) {
                    &&& r matches Err(ReceiveErr::ConnectionClosed(ConnectionClosedErr::ProtocolEnded))
                    &&& final(self).msgs@.len() == 0
                    &&& exists|i: int|
                        first_occurrence(old(self).buf@, PROTOCOL_END@, i) && final(self).buf@
                            == old(self).buf@.subrange(
                            i + PROTOCOL_END@.len(),
                            old(self).buf@.len() as int,
                        )
                } else {
                    &&& r matches Ok(None)
                    &&& final(self).msgs@.len() == 0
                    &&& final(self).buf@ == old(self).buf@
                }
            }),
    {
        let mut new = new;
        self.msgs.append(&mut new);
        if self.msgs.len() > 0 {
            let m = self.msgs.remove(0);
            return Ok(Some(m));
        }
        if self.try_for_and_rm_str(PROTOCOL_END) {
            return Err(ReceiveErr::ConnectionClosed(ConnectionClosedErr::ProtocolEnded));
        }
        Ok(None)
    }

    /// Markup of a move to send to the current room; fails when no room has
    /// been joined.
    pub fn move_request(&self, x: u8, y: u8, dir: Direction) -> (r: Result<String, SendErr>)
        ensures
            match self.room_id {
                None => r matches Err(SendErr::NoRoomId),
                Some(id) => r matches Ok(xml) && xml@ == room_move_xml(
                    id@,
                    "move"@,
                    x as u32,
                    y as u32,
                    crate::neutral::direction_token(dir),
                ),
            },
    {
        match &self.room_id {
            Some(room) => Ok(make_move_xml(room.as_str(), x as u32, y as u32, dir)),
            None => Err(SendErr::NoRoomId),
        }
    }
}

/// A player slot of a room to prepare.
#[derive(Debug, Clone)]
pub struct PrepareSlot {
    pub displayname: String,
    pub can_timeout: bool,
    pub reserved: bool,
}

impl PrepareSlot {
    pub fn new(displayname: String, can_timeout: bool, reserved: bool) -> (r: PrepareSlot)
        ensures
            r.displayname == displayname,
            r.can_timeout == can_timeout,
            r.reserved == reserved,
    {
        PrepareSlot { displayname, can_timeout, reserved }
    }
}

/// Markup of a request to prepare a room of this game with the given slots.
pub fn prepare_request(pause: bool, slots: &[PrepareSlot]) -> (r: String)
    ensures
        exists|sl: Seq<crate::outgoing::Slot>|
            #![auto]
            {
                &&& sl.len() == slots@.len()
                &&& forall|i: int|
                    0 <= i < sl.len() ==> sl[i].display_name@ == slots@[i].displayname@
                        && sl[i].can_timeout@ == crate::outgoing::bool_text(slots@[i].can_timeout)
                        && sl[i].reserved@ == crate::outgoing::bool_text(slots@[i].reserved)
                &&& r@ == crate::outgoing::prepare_xml(
                    GAME_TYPE@,
                    crate::outgoing::bool_text(pause),
                    sl,
                )
            },
{
    let mut triples: Vec<(&str, bool, bool)> = Vec::new();
    let mut i: usize = 0;
    while i < slots.len()
        invariant
            i <= slots@.len(),
            triples@.len() == i,
            forall|k: int|
                0 <= k < i ==> (#[trigger] triples@[k]).0@ == slots@[k].displayname@
                    && triples@[k].1 == slots@[k].can_timeout && triples@[k].2 == slots@[k].reserved,
        decreases slots@.len() - i,
    {
        let s = &slots[i];
        triples.push((s.displayname.as_str(), s.can_timeout, s.reserved));
        i = i + 1;
    }
    make_prepare_xml(GAME_TYPE, pause, triples.as_slice())
}


} // verus!
