//! Requests sent to the server, each written as one protocol element.
//! Attribute values and text are escaped; elements with no content close
//! themselves.
use vstd::prelude::*;
use vstd::string::*;

use crate::neutral::{direction_token, Direction};

verus! {

/// Entity text that replaces one character in escaped markup.
pub open spec fn escape_char(c: char) -> Seq<char> {
    if c == '<' {
        "&lt;"@
    } else if c == '>' {
        "&gt;"@
    } else if c == '&' {
        "&amp;"@
    } else if c == '\'' {
        "&apos;"@
    } else if c == '"' {
        "&quot;"@
    } else {
        seq![c]
    }
}

/// `s` with each of `<`, `>`, `&`, `'` and `"` replaced by its entity.
pub open spec fn xml_escaped(s: Seq<char>) -> Seq<char>
    decreases s.len(),
{
    if s.len() == 0 {
        Seq::empty()
    } else {
        xml_escaped(s.drop_last()) + escape_char(s.last())
    }
}

/// Relies on `strong_xml::utils::xml_escape`: it copies its argument and replaces
/// each of `<`, `>`, `&`, `'` and `"` by `&lt;`, `&gt;`, `&amp;`, `&apos;` and
/// `&quot;`.
#[verifier::external_body]
fn escape(s: &str) -> (r: String)
    ensures
        r@ == xml_escaped(s@),
{
    strong_xml::utils::xml_escape(s).into_owned()
}

/// Decimal token of a single digit.
pub open spec fn digit_text(d: int) -> Seq<char> {
    if d == 0 {
        "0"@
    } else if d == 1 {
        "1"@
    } else if d == 2 {
        "2"@
    } else if d == 3 {
        "3"@
    } else if d == 4 {
        "4"@
    } else if d == 5 {
        "5"@
    } else if d == 6 {
        "6"@
    } else if d == 7 {
        "7"@
    } else if d == 8 {
        "8"@
    } else {
        "9"@
    }
}

/// Decimal text of `n`, without leading zeros.
pub open spec fn decimal(n: nat) -> Seq<char>
    decreases n,
{
    if n < 10 {
        digit_text(n as int)
    } else {
        decimal(n / 10) + digit_text((n % 10) as int)
    }
}

/// Appends the decimal text of `n`.
fn push_decimal(out: &mut String, n: u32)
    ensures
        final(out)@ == old(out)@ + decimal(n as nat),
    decreases n,
{
    if n >= 10 {
        push_decimal(out, n / 10);
    }
    let d = n % 10;
    let s = if d == 0 {
        "0"
    } else if d == 1 {
        "1"
    } else if d == 2 {
        "2"
    } else if d == 3 {
        "3"
    } else if d == 4 {
        "4"
    } else if d == 5 {
        "5"
    } else if d == 6 {
        "6"
    } else if d == 7 {
        "7"
    } else if d == 8 {
        "8"
    } else {
        "9"
    };
    out.append(s);
    proof {
        if n >= 10 {
            assert(final(out)@ =~= old(out)@ + decimal(n as nat));
        }
    }
}

/// Appends `open`, the escaped `value` and a closing quote: one attribute when
/// `open` is ` name="`.
fn push_attr(out: &mut String, open: &str, value: &str)
    ensures
        final(out)@ == old(out)@ + open@ + xml_escaped(value@) + "\""@,
{
    out.append(open);
    let e = escape(value);
    out.append(e.as_str());
    out.append("\"");
}

pub open spec fn bool_text(b: bool) -> Seq<char> {
    if b {
        "true"@
    } else {
        "false"@
    }
}

fn bool_string(b: bool) -> (r: String)
    ensures
        r@ == bool_text(b),
{
    if b {
        String::from_str("true")
    } else {
        String::from_str("false")
    }
}

/// Markup of `<name a="v"/>` for one attribute opened by `open`.
pub open spec fn single_attr_xml(name_open: Seq<char>, open: Seq<char>, v: Seq<char>) -> Seq<
    char,
> {
    name_open + open + xml_escaped(v) + "\""@ + "/>"@
}

fn single_attr_element(name_open: &str, open: &str, v: &str) -> (r: String)
    ensures
        r@ == single_attr_xml(name_open@, open@, v@),
{
    let mut out = String::from_str(name_open);
    push_attr(&mut out, open, v);
    out.append("/>");
    out
}

/// View of an optional string.
pub open spec fn opt_view(o: Option<String>) -> Option<Seq<char>> {
    match o {
        Some(s) => Some(s@),
        None => None,
    }
}

/// `<join gameType=".." participantId=".."/>`, the second attribute only when
/// present.
#[derive(Debug)]
pub struct Join {
    pub game_type: String,
    pub participant_id: Option<String>,
}

pub open spec fn join_xml(game_type: Seq<char>, participant_id: Option<Seq<char>>) -> Seq<char> {
    "<join"@ + " gameType=\""@ + xml_escaped(game_type) + "\""@ + match participant_id {
        Some(p) => " participantId=\""@ + xml_escaped(p) + "\""@,
        None => Seq::empty(),
    } + "/>"@
}

impl Join {
    pub fn to_xml(&self) -> (r: String)
        ensures
            r@ == join_xml(self.game_type@, opt_view(self.participant_id)),
    {
        let mut out = String::from_str("<join");
        push_attr(&mut out, " gameType=\"", self.game_type.as_str());
        match &self.participant_id {
            Some(p) => push_attr(&mut out, " participantId=\"", p.as_str()),
            None => {},
        }
        out.append("/>");
        proof {
            assert(out@ =~= join_xml(self.game_type@, opt_view(self.participant_id)));
        }
        out
    }
}

/// `<joinPrepared reservationCode=".."/>`.
#[derive(Debug)]
pub struct JoinPrepared {
    pub reservation_code: String,
}

impl JoinPrepared {
    pub fn to_xml(&self) -> (r: String)
        ensures
            r@ == single_attr_xml(
                "<joinPrepared"@,
                " reservationCode=\""@,
                self.reservation_code@,
            ),
    {
        single_attr_element("<joinPrepared", " reservationCode=\"", self.reservation_code.as_str())
    }
}

/// `<from x=".." y=".."/>` of a move.
#[derive(Debug)]
pub struct FromPos {
    pub x: u32,
    pub y: u32,
}

/// `<direction>TOKEN</direction>` of a move.
#[derive(Debug)]
pub struct OutgoingDirection {
    pub value: String,
}

/// `<data class="..">` holding a move.
#[derive(Debug)]
pub struct DataMove {
    pub class: String,
    pub from: FromPos,
    pub direction: OutgoingDirection,
}

/// `<room roomId="..">` addressing a move to a room.
#[derive(Debug)]
pub struct OutgoingRoom {
    pub room_id: String,
    pub data: DataMove,
}

pub open spec fn room_move_xml(
    room_id: Seq<char>,
    class: Seq<char>,
    x: u32,
    y: u32,
    direction: Seq<char>,
) -> Seq<char> {
    "<room"@ + " roomId=\""@ + xml_escaped(room_id) + "\""@ + ">"@ + "<data"@ + " class=\""@
        + xml_escaped(class) + "\""@ + ">"@ + "<from"@ + " x=\""@ + decimal(x as nat) + "\""@
        + " y=\""@ + decimal(y as nat) + "\""@ + "/>"@ + "<direction"@ + ">"@ + xml_escaped(
        direction,
    ) + "</direction>"@ + "</data>"@ + "</room>"@
}

impl OutgoingRoom {
    pub fn to_xml(&self) -> (r: String)
        ensures
            r@ == room_move_xml(
                self.room_id@,
                self.data.class@,
                self.data.from.x,
                self.data.from.y,
                self.data.direction.value@,
            ),
    {
        let mut out = String::from_str("<room");
        push_attr(&mut out, " roomId=\"", self.room_id.as_str());
        out.append(">");
        out.append("<data");
        push_attr(&mut out, " class=\"", self.data.class.as_str());
        out.append(">");
        out.append("<from");
        out.append(" x=\"");
        push_decimal(&mut out, self.data.from.x);
        out.append("\"");
        out.append(" y=\"");
        push_decimal(&mut out, self.data.from.y);
        out.append("\"");
        out.append("/>");
        out.append("<direction");
        out.append(">");
        let e = escape(self.data.direction.value.as_str());
        out.append(e.as_str());
        out.append("</direction>");
        out.append("</data>");
        out.append("</room>");
        proof {
            assert(out@ =~= room_move_xml(
                self.room_id@,
                self.data.class@,
                self.data.from.x,
                self.data.from.y,
                self.data.direction.value@,
            ));
        }
        out
    }
}

/// Markup of a join request: by reservation code when one is given.
pub fn make_join_xml(game_type: &str, participant_id: Option<&str>) -> (r: String)
    ensures
        r@ == join_xml(
            game_type@,
            match participant_id {
                Some(p) => Some(p@),
                None => None,
            },
        ),
{
    let join = Join {
        game_type: String::from_str(game_type),
        participant_id: match participant_id {
            Some(p) => Some(String::from_str(p)),
            None => None,
        },
    };
    join.to_xml()
}

pub fn make_join_prepared_xml(reservation_code: &str) -> (r: String)
    ensures
        r@ == single_attr_xml("<joinPrepared"@, " reservationCode=\""@, reservation_code@),
{
    let jp = JoinPrepared { reservation_code: String::from_str(reservation_code) };
    jp.to_xml()
}

/// Markup of a move of the piece at (x, y) in `direction`, addressed to a room.
pub fn make_move_xml(room_id: &str, x: u32, y: u32, direction: Direction) -> (r: String)
    ensures
        r@ == room_move_xml(room_id@, "move"@, x, y, direction_token(direction)),
{
    let room = OutgoingRoom {
        room_id: String::from_str(room_id),
        data: DataMove {
            class: String::from_str("move"),
            from: FromPos { x, y },
            direction: OutgoingDirection { value: direction.to_string() },
        },
    };
    room.to_xml()
}

/// `<authenticate password=".."/>`.
#[derive(Debug)]
pub struct Authenticate {
    pub password: String,
}

/// `<observe roomId=".."/>`.
#[derive(Debug)]
pub struct Observe {
    pub room_id: String,
}

/// `<pause roomId=".." pause="true|false"/>`.
#[derive(Debug)]
pub struct Pause {
    pub room_id: String,
    pub pause: String,
}

/// `<step roomId=".."/>`.
#[derive(Debug)]
pub struct Step {
    pub room_id: String,
}

/// `<cancel roomId=".."/>`.
#[derive(Debug)]
pub struct Cancel {
    pub room_id: String,
}

/// `<slot displayName=".." canTimeout=".." reserved=".."/>` of a prepared room.
#[derive(Debug)]
pub struct Slot {
    pub display_name: String,
    pub can_timeout: String,
    pub reserved: String,
}

/// `<prepare gameType=".." pause="..">` with one slot per player.
#[derive(Debug)]
pub struct Prepare {
    pub game_type: String,
    pub pause: String,
    pub slots: Vec<Slot>,
}

pub open spec fn pause_xml(room_id: Seq<char>, pause: Seq<char>) -> Seq<char> {
    "<pause"@ + " roomId=\""@ + xml_escaped(room_id) + "\""@ + " pause=\""@ + xml_escaped(pause)
        + "\""@ + "/>"@
}

pub open spec fn slot_xml(display_name: Seq<char>, can_timeout: Seq<char>, reserved: Seq<char>) -> Seq<
    char,
> {
    "<slot"@ + " displayName=\""@ + xml_escaped(display_name) + "\""@ + " canTimeout=\""@
        + xml_escaped(can_timeout) + "\""@ + " reserved=\""@ + xml_escaped(reserved) + "\""@
        + "/>"@
}

/// Markup of the slots of `slots`, in order.
pub open spec fn slots_xml(slots: Seq<Slot>) -> Seq<char>
    decreases slots.len(),
{
    if slots.len() == 0 {
        Seq::empty()
    } else {
        slots_xml(slots.drop_last()) + slot_xml(
            slots.last().display_name@,
            slots.last().can_timeout@,
            slots.last().reserved@,
        )
    }
}

/// Markup of a prepare request; with no slots the element closes itself.
pub open spec fn prepare_xml(game_type: Seq<char>, pause: Seq<char>, slots: Seq<Slot>) -> Seq<
    char,
> {
    "<prepare"@ + " gameType=\""@ + xml_escaped(game_type) + "\""@ + " pause=\""@ + xml_escaped(
        pause,
    ) + "\""@ + if slots.len() == 0 {
        "/>"@
    } else {
        ">"@ + slots_xml(slots) + "</prepare>"@
    }
}

impl Authenticate {
    pub fn to_xml(&self) -> (r: String)
        ensures
            r@ == single_attr_xml("<authenticate"@, " password=\""@, self.password@),
    {
        single_attr_element("<authenticate", " password=\"", self.password.as_str())
    }
}

impl Observe {
    pub fn to_xml(&self) -> (r: String)
        ensures
            r@ == single_attr_xml("<observe"@, " roomId=\""@, self.room_id@),
    {
        single_attr_element("<observe", " roomId=\"", self.room_id.as_str())
    }
}

impl Pause {
    pub fn to_xml(&self) -> (r: String)
        ensures
            r@ == pause_xml(self.room_id@, self.pause@),
    {
        let mut out = String::from_str("<pause");
        push_attr(&mut out, " roomId=\"", self.room_id.as_str());
        push_attr(&mut out, " pause=\"", self.pause.as_str());
        out.append("/>");
        proof {
            assert(out@ =~= pause_xml(self.room_id@, self.pause@));
        }
        out
    }
}

impl Step {
    pub fn to_xml(&self) -> (r: String)
        ensures
            r@ == single_attr_xml("<step"@, " roomId=\""@, self.room_id@),
    {
        single_attr_element("<step", " roomId=\"", self.room_id.as_str())
    }
}

impl Cancel {
    pub fn to_xml(&self) -> (r: String)
        ensures
            r@ == single_attr_xml("<cancel"@, " roomId=\""@, self.room_id@),
    {
        single_attr_element("<cancel", " roomId=\"", self.room_id.as_str())
    }
}

impl Slot {
    pub fn to_xml(&self) -> (r: String)
        ensures
            r@ == slot_xml(self.display_name@, self.can_timeout@, self.reserved@),
    {
        let mut out = String::from_str("<slot");
        push_attr(&mut out, " displayName=\"", self.display_name.as_str());
        push_attr(&mut out, " canTimeout=\"", self.can_timeout.as_str());
        push_attr(&mut out, " reserved=\"", self.reserved.as_str());
        out.append("/>");
        proof {
            assert(out@ =~= slot_xml(self.display_name@, self.can_timeout@, self.reserved@));
        }
        out
    }
}

impl Prepare {
    pub fn to_xml(&self) -> (r: String)
        ensures
            r@ == prepare_xml(self.game_type@, self.pause@, self.slots@),
    {
        let mut out = String::from_str("<prepare");
        push_attr(&mut out, " gameType=\"", self.game_type.as_str());
        push_attr(&mut out, " pause=\"", self.pause.as_str());
        let ghost head = out@;
        if self.slots.len() == 0 {
            out.append("/>");
        } else {
            out.append(">");
            let ghost opened = out@;
            let mut i: usize = 0;
            assert(self.slots@.subrange(0, 0) =~= Seq::<Slot>::empty());
            while i < self.slots.len()
                invariant
                    i <= self.slots@.len(),
                    out@ == opened + slots_xml(self.slots@.subrange(0, i as int)),
                decreases self.slots@.len() - i,
            {
                let x = self.slots[i].to_xml();
                out.append(x.as_str());
                proof {
                    let ghost cur = self.slots@.subrange(0, i + 1);
                    assert(cur.drop_last() =~= self.slots@.subrange(0, i as int));
                    assert(cur.last() == self.slots@[i as int]);
                    assert(out@ =~= opened + slots_xml(cur));
                }
                i = i + 1;
            }
            assert(self.slots@.subrange(0, self.slots@.len() as int) =~= self.slots@);
            out.append("</prepare>");
        }
        proof {
            assert(out@ =~= prepare_xml(self.game_type@, self.pause@, self.slots@));
        }
        out
    }
}

/// Markup of an admin's authentication.
pub fn make_authenticate_xml(password: &str) -> (r: String)
    ensures
        r@ == single_attr_xml("<authenticate"@, " password=\""@, password@),
{
    Authenticate { password: String::from_str(password) }.to_xml()
}

/// Markup of a request to observe a room.
pub fn make_observe_xml(room_id: &str) -> (r: String)
    ensures
        r@ == single_attr_xml("<observe"@, " roomId=\""@, room_id@),
{
    Observe { room_id: String::from_str(room_id) }.to_xml()
}

/// Markup of a request to pause (`true`) or resume (`false`) a room.
pub fn make_pause_xml(room_id: &str, pause: bool) -> (r: String)
    ensures
        r@ == pause_xml(room_id@, bool_text(pause)),
{
    Pause { room_id: String::from_str(room_id), pause: bool_string(pause) }.to_xml()
}

/// Markup of a request to advance a paused room by one move.
pub fn make_step_xml(room_id: &str) -> (r: String)
    ensures
        r@ == single_attr_xml("<step"@, " roomId=\""@, room_id@),
{
    Step { room_id: String::from_str(room_id) }.to_xml()
}

/// Markup of a request to cancel a room.
pub fn make_cancel_xml(room_id: &str) -> (r: String)
    ensures
        r@ == single_attr_xml("<cancel"@, " roomId=\""@, room_id@),
{
    Cancel { room_id: String::from_str(room_id) }.to_xml()
}

/// Markup of a request to prepare a room with one slot per
/// (display name, can time out, reserved) triple.
pub fn make_prepare_xml(game_type: &str, pause: bool, slots: &[(&str, bool, bool)]) -> (r: String)
    ensures
        exists|sl: Seq<Slot>|
            #![auto]
            {
                &&& sl.len() == slots@.len()
                &&& forall|i: int|
                    0 <= i < sl.len() ==> sl[i].display_name@ == slots@[i].0@
                        && sl[i].can_timeout@ == bool_text(slots@[i].1) && sl[i].reserved@
                        == bool_text(slots@[i].2)
                &&& r@ == prepare_xml(game_type@, bool_text(pause), sl)
            },
{
    let mut v: Vec<Slot> = Vec::new();
    let mut i: usize = 0;
    while i < slots.len()
        invariant
            i <= slots@.len(),
            v@.len() == i,
            forall|k: int|
                0 <= k < i ==> (#[trigger] v@[k]).display_name@ == slots@[k].0@
                    && v@[k].can_timeout@ == bool_text(slots@[k].1) && v@[k].reserved@
                    == bool_text(slots@[k].2),
        decreases slots@.len() - i,
    {
        let (dn, ct, res) = slots[i];
        v.push(
            Slot {
                display_name: String::from_str(dn),
                can_timeout: bool_string(ct),
                reserved: bool_string(res),
            },
        );
        i = i + 1;
    }
    let p = Prepare { game_type: String::from_str(game_type), pause: bool_string(pause), slots: v };
    let r = p.to_xml();
    assert(r@ == prepare_xml(game_type@, bool_text(pause), p.slots@));
    r
}

} // verus!
