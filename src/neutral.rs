//! Value types shared by the rule engine and the message model.
use vstd::prelude::*;
use vstd::string::*;

use crate::incoming::ReceivedLastMove;
use crate::text::{str_eq, trim_ws, trimmed};

verus! {

/// One of the eight compass directions a piece can move in.
#[derive(Debug, Clone, Copy, PartialEq, Eq, Structural)]
pub enum Direction {
    UP,
    UpRight,
    Right,
    DownRight,
    Down,
    DownLeft,
    Left,
    UpLeft,
}

/// Unit step of a direction as (dx, dy); row 0 is the bottom row.
pub open spec fn delta(d: Direction) -> (int, int) {
    match d {
        Direction::UP => (0, 1),
        Direction::UpRight => (1, 1),
        Direction::Right => (1, 0),
        Direction::DownRight => (1, -1),
        Direction::Down => (0, -1),
        Direction::DownLeft => (-1, -1),
        Direction::Left => (-1, 0),
        Direction::UpLeft => (-1, 1),
    }
}

/// Wire token of a direction.
pub open spec fn direction_token(d: Direction) -> Seq<char> {
    match d {
        Direction::UP => "UP"@,
        Direction::UpRight => "UP_RIGHT"@,
        Direction::Right => "RIGHT"@,
        Direction::DownRight => "DOWN_RIGHT"@,
        Direction::Down => "DOWN"@,
        Direction::DownLeft => "DOWN_LEFT"@,
        Direction::Left => "LEFT"@,
        Direction::UpLeft => "UP_LEFT"@,
    }
}

/// Direction whose step has the signs of (dx, dy), with y growing downwards as
/// in the coordinates of a received last move.
pub open spec fn direction_of_signs(sx: int, sy: int) -> Option<Direction> {
    if sx == 0 && sy == -1 {
        Some(Direction::UP)
    } else if sx == 1 && sy == -1 {
        Some(Direction::UpRight)
    } else if sx == 1 && sy == 0 {
        Some(Direction::Right)
    } else if sx == 1 && sy == 1 {
        Some(Direction::DownRight)
    } else if sx == 0 && sy == 1 {
        Some(Direction::Down)
    } else if sx == -1 && sy == 1 {
        Some(Direction::DownLeft)
    } else if sx == -1 && sy == 0 {
        Some(Direction::Left)
    } else if sx == -1 && sy == -1 {
        Some(Direction::UpLeft)
    } else {
        None
    }
}

pub open spec fn signum(v: int) -> int {
    if v > 0 {
        1
    } else if v < 0 {
        -1
    } else {
        0
    }
}

fn signum_i32(v: i32) -> (r: i32)
    ensures
        r == signum(v as int),
{
    if v > 0 {
        1
    } else if v < 0 {
        -1
    } else {
        0
    }
}

/// Builds `prefix` + `s` + `'` as an error description.
fn quoted_error(prefix: &str, s: &str) -> (r: String) {
    let mut e = String::from_str(prefix);
    e.append(s);
    e.append("'");
    e
}

impl Direction {
    pub fn to_delta(&self) -> (r: (i32, i32))
        ensures
            r.0 as int == delta(*self).0,
            r.1 as int == delta(*self).1,
    {
        match self {
            Direction::UP => (0, 1),
            Direction::UpRight => (1, 1),
            Direction::Right => (1, 0),
            Direction::DownRight => (1, -1),
            Direction::Down => (0, -1),
            Direction::DownLeft => (-1, -1),
            Direction::Left => (-1, 0),
            Direction::UpLeft => (-1, 1),
        }
    }

    /// Wire token of this direction (`UP`, `UP_RIGHT`, ...).
    pub fn to_string(&self) -> (r: String)
        ensures
            r@ == direction_token(*self),
    {
        let s = match self {
            Direction::UP => "UP",
            Direction::UpRight => "UP_RIGHT",
            Direction::Right => "RIGHT",
            Direction::DownRight => "DOWN_RIGHT",
            Direction::Down => "DOWN",
            Direction::DownLeft => "DOWN_LEFT",
            Direction::Left => "LEFT",
            Direction::UpLeft => "UP_LEFT",
        };
        String::from_str(s)
    }

    /// Decodes a wire token; any other text is rejected.
    pub fn from_token(s: &str) -> (r: Result<Direction, String>)
        ensures
            match r {
                Ok(d) => direction_token(d) == s@,
                Err(_) => forall|d: Direction| direction_token(d) != s@,
            },
    {
        if str_eq(s, "UP") {
            Ok(Direction::UP)
        } else if str_eq(s, "UP_RIGHT") {
            Ok(Direction::UpRight)
        } else if str_eq(s, "RIGHT") {
            Ok(Direction::Right)
        } else if str_eq(s, "DOWN_RIGHT") {
            Ok(Direction::DownRight)
        } else if str_eq(s, "DOWN") {
            Ok(Direction::Down)
        } else if str_eq(s, "DOWN_LEFT") {
            Ok(Direction::DownLeft)
        } else if str_eq(s, "LEFT") {
            Ok(Direction::Left)
        } else if str_eq(s, "UP_LEFT") {
            Ok(Direction::UpLeft)
        } else {
            Err(quoted_error("unknown direction token '", s))
        }
    }

    /// Direction of the step from (x1, y1) to (x2, y2), taking the sign of each
    /// coordinate difference; no movement at all is rejected.
    pub fn from_positions(t: (u8, u8, u8, u8)) -> (r: Result<Direction, String>)
        ensures
            ({
                let dx = t.2 as int - t.0 as int;
                let dy = t.3 as int - t.1 as int;
                match r {
                    Ok(d) => Some(d) == direction_of_signs(signum(dx), signum(dy)),
                    Err(_) => direction_of_signs(signum(dx), signum(dy)).is_none(),
                }
            }),
    {
        let (x1, y1, x2, y2) = t;
        let dx: i32 = x2 as i32 - x1 as i32;
        let dy: i32 = y2 as i32 - y1 as i32;
        if dx == 0 && dy == 0 {
            return Err(String::from_str("no movement provided"));
        }
        let sx = signum_i32(dx);
        let sy = signum_i32(dy);
        if sx == 0 && sy == -1 {
            Ok(Direction::UP)
        } else if sx == 1 && sy == -1 {
            Ok(Direction::UpRight)
        } else if sx == 1 && sy == 0 {
            Ok(Direction::Right)
        } else if sx == 1 && sy == 1 {
            Ok(Direction::DownRight)
        } else if sx == 0 && sy == 1 {
            Ok(Direction::Down)
        } else if sx == -1 && sy == 1 {
            Ok(Direction::DownLeft)
        } else if sx == -1 && sy == 0 {
            Ok(Direction::Left)
        } else {
            Ok(Direction::UpLeft)
        }
    }
}


/// A move: the piece at `from` = (x, y) travels in direction `dir`.
#[derive(Debug, Copy, Clone, PartialEq, Eq)]
pub struct Move {
    pub from: (u8, u8),
    pub dir: Direction,
}

/// `v` limited to the board's coordinate range 0..=9.
pub open spec fn clamp9(v: int) -> int {
    if v < 0 {
        0
    } else if v > 9 {
        9
    } else {
        v
    }
}

/// Coordinate `c` after `i` unit steps of sign `dc`.
pub open spec fn along(c: int, dc: int, i: int) -> int {
    if dc > 0 {
        c + i
    } else if dc < 0 {
        c - i
    } else {
        c
    }
}

/// Square reached from `from` by `dis` steps in `dir`, each coordinate clamped
/// to the board.
pub open spec fn goal_pos(from: (u8, u8), dir: Direction, dis: int) -> (int, int) {
    (clamp9(along(from.0 as int, delta(dir).0, dis)), clamp9(along(from.1 as int, delta(dir).1, dis)))
}

impl Move {
    pub fn to_goal_pos(&self, dis: u8) -> (r: (u8, u8))
        ensures
            r.0 as int == goal_pos(self.from, self.dir, dis as int).0,
            r.1 as int == goal_pos(self.from, self.dir, dis as int).1,
    {
        let (dx, dy) = self.dir.to_delta();
        let gx: i32 = self.from.0 as i32 + dx * dis as i32;
        let gy: i32 = self.from.1 as i32 + dy * dis as i32;
        let cx: i32 = if gx < 0 {
            0
        } else if gx > 9 {
            9
        } else {
            gx
        };
        let cy: i32 = if gy < 0 {
            0
        } else if gy > 9 {
            9
        } else {
            gy
        };
        (cx as u8, cy as u8)
    }

    /// Builds a move from a received last move; both children are required and
    /// the direction token must be known.
    pub fn try_from(recv: &ReceivedLastMove) -> (r: Result<Move, String>)
        ensures
            match r {
                Ok(m) => recv.from.is_some() && recv.direction.is_some() && m.from == (
                    recv.from.unwrap().x,
                    recv.from.unwrap().y,
                ) && direction_token(m.dir) == recv.direction.unwrap().value@,
                Err(_) => recv.from.is_none() || recv.direction.is_none() || forall|d: Direction|
                    direction_token(d) != recv.direction.unwrap().value@,
            },
    {
        let from = match &recv.from {
            Some(p) => (p.x, p.y),
            None => {
                return Err(
                    String::from_str(
                        "a received last move should contain 'from' when converting to a move",
                    ),
                );
            },
        };
        let dir = match &recv.direction {
            Some(d) => Direction::from_token(d.value.as_str())?,
            None => {
                return Err(
                    String::from_str(
                        "a received last move should contain 'direction' when converting to a move",
                    ),
                );
            },
        };
        Ok(Move { from, dir })
    }
}

/// One of the two sides.
#[derive(Debug, Clone, Copy, Eq, PartialEq, Structural, Default)]
pub enum Team {
    #[default]
    One,
    Two,
}

pub open spec fn opponent_of(t: Team) -> Team {
    match t {
        Team::One => Team::Two,
        Team::Two => Team::One,
    }
}

/// Team named by a token, if any.
pub open spec fn team_of(s: Seq<char>) -> Option<Team> {
    if s == "ONE"@ {
        Some(Team::One)
    } else if s == "TWO"@ {
        Some(Team::Two)
    } else {
        None
    }
}

pub open spec fn team_token(t: Team) -> Seq<char> {
    match t {
        Team::One => "ONE"@,
        Team::Two => "TWO"@,
    }
}

impl Team {
    pub fn opponent(&self) -> (r: Team)
        ensures
            r == opponent_of(*self),
    {
        match *self {
            Team::One => Team::Two,
            Team::Two => Team::One,
        }
    }

    /// Decodes `ONE` or `TWO`.
    pub fn try_from(s: &str) -> (r: Result<Team, String>)
        ensures
            match r {
                Ok(t) => team_token(t) == s@ && team_of(s@) == Some(t),
                Err(_) => (forall|t: Team| team_token(t) != s@) && team_of(s@).is_none(),
            },
    {
        if str_eq(s, "ONE") {
            Ok(Team::One)
        } else if str_eq(s, "TWO") {
            Ok(Team::Two)
        } else {
            Err(quoted_error("unknown team token '", s))
        }
    }

    /// Wire token of this team.
    pub fn to_string(&self) -> (r: String)
        ensures
            r@ == team_token(*self),
    {
        match self {
            Team::One => String::from_str("ONE"),
            Team::Two => String::from_str("TWO"),
        }
    }
}

/// Size of a piece.
#[derive(Debug, Clone, Copy, PartialEq, Eq, Structural)]
pub enum Size {
    S,
    M,
    L,
}

impl Size {
    /// Wire token of this size.
    pub fn to_string(&self) -> (r: String)
        ensures
            r@ == match *self {
                Size::S => "S"@,
                Size::M => "M"@,
                Size::L => "L"@,
            },
    {
        match self {
            Size::S => String::from_str("S"),
            Size::M => String::from_str("M"),
            Size::L => String::from_str("L"),
        }
    }
}

/// Content of one board cell: empty, an obstacle, or a piece of a team.
#[derive(Debug, Clone, PartialEq, Eq, Default, Copy, Structural)]
pub enum PiranhaField {
    #[default]
    Empty,
    Squid,
    Fish { team: Team, size: Size },
}

/// Wire token of a cell (`EMPTY`, `SQUID`, or `{TEAM}_{SIZE}`).
pub open spec fn field_token(f: PiranhaField) -> Seq<char> {
    match f {
        PiranhaField::Empty => "EMPTY"@,
        PiranhaField::Squid => "SQUID"@,
        PiranhaField::Fish { team: Team::One, size: Size::S } => "ONE_S"@,
        PiranhaField::Fish { team: Team::One, size: Size::M } => "ONE_M"@,
        PiranhaField::Fish { team: Team::One, size: Size::L } => "ONE_L"@,
        PiranhaField::Fish { team: Team::Two, size: Size::S } => "TWO_S"@,
        PiranhaField::Fish { team: Team::Two, size: Size::M } => "TWO_M"@,
        PiranhaField::Fish { team: Team::Two, size: Size::L } => "TWO_L"@,
    }
}

impl PiranhaField {
    /// Wire token of this cell.
    pub fn to_string(&self) -> (r: String)
        ensures
            r@ == field_token(*self),
    {
        let s = match self {
            PiranhaField::Empty => "EMPTY",
            PiranhaField::Squid => "SQUID",
            PiranhaField::Fish { team: Team::One, size: Size::S } => "ONE_S",
            PiranhaField::Fish { team: Team::One, size: Size::M } => "ONE_M",
            PiranhaField::Fish { team: Team::One, size: Size::L } => "ONE_L",
            PiranhaField::Fish { team: Team::Two, size: Size::S } => "TWO_S",
            PiranhaField::Fish { team: Team::Two, size: Size::M } => "TWO_M",
            PiranhaField::Fish { team: Team::Two, size: Size::L } => "TWO_L",
        };
        String::from_str(s)
    }

    /// Decodes a cell token, ignoring surrounding whitespace.
    pub fn from_str(s: &str) -> (r: Result<PiranhaField, String>)
        ensures
            match r {
                Ok(f) => field_token(f) == trimmed(s@),
                Err(_) => forall|f: PiranhaField| field_token(f) != trimmed(s@),
            },
    {
        let t = trim_ws(s);
        if str_eq(t, "EMPTY") {
            Ok(PiranhaField::Empty)
        } else if str_eq(t, "SQUID") {
            Ok(PiranhaField::Squid)
        } else if str_eq(t, "ONE_S") {
            Ok(PiranhaField::Fish { team: Team::One, size: Size::S })
        } else if str_eq(t, "ONE_M") {
            Ok(PiranhaField::Fish { team: Team::One, size: Size::M })
        } else if str_eq(t, "ONE_L") {
            Ok(PiranhaField::Fish { team: Team::One, size: Size::L })
        } else if str_eq(t, "TWO_S") {
            Ok(PiranhaField::Fish { team: Team::Two, size: Size::S })
        } else if str_eq(t, "TWO_M") {
            Ok(PiranhaField::Fish { team: Team::Two, size: Size::M })
        } else if str_eq(t, "TWO_L") {
            Ok(PiranhaField::Fish { team: Team::Two, size: Size::L })
        } else {
            Err(quoted_error("unknown field token '", t))
        }
    }
}

} // verus!
