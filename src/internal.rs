//! Board, game state and rule engine, plus the validated message model.
use vstd::prelude::*;

use crate::incoming::{
    ReceivedBoard, ReceivedData, ReceivedDefinition, ReceivedEntry, ReceivedFragment,
    ReceivedLastMove, ReceivedRoom, ReceivedState, ReceivedWinner,
};
use crate::neutral::{
    along, delta, direction_token, field_token, goal_pos, opponent_of, team_token, Direction, Move,
    PiranhaField, Team, team_of,
};
use crate::text::{
    bool_value, is_ws, parse_bool, parse_u32, str_eq, trim_end, trim_start, trimmed, u32_value,
};

verus! {

/// A 10 x 10 grid seen as rows (bottom first) of cells (left first).
pub type BoardView = Seq<Seq<PiranhaField>>;

/// Whether (x, y) lies on the board.
pub open spec fn in_board(x: int, y: int) -> bool {
    0 <= x < 10 && 0 <= y < 10
}

/// Every row of `b` exists and holds ten cells.
pub open spec fn board_shape(b: BoardView) -> bool {
    b.len() == 10 && forall|y: int| 0 <= y < 10 ==> (#[trigger] b[y]).len() == 10
}

pub open spec fn is_fish(f: PiranhaField) -> bool {
    f is Fish
}

/// Whether `f` holds a piece of team `t`.
pub open spec fn is_team_fish(f: PiranhaField, t: Team) -> bool {
    match f {
        PiranhaField::Fish { team, .. } => team == t,
        _ => false,
    }
}

/// Measure that shrinks with every unit step that stays on the board.
pub open spec fn ray_measure(x: int, y: int, dx: int, dy: int) -> int {
    (if dx > 0 {
        10 - x
    } else if dx < 0 {
        x + 1
    } else {
        0
    }) + (if dy > 0 {
        10 - y
    } else if dy < 0 {
        y + 1
    } else {
        0
    })
}

/// Number of pieces on (x, y), (x + dx, y + dy), ... up to the board's edge.
pub open spec fn ray_count(b: BoardView, x: int, y: int, dx: int, dy: int) -> nat
    decreases ray_measure(x, y, dx, dy),
{
    if !in_board(x, y) || (dx == 0 && dy == 0) || dx < -1 || dx > 1 || dy < -1 || dy > 1 {
        0
    } else {
        (if is_fish(b[y][x]) {
            1nat
        } else {
            0nat
        }) + ray_count(b, x + dx, y + dy, dx, dy)
    }
}

/// Run length: the number of pieces on the whole line through (x, y) along
/// `d`, (x, y) included. It is the distance a piece at (x, y) travels along `d`.
pub open spec fn run_length(b: BoardView, x: int, y: int, d: Direction) -> nat {
    let (dx, dy) = delta(d);
    (if is_fish(b[y][x]) {
        1nat
    } else {
        0nat
    }) + ray_count(b, x + dx, y + dy, dx, dy) + ray_count(b, x - dx, y - dy, -dx, -dy)
}

/// The rule for a move of `dis` squares from (x, y) along `d` by team `us`:
/// every square passed over is on the board and holds no opposing piece, and
/// the destination is on the board and holds neither an obstacle nor a piece
/// of `us`.
pub open spec fn is_legal(b: BoardView, x: int, y: int, d: Direction, dis: int, us: Team) -> bool {
    let (dx, dy) = delta(d);
    let gx = along(x, dx, dis);
    let gy = along(y, dy, dis);
    &&& dis > 0
    &&& forall|i: int|
        1 <= i < dis ==> {
            &&& in_board(#[trigger] along(x, dx, i), along(y, dy, i))
            &&& !is_team_fish(b[along(y, dy, i)][along(x, dx, i)], opponent_of(us))
        }
    &&& in_board(gx, gy)
    &&& !(b[gy][gx] is Squid)
    &&& !is_team_fish(b[gy][gx], us)
}

proof fn lemma_ray_count_bound(b: BoardView, x: int, y: int, dx: int, dy: int)
    ensures
        in_board(x, y) ==> ray_count(b, x, y, dx, dy) <= ray_measure(x, y, dx, dy),
        !in_board(x, y) ==> ray_count(b, x, y, dx, dy) == 0,
    decreases ray_measure(x, y, dx, dy),
{
    if !in_board(x, y) || (dx == 0 && dy == 0) || dx < -1 || dx > 1 || dy < -1 || dy > 1 {
    } else {
        lemma_ray_count_bound(b, x + dx, y + dy, dx, dy);
    }
}

/// One row of the board, cells from left to right.
#[derive(Debug, Default, PartialEq, Eq, Clone)]
pub struct Row {
    pub fields: [PiranhaField; 10],
}

/// The 10 x 10 board, rows from bottom to top.
#[derive(Debug, PartialEq, Eq, Clone, Default)]
pub struct Board {
    pub rows: [Row; 10],
}

impl View for Board {
    type V = BoardView;

    open spec fn view(&self) -> BoardView {
        Seq::new(10, |y: int| self.rows[y].fields@)
    }
}

/// Every board's view has ten rows of ten cells, as the laws on board views
/// require.
pub proof fn lemma_board_view_shape(b: Board)
    ensures
        board_shape(b@),
{
}

/// `k` spaces.
pub open spec fn spaces(k: int) -> Seq<char>
    decreases k,
{
    if k <= 0 {
        Seq::empty()
    } else {
        spaces(k - 1) + " "@
    }
}

/// `t` left-aligned in a column of width twelve.
pub open spec fn padded(t: Seq<char>) -> Seq<char> {
    t + spaces(12 - t.len())
}

/// The first `j` cells of a row, each padded and followed by a space.
pub open spec fn cells_text(r: Seq<PiranhaField>, j: int) -> Seq<char>
    decreases j,
{
    if j <= 0 {
        Seq::empty()
    } else {
        cells_text(r, j - 1) + padded(field_token(r[j - 1])) + " "@
    }
}

/// The top `k` rows of a board, top row first, one line each.
pub open spec fn rows_text(b: BoardView, k: int) -> Seq<char>
    decreases k,
{
    if k <= 0 {
        Seq::empty()
    } else {
        rows_text(b, k - 1) + cells_text(b[10 - k], 10) + "\n"@
    }
}

fn push_padded(out: &mut String, t: &str)
    ensures
        final(out)@ == old(out)@ + padded(t@),
{
    out.append(t);
    let n = t.unicode_len();
    let mut i: usize = n;
    let ghost start = old(out)@ + t@;
    assert(spaces(0) =~= Seq::<char>::empty());
    while i < 12
        invariant
            n == t@.len(),
            n <= i,
            n < 12 ==> i <= 12,
            n >= 12 ==> i == n,
            start == old(out)@ + t@,
            out@ == start + spaces(i - n),
        decreases 12 - i,
    {
        out.append(" ");
        assert(out@ =~= start + spaces(i + 1 - n));
        i = i + 1;
    }
    if n >= 12 {
        assert(spaces(12 - n) =~= spaces(0));
    }
    assert(out@ =~= old(out)@ + padded(t@));
}

impl Board {
    /// The board as text: rows from top to bottom, one line each, every cell's
    /// token left-aligned in a column of width twelve and followed by a space.
    pub fn to_string(&self) -> (r: String)
        ensures
            r@ == rows_text(self@, 10),
    {
        let mut out = String::new();
        let mut k: usize = 0;
        while k < 10
            invariant
                k <= 10,
                out@ == rows_text(self@, k as int),
            decreases 10 - k,
        {
            let y = 9 - k;
            let ghost line_start = out@;
            let mut x: usize = 0;
            assert(cells_text(self@[y as int], 0) =~= Seq::<char>::empty());
            while x < 10
                invariant
                    x <= 10,
                    k < 10,
                    y == 9 - k,
                    out@ == line_start + cells_text(self@[y as int], x as int),
                decreases 10 - x,
            {
                let tok = self.get(x, y).to_string();
                push_padded(&mut out, tok.as_str());
                out.append(" ");
                assert(out@ =~= line_start + cells_text(self@[y as int], x + 1));
                x = x + 1;
            }
            out.append("\n");
            assert(out@ =~= rows_text(self@, k + 1));
            k = k + 1;
        }
        out
    }

    pub fn in_bounds(x: i32, y: i32) -> (r: bool)
        ensures
            r == in_board(x as int, y as int),
    {
        0 <= x && x < 10 && 0 <= y && y < 10
    }

    pub fn get(&self, x: usize, y: usize) -> (r: &PiranhaField)
        requires
            x < 10,
            y < 10,
        ensures
            *r == self@[y as int][x as int],
    {
        &self.rows[y].fields[x]
    }

    /// Pieces met from (sx, sy) stepping by (dx, dy) until the board's edge.
    fn count_ray(&self, sx: i32, sy: i32, dx: i32, dy: i32) -> (r: u8)
        requires
            -1 <= sx <= 10,
            -1 <= sy <= 10,
            -1 <= dx <= 1,
            -1 <= dy <= 1,
            dx != 0 || dy != 0,
        ensures
            r as nat == ray_count(self@, sx as int, sy as int, dx as int, dy as int),
            r <= 20,
    {
        proof {
            lemma_ray_count_bound(self@, sx as int, sy as int, dx as int, dy as int);
        }
        let mut cnt: u8 = 0;
        let mut cx = sx;
        let mut cy = sy;
        while Board::in_bounds(cx, cy)
            invariant
                -1 <= cx <= 10,
                -1 <= cy <= 10,
                -1 <= dx <= 1,
                -1 <= dy <= 1,
                dx != 0 || dy != 0,
                cnt as nat + ray_count(self@, cx as int, cy as int, dx as int, dy as int)
                    == ray_count(self@, sx as int, sy as int, dx as int, dy as int),
                ray_count(self@, sx as int, sy as int, dx as int, dy as int) <= 20,
                ray_measure(cx as int, cy as int, dx as int, dy as int) >= 0,
            decreases ray_measure(cx as int, cy as int, dx as int, dy as int),
        {
            if let PiranhaField::Fish { .. } = self.get(cx as usize, cy as usize) {
                cnt = cnt + 1;
            }
            cx = cx + dx;
            cy = cy + dy;
        }
        cnt
    }

    /// Run length of the line through (x, y) along `dir`.
    pub fn count_fishes_on_axis(&self, x: usize, y: usize, dir: Direction) -> (r: u8)
        requires
            x < 10,
            y < 10,
        ensures
            r as nat == run_length(self@, x as int, y as int, dir),
    {
        let (dx, dy) = dir.to_delta();
        let mut cnt: u8 = 0;
        if let PiranhaField::Fish { .. } = self.get(x, y) {
            cnt = 1;
        }
        let forward = self.count_ray(x as i32 + dx, y as i32 + dy, dx, dy);
        let backward = self.count_ray(x as i32 - dx, y as i32 - dy, -dx, -dy);
        cnt + forward + backward
    }

    /// Whether team `us_team` may move the piece at (x, y) by `dis` squares
    /// along `dir`.
    pub fn check_allowed(
        board: &Self,
        x: usize,
        y: usize,
        dir: Direction,
        dis: u8,
        us_team: Team,
    ) -> (r: bool)
        requires
            x < 10,
            y < 10,
        ensures
            r == is_legal(board@, x as int, y as int, dir, dis as int, us_team),
    {
        if dis == 0 {
            return false;
        }
        let opp_team = us_team.opponent();
        let (dx, dy) = dir.to_delta();
        let ghost gdx = dx as int;
        let ghost gdy = dy as int;
        let mut cx = x as i32;
        let mut cy = y as i32;
        let mut step: u8 = 1;
        while step < dis
            invariant
                1 <= step <= dis,
                gdx == dx as int,
                gdy == dy as int,
                opp_team == opponent_of(us_team),
                gdx == delta(dir).0,
                gdy == delta(dir).1,
                cx as int == along(x as int, gdx, step - 1),
                cy as int == along(y as int, gdy, step - 1),
                in_board(cx as int, cy as int),
                forall|i: int|
                    1 <= i < step ==> {
                        &&& in_board(#[trigger] along(x as int, gdx, i), along(y as int, gdy, i))
                        &&& !is_team_fish(
                            board@[along(y as int, gdy, i)][along(x as int, gdx, i)],
                            opponent_of(us_team),
                        )
                    },
            decreases dis - step,
        {
            cx = cx + dx;
            cy = cy + dy;
            assert(cx as int == along(x as int, gdx, step as int));
            assert(cy as int == along(y as int, gdy, step as int));
            if !Board::in_bounds(cx, cy) {
                return false;
            }
            let f = *board.get(cx as usize, cy as usize);
            if let PiranhaField::Fish { team, .. } = f {
                if team == opp_team {
                    assert(is_team_fish(board@[cy as int][cx as int], opponent_of(us_team)));
                    return false;
                }
            }
            assert(!is_team_fish(board@[cy as int][cx as int], opponent_of(us_team)));
            step = step + 1;
        }
        cx = cx + dx;
        cy = cy + dy;
        if !Board::in_bounds(cx, cy) {
            return false;
        }
        match board.get(cx as usize, cy as usize) {
            PiranhaField::Squid => false,
            PiranhaField::Fish { team, .. } => *team != us_team,
            PiranhaField::Empty => true,
        }
    }

    pub fn get_mut(&mut self, x: usize, y: usize) -> (r: &mut PiranhaField)
        requires
            x < 10,
            y < 10,
        ensures
            *r == old(self)@[y as int][x as int],
            final(self)@ == old(self)@.update(
                y as int,
                old(self)@[y as int].update(x as int, *final(r)),
            ),
    {
        &mut self.rows[y].fields[x]
    }
}

/// Whether `s`, without surrounding whitespace, is the token of some cell.
pub open spec fn valid_field_token(s: Seq<char>) -> bool {
    exists|f: PiranhaField| field_token(f) == trimmed(s)
}

/// Whether a received board has ten rows of ten known cell tokens.
pub open spec fn board_decodes(rb: ReceivedBoard) -> bool {
    &&& rb.rows@.len() == 10
    &&& forall|y: int| 0 <= y < 10 ==> (#[trigger] rb.rows@[y]).fields@.len() == 10
    &&& forall|y: int, x: int|
        0 <= y < 10 && 0 <= x < 10 ==> valid_field_token(#[trigger] rb.rows@[y].fields@[x].raw@)
}

/// Whether every cell of `b` is the one whose token the received board holds
/// at the same place.
pub open spec fn board_matches(b: BoardView, rb: ReceivedBoard) -> bool {
    forall|y: int, x: int|
        0 <= y < 10 && 0 <= x < 10 ==> field_token(b[y][x]) == trimmed(
            #[trigger] rb.rows@[y].fields@[x].raw@,
        )
}

fn empty_row() -> (r: Row)
    ensures
        forall|x: int| 0 <= x < 10 ==> r.fields@[x] == PiranhaField::Empty,
{
    Row { fields: [PiranhaField::Empty; 10] }
}

impl Board {
    /// A board whose cells are all empty.
    pub fn empty() -> (r: Board)
        ensures
            forall|y: int, x: int| 0 <= y < 10 && 0 <= x < 10 ==> r@[y][x] == PiranhaField::Empty,
    {
        Board {
            rows: [
                empty_row(),
                empty_row(),
                empty_row(),
                empty_row(),
                empty_row(),
                empty_row(),
                empty_row(),
                empty_row(),
                empty_row(),
                empty_row(),
            ],
        }
    }

    /// Decodes a received board; it must have ten rows of ten known tokens.
    pub fn try_from(recv: ReceivedBoard) -> (r: Result<Board, String>)
        ensures
            match r {
                Ok(b) => board_decodes(recv) && board_matches(b@, recv),
                Err(_) => !board_decodes(recv),
            },
    {
        if recv.rows.len() != 10 {
            return Err(String::from_str("a board should contain exactly 10 rows"));
        }
        let mut board = Board::empty();
        let mut i: usize = 0;
        while i < 10
            invariant
                i <= 10,
                recv.rows@.len() == 10,
                forall|y: int| 0 <= y < i ==> (#[trigger] recv.rows@[y]).fields@.len() == 10,
                forall|y: int, x: int|
                    0 <= y < i && 0 <= x < 10 ==> valid_field_token(
                        #[trigger] recv.rows@[y].fields@[x].raw@,
                    ),
                forall|y: int, x: int|
                    0 <= y < i && 0 <= x < 10 ==> field_token(board@[y][x]) == trimmed(
                        #[trigger] recv.rows@[y].fields@[x].raw@,
                    ),
            decreases 10 - i,
        {
            let row = &recv.rows[i];
            if row.fields.len() != 10 {
                return Err(String::from_str("a board row should contain exactly 10 fields"));
            }
            let mut j: usize = 0;
            while j < 10
                invariant
                    i < 10,
                    j <= 10,
                    recv.rows@.len() == 10,
                    *row == recv.rows@[i as int],
                    row.fields@.len() == 10,
                    forall|y: int| 0 <= y < i ==> (#[trigger] recv.rows@[y]).fields@.len() == 10,
                    forall|y: int, x: int|
                        0 <= y < i && 0 <= x < 10 ==> valid_field_token(
                            #[trigger] recv.rows@[y].fields@[x].raw@,
                        ),
                    forall|x: int|
                        0 <= x < j ==> valid_field_token(#[trigger] recv.rows@[i as int].fields@[x].raw@),
                    forall|y: int, x: int|
                        0 <= y < i && 0 <= x < 10 ==> field_token(board@[y][x]) == trimmed(
                            #[trigger] recv.rows@[y].fields@[x].raw@,
                        ),
                    forall|x: int|
                        0 <= x < j ==> field_token(board@[i as int][x]) == trimmed(
                            #[trigger] recv.rows@[i as int].fields@[x].raw@,
                        ),
                decreases 10 - j,
            {
                let f = match PiranhaField::from_str(row.fields[j].raw.as_str()) {
                    Ok(f) => f,
                    Err(e) => {
                        return Err(e);
                    },
                };
                board.rows[i].fields[j] = f;
                j = j + 1;
            }
            i = i + 1;
        }
        Ok(board)
    }
}

/// Cell tokens are told apart and carry no surrounding whitespace: the only
/// cell whose token matches a cell's trimmed token is that cell.
pub proof fn lemma_field_token_round_trip(f: PiranhaField, g: PiranhaField)
    ensures
        trimmed(field_token(f)) == field_token(f),
        field_token(g) == trimmed(field_token(f)) ==> g == f,
{
    reveal_strlit("EMPTY");
    reveal_strlit("SQUID");
    reveal_strlit("ONE_S");
    reveal_strlit("ONE_M");
    reveal_strlit("ONE_L");
    reveal_strlit("TWO_S");
    reveal_strlit("TWO_M");
    reveal_strlit("TWO_L");
    let t = field_token(f);
    assert(t.len() > 0 && !is_ws(t[0]) && !is_ws(t.last()));
    assert(trim_start(t) == t);
    assert(trim_end(t) == t);
    if field_token(g) == t && g != f {
        assert(field_token(g)[0] == t[0]);
        assert(field_token(g)[field_token(g).len() - 1] == t[t.len() - 1]);
    }
}

/// Snapshot decoding is exact: a received board whose fields hold the tokens
/// of board `c` decodes to exactly `c`, every cell's team and size, emptiness
/// or obstacle included.
pub proof fn lemma_board_round_trip(c: BoardView, rb: ReceivedBoard, b: BoardView)
    requires
        board_shape(c),
        board_shape(b),
        rb.rows@.len() == 10,
        forall|y: int| 0 <= y < 10 ==> (#[trigger] rb.rows@[y]).fields@.len() == 10,
        forall|y: int, x: int|
            0 <= y < 10 && 0 <= x < 10 ==> (#[trigger] rb.rows@[y].fields@[x].raw@) == field_token(
                c[y][x],
            ),
        board_matches(b, rb),
    ensures
        b == c,
{
    assert forall|y: int, x: int| 0 <= y < 10 && 0 <= x < 10 implies b[y][x] == c[y][x] by {
        assert(rb.rows@[y].fields@[x].raw@ == field_token(c[y][x]));
        lemma_field_token_round_trip(c[y][x], b[y][x]);
    }
    assert(b =~~= c);
}

/// Side to move: the starting team on even turns, its opponent on odd ones.
pub open spec fn team_to_move(start_team: Team, turn: u32) -> Team {
    if turn % 2 == 0 {
        start_team
    } else {
        opponent_of(start_team)
    }
}

/// Whether `m` starts on the board.
pub open spec fn move_on_board(m: Move) -> bool {
    m.from.0 < 10 && m.from.1 < 10
}

/// Square where the piece of `m` lands on `b`: its run length along the
/// direction, clamped to the board.
pub open spec fn landing(b: BoardView, m: Move) -> (int, int) {
    goal_pos(m.from, m.dir, run_length(b, m.from.0 as int, m.from.1 as int, m.dir) as int)
}

/// `b` with cell (x, y) replaced by `f`.
pub open spec fn set_cell(b: BoardView, x: int, y: int, f: PiranhaField) -> BoardView {
    b.update(y, b[y].update(x, f))
}

/// Board after `m` is made on `b`: the origin is emptied and the landing
/// square receives the moving piece.
pub open spec fn moved_board(b: BoardView, m: Move) -> BoardView {
    let (fx, fy) = (m.from.0 as int, m.from.1 as int);
    let (gx, gy) = landing(b, m);
    set_cell(set_cell(b, fx, fy, PiranhaField::Empty), gx, gy, b[fy][fx])
}

/// Undo record that making `m` on `b` produces.
pub open spec fn move_change(b: BoardView, m: Move) -> MoveChange {
    let (gx, gy) = landing(b, m);
    MoveChange {
        initial_square: m.from,
        final_square: (gx as u8, gy as u8),
        fish_at_final: if b[gy][gx] is Empty {
            None
        } else {
            Some(b[gy][gx])
        },
    }
}

/// Board after `c` is undone on `b`: the origin gets back what stands on the
/// landing square, and the landing square gets back what was captured, or
/// nothing.
pub open spec fn unmade_board(b: BoardView, c: MoveChange) -> BoardView {
    let (fx, fy) = (c.initial_square.0 as int, c.initial_square.1 as int);
    let (gx, gy) = (c.final_square.0 as int, c.final_square.1 as int);
    let restored = match c.fish_at_final {
        Some(f) => f,
        None => PiranhaField::Empty,
    };
    set_cell(set_cell(b, fx, fy, b[gy][gx]), gx, gy, restored)
}

/// Whether move generation on board `b` for `team` yields `m`: a piece of
/// `team` stands on its origin and it is legal over its run length.
pub open spec fn is_generated(b: BoardView, team: Team, m: Move) -> bool {
    let (x, y) = (m.from.0 as int, m.from.1 as int);
    &&& move_on_board(m)
    &&& is_team_fish(b[y][x], team)
    &&& is_legal(b, x, y, m.dir, run_length(b, x, y, m.dir) as int, team)
}

/// Whether `s` is the token of a team.
pub open spec fn valid_team_token(s: Seq<char>) -> bool {
    exists|t: Team| team_token(t) == s
}

/// Whether a received last move has both children and a known direction.
pub open spec fn last_move_decodes(lm: ReceivedLastMove) -> bool {
    &&& lm.from.is_some()
    &&& lm.direction.is_some()
    &&& exists|d: Direction| direction_token(d) == lm.direction.unwrap().value@
}

/// Whether `m` is the move that a received last move describes.
pub open spec fn last_move_matches(m: Move, lm: ReceivedLastMove) -> bool {
    &&& m.from == (lm.from.unwrap().x, lm.from.unwrap().y)
    &&& direction_token(m.dir) == lm.direction.unwrap().value@
}

/// Whether a received state has a known start team, a turn, a board that
/// decodes, and, if it has a last move, one that decodes.
pub open spec fn state_decodes(rs: ReceivedState) -> bool {
    &&& rs.start_team.is_some()
    &&& valid_team_token(rs.start_team.unwrap()@)
    &&& rs.turn.is_some()
    &&& rs.last_move.is_some() ==> last_move_decodes(rs.last_move.unwrap())
    &&& rs.board.is_some()
    &&& board_decodes(rs.board.unwrap())
}

/// Whether `g` is the game state that a received state describes.
pub open spec fn state_matches(g: GameState, rs: ReceivedState) -> bool {
    &&& g.class == rs.class
    &&& team_token(g.start_team) == rs.start_team.unwrap()@
    &&& g.turn == rs.turn.unwrap()
    &&& board_matches(g.board@, rs.board.unwrap())
    &&& g.last_move.is_some() == rs.last_move.is_some()
    &&& g.last_move.is_some() ==> last_move_matches(g.last_move.unwrap(), rs.last_move.unwrap())
}

/// Generated moves from (x, y) over the first `k` directions of
/// `generation_order`, in that order.
pub open spec fn cell_moves(b: BoardView, team: Team, x: int, y: int, k: int) -> Seq<Move>
    decreases k,
{
    if k <= 0 {
        Seq::empty()
    } else {
        let m = Move { from: (x as u8, y as u8), dir: generation_order()[k - 1] };
        cell_moves(b, team, x, y, k - 1) + if is_generated(b, team, m) {
            seq![m]
        } else {
            Seq::empty()
        }
    }
}

/// Generated moves from the first `x` squares of row `y`, left to right.
pub open spec fn row_moves(b: BoardView, team: Team, y: int, x: int) -> Seq<Move>
    decreases x,
{
    if x <= 0 {
        Seq::empty()
    } else {
        row_moves(b, team, y, x - 1) + cell_moves(b, team, x - 1, y, 8)
    }
}

/// Generated moves from the first `y` rows, bottom row first.
pub open spec fn board_moves(b: BoardView, team: Team, y: int) -> Seq<Move>
    decreases y,
{
    if y <= 0 {
        Seq::empty()
    } else {
        board_moves(b, team, y - 1) + row_moves(b, team, y - 1, 10)
    }
}

proof fn lemma_cell_moves_empty(b: BoardView, team: Team, x: int, y: int, k: int)
    requires
        0 <= x < 10,
        0 <= y < 10,
        !is_team_fish(b[y][x], team),
    ensures
        cell_moves(b, team, x, y, k) == Seq::<Move>::empty(),
    decreases k,
{
    if k > 0 {
        lemma_cell_moves_empty(b, team, x, y, k - 1);
        let m = Move { from: (x as u8, y as u8), dir: generation_order()[k - 1] };
        assert(!is_generated(b, team, m));
        assert(cell_moves(b, team, x, y, k) =~= Seq::<Move>::empty());
    }
}

/// A snapshot of a game: whose turn it is and the board.
#[derive(Debug, PartialEq, Eq, Clone, Default)]
pub struct GameState {
    pub class: Option<String>,
    pub start_team: Team,
    pub turn: u32,
    pub board: Board,
    pub last_move: Option<Move>,
}

/// What `make_move` changed, so that `unmake_move` can restore it.
#[derive(Debug, Clone, Copy)]
pub struct MoveChange {
    pub initial_square: (u8, u8),
    pub final_square: (u8, u8),
    /// The captured cell, if the landing square was not empty.
    pub fish_at_final: Option<PiranhaField>,
}

impl MoveChange {
    /// Both squares lie on the board.
    pub open spec fn wf(&self) -> bool {
        self.initial_square.0 < 10 && self.initial_square.1 < 10 && self.final_square.0 < 10
            && self.final_square.1 < 10
    }
}

/// The eight directions in the order in which moves are generated.
pub open spec fn generation_order() -> Seq<Direction> {
    seq![
        Direction::Left,
        Direction::Right,
        Direction::UP,
        Direction::Down,
        Direction::UpLeft,
        Direction::UpRight,
        Direction::DownLeft,
        Direction::DownRight,
    ]
}

impl GameState {
    pub fn new_with_board(board: Board, start_team: Team) -> (r: GameState)
        ensures
            r.class.is_none(),
            r.start_team == start_team,
            r.turn == 0,
            r.board == board,
            r.last_move.is_none(),
    {
        GameState { class: None, start_team, turn: 0, board, last_move: None }
    }

    /// Decodes a received state; start team, turn and board are required.
    pub fn try_from(recv: ReceivedState) -> (r: Result<GameState, String>)
        ensures
            match r {
                Ok(g) => state_decodes(recv) && state_matches(g, recv),
                Err(_) => !state_decodes(recv),
            },
    {
        let start_team = match &recv.start_team {
            Some(t) => Team::try_from(t.as_str())?,
            None => {
                return Err(
                    String::from_str("a received state should contain a start team"),
                );
            },
        };
        let turn = match recv.turn {
            Some(t) => t,
            None => {
                return Err(String::from_str("a received state should contain a turn"));
            },
        };
        let last_move = match &recv.last_move {
            Some(lm) => Some(Move::try_from(lm)?),
            None => None,
        };
        let board = match recv.board {
            Some(b) => Board::try_from(b)?,
            None => {
                return Err(String::from_str("a received state should contain a board"));
            },
        };
        Ok(GameState { class: recv.class, start_team, turn, board, last_move })
    }

    pub fn current_team(&self) -> (r: Team)
        ensures
            r == team_to_move(self.start_team, self.turn),
    {
        if self.turn % 2 == 0 {
            self.start_team
        } else {
            self.start_team.opponent()
        }
    }

    /// All moves of the side to move, origins scanned row by row from the
    /// bottom and left to right within a row, directions in `generation_order`;
    /// two calls on the same state give equal lists.
    pub fn possible_moves(&self) -> (r: Vec<Move>)
        ensures
            forall|m: Move|
                r@.contains(m) <==> is_generated(self.board@, team_to_move(self.start_team, self.turn), m),
            r@.no_duplicates(),
            r@ == board_moves(self.board@, team_to_move(self.start_team, self.turn), 10),
    {
        let mut moves: Vec<Move> = Vec::new();
        let team = self.current_team();
        let ghost b = self.board@;
        let dirs = [
            Direction::Left,
            Direction::Right,
            Direction::UP,
            Direction::Down,
            Direction::UpLeft,
            Direction::UpRight,
            Direction::DownLeft,
            Direction::DownRight,
        ];
        assert(dirs@ =~= generation_order());
        assert(dirs@.no_duplicates()) by {
            assert forall|i: int, j: int|
                0 <= i < 8 && 0 <= j < 8 && i != j implies dirs@[i] != dirs@[j] by {
                assert(dirs@[0] == Direction::Left && dirs@[1] == Direction::Right && dirs@[2]
                    == Direction::UP && dirs@[3] == Direction::Down && dirs@[4] == Direction::UpLeft
                    && dirs@[5] == Direction::UpRight && dirs@[6] == Direction::DownLeft && dirs@[7]
                    == Direction::DownRight);
            }
        }
        let mut y: usize = 0;
        while y < 10
            invariant
                y <= 10,
                b == self.board@,
                team == team_to_move(self.start_team, self.turn),
                dirs@ == generation_order(),
                dirs@.no_duplicates(),
                moves@.no_duplicates(),
                moves@ == board_moves(b, team, y as int),
                forall|m: Move|
                    moves@.contains(m) <==> (is_generated(b, team, m) && (m.from.1 as int) < y),
            decreases 10 - y,
        {
            let mut x: usize = 0;
            while x < 10
                invariant
                    x <= 10,
                    y < 10,
                    b == self.board@,
                    team == team_to_move(self.start_team, self.turn),
                    dirs@ == generation_order(),
                    dirs@.no_duplicates(),
                    moves@.no_duplicates(),
                    moves@ == board_moves(b, team, y as int) + row_moves(b, team, y as int, x as int),
                    forall|m: Move|
                        moves@.contains(m) <==> (is_generated(b, team, m) && ((m.from.1 as int) < y
                            || (m.from.1 as int == y && (m.from.0 as int) < x))),
                decreases 10 - x,
            {
                let cell = *self.board.get(x, y);
                let own = match cell {
                    PiranhaField::Fish { team: t, .. } => t == team,
                    _ => false,
                };
                if own {
                    let mut k: usize = 0;
                    while k < 8
                        invariant
                            k <= 8,
                            x < 10,
                            y < 10,
                            is_team_fish(b[y as int][x as int], team),
                            b == self.board@,
                            team == team_to_move(self.start_team, self.turn),
                            dirs@ == generation_order(),
                            dirs@.no_duplicates(),
                            moves@.no_duplicates(),
                            moves@ == board_moves(b, team, y as int) + row_moves(b, team, y as int, x as int)
                                + cell_moves(b, team, x as int, y as int, k as int),
                            forall|m: Move|
                                moves@.contains(m) <==> (is_generated(b, team, m) && ((m.from.1 as int)
                                    < y || (m.from.1 as int == y && (m.from.0 as int) < x) || (
                                m.from.1 as int == y && m.from.0 as int == x
                                    && dirs@.subrange(0, k as int).contains(m.dir)))),
                        decreases 8 - k,
                    {
                        let dir = dirs[k];
                        let dis = self.board.count_fishes_on_axis(x, y, dir);
                        let ok = Board::check_allowed(&self.board, x, y, dir, dis, team);
                        let ghost old_moves = moves@;
                        let mv = Move { from: (x as u8, y as u8), dir };
                        proof {
                            if old_moves.contains(mv) {
                                let i = choose|i: int| 0 <= i < k && #[trigger] dirs@.subrange(0, k as int)[i] == dir;
                                assert(dirs@[i] == dirs@[k as int]);
                            }
                        }
                        if ok {
                            moves.push(mv);
                        }
                        proof {
                            assert(ok == is_generated(b, team, mv));
                            assert(dir == generation_order()[k as int]);
                            assert(moves@ =~= board_moves(b, team, y as int) + row_moves(b, team, y as int, x as int)
                                + cell_moves(b, team, x as int, y as int, k + 1));
                            assert(dirs@.subrange(0, k + 1) =~= dirs@.subrange(0, k as int).push(dir));
                            assert forall|m: Move|
                                moves@.contains(m) <==> (is_generated(b, team, m) && ((m.from.1 as int)
                                    < y || (m.from.1 as int == y && (m.from.0 as int) < x) || (
                                m.from.1 as int == y && m.from.0 as int == x
                                    && dirs@.subrange(0, k + 1).contains(m.dir)))) by {
                                if ok {
                                    assert(moves@ == old_moves.push(mv));
                                    if m == mv {
                                        assert(moves@[old_moves.len() as int] == mv);
                                    }
                                    if moves@.contains(m) && m != mv {
                                        let i = choose|i: int| 0 <= i < moves@.len() && moves@[i] == m;
                                        assert(old_moves[i] == m);
                                    }
                                    if old_moves.contains(m) {
                                        let i = choose|i: int| 0 <= i < old_moves.len() && old_moves[i] == m;
                                        assert(moves@[i] == m);
                                    }
                                } else {
                                    assert(moves@ == old_moves);
                                }
                                if dirs@.subrange(0, k + 1).contains(m.dir) && m.dir != dir {
                                    let i = choose|i: int| 0 <= i < k + 1 && #[trigger] dirs@.subrange(0, k + 1)[i] == m.dir;
                                    assert(dirs@.subrange(0, k as int)[i] == m.dir);
                                }
                                if dirs@.subrange(0, k as int).contains(m.dir) {
                                    let i = choose|i: int| 0 <= i < k && #[trigger] dirs@.subrange(0, k as int)[i] == m.dir;
                                    assert(dirs@.subrange(0, k + 1)[i] == m.dir);
                                }
                                if m.dir == dir {
                                    assert(dirs@.subrange(0, k + 1)[k as int] == m.dir);
                                }
                            }
                        }
                        k = k + 1;
                    }
                    proof {
                        assert(dirs@.subrange(0, 8) =~= dirs@);
                        assert forall|d: Direction| dirs@.contains(d) by {
                            match d {
                                Direction::Left => assert(dirs@[0] == d),
                                Direction::Right => assert(dirs@[1] == d),
                                Direction::UP => assert(dirs@[2] == d),
                                Direction::Down => assert(dirs@[3] == d),
                                Direction::UpLeft => assert(dirs@[4] == d),
                                Direction::UpRight => assert(dirs@[5] == d),
                                Direction::DownLeft => assert(dirs@[6] == d),
                                Direction::DownRight => assert(dirs@[7] == d),
                            }
                        }
                    }
                } else {
                    proof {
                        lemma_cell_moves_empty(b, team, x as int, y as int, 8);
                    }
                }
                assert(moves@ =~= board_moves(b, team, y as int) + row_moves(b, team, y as int, x + 1));
                x = x + 1;
            }
            assert(moves@ =~= board_moves(b, team, y + 1));
            y = y + 1;
        }
        moves
    }

    /// Makes `mv` without checking that it is legal.
    pub fn make_move(&mut self, mv: Move) -> (r: MoveChange)
        requires
            move_on_board(mv),
        ensures
            final(self).board@ == moved_board(old(self).board@, mv),
            r == move_change(old(self).board@, mv),
            r.wf(),
            final(self).class == old(self).class,
            final(self).start_team == old(self).start_team,
            final(self).turn == old(self).turn,
            final(self).last_move == old(self).last_move,
    {
        let dis = self.board.count_fishes_on_axis(mv.from.0 as usize, mv.from.1 as usize, mv.dir);
        let goal = mv.to_goal_pos(dis);
        let (fx, fy) = (mv.from.0 as usize, mv.from.1 as usize);
        let (gx, gy) = (goal.0 as usize, goal.1 as usize);
        let field_at_goal = *self.board.get(gx, gy);
        let field_at_initial = *self.board.get(fx, fy);
        let fish_at_final = match field_at_goal {
            PiranhaField::Empty => None,
            _ => Some(field_at_goal),
        };
        *self.board.get_mut(fx, fy) = PiranhaField::Empty;
        *self.board.get_mut(gx, gy) = field_at_initial;
        MoveChange { initial_square: mv.from, final_square: goal, fish_at_final }
    }

    /// Reverts the move that produced `change`.
    pub fn unmake_move(&mut self, change: MoveChange)
        requires
            change.wf(),
        ensures
            final(self).board@ == unmade_board(old(self).board@, change),
            final(self).class == old(self).class,
            final(self).start_team == old(self).start_team,
            final(self).turn == old(self).turn,
            final(self).last_move == old(self).last_move,
    {
        let (fx, fy) = (change.initial_square.0 as usize, change.initial_square.1 as usize);
        let (gx, gy) = (change.final_square.0 as usize, change.final_square.1 as usize);
        let moved = *self.board.get(gx, gy);
        *self.board.get_mut(fx, fy) = moved;
        match change.fish_at_final {
            Some(fish) => {
                *self.board.get_mut(gx, gy) = fish;
            },
            None => {
                *self.board.get_mut(gx, gy) = PiranhaField::Empty;
            },
        }
    }
}

/// Board reached from `b` by making the moves of `ms` in order.
pub open spec fn play(b: BoardView, ms: Seq<Move>) -> BoardView
    decreases ms.len(),
{
    if ms.len() == 0 {
        b
    } else {
        moved_board(play(b, ms.drop_last()), ms.last())
    }
}

/// Undo records produced while making the moves of `ms` in order from `b`.
pub open spec fn play_changes(b: BoardView, ms: Seq<Move>) -> Seq<MoveChange>
    decreases ms.len(),
{
    if ms.len() == 0 {
        Seq::empty()
    } else {
        play_changes(b, ms.drop_last()).push(move_change(play(b, ms.drop_last()), ms.last()))
    }
}

/// Board after undoing the records of `cs` from last to first.
pub open spec fn undo_all(b: BoardView, cs: Seq<MoveChange>) -> BoardView
    decreases cs.len(),
{
    if cs.len() == 0 {
        b
    } else {
        undo_all(unmade_board(b, cs.last()), cs.drop_last())
    }
}

/// Undoing a move with the record that making it produced restores the board.
pub proof fn lemma_make_unmake(b: BoardView, m: Move)
    requires
        board_shape(b),
        move_on_board(m),
    ensures
        board_shape(moved_board(b, m)),
        move_change(b, m).wf(),
        unmade_board(moved_board(b, m), move_change(b, m)) == b,
{
    let (gx, gy) = landing(b, m);
    assert(0 <= gx < 10 && 0 <= gy < 10);
    assert(unmade_board(moved_board(b, m), move_change(b, m)) =~~= b);
}

/// Make/unmake inverse: making any sequence of on-board moves and then undoing
/// the produced records in reverse order gives back the starting board.
pub proof fn lemma_make_unmake_sequence(b: BoardView, ms: Seq<Move>)
    requires
        board_shape(b),
        forall|i: int| 0 <= i < ms.len() ==> move_on_board(#[trigger] ms[i]),
    ensures
        board_shape(play(b, ms)),
        play_changes(b, ms).len() == ms.len(),
        undo_all(play(b, ms), play_changes(b, ms)) == b,
    decreases ms.len(),
{
    if ms.len() > 0 {
        let rest = ms.drop_last();
        assert forall|i: int| 0 <= i < rest.len() implies move_on_board(#[trigger] rest[i]) by {
            assert(rest[i] == ms[i]);
        }
        lemma_make_unmake_sequence(b, rest);
        assert(move_on_board(ms[ms.len() - 1]));
        lemma_make_unmake(play(b, rest), ms.last());
        let cs = play_changes(b, ms);
        assert(cs.drop_last() =~= play_changes(b, rest));
    }
}

/// A valid unit step: each component in -1..=1, not both zero.
pub open spec fn unit_step(dx: int, dy: int) -> bool {
    -1 <= dx <= 1 && -1 <= dy <= 1 && (dx != 0 || dy != 0)
}

/// Changing a square that lies behind the start of a ray does not change the
/// ray's count.
proof fn lemma_ray_behind(
    b: BoardView,
    x: int,
    y: int,
    dx: int,
    dy: int,
    j: int,
    f: PiranhaField,
)
    requires
        board_shape(b),
        unit_step(dx, dy),
        j >= 1,
        in_board(along(x, dx, -j), along(y, dy, -j)),
    ensures
        ray_count(set_cell(b, along(x, dx, -j), along(y, dy, -j), f), x, y, dx, dy) == ray_count(
            b,
            x,
            y,
            dx,
            dy,
        ),
    decreases ray_measure(x, y, dx, dy),
{
    let px = along(x, dx, -j);
    let py = along(y, dy, -j);
    let b2 = set_cell(b, px, py, f);
    if in_board(x, y) {
        assert(x != px || y != py);
        assert(b2[y][x] == b[y][x]);
        assert(along(x + dx, dx, -(j + 1)) == px);
        assert(along(y + dy, dy, -(j + 1)) == py);
        lemma_ray_behind(b, x + dx, y + dy, dx, dy, j + 1, f);
    }
}

/// Putting a piece on an empty square of a ray that starts on the board
/// raises the ray's count by one.
proof fn lemma_ray_on(b: BoardView, x: int, y: int, dx: int, dy: int, k: int, f: PiranhaField)
    requires
        board_shape(b),
        unit_step(dx, dy),
        k >= 0,
        in_board(x, y),
        in_board(along(x, dx, k), along(y, dy, k)),
        !is_fish(b[along(y, dy, k)][along(x, dx, k)]),
        is_fish(f),
    ensures
        ray_count(set_cell(b, along(x, dx, k), along(y, dy, k), f), x, y, dx, dy) == ray_count(
            b,
            x,
            y,
            dx,
            dy,
        ) + 1,
    decreases k,
{
    let px = along(x, dx, k);
    let py = along(y, dy, k);
    let b2 = set_cell(b, px, py, f);
    if k == 0 {
        assert(px == x && py == y);
        assert(b2[y][x] == f);
        assert(along(x + dx, dx, -1) == x);
        assert(along(y + dy, dy, -1) == y);
        if in_board(x + dx, y + dy) {
            lemma_ray_behind(b, x + dx, y + dy, dx, dy, 1, f);
        }
        assert(ray_count(b2, x + dx, y + dy, dx, dy) == ray_count(b, x + dx, y + dy, dx, dy));
        assert(ray_count(b2, x, y, dx, dy) == 1 + ray_count(b2, x + dx, y + dy, dx, dy));
        assert(ray_count(b, x, y, dx, dy) == 0 + ray_count(b, x + dx, y + dy, dx, dy));
    } else {
        assert(x != px || y != py);
        assert(b2[y][x] == b[y][x]);
        assert(in_board(x + dx, y + dy));
        assert(along(x + dx, dx, k - 1) == px);
        assert(along(y + dy, dy, k - 1) == py);
        lemma_ray_on(b, x + dx, y + dy, dx, dy, k - 1, f);
        assert(ray_count(b2, x, y, dx, dy) == (if is_fish(b[y][x]) { 1nat } else { 0nat })
            + ray_count(b2, x + dx, y + dy, dx, dy));
    }
}

/// A ray with no piece on any of its squares counts zero.
proof fn lemma_ray_empty(b: BoardView, x: int, y: int, dx: int, dy: int)
    requires
        unit_step(dx, dy),
        forall|i: int|
            i >= 0 && in_board(#[trigger] along(x, dx, i), along(y, dy, i)) ==> !is_fish(
                b[along(y, dy, i)][along(x, dx, i)],
            ),
    ensures
        ray_count(b, x, y, dx, dy) == 0,
    decreases ray_measure(x, y, dx, dy),
{
    if in_board(x, y) {
        assert(along(x, dx, 0) == x && along(y, dy, 0) == y);
        assert forall|i: int|
            i >= 0 && in_board(#[trigger] along(x + dx, dx, i), along(y + dy, dy, i)) implies !is_fish(
                b[along(y + dy, dy, i)][along(x + dx, dx, i)],
            ) by {
            assert(along(x + dx, dx, i) == along(x, dx, i + 1));
            assert(along(y + dy, dy, i) == along(y, dy, i + 1));
        }
        lemma_ray_empty(b, x + dx, y + dy, dx, dy);
    }
}

/// Run length of an empty line: with no piece on any square of the line
/// through (x, y) along `d`, the run length is zero.
pub proof fn lemma_run_length_empty_line(b: BoardView, x: int, y: int, d: Direction)
    requires
        board_shape(b),
        in_board(x, y),
        forall|k: int|
            in_board(#[trigger] along(x, delta(d).0, k), along(y, delta(d).1, k)) ==> !is_fish(
                b[along(y, delta(d).1, k)][along(x, delta(d).0, k)],
            ),
    ensures
        run_length(b, x, y, d) == 0,
{
    let (dx, dy) = delta(d);
    assert(along(x, dx, 0) == x && along(y, dy, 0) == y);
    assert forall|i: int|
        i >= 0 && in_board(#[trigger] along(x + dx, dx, i), along(y + dy, dy, i)) implies !is_fish(
            b[along(y + dy, dy, i)][along(x + dx, dx, i)],
        ) by {
        assert(along(x + dx, dx, i) == along(x, dx, i + 1));
        assert(along(y + dy, dy, i) == along(y, dy, i + 1));
    }
    lemma_ray_empty(b, x + dx, y + dy, dx, dy);
    assert forall|i: int|
        i >= 0 && in_board(#[trigger] along(x - dx, -dx, i), along(y - dy, -dy, i)) implies !is_fish(
            b[along(y - dy, -dy, i)][along(x - dx, -dx, i)],
        ) by {
        assert(along(x - dx, -dx, i) == along(x, dx, -(i + 1)));
        assert(along(y - dy, -dy, i) == along(y, dy, -(i + 1)));
    }
    lemma_ray_empty(b, x - dx, y - dy, -dx, -dy);
}

/// Run-length counting: putting a piece on an empty square anywhere on the
/// line through (x, y) along `d` (ahead, behind, or (x, y) itself) raises the
/// run length by exactly one. Repeated k times it raises it by k.
pub proof fn lemma_run_length_add(
    b: BoardView,
    x: int,
    y: int,
    d: Direction,
    k: int,
    f: PiranhaField,
)
    requires
        board_shape(b),
        in_board(x, y),
        in_board(along(x, delta(d).0, k), along(y, delta(d).1, k)),
        !is_fish(b[along(y, delta(d).1, k)][along(x, delta(d).0, k)]),
        is_fish(f),
    ensures
        run_length(
            set_cell(b, along(x, delta(d).0, k), along(y, delta(d).1, k), f),
            x,
            y,
            d,
        ) == run_length(b, x, y, d) + 1,
{
    let (dx, dy) = delta(d);
    let px = along(x, dx, k);
    let py = along(y, dy, k);
    let b2 = set_cell(b, px, py, f);
    if k == 0 {
        assert(px == x && py == y);
        assert(along(x + dx, dx, -1) == x && along(y + dy, dy, -1) == y);
        if in_board(x + dx, y + dy) {
            lemma_ray_behind(b, x + dx, y + dy, dx, dy, 1, f);
        }
        assert(along(x - dx, -dx, -1) == x && along(y - dy, -dy, -1) == y);
        if in_board(x - dx, y - dy) {
            lemma_ray_behind(b, x - dx, y - dy, -dx, -dy, 1, f);
        }
    } else if k > 0 {
        assert(x != px || y != py);
        assert(b2[y][x] == b[y][x]);
        assert(in_board(x + dx, y + dy));
        assert(along(x + dx, dx, k - 1) == px && along(y + dy, dy, k - 1) == py);
        lemma_ray_on(b, x + dx, y + dy, dx, dy, k - 1, f);
        assert(along(x - dx, -dx, -(k + 1)) == px && along(y - dy, -dy, -(k + 1)) == py);
        if in_board(x - dx, y - dy) {
            lemma_ray_behind(b, x - dx, y - dy, -dx, -dy, k + 1, f);
        }
    } else {
        assert(x != px || y != py);
        assert(b2[y][x] == b[y][x]);
        assert(in_board(x - dx, y - dy));
        assert(along(x - dx, -dx, -k - 1) == px && along(y - dy, -dy, -k - 1) == py);
        lemma_ray_on(b, x - dx, y - dy, -dx, -dy, -k - 1, f);
        assert(along(x + dx, dx, -(1 - k)) == px && along(y + dy, dy, -(1 - k)) == py);
        if in_board(x + dx, y + dy) {
            lemma_ray_behind(b, x + dx, y + dy, dx, dy, 1 - k, f);
        }
    }
}

/// Run length of a line holding exactly one piece, wherever on the line it
/// stands, is one.
pub proof fn lemma_run_length_single(b: BoardView, x: int, y: int, d: Direction, k: int)
    requires
        board_shape(b),
        in_board(x, y),
        in_board(along(x, delta(d).0, k), along(y, delta(d).1, k)),
        is_fish(b[along(y, delta(d).1, k)][along(x, delta(d).0, k)]),
        forall|i: int|
            i != k && in_board(#[trigger] along(x, delta(d).0, i), along(y, delta(d).1, i))
                ==> !is_fish(b[along(y, delta(d).1, i)][along(x, delta(d).0, i)]),
    ensures
        run_length(b, x, y, d) == 1,
{
    let (dx, dy) = delta(d);
    let px = along(x, dx, k);
    let py = along(y, dy, k);
    let f = b[py][px];
    let b0 = set_cell(b, px, py, PiranhaField::Empty);
    assert forall|i: int|
        in_board(#[trigger] along(x, dx, i), along(y, dy, i)) implies !is_fish(
            b0[along(y, dy, i)][along(x, dx, i)],
        ) by {
        if i != k {
            if along(x, dx, i) == px && along(y, dy, i) == py {
            } else {
                assert(b0[along(y, dy, i)][along(x, dx, i)] == b[along(y, dy, i)][along(x, dx, i)]);
            }
        }
    }
    lemma_run_length_empty_line(b0, x, y, d);
    lemma_run_length_add(b0, x, y, d, k, f);
    assert(set_cell(b0, px, py, f) =~~= b);
}

/// `b` with the pieces of `fs` put on the squares of the line through (x, y)
/// along `d` at the matching offsets of `ks`, in order.
pub open spec fn with_pieces(
    b: BoardView,
    x: int,
    y: int,
    d: Direction,
    ks: Seq<int>,
    fs: Seq<PiranhaField>,
) -> BoardView
    decreases ks.len(),
{
    if ks.len() == 0 {
        b
    } else {
        let k = ks.last();
        set_cell(
            with_pieces(b, x, y, d, ks.drop_last(), fs.drop_last()),
            along(x, delta(d).0, k),
            along(y, delta(d).1, k),
            fs.last(),
        )
    }
}

proof fn lemma_with_pieces_frame(
    b: BoardView,
    x: int,
    y: int,
    d: Direction,
    ks: Seq<int>,
    fs: Seq<PiranhaField>,
    qx: int,
    qy: int,
)
    requires
        board_shape(b),
        fs.len() == ks.len(),
        forall|i: int|
            0 <= i < ks.len() ==> in_board(
                #[trigger] along(x, delta(d).0, ks[i]),
                along(y, delta(d).1, ks[i]),
            ),
        in_board(qx, qy),
        forall|i: int|
            0 <= i < ks.len() ==> !(#[trigger] along(x, delta(d).0, ks[i]) == qx && along(
                y,
                delta(d).1,
                ks[i],
            ) == qy),
    ensures
        board_shape(with_pieces(b, x, y, d, ks, fs)),
        with_pieces(b, x, y, d, ks, fs)[qy][qx] == b[qy][qx],
    decreases ks.len(),
{
    if ks.len() > 0 {
        let rest = ks.drop_last();
        assert forall|i: int| 0 <= i < rest.len() implies in_board(
            #[trigger] along(x, delta(d).0, rest[i]),
            along(y, delta(d).1, rest[i]),
        ) by {
            assert(rest[i] == ks[i]);
        }
        assert forall|i: int| 0 <= i < rest.len() implies !(#[trigger] along(
            x,
            delta(d).0,
            rest[i],
        ) == qx && along(y, delta(d).1, rest[i]) == qy) by {
            assert(rest[i] == ks[i]);
        }
        lemma_with_pieces_frame(b, x, y, d, rest, fs.drop_last(), qx, qy);
        let k = ks.last();
        assert(along(x, delta(d).0, ks[ks.len() - 1]) == along(x, delta(d).0, k));
    }
}

/// Run-length counting, k pieces at once: putting pieces of either team on k
/// distinct empty squares of the line through (x, y) along `d`, on either side
/// or on (x, y) itself, raises the run length by exactly k.
pub proof fn lemma_run_length_add_many(
    b: BoardView,
    x: int,
    y: int,
    d: Direction,
    ks: Seq<int>,
    fs: Seq<PiranhaField>,
)
    requires
        board_shape(b),
        in_board(x, y),
        fs.len() == ks.len(),
        forall|i: int| 0 <= i < fs.len() ==> is_fish(#[trigger] fs[i]),
        ks.no_duplicates(),
        forall|i: int|
            0 <= i < ks.len() ==> in_board(
                #[trigger] along(x, delta(d).0, ks[i]),
                along(y, delta(d).1, ks[i]),
            ) && !is_fish(b[along(y, delta(d).1, ks[i])][along(x, delta(d).0, ks[i])]),
    ensures
        board_shape(with_pieces(b, x, y, d, ks, fs)),
        run_length(with_pieces(b, x, y, d, ks, fs), x, y, d) == run_length(b, x, y, d) + ks.len(),
    decreases ks.len(),
{
    if ks.len() > 0 {
        let (dx, dy) = delta(d);
        let rest = ks.drop_last();
        let k = ks.last();
        assert(k == ks[ks.len() - 1]);
        assert forall|i: int| 0 <= i < rest.len() implies in_board(
            #[trigger] along(x, delta(d).0, rest[i]),
            along(y, delta(d).1, rest[i]),
        ) && !is_fish(b[along(y, delta(d).1, rest[i])][along(x, delta(d).0, rest[i])]) by {
            assert(rest[i] == ks[i]);
        }
        assert(rest.no_duplicates()) by {
            assert forall|i: int, j: int|
                0 <= i < rest.len() && 0 <= j < rest.len() && i != j implies rest[i] != rest[j] by {
                assert(rest[i] == ks[i] && rest[j] == ks[j]);
            }
        }
        let frest = fs.drop_last();
        assert forall|i: int| 0 <= i < frest.len() implies is_fish(#[trigger] frest[i]) by {
            assert(frest[i] == fs[i]);
        }
        lemma_run_length_add_many(b, x, y, d, rest, frest);
        let px = along(x, dx, k);
        let py = along(y, dy, k);
        assert(in_board(along(x, dx, ks[ks.len() - 1]), along(y, dy, ks[ks.len() - 1])));
        assert forall|i: int| 0 <= i < rest.len() implies !(#[trigger] along(x, delta(d).0, rest[i])
            == px && along(y, delta(d).1, rest[i]) == py) by {
            assert(rest[i] == ks[i]);
            assert(ks[i] != ks[ks.len() - 1]);
        }
        lemma_with_pieces_frame(b, x, y, d, rest, frest, px, py);
        assert(is_fish(fs[fs.len() - 1]));
        lemma_run_length_add(with_pieces(b, x, y, d, rest, frest), x, y, d, k, fs.last());
    }
}

/// The boundaries of the legality rule: a distance of zero, an opposing piece
/// passed over, or a destination holding an obstacle or an own piece make a
/// move illegal; landing on an opposing piece over a clear path is legal.
pub proof fn lemma_legality_boundary(
    b: BoardView,
    x: int,
    y: int,
    d: Direction,
    dis: int,
    us: Team,
)
    ensures
        dis <= 0 ==> !is_legal(b, x, y, d, dis, us),
        (exists|i: int|
            1 <= i < dis && is_team_fish(
                #[trigger] b[along(y, delta(d).1, i)][along(x, delta(d).0, i)],
                opponent_of(us),
            )) ==> !is_legal(b, x, y, d, dis, us),
        b[along(y, delta(d).1, dis)][along(x, delta(d).0, dis)] is Squid ==> !is_legal(
            b,
            x,
            y,
            d,
            dis,
            us,
        ),
        is_team_fish(b[along(y, delta(d).1, dis)][along(x, delta(d).0, dis)], us) ==> !is_legal(
            b,
            x,
            y,
            d,
            dis,
            us,
        ),
        ({
            &&& dis > 0
            &&& forall|i: int|
                1 <= i < dis ==> in_board(#[trigger] along(x, delta(d).0, i), along(y, delta(d).1, i))
                    && !is_fish(b[along(y, delta(d).1, i)][along(x, delta(d).0, i)])
            &&& in_board(along(x, delta(d).0, dis), along(y, delta(d).1, dis))
            &&& is_team_fish(
                b[along(y, delta(d).1, dis)][along(x, delta(d).0, dis)],
                opponent_of(us),
            )
        }) ==> is_legal(b, x, y, d, dis, us),
{
    if is_team_fish(b[along(y, delta(d).1, dis)][along(x, delta(d).0, dis)], opponent_of(us)) {
        assert(!is_team_fish(b[along(y, delta(d).1, dis)][along(x, delta(d).0, dis)], us));
    }
}

/// Kind of a score.
#[derive(Debug, Clone, Copy, PartialEq, Eq, Structural)]
pub enum ScoreTypes {
    Siegpunkte,
    Schwarmgroesse,
}

/// How a score is aggregated over several games.
#[derive(Debug, Clone, Copy, PartialEq, Eq, Structural)]
pub enum AggregationTypes {
    Sum,
    Average,
}

/// One score of a player, tagged with its definition.
#[derive(Debug, Clone, Copy, PartialEq, Eq, Structural)]
pub struct Scores {
    pub score_type: ScoreTypes,
    pub value: u32,
    pub aggregation_type: AggregationTypes,
    pub relevant_for_ranking: bool,
}

/// The declared winner of a game.
#[derive(Debug, Clone, PartialEq, Eq)]
pub struct Winner {
    pub team: Team,
    pub regular: bool,
    pub reason: Option<String>,
}

/// Final result: each player's scores, in definition order, and the winner.
#[derive(Debug, Clone, PartialEq, Eq)]
pub struct GameResult {
    pub player1_result: Vec<Scores>,
    pub player2_result: Vec<Scores>,
    pub winner: Option<Winner>,
}

/// A score definition: kind, aggregation and relevance for the ranking.
pub type ScoreDefinition = (ScoreTypes, AggregationTypes, bool);

pub open spec fn score_type_of(s: Seq<char>) -> Option<ScoreTypes> {
    if s == "Siegpunkte"@ {
        Some(ScoreTypes::Siegpunkte)
    } else if s == "Schwarmgröße"@ {
        Some(ScoreTypes::Schwarmgroesse)
    } else {
        None
    }
}

pub open spec fn aggregation_of(s: Seq<char>) -> Option<AggregationTypes> {
    if s == "SUM"@ {
        Some(AggregationTypes::Sum)
    } else if s == "AVERAGE"@ {
        Some(AggregationTypes::Average)
    } else {
        None
    }
}

/// The definition a fragment gives, if its name, aggregation and relevance
/// are all present and known.
pub open spec fn fragment_definition(f: ReceivedFragment) -> Option<ScoreDefinition> {
    if f.frag_name.is_some() && score_type_of(f.frag_name.unwrap()@).is_some()
        && f.aggregation.is_some() && aggregation_of(f.aggregation.unwrap().agr_content@).is_some()
        && f.relevant_for_ranking.is_some() && bool_value(
        f.relevant_for_ranking.unwrap().rfr_content@,
    ).is_some() {
        Some(
            (
                score_type_of(f.frag_name.unwrap()@).unwrap(),
                aggregation_of(f.aggregation.unwrap().agr_content@).unwrap(),
                bool_value(f.relevant_for_ranking.unwrap().rfr_content@).unwrap(),
            ),
        )
    } else {
        None
    }
}

/// The definitions of a result in fragment order; none when absent, and
/// nothing at all if one fragment does not decode.
pub open spec fn definitions_of(d: Option<ReceivedDefinition>) -> Option<Seq<ScoreDefinition>> {
    match d {
        None => Some(Seq::empty()),
        Some(def) => if forall|i: int|
            0 <= i < def.fragments@.len() ==> (#[trigger] fragment_definition(
                def.fragments@[i],
            )).is_some() {
            Some(
                Seq::new(
                    def.fragments@.len(),
                    |i: int| fragment_definition(def.fragments@[i]).unwrap(),
                ),
            )
        } else {
            None
        },
    }
}

/// Scores of an entry, zipped by position with the definitions: the entry's
/// team must be known, its score present, with one part per definition, and
/// every part a `u32`.
pub open spec fn entry_scores(e: ReceivedEntry, defs: Seq<ScoreDefinition>) -> Option<
    (Team, Seq<Scores>),
> {
    if e.player.team.is_some() && team_of(e.player.team.unwrap()@).is_some() && e.score.is_some()
        && e.score.unwrap().parts@.len() == defs.len() && forall|i: int|
        0 <= i < defs.len() ==> (#[trigger] u32_value(
            e.score.unwrap().parts@[i].part_content@,
        )).is_some() {
        Some(
            (
                team_of(e.player.team.unwrap()@).unwrap(),
                Seq::new(
                    defs.len(),
                    |i: int|
                        Scores {
                            score_type: defs[i].0,
                            value: u32_value(e.score.unwrap().parts@[i].part_content@).unwrap(),
                            aggregation_type: defs[i].1,
                            relevant_for_ranking: defs[i].2,
                        },
                ),
            ),
        )
    } else {
        None
    }
}

/// Scores of the last entry of team `t`, or none.
pub open spec fn last_scores(es: Seq<ReceivedEntry>, defs: Seq<ScoreDefinition>, t: Team) -> Seq<
    Scores,
>
    decreases es.len(),
{
    if es.len() == 0 {
        Seq::empty()
    } else if entry_scores(es.last(), defs).is_some() && entry_scores(es.last(), defs).unwrap().0
        == t {
        entry_scores(es.last(), defs).unwrap().1
    } else {
        last_scores(es.drop_last(), defs, t)
    }
}

/// The winner a received winner declares, if its team and regularity decode.
pub open spec fn winner_of(w: ReceivedWinner) -> Option<Winner> {
    if w.team.is_some() && team_of(w.team.unwrap()@).is_some() && w.regular.is_some() && bool_value(
        w.regular.unwrap()@,
    ).is_some() {
        Some(
            Winner {
                team: team_of(w.team.unwrap()@).unwrap(),
                regular: bool_value(w.regular.unwrap()@).unwrap(),
                reason: w.reason,
            },
        )
    } else {
        None
    }
}

/// Whether a received result decodes: its winner, if any, its definitions,
/// and every score entry, which must be present.
pub open spec fn result_decodes(d: ReceivedData) -> bool {
    &&& d.winner.is_some() ==> winner_of(d.winner.unwrap()).is_some()
    &&& definitions_of(d.definition).is_some()
    &&& d.scores.is_some()
    &&& forall|i: int|
        0 <= i < d.scores.unwrap().entries@.len() ==> (#[trigger] entry_scores(
            d.scores.unwrap().entries@[i],
            definitions_of(d.definition).unwrap(),
        )).is_some()
}

/// Whether `g` is the result that a decodable received result describes.
pub open spec fn result_matches(g: GameResult, d: ReceivedData) -> bool {
    let defs = definitions_of(d.definition).unwrap();
    let es = d.scores.unwrap().entries@;
    &&& g.player1_result@ == last_scores(es, defs, Team::One)
    &&& g.player2_result@ == last_scores(es, defs, Team::Two)
    &&& g.winner == match d.winner {
        Some(w) => winner_of(w),
        None => None,
    }
}

/// Whether `sc` is empty or holds one score per definition, tagged with that
/// definition's kind, aggregation and relevance, position by position.
pub open spec fn aligned(sc: Seq<Scores>, defs: Seq<ScoreDefinition>) -> bool {
    sc.len() == 0 || (sc.len() == defs.len() && forall|k: int|
        0 <= k < sc.len() ==> (#[trigger] sc[k]).score_type == defs[k].0
            && sc[k].aggregation_type == defs[k].1 && sc[k].relevant_for_ranking == defs[k].2)
}

proof fn lemma_last_scores_aligned(es: Seq<ReceivedEntry>, defs: Seq<ScoreDefinition>, t: Team)
    requires
        forall|i: int| 0 <= i < es.len() ==> (#[trigger] entry_scores(es[i], defs)).is_some(),
    ensures
        aligned(last_scores(es, defs, t), defs),
    decreases es.len(),
{
    if es.len() > 0 {
        let rest = es.drop_last();
        assert forall|i: int| 0 <= i < rest.len() implies (#[trigger] entry_scores(
            rest[i],
            defs,
        )).is_some() by {
            assert(rest[i] == es[i]);
        }
        lemma_last_scores_aligned(rest, defs, t);
        assert(entry_scores(es[es.len() - 1], defs).is_some());
    }
}

/// Result alignment: in a decoded result each player's scores are either
/// absent or one per definition fragment, and the score at position k carries
/// the kind, aggregation and ranking relevance of fragment k.
pub proof fn lemma_result_alignment(g: GameResult, d: ReceivedData)
    requires
        result_decodes(d),
        result_matches(g, d),
    ensures
        aligned(g.player1_result@, definitions_of(d.definition).unwrap()),
        aligned(g.player2_result@, definitions_of(d.definition).unwrap()),
{
    let defs = definitions_of(d.definition).unwrap();
    let es = d.scores.unwrap().entries@;
    lemma_last_scores_aligned(es, defs, Team::One);
    lemma_last_scores_aligned(es, defs, Team::Two);
}

/// A score entry whose number of parts differs from the number of definition
/// fragments makes the result fail to decode.
pub proof fn lemma_part_count_mismatch_rejected(d: ReceivedData, i: int)
    requires
        definitions_of(d.definition).is_some(),
        d.scores.is_some(),
        0 <= i < d.scores.unwrap().entries@.len(),
        d.scores.unwrap().entries@[i].score.is_some(),
        d.scores.unwrap().entries@[i].score.unwrap().parts@.len() != definitions_of(
            d.definition,
        ).unwrap().len(),
    ensures
        !result_decodes(d),
{
    assert(entry_scores(d.scores.unwrap().entries@[i], definitions_of(d.definition).unwrap()).is_none());
}

fn decode_fragment(f: &ReceivedFragment) -> (r: Result<ScoreDefinition, String>)
    ensures
        match r {
            Ok(def) => fragment_definition(*f) == Some(def),
            Err(_) => fragment_definition(*f).is_none(),
        },
{
    let score_type = match &f.frag_name {
        Some(name) => if str_eq(name.as_str(), "Siegpunkte") {
            ScoreTypes::Siegpunkte
        } else if str_eq(name.as_str(), "Schwarmgröße") {
            ScoreTypes::Schwarmgroesse
        } else {
            return Err(String::from_str("unknown score type"));
        },
        None => {
            return Err(String::from_str("missing fragment name"));
        },
    };
    let aggregation_type = match &f.aggregation {
        Some(a) => if str_eq(a.agr_content.as_str(), "SUM") {
            AggregationTypes::Sum
        } else if str_eq(a.agr_content.as_str(), "AVERAGE") {
            AggregationTypes::Average
        } else {
            return Err(String::from_str("unknown aggregation type"));
        },
        None => {
            return Err(String::from_str("missing aggregation type"));
        },
    };
    let relevant = match &f.relevant_for_ranking {
        Some(rfr) => match parse_bool(rfr.rfr_content.as_str()) {
            Some(b) => b,
            None => {
                return Err(String::from_str("relevantForRanking is not `true` or `false`"));
            },
        },
        None => {
            return Err(String::from_str("missing relevantForRanking"));
        },
    };
    Ok((score_type, aggregation_type, relevant))
}

fn decode_winner(w: ReceivedWinner) -> (r: Result<Winner, String>)
    ensures
        match r {
            Ok(win) => winner_of(w) == Some(win),
            Err(_) => winner_of(w).is_none(),
        },
{
    let team = match &w.team {
        Some(t) => Team::try_from(t.as_str())?,
        None => {
            return Err(String::from_str("missing winner team"));
        },
    };
    let regular = match &w.regular {
        Some(s) => match parse_bool(s.as_str()) {
            Some(b) => b,
            None => {
                return Err(String::from_str("winner regular is not `true` or `false`"));
            },
        },
        None => {
            return Err(String::from_str("missing winner regular"));
        },
    };
    Ok(Winner { team, regular, reason: w.reason })
}

fn decode_entry(e: &ReceivedEntry, defs: &Vec<ScoreDefinition>) -> (r: Result<
    (Team, Vec<Scores>),
    String,
>)
    ensures
        match r {
            Ok((t, sc)) => entry_scores(*e, defs@) == Some((t, sc@)),
            Err(_) => entry_scores(*e, defs@).is_none(),
        },
{
    let team = match &e.player.team {
        Some(t) => Team::try_from(t.as_str())?,
        None => {
            return Err(String::from_str("missing player team"));
        },
    };
    let score = match &e.score {
        Some(s) => s,
        None => {
            return Err(String::from_str("missing player score"));
        },
    };
    if score.parts.len() != defs.len() {
        return Err(String::from_str("score parts length does not match definitions length"));
    }
    let mut scores: Vec<Scores> = Vec::new();
    let mut i: usize = 0;
    while i < defs.len()
        invariant
            i <= defs@.len(),
            score.parts@.len() == defs@.len(),
            e.score == Some(*score),
            scores@.len() == i,
            forall|k: int| 0 <= k < i ==> (#[trigger] u32_value(score.parts@[k].part_content@)).is_some(),
            forall|k: int|
                0 <= k < i ==> #[trigger] scores@[k] == (Scores {
                    score_type: defs@[k].0,
                    value: u32_value(score.parts@[k].part_content@).unwrap(),
                    aggregation_type: defs@[k].1,
                    relevant_for_ranking: defs@[k].2,
                }),
        decreases defs@.len() - i,
    {
        let value = match parse_u32(score.parts[i].part_content.as_str()) {
            Some(v) => v,
            None => {
                return Err(String::from_str("a score part is not a u32"));
            },
        };
        let def = defs[i];
        scores.push(
            Scores {
                score_type: def.0,
                value,
                aggregation_type: def.1,
                relevant_for_ranking: def.2,
            },
        );
        i = i + 1;
    }
    proof {
        let ghost expected = entry_scores(*e, defs@).unwrap().1;
        assert(scores@ =~= expected);
    }
    Ok((team, scores))
}

impl GameResult {
    /// Decodes a received result: the winner, the score definitions, and each
    /// entry's parts zipped by position with the definitions. Of several
    /// entries of one team the last counts.
    pub fn try_from(recv: ReceivedData) -> (r: Result<GameResult, String>)
        ensures
            match r {
                Ok(g) => result_decodes(recv) && result_matches(g, recv),
                Err(_) => !result_decodes(recv),
            },
    {
        let winner = match recv.winner {
            Some(w) => Some(decode_winner(w)?),
            None => None,
        };
        let mut defs: Vec<ScoreDefinition> = Vec::new();
        match &recv.definition {
            Some(def) => {
                let mut i: usize = 0;
                while i < def.fragments.len()
                    invariant
                        i <= def.fragments@.len(),
                        recv.definition == Some(*def),
                        defs@.len() == i,
                        forall|k: int|
                            0 <= k < i ==> fragment_definition(def.fragments@[k]) == Some(
                                #[trigger] defs@[k],
                            ),
                    decreases def.fragments@.len() - i,
                {
                    let d = decode_fragment(&def.fragments[i])?;
                    defs.push(d);
                    i = i + 1;
                }
                proof {
                    assert forall|k: int| 0 <= k < def.fragments@.len() implies (
                    #[trigger] fragment_definition(def.fragments@[k])).is_some() by {
                        assert(fragment_definition(def.fragments@[k]) == Some(defs@[k]));
                    }
                    assert(definitions_of(recv.definition).is_some());
                    assert(defs@ =~= definitions_of(recv.definition).unwrap());
                }
            },
            None => {
                assert(defs@ =~= definitions_of(recv.definition).unwrap());
            },
        }
        let scores = match &recv.scores {
            Some(s) => s,
            None => {
                return Err(String::from_str("missing scores"));
            },
        };
        let ghost es = scores.entries@;
        let mut player1_result: Vec<Scores> = Vec::new();
        let mut player2_result: Vec<Scores> = Vec::new();
        let mut i: usize = 0;
        while i < scores.entries.len()
            invariant
                i <= es.len(),
                es == scores.entries@,
                recv.scores == Some(*scores),
                defs@ == definitions_of(recv.definition).unwrap(),
                forall|k: int| 0 <= k < i ==> (#[trigger] entry_scores(es[k], defs@)).is_some(),
                player1_result@ == last_scores(es.subrange(0, i as int), defs@, Team::One),
                player2_result@ == last_scores(es.subrange(0, i as int), defs@, Team::Two),
            decreases es.len() - i,
        {
            let (team, sc) = decode_entry(&scores.entries[i], &defs)?;
            let ghost pre = es.subrange(0, i as int);
            let ghost cur = es.subrange(0, i + 1);
            assert(cur.drop_last() =~= pre);
            assert(cur.last() == es[i as int]);
            match team {
                Team::One => {
                    player1_result = sc;
                },
                Team::Two => {
                    player2_result = sc;
                },
            }
            i = i + 1;
        }
        assert(es.subrange(0, es.len() as int) =~= es);
        Ok(GameResult { player1_result, player2_result, winner })
    }
}

/// A message of a room.
#[derive(Debug, PartialEq, Eq, Clone)]
pub enum RoomMessage {
    Memento(Box<GameState>),
    Result(Box<GameResult>),
    WelcomeMessage,
    MoveRequest,
}

/// A room prepared by an admin, with its two reservation codes.
#[derive(Debug, PartialEq, Eq)]
pub struct PreparedRoom {
    pub reservations: (String, String),
    pub room_id: String,
}

impl Clone for PreparedRoom {
    fn clone(&self) -> (r: PreparedRoom)
        ensures
            r == *self,
    {
        PreparedRoom {
            reservations: (self.reservations.0.clone(), self.reservations.1.clone()),
            room_id: self.room_id.clone(),
        }
    }
}

/// A message for an admin client.
#[derive(Debug, PartialEq, Eq, Clone)]
pub enum AdminMessage {
    Prepared(PreparedRoom),
}

/// The client joined a room.
#[derive(Debug, PartialEq, Eq, Clone)]
pub struct Joined {
    pub room_id: String,
}

/// The client left a room.
#[derive(Debug, PartialEq, Eq, Clone)]
pub struct Left {
    pub room_id: String,
}

/// A validated protocol event.
#[derive(Debug, PartialEq, Eq, Clone)]
pub enum ComMessage {
    Joined(Joined),
    Left(Left),
    Room(Box<RoomMessage>),
    Admin(AdminMessage),
}

/// Whether a received room message decodes: it has data with a class; a
/// `memento` holds a `state` element that decodes, a `result` decodes as a
/// result, and `welcomeMessage` and `moveRequest` need nothing more.
pub open spec fn room_decodes(r: ReceivedRoom) -> bool {
    match r.data {
        None => false,
        Some(data) => match data.class {
            None => false,
            Some(c) => if c@ == "memento"@ {
                &&& data.state.is_some()
                &&& data.state.unwrap().class.is_some()
                &&& data.state.unwrap().class.unwrap()@ == "state"@
                &&& state_decodes(data.state.unwrap())
            } else if c@ == "result"@ {
                result_decodes(data)
            } else {
                c@ == "welcomeMessage"@ || c@ == "moveRequest"@
            },
        },
    }
}

/// Whether `m` is the message that a decodable received room message describes.
pub open spec fn room_matches(m: RoomMessage, r: ReceivedRoom) -> bool {
    let data = r.data.unwrap();
    let c = data.class.unwrap()@;
    if c == "memento"@ {
        match m {
            RoomMessage::Memento(g) => state_matches(*g, data.state.unwrap()),
            _ => false,
        }
    } else if c == "result"@ {
        match m {
            RoomMessage::Result(g) => result_matches(*g, data),
            _ => false,
        }
    } else if c == "welcomeMessage"@ {
        m is WelcomeMessage
    } else {
        m is MoveRequest
    }
}

impl RoomMessage {
    /// Decodes a received room message by the class of its data.
    pub fn try_from(recv: ReceivedRoom) -> (r: Result<RoomMessage, String>)
        ensures
            match r {
                Ok(m) => room_decodes(recv) && room_matches(m, recv),
                Err(_) => !room_decodes(recv),
            },
    {
        let data = match recv.data {
            Some(d) => d,
            None => {
                return Err(String::from_str("missing room message data"));
            },
        };
        let (is_memento, is_result, is_welcome, is_request) = match &data.class {
            Some(c) => (
                str_eq(c.as_str(), "memento"),
                str_eq(c.as_str(), "result"),
                str_eq(c.as_str(), "welcomeMessage"),
                str_eq(c.as_str(), "moveRequest"),
            ),
            None => {
                return Err(String::from_str("missing room message class"));
            },
        };
        if is_memento {
            match data.state {
                Some(state) => {
                    let is_state = match &state.class {
                        Some(c) => str_eq(c.as_str(), "state"),
                        None => false,
                    };
                    if !is_state {
                        return Err(
                            String::from_str("data of class memento should contain a <state> element"),
                        );
                    }
                    let g = GameState::try_from(state)?;
                    Ok(RoomMessage::Memento(Box::new(g)))
                },
                None => Err(String::from_str("data of class memento should contain a state")),
            }
        } else if is_result {
            match GameResult::try_from(data) {
                Ok(g) => Ok(RoomMessage::Result(Box::new(g))),
                Err(_) => Err(String::from_str("data of class result should contain a result")),
            }
        } else if is_welcome {
            Ok(RoomMessage::WelcomeMessage)
        } else if is_request {
            Ok(RoomMessage::MoveRequest)
        } else {
            Err(String::from_str("unknown room message class"))
        }
    }
}

} // verus!
