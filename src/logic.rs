//! Game state: the board, the players and their hands, turn order, and the
//! placement rules.

use bit_set::BitSet;
use vstd::prelude::*;

use crate::piece::{
    catalog_cells, catalog_masks, catalog_shape, cells, empty_shape, flip, flipped_h, flipped_v,
    is_orientation_of, lemma_orientation_closed, lemma_rotate_four_times, lemma_turned_four,
    orientation, rotate, rotated_left, rotated_right, row_bit, shape_wf, turned, FlipDir, RotateDir,
    Shape, PIECE_COUNT, ROW_LEN,
};

verus! {

/// Identifier of a catalog piece.
pub type PieceID = usize;

/// Side length of the board array: the 20 by 20 play area and a one-cell
/// wall border around it.
pub const BOARD_LEN: usize = 22;

/// Side length of the play area.
pub const PLAY_LEN: usize = 20;

/// The state of one board cell. The four colors also name the players.
#[derive(Default, Debug, Clone, Copy, PartialEq, Eq, Structural)]
pub enum TileColor {
    #[default]
    Empty,
    Red,
    Yellow,
    Green,
    Blue,
    Wall,
}

impl TileColor {
    /// The one-character symbol for the state: a color's initial, `.` for an
    /// empty cell, `#` for a wall.
    pub open spec fn symbol_spec(self) -> char {
        match self {
            TileColor::Red => 'R',
            TileColor::Yellow => 'Y',
            TileColor::Green => 'G',
            TileColor::Blue => 'B',
            TileColor::Empty => '.',
            TileColor::Wall => '#',
        }
    }

    /// The one-character symbol used when a board is printed.
    pub fn symbol(self) -> (c: char)
        ensures
            c == self.symbol_spec(),
    {
        match self {
            TileColor::Red => 'R',
            TileColor::Yellow => 'Y',
            TileColor::Green => 'G',
            TileColor::Blue => 'B',
            TileColor::Empty => '.',
            TileColor::Wall => '#',
        }
    }
}

/// Makes `bit_set::BitSet` known to Verus as an opaque type; what a set holds
/// is `piece_ids`.
#[verifier::external_type_specification]
#[verifier::external_body]
#[verifier::reject_recursive_types(B)]
pub struct ExBitSet<B>(BitSet<B>);

/// The piece identifiers that a set holds.
pub uninterp spec fn piece_ids(s: BitSet<usize>) -> Set<usize>;

/// Relies on `BitSet`'s `FromIterator<usize>`: the set holds exactly the
/// values that the range yields.
#[verifier::external_body]
fn piece_set_below(n: usize) -> (s: BitSet<usize>)
    requires
        n <= PIECE_COUNT,
    ensures
        piece_ids(s) == Set::new(|i: usize| i < n),
{
    BitSet::from_iter(0..n)
}

/// Relies on `BitSet::contains`: whether the value is in the set.
#[verifier::external_body]
fn piece_set_contains(s: &BitSet<usize>, id: usize) -> (b: bool)
    ensures
        b == piece_ids(*s).contains(id),
{
    s.contains(id)
}

/// Relies on `BitSet::remove`: the value leaves the set, the others stay.
#[verifier::external_body]
fn piece_set_remove(s: &mut BitSet<usize>, id: usize)
    ensures
        piece_ids(*final(s)) == piece_ids(*old(s)).remove(id),
{
    s.remove(id);
}

/// Relies on `BitSet::is_empty`: whether the set holds no value.
#[verifier::external_body]
fn piece_set_is_empty(s: &BitSet<usize>) -> (b: bool)
    ensures
        b == (piece_ids(*s) == Set::<usize>::empty()),
{
    s.is_empty()
}

/// A player: a color and the catalog pieces still in hand.
#[derive(Debug)]
pub struct Player {
    /// The player's color.
    pub color: TileColor,
    /// The pieces that this player has not placed yet.
    pub remaining_pieces: BitSet<PieceID>,
}

impl Player {
    /// A player of this color with every catalog piece in hand.
    pub fn new(color: TileColor) -> (p: Player)
        ensures
            p.color == color,
            piece_ids(p.remaining_pieces) == all_pieces(),
    {
        Player { color, remaining_pieces: piece_set_below(PIECE_COUNT) }
    }

    /// The first `count` players, at most four, of the default seating: blue,
    /// yellow, red, green, each with every piece in hand.
    pub fn default_order(count: usize) -> (players: Vec<Player>)
        ensures
            players.len() == if count < 4 { count } else { 4 },
            forall|i: int| 0 <= i < players.len() ==> #[trigger] players@[i].color == default_color(i)
                && piece_ids(players@[i].remaining_pieces) == all_pieces(),
    {
        let n: usize = if count < 4 { count } else { 4 };
        let mut players: Vec<Player> = Vec::new();
        let mut i: usize = 0;
        while i < n
            invariant
                n <= 4,
                i <= n,
                players.len() == i,
                forall|j: int| 0 <= j < i ==> #[trigger] players@[j].color == default_color(j)
                    && piece_ids(players@[j].remaining_pieces) == all_pieces(),
            decreases n - i,
        {
            let color = if i == 0 {
                TileColor::Blue
            } else if i == 1 {
                TileColor::Yellow
            } else if i == 2 {
                TileColor::Red
            } else {
                TileColor::Green
            };
            players.push(Player::new(color));
            i += 1;
        }
        players
    }
}

/// A board position, row first. Depending on the operation it is an anchor
/// in the play area or the origin of a shape's frame.
#[derive(Debug, Clone, Copy, PartialEq, Eq, Structural)]
pub struct Coord {
    pub row: i32,
    pub col: i32,
}

/// The board: the play area at rows and columns 1 through 20, inside a wall border.
pub type Board = [[TileColor; 22]; 22];

/// The state of a board cell; outside the array every cell counts as a wall.
pub open spec fn tile(b: Board, r: int, c: int) -> TileColor {
    if 0 <= r < 22 && 0 <= c < 22 {
        b[r][c]
    } else {
        TileColor::Wall
    }
}

/// Where the seed cell of player `i` of `n` lies: the far corners for two
/// players, the four corners in turn for more.
pub open spec fn seed_cell(n: int, i: int) -> (int, int) {
    if i == 0 {
        (21, 21)
    } else if n <= 2 {
        (0, 0)
    } else if i == 1 {
        (21, 0)
    } else if i == 2 {
        (0, 0)
    } else {
        (0, 21)
    }
}

/// The cell lies on the wall border.
pub open spec fn on_border(r: int, c: int) -> bool {
    r == 0 || r == 21 || c == 0 || c == 21
}

/// The state of cell (r, c) on a fresh board for these players: each
/// player's seed cell holds that player's color, the rest of the border is
/// wall and the play area is empty.
pub open spec fn initial_tile(players: Seq<Player>, r: int, c: int) -> TileColor {
    let n = players.len() as int;
    if exists|i: int| 0 <= i < n && seed_cell(n, i) == (r, c) {
        players[choose|i: int| 0 <= i < n && seed_cell(n, i) == (r, c)].color
    } else if on_border(r, c) {
        TileColor::Wall
    } else {
        TileColor::Empty
    }
}

/// Every cell of the board is as on a fresh board for these players.
pub open spec fn is_initial_board(b: Board, players: Seq<Player>) -> bool {
    forall|r: int, c: int| 0 <= r < 22 && 0 <= c < 22 ==> #[trigger] b[r][c] == initial_tile(players, r, c)
}

/// One of the four cells that share an edge with (r, c) holds `color`.
pub open spec fn touches_side(b: Board, r: int, c: int, color: TileColor) -> bool {
    ||| tile(b, r - 1, c) == color
    ||| tile(b, r + 1, c) == color
    ||| tile(b, r, c - 1) == color
    ||| tile(b, r, c + 1) == color
}

/// One of the four cells that share only a corner with (r, c) holds `color`.
pub open spec fn touches_corner(b: Board, r: int, c: int, color: TileColor) -> bool {
    ||| tile(b, r - 1, c - 1) == color
    ||| tile(b, r + 1, c - 1) == color
    ||| tile(b, r - 1, c + 1) == color
    ||| tile(b, r + 1, c + 1) == color
}

/// Placing the cells `g` with their frame's origin at board cell (row, col)
/// is allowed for `color`: every cell lands on an empty cell that shares no
/// edge with `color`, and some cell shares a corner with `color`.
pub open spec fn legal_placement(b: Board, g: Set<(int, int)>, row: int, col: int, color: TileColor) -> bool {
    &&& forall|p: (int, int)| #[trigger] g.contains(p) ==> tile(b, row + p.0, col + p.1) == TileColor::Empty
        && !touches_side(b, row + p.0, col + p.1, color)
    &&& exists|p: (int, int)| #[trigger] g.contains(p) && touches_corner(b, row + p.0, col + p.1, color)
}

/// With its frame's centre (2, 2) at play-area cell (row, col), the cells `g`
/// and the centre itself all lie in the play area.
pub open spec fn fits_at(g: Set<(int, int)>, row: int, col: int) -> bool {
    &&& 0 <= row < 20
    &&& 0 <= col < 20
    &&& forall|p: (int, int)| #[trigger] g.contains(p) ==> 0 <= row + p.0 - 2 < 20 && 0 <= col + p.1 - 2 < 20
}

/// (r, c) comes before row `i`, column `j` in row-major order.
pub open spec fn scanned_before(p: (int, int), i: int, j: int) -> bool {
    p.0 < i || (p.0 == i && p.1 < j)
}

/// The colors in the order in which a default game seats its players.
pub open spec fn default_color(i: int) -> TileColor {
    if i == 0 {
        TileColor::Blue
    } else if i == 1 {
        TileColor::Yellow
    } else if i == 2 {
        TileColor::Red
    } else {
        TileColor::Green
    }
}

/// Every catalog piece identifier.
pub open spec fn all_pieces() -> Set<usize> {
    Set::new(|i: usize| i < PIECE_COUNT)
}

/// Every cell that holds something other than `Empty` in `before` holds the
/// same in `after`.
pub open spec fn board_extends(before: Board, after: Board) -> bool {
    forall|r: int, c: int| 0 <= r < 22 && 0 <= c < 22 && #[trigger] before[r][c] != TileColor::Empty ==> after[r][c] == before[r][c]
}

/// `after` is `before` with `color` written on the cells `g` placed with their
/// frame's origin at board cell (row, col), and nothing else changed.
pub open spec fn board_with_piece(before: Board, after: Board, g: Set<(int, int)>, row: int, col: int, color: TileColor) -> bool {
    forall|r: int, c: int| 0 <= r < 22 && 0 <= c < 22 ==> #[trigger] after[r][c] == if g.contains((r - row, c - col)) {
        color
    } else {
        before[r][c]
    }
}

/// The cells can be placed legally for `color` with their frame's origin at
/// one of the board cells (row, col) with row and column in -1 .. 19, which
/// puts the frame's centre (2, 2) on each cell of the play area in turn.
pub open spec fn placeable(b: Board, g: Set<(int, int)>, color: TileColor) -> bool {
    exists|row: int, col: int| -1 <= row < 19 && -1 <= col < 19 && #[trigger] legal_placement(b, g, row, col, color)
}

/// `after` follows `before` by a pass: the turn goes to the next player, the
/// pass counter grows by one, and nothing else changes.
pub open spec fn forced_pass(before: GameState, after: GameState) -> bool {
    &&& after.current_player == (before.current_player + 1) % (before.players.len() as int)
    &&& after.pass_counter == before.pass_counter + 1
    &&& after.board == before.board
    &&& after.players@ == before.players@
    &&& after.selected_piece == before.selected_piece
    &&& after.piece_buffer == before.piece_buffer
}

/// The whole state of a game in progress.
#[derive(Debug)]
pub struct GameState {
    /// The board, wall border included.
    pub board: Board,
    /// The players in turn order.
    pub players: Vec<Player>,
    /// Index of the player whose turn it is.
    pub current_player: usize,
    /// The piece chosen for the next placement, if any.
    pub selected_piece: Option<PieceID>,
    /// The chosen piece in its current orientation; empty when none is chosen.
    pub piece_buffer: Shape,
    /// Turns passed in a row; the game ends when every player has passed.
    pub pass_counter: usize,
}

impl GameState {
    /// The state's invariant.
    pub open spec fn wf(&self) -> bool {
        &&& 1 <= self.players.len() <= 4
        &&& self.current_player < self.players.len()
        &&& self.pass_counter <= self.players.len()
        &&& shape_wf(self.piece_buffer)
        &&& (self.selected_piece matches Some(id) ==> id < PIECE_COUNT)
        &&& (self.selected_piece is None ==> cells(self.piece_buffer) == Set::<(int, int)>::empty())
        &&& (self.selected_piece matches Some(id) ==> is_orientation_of(cells(self.piece_buffer), id as int))
    }

    /// The color of the player whose turn it is.
    pub open spec fn current_color(&self) -> TileColor {
        self.players@[self.current_player as int].color
    }

    /// A fresh game for these players: seeded board, first player to move,
    /// nothing selected, no passes.
    pub fn with_players(players: Vec<Player>) -> (g: GameState)
        requires
            1 <= players.len() <= 4,
        ensures
            g.wf(),
            g.players@ == players@,
            is_initial_board(g.board, players@),
            g.current_player == 0,
            g.selected_piece is None,
            g.pass_counter == 0,
    {
        let mut board: Board = [[TileColor::Empty; 22]; 22];
        board[0] = [TileColor::Wall; 22];
        board[21] = [TileColor::Wall; 22];
        let mut i: usize = 0;
        while i < BOARD_LEN
            invariant
                i <= 22,
                forall|r: int, c: int| 0 <= r < 22 && 0 <= c < 22 ==> #[trigger] board[r][c] == if r == 0 || r == 21 || (r < i && (c == 0 || c == 21)) {
                    TileColor::Wall
                } else {
                    TileColor::Empty
                },
            decreases 22 - i,
        {
            board[i][0] = TileColor::Wall;
            board[i][21] = TileColor::Wall;
            i += 1;
        }
        let n = players.len();
        board[21][21] = players[0].color;
        if n == 2 {
            board[0][0] = players[1].color;
        } else if n >= 3 {
            board[21][0] = players[1].color;
            board[0][0] = players[2].color;
            if n == 4 {
                board[0][21] = players[3].color;
            }
        }
        let g = GameState {
            board,
            players,
            current_player: 0,
            selected_piece: None,
            piece_buffer: empty_shape(),
            pass_counter: 0,
        };
        assert forall|r: int, c: int| 0 <= r < 22 && 0 <= c < 22 implies #[trigger] g.board[r][c] == initial_tile(g.players@, r, c) by {
            let nn = g.players@.len() as int;
            if exists|j: int| 0 <= j < nn && seed_cell(nn, j) == (r, c) {
                let j = choose|j: int| 0 <= j < nn && seed_cell(nn, j) == (r, c);
                assert(seed_cell(nn, j) == (r, c));
            } else {
                assert(seed_cell(nn, 0) != (r, c));
                if nn >= 2 { assert(seed_cell(nn, 1) != (r, c)); }
                if nn >= 3 { assert(seed_cell(nn, 2) != (r, c)); }
                if nn >= 4 { assert(seed_cell(nn, 3) != (r, c)); }
            }
        }
        g
    }

    /// The state of board cell (r, c); a wall outside the board.
    fn tile_at(&self, r: i64, c: i64) -> (t: TileColor)
        ensures
            t == tile(self.board, r as int, c as int),
    {
        if 0 <= r && r < BOARD_LEN as i64 && 0 <= c && c < BOARD_LEN as i64 {
            self.board[r as usize][c as usize]
        } else {
            TileColor::Wall
        }
    }

    /// Whether the current player may place `shape` with its frame's origin at
    /// board cell (row, col).
    fn legal_at(&self, shape: &Shape, row: i64, col: i64) -> (ok: bool)
        requires
            self.wf(),
            shape_wf(*shape),
            -0x1_0000_0000 <= row <= 0x1_0000_0000,
            -0x1_0000_0000 <= col <= 0x1_0000_0000,
        ensures
            ok == legal_placement(self.board, cells(*shape), row as int, col as int, self.current_color()),
    {
        let color = self.players[self.current_player].color;
        let ghost g = cells(*shape);
        let ghost b = self.board;
        let mut any_corner = false;
        let mut r: usize = 0;
        while r < ROW_LEN
            invariant
                r <= 5,
                shape_wf(*shape),
                g == cells(*shape),
                b == self.board,
                color == self.current_color(),
                -0x1_0000_0000 <= row <= 0x1_0000_0000,
                -0x1_0000_0000 <= col <= 0x1_0000_0000,
                forall|p: (int, int)| #[trigger] g.contains(p) && scanned_before(p, r as int, 0) ==> tile(b, row + p.0, col + p.1)
                    == TileColor::Empty && !touches_side(b, row + p.0, col + p.1, color),
                any_corner == exists|p: (int, int)| #[trigger] g.contains(p) && scanned_before(p, r as int, 0)
                    && touches_corner(b, row + p.0, col + p.1, color),
            decreases 5 - r,
        {
            let mut c: usize = 0;
            while c < ROW_LEN
                invariant
                    r < 5,
                    c <= 5,
                    shape_wf(*shape),
                    g == cells(*shape),
                    b == self.board,
                    color == self.current_color(),
                    -0x1_0000_0000 <= row <= 0x1_0000_0000,
                    -0x1_0000_0000 <= col <= 0x1_0000_0000,
                    forall|p: (int, int)| #[trigger] g.contains(p) && scanned_before(p, r as int, c as int) ==> tile(b, row + p.0, col + p.1)
                        == TileColor::Empty && !touches_side(b, row + p.0, col + p.1, color),
                    any_corner == exists|p: (int, int)| #[trigger] g.contains(p) && scanned_before(p, r as int, c as int)
                        && touches_corner(b, row + p.0, col + p.1, color),
                decreases 5 - c,
            {
                assert(shape_wf(*shape) ==> crate::piece::row_wf(shape[r as int]));
                if row_bit(&shape[r], c) {
                    let ghost q = (r as int, c as int);
                    assert(g.contains(q));
                    let ar = row + r as i64;
                    let ac = col + c as i64;
                    if self.tile_at(ar, ac) != TileColor::Empty {
                        return false;
                    }
                    if self.tile_at(ar - 1, ac) == color || self.tile_at(ar + 1, ac) == color
                        || self.tile_at(ar, ac - 1) == color || self.tile_at(ar, ac + 1) == color {
                        return false;
                    }
                    if !any_corner && (self.tile_at(ar - 1, ac - 1) == color || self.tile_at(ar + 1, ac - 1)
                        == color || self.tile_at(ar - 1, ac + 1) == color || self.tile_at(ar + 1, ac + 1)
                        == color) {
                        any_corner = true;
                    }
                    assert(scanned_before(q, r as int, c as int + 1));
                }
                c += 1;
            }
            r += 1;
        }
        any_corner
    }

    /// Whether the current player may place the piece buffer with its frame's
    /// origin at board cell `corner` (border included in the coordinates).
    pub fn valid_move(&self, corner: Coord) -> (ok: bool)
        requires
            self.wf(),
        ensures
            ok == legal_placement(self.board, cells(self.piece_buffer), corner.row as int, corner.col as int, self.current_color()),
    {
        self.legal_at(&self.piece_buffer, corner.row as i64, corner.col as i64)
    }

    /// Takes `center` as the play-area cell under the centre (2, 2) of the
    /// piece buffer's frame. When the buffer fits there, returns the play-area
    /// position of the frame's origin, two rows up and two columns left.
    pub fn check_bounds_and_recenter(&self, center: Coord) -> (res: Option<Coord>)
        requires
            self.wf(),
        ensures
            res == if fits_at(cells(self.piece_buffer), center.row as int, center.col as int) {
                Some(Coord { row: (center.row - 2) as i32, col: (center.col - 2) as i32 })
            } else {
                None::<Coord>
            },
    {
        let ghost g = cells(self.piece_buffer);
        // Extents of the occupied cells around the centre, starting from the
        // centre itself: top, bottom, left, right.
        let mut top: i64 = 0;
        let mut bottom: i64 = 0;
        let mut left: i64 = 0;
        let mut right: i64 = 0;
        let mut dr: usize = 0;
        while dr < ROW_LEN
            invariant
                dr <= 5,
                g == cells(self.piece_buffer),
                shape_wf(self.piece_buffer),
                -2 <= top <= 0 <= bottom <= 2,
                -2 <= left <= 0 <= right <= 2,
                forall|p: (int, int)| #[trigger] g.contains(p) && p.0 < dr ==> top <= p.0 - 2 <= bottom && left <= p.1 - 2 <= right,
                top == 0 || exists|p: (int, int)| #[trigger] g.contains(p) && p.0 < dr && p.0 - 2 == top,
                bottom == 0 || exists|p: (int, int)| #[trigger] g.contains(p) && p.0 < dr && p.0 - 2 == bottom,
                left == 0 || exists|p: (int, int)| #[trigger] g.contains(p) && p.0 < dr && p.1 - 2 == left,
                right == 0 || exists|p: (int, int)| #[trigger] g.contains(p) && p.0 < dr && p.1 - 2 == right,
            decreases 5 - dr,
        {
            let mut dc: usize = 0;
            while dc < ROW_LEN
                invariant
                    dr < 5,
                    dc <= 5,
                    g == cells(self.piece_buffer),
                    shape_wf(self.piece_buffer),
                    -2 <= top <= 0 <= bottom <= 2,
                    -2 <= left <= 0 <= right <= 2,
                    forall|p: (int, int)| #[trigger] g.contains(p) && scanned_before(p, dr as int, dc as int) ==> top <= p.0 - 2 <= bottom && left <= p.1 - 2 <= right,
                    top == 0 || exists|p: (int, int)| #[trigger] g.contains(p) && scanned_before(p, dr as int, dc as int) && p.0 - 2 == top,
                    bottom == 0 || exists|p: (int, int)| #[trigger] g.contains(p) && scanned_before(p, dr as int, dc as int) && p.0 - 2 == bottom,
                    left == 0 || exists|p: (int, int)| #[trigger] g.contains(p) && scanned_before(p, dr as int, dc as int) && p.1 - 2 == left,
                    right == 0 || exists|p: (int, int)| #[trigger] g.contains(p) && scanned_before(p, dr as int, dc as int) && p.1 - 2 == right,
                decreases 5 - dc,
            {
                assert(crate::piece::row_wf(self.piece_buffer[dr as int]));
                if row_bit(&self.piece_buffer[dr], dc) {
                    let ghost q = (dr as int, dc as int);
                    assert(g.contains(q));
                    let r_off = dr as i64 - 2;
                    let c_off = dc as i64 - 2;
                    if r_off < top {
                        top = r_off;
                    } else if r_off > bottom {
                        bottom = r_off;
                    }
                    if c_off < left {
                        left = c_off;
                    } else if c_off > right {
                        right = c_off;
                    }
                    assert(scanned_before(q, dr as int, dc as int + 1));
                }
                dc += 1;
            }
            dr += 1;
        }
        let row = center.row as i64;
        let col = center.col as i64;
        let play = PLAY_LEN as i64;
        if row + top >= 0 && row + bottom < play && col + left >= 0 && col + right < play {
            Some(Coord { row: center.row - 2, col: center.col - 2 })
        } else {
            None
        }
    }

    /// The hand of the player whose turn it is.
    pub open spec fn current_hand(&self) -> Set<usize> {
        piece_ids(self.players@[self.current_player as int].remaining_pieces)
    }

    /// The game is over: the player to move has no piece left, or every
    /// player has passed in a row.
    pub open spec fn game_over(&self) -> bool {
        self.current_hand() == Set::<usize>::empty() || self.pass_counter == self.players.len()
    }

    /// The player to move has some piece in hand that fits somewhere in some
    /// orientation.
    pub open spec fn has_move(&self) -> bool {
        exists|id: usize, flipped: bool, turns: nat|
            id < PIECE_COUNT && turns < 4 && self.current_hand().contains(id)
                && #[trigger] placeable(self.board, orientation(catalog_cells(id as int), flipped, turns), self.current_color())
    }

    /// A default game of `player_count` players, at most four, seated in the
    /// order blue, yellow, red, green, each with every piece in hand.
    pub fn new(player_count: usize) -> (g: GameState)
        requires
            player_count >= 1,
        ensures
            g.wf(),
            g.players.len() == if player_count < 4 { player_count } else { 4 },
            forall|i: int| 0 <= i < g.players.len() ==> #[trigger] g.players@[i].color == default_color(i)
                && piece_ids(g.players@[i].remaining_pieces) == all_pieces(),
            is_initial_board(g.board, g.players@),
            g.current_player == 0,
            g.selected_piece is None,
            g.pass_counter == 0,
    {
        GameState::with_players(Player::default_order(player_count))
    }

    /// Writes the current player's color on the cells of the piece buffer,
    /// with the frame's origin at play-area position `corner`, removes the
    /// selected piece from that player's hand, and clears the selection and
    /// the pass counter. The turn does not change.
    pub fn place_piece(&mut self, corner: Coord)
        requires
            old(self).wf(),
            old(self).selected_piece is Some,
            old(self).current_hand().contains(old(self).selected_piece->0),
            forall|p: (int, int)| #[trigger] cells(old(self).piece_buffer).contains(p) ==> {
                &&& 0 <= corner.row + p.0 < 20
                &&& 0 <= corner.col + p.1 < 20
                &&& old(self).board[corner.row + p.0 + 1][corner.col + p.1 + 1] == TileColor::Empty
            },
        ensures
            final(self).wf(),
            board_with_piece(old(self).board, final(self).board, cells(old(self).piece_buffer), corner.row + 1, corner.col + 1, old(self).current_color()),
            board_extends(old(self).board, final(self).board),
            final(self).players.len() == old(self).players.len(),
            forall|i: int| 0 <= i < final(self).players.len() && i != old(self).current_player ==> #[trigger] final(self).players@[i] == old(self).players@[i],
            final(self).current_color() == old(self).current_color(),
            final(self).current_hand() == old(self).current_hand().remove(old(self).selected_piece->0),
            final(self).current_player == old(self).current_player,
            final(self).selected_piece is None,
            final(self).pass_counter == 0,
    {
        let ghost g = cells(self.piece_buffer);
        let ghost b0 = self.board;
        let color = self.players[self.current_player].color;
        let mut r: usize = 0;
        while r < ROW_LEN
            invariant
                r <= 5,
                self.wf(),
                g == cells(self.piece_buffer),
                color == old(self).current_color(),
                self.players@ == old(self).players@,
                self.current_player == old(self).current_player,
                self.selected_piece == old(self).selected_piece,
                self.pass_counter == old(self).pass_counter,
                forall|p: (int, int)| #[trigger] g.contains(p) ==> {
                    &&& 0 <= corner.row + p.0 < 20
                    &&& 0 <= corner.col + p.1 < 20
                    &&& b0[corner.row + p.0 + 1][corner.col + p.1 + 1] == TileColor::Empty
                },
                forall|i: int, j: int| 0 <= i < 22 && 0 <= j < 22 ==> #[trigger] self.board[i][j] == if g.contains((i - corner.row - 1, j - corner.col - 1))
                    && scanned_before((i - corner.row - 1, j - corner.col - 1), r as int, 0) {
                    color
                } else {
                    b0[i][j]
                },
            decreases 5 - r,
        {
            let mut c: usize = 0;
            while c < ROW_LEN
                invariant
                    r < 5,
                    c <= 5,
                    self.wf(),
                    g == cells(self.piece_buffer),
                    color == old(self).current_color(),
                    self.players@ == old(self).players@,
                    self.current_player == old(self).current_player,
                    self.selected_piece == old(self).selected_piece,
                    self.pass_counter == old(self).pass_counter,
                    forall|p: (int, int)| #[trigger] g.contains(p) ==> {
                        &&& 0 <= corner.row + p.0 < 20
                        &&& 0 <= corner.col + p.1 < 20
                        &&& b0[corner.row + p.0 + 1][corner.col + p.1 + 1] == TileColor::Empty
                    },
                    forall|i: int, j: int| 0 <= i < 22 && 0 <= j < 22 ==> #[trigger] self.board[i][j] == if g.contains((i - corner.row - 1, j - corner.col - 1))
                        && scanned_before((i - corner.row - 1, j - corner.col - 1), r as int, c as int) {
                        color
                    } else {
                        b0[i][j]
                    },
                decreases 5 - c,
            {
                assert(crate::piece::row_wf(self.piece_buffer[r as int]));
                if row_bit(&self.piece_buffer[r], c) {
                    let ghost q = (r as int, c as int);
                    assert(g.contains(q));
                    let ar = (corner.row as i64 + r as i64 + 1) as usize;
                    let ac = (corner.col as i64 + c as i64 + 1) as usize;
                    self.board[ar][ac] = color;
                }
                c += 1;
            }
            r += 1;
        }
        assert(board_with_piece(b0, self.board, g, corner.row + 1, corner.col + 1, color));
        let id = self.selected_piece.unwrap();
        let mut player = self.players.remove(self.current_player);
        piece_set_remove(&mut player.remaining_pieces, id);
        self.players.insert(self.current_player, player);
        self.selected_piece = None;
        self.piece_buffer = empty_shape();
        self.pass_counter = 0;
    }

    /// Passes the turn to the next player in order.
    pub fn end_turn(&mut self)
        requires
            old(self).wf(),
        ensures
            final(self).wf(),
            final(self).current_player == (old(self).current_player + 1) % (old(self).players.len() as int),
            final(self).board == old(self).board,
            final(self).players@ == old(self).players@,
            final(self).selected_piece == old(self).selected_piece,
            final(self).piece_buffer == old(self).piece_buffer,
            final(self).pass_counter == old(self).pass_counter,
    {
        self.current_player = (self.current_player + 1) % self.players.len();
    }

    /// Whether the game is over.
    pub fn is_game_over(&self) -> (over: bool)
        requires
            self.wf(),
        ensures
            over == self.game_over(),
    {
        piece_set_is_empty(&self.players[self.current_player].remaining_pieces)
            || self.pass_counter == self.players.len()
    }

    /// Chooses a piece for the next placement, or clears the choice. The
    /// piece buffer is reset to the piece's canonical orientation.
    pub fn select_piece(&mut self, piece_id: Option<PieceID>)
        requires
            old(self).wf(),
            piece_id matches Some(id) ==> id < PIECE_COUNT,
        ensures
            final(self).wf(),
            final(self).selected_piece == piece_id,
            cells(final(self).piece_buffer) == match piece_id {
                Some(id) => catalog_cells(id as int),
                None => Set::<(int, int)>::empty(),
            },
            final(self).board == old(self).board,
            final(self).players@ == old(self).players@,
            final(self).current_player == old(self).current_player,
            final(self).pass_counter == old(self).pass_counter,
    {
        self.selected_piece = piece_id;
        let shape = match piece_id {
            Some(id) => catalog_shape(id),
            None => empty_shape(),
        };
        self.piece_buffer = shape;
        if let Some(id) = piece_id {
            assert(orientation(catalog_cells(id as int), false, 0) == cells(self.piece_buffer));
        }
    }

    /// Turns the piece buffer a quarter. The selection does not change.
    pub fn rotate_piece(&mut self, dir: RotateDir)
        requires
            old(self).wf(),
        ensures
            final(self).wf(),
            cells(final(self).piece_buffer) == match dir {
                RotateDir::Right => rotated_right(cells(old(self).piece_buffer)),
                RotateDir::Left => rotated_left(cells(old(self).piece_buffer)),
            },
            final(self).selected_piece == old(self).selected_piece,
            final(self).board == old(self).board,
            final(self).players@ == old(self).players@,
            final(self).current_player == old(self).current_player,
            final(self).pass_counter == old(self).pass_counter,
    {
        let ghost before = cells(self.piece_buffer);
        self.piece_buffer = rotate(self.piece_buffer, dir);
        proof {
            match self.selected_piece {
                Some(id) => {
                    let (fl, t) = choose|fl: bool, t: nat| t < 4 && #[trigger] orientation(catalog_cells(id as int), fl, t) == before;
                    lemma_orientation_closed(catalog_cells(id as int), fl, t);
                    assert(orientation(catalog_cells(id as int), fl, ((t + 1) % 4) as nat) == rotated_right(before));
                    assert(orientation(catalog_cells(id as int), fl, ((t + 3) % 4) as nat) == rotated_left(before));
                },
                None => {
                    assert(rotated_right(before) =~= Set::<(int, int)>::empty());
                    assert(rotated_left(before) =~= Set::<(int, int)>::empty());
                },
            }
        }
    }

    /// Mirrors the piece buffer. The selection does not change.
    pub fn flip_piece(&mut self, dir: FlipDir)
        requires
            old(self).wf(),
        ensures
            final(self).wf(),
            cells(final(self).piece_buffer) == match dir {
                FlipDir::Vertical => flipped_v(cells(old(self).piece_buffer)),
                FlipDir::Horizontal => flipped_h(cells(old(self).piece_buffer)),
            },
            final(self).selected_piece == old(self).selected_piece,
            final(self).board == old(self).board,
            final(self).players@ == old(self).players@,
            final(self).current_player == old(self).current_player,
            final(self).pass_counter == old(self).pass_counter,
    {
        let ghost before = cells(self.piece_buffer);
        self.piece_buffer = flip(self.piece_buffer, dir);
        proof {
            match self.selected_piece {
                Some(id) => {
                    let (fl, t) = choose|fl: bool, t: nat| t < 4 && #[trigger] orientation(catalog_cells(id as int), fl, t) == before;
                    lemma_orientation_closed(catalog_cells(id as int), fl, t);
                    assert(orientation(catalog_cells(id as int), !fl, ((4 - t) % 4) as nat) == flipped_v(before));
                    assert(orientation(catalog_cells(id as int), !fl, ((6 - t) % 4) as nat) == flipped_h(before));
                },
                None => {
                    assert(flipped_v(before) =~= Set::<(int, int)>::empty());
                    assert(flipped_h(before) =~= Set::<(int, int)>::empty());
                },
            }
        }
    }

    /// The player whose turn it is.
    pub fn current_player(&self) -> (p: &Player)
        requires
            self.wf(),
        ensures
            *p == self.players@[self.current_player as int],
    {
        &self.players[self.current_player]
    }

    /// Whether the current player can place `shape` with its frame's origin at
    /// some board cell (row, col) with row and column in -1 .. 19: with its
    /// frame's centre on any cell of the play area.
    fn fits_somewhere(&self, shape: &Shape) -> (found: bool)
        requires
            self.wf(),
            shape_wf(*shape),
        ensures
            found == placeable(self.board, cells(*shape), self.current_color()),
    {
        let ghost g = cells(*shape);
        let ghost color = self.current_color();
        let mut row: i64 = -1;
        while row < PLAY_LEN as i64 - 1
            invariant
                -1 <= row <= 19,
                self.wf(),
                shape_wf(*shape),
                g == cells(*shape),
                color == self.current_color(),
                forall|r: int, c: int| -1 <= r < row && -1 <= c < 19 ==> !#[trigger] legal_placement(self.board, g, r, c, color),
            decreases 19 - row,
        {
            let mut col: i64 = -1;
            while col < PLAY_LEN as i64 - 1
                invariant
                    -1 <= row < 19,
                    -1 <= col <= 19,
                    self.wf(),
                    shape_wf(*shape),
                    g == cells(*shape),
                    color == self.current_color(),
                    forall|r: int, c: int| ((-1 <= r < row && -1 <= c < 19) || (r == row && -1 <= c < col)) ==> !#[trigger] legal_placement(self.board, g, r, c, color),
                decreases 19 - col,
            {
                if self.legal_at(shape, row, col) {
                    assert(legal_placement(self.board, g, row as int, col as int, color));
                    return true;
                }
                col += 1;
            }
            row += 1;
        }
        false
    }

    /// Whether the player to move has a legal placement: some piece in hand,
    /// in one of its eight orientations, with its frame's centre on some cell
    /// of the play area.
    pub fn can_make_move(&self) -> (found: bool)
        requires
            self.wf(),
        ensures
            found == self.has_move(),
    {
        let hand = &self.players[self.current_player].remaining_pieces;
        let ghost color = self.current_color();
        let mut id: usize = 0;
        while id < PIECE_COUNT
            invariant
                id <= PIECE_COUNT,
                self.wf(),
                color == self.current_color(),
                *hand == self.players@[self.current_player as int].remaining_pieces,
                forall|j: usize, fl: bool, t: nat|
                    j < id && t < 4 && self.current_hand().contains(j) ==> !#[trigger] placeable(self.board, orientation(catalog_cells(j as int), fl, t), color),
            decreases PIECE_COUNT - id,
        {
            if piece_set_contains(hand, id) {
                let ghost g = catalog_cells(id as int);
                let mut buf = catalog_shape(id);
                let mut f: usize = 0;
                while f < 2
                    invariant
                        f <= 2,
                        id < PIECE_COUNT,
                        self.wf(),
                        color == self.current_color(),
                        *hand == self.players@[self.current_player as int].remaining_pieces,
                        g == catalog_cells(id as int),
                        self.current_hand().contains(id),
                        shape_wf(buf),
                        cells(buf) == if f == 1 { flipped_v(g) } else { g },
                        forall|j: usize, fl: bool, t: nat|
                            j < id && t < 4 && self.current_hand().contains(j) ==> !#[trigger] placeable(self.board, orientation(catalog_cells(j as int), fl, t), color),
                        forall|fl: bool, t: nat|
                            t < 4 && (if fl { 0int } else { 1int }) < f ==> !#[trigger] placeable(self.board, orientation(g, fl, t), color),
                    decreases 2 - f,
                {
                    buf = flip(buf, FlipDir::Vertical);
                    let ghost base = cells(buf);
                    let ghost base_shape = buf;
                    assert(base == orientation(g, f == 0, 0)) by {
                        if f == 1 {
                            assert(flipped_v(flipped_v(g)) =~= g);
                        }
                    }
                    let mut k: usize = 0;
                    while k < 4
                        invariant
                            f < 2,
                            k <= 4,
                            id < PIECE_COUNT,
                            self.wf(),
                            color == self.current_color(),
                            *hand == self.players@[self.current_player as int].remaining_pieces,
                            g == catalog_cells(id as int),
                            self.current_hand().contains(id),
                            base == cells(base_shape),
                            base == orientation(g, f == 0, 0),
                            shape_wf(buf),
                            cells(buf) == turned(base, k as nat),
                            forall|j: usize, fl: bool, t: nat|
                                j < id && t < 4 && self.current_hand().contains(j) ==> !#[trigger] placeable(self.board, orientation(catalog_cells(j as int), fl, t), color),
                            forall|fl: bool, t: nat|
                                t < 4 && ((if fl { 0int } else { 1int }) < f || ((if fl { 0int } else { 1int }) == f && (if t == 0 { k >= 4 } else { t <= k })))
                                    ==> !#[trigger] placeable(self.board, orientation(g, fl, t), color),
                        decreases 4 - k,
                    {
                        buf = rotate(buf, RotateDir::Right);
                        let ghost t: nat = ((k + 1) % 4) as nat;
                        proof {
                            lemma_rotate_four_times(base_shape);
                            lemma_turned_four(base);
                            assert(cells(buf) == orientation(g, f == 0, t));
                        }
                        if self.fits_somewhere(&buf) {
                            assert(placeable(self.board, orientation(catalog_cells(id as int), f == 0, t), self.current_color()));
                            assert(self.current_hand().contains(id));
                            assert(t < 4);
                            return true;
                        }
                        k += 1;
                    }
                    proof {
                        lemma_rotate_four_times(base_shape);
                        lemma_turned_four(base);
                    }
                    f += 1;
                }
            }
            id += 1;
        }
        false
    }

    /// With the centre (2, 2) of the piece buffer's frame at play-area cell
    /// (row, col), places the buffer for the current player and passes the
    /// turn, when the selected piece is still in the player's hand, the buffer
    /// fits in the play area there and the placement is legal. Otherwise
    /// nothing changes. Returns whether the piece was placed.
    pub fn try_advance_turn(&mut self, row: usize, col: usize) -> (placed: bool)
        requires
            old(self).wf(),
        ensures
            final(self).wf(),
            placed == (old(self).selected_piece matches Some(id) && old(self).current_hand().contains(id)
                && fits_at(cells(old(self).piece_buffer), row as int, col as int)
                && legal_placement(old(self).board, cells(old(self).piece_buffer), row - 1, col - 1, old(self).current_color())),
            placed ==> {
                &&& board_with_piece(old(self).board, final(self).board, cells(old(self).piece_buffer), row - 1, col - 1, old(self).current_color())
                &&& final(self).players.len() == old(self).players.len()
                &&& forall|i: int| 0 <= i < final(self).players.len() && i != old(self).current_player ==> #[trigger] final(self).players@[i] == old(self).players@[i]
                &&& final(self).players@[old(self).current_player as int].color == old(self).current_color()
                &&& piece_ids(final(self).players@[old(self).current_player as int].remaining_pieces) == old(self).current_hand().remove(old(self).selected_piece->0)
                &&& final(self).current_player == (old(self).current_player + 1) % (old(self).players.len() as int)
                &&& final(self).selected_piece is None
                &&& final(self).pass_counter == 0
            },
            !placed ==> *final(self) == *old(self),
            board_extends(old(self).board, final(self).board),
    {
        if row >= PLAY_LEN || col >= PLAY_LEN {
            return false;
        }
        let center = Coord { row: row as i32, col: col as i32 };
        let corner = match self.check_bounds_and_recenter(center) {
            Some(coords) => coords,
            None => return false,
        };
        let in_hand = match self.selected_piece {
            Some(id) => piece_set_contains(&self.players[self.current_player].remaining_pieces, id),
            None => false,
        };
        let place_ok = in_hand && self.valid_move(Coord { row: corner.row + 1, col: corner.col + 1 });
        if place_ok {
            let ghost g = cells(self.piece_buffer);
            assert(self.selected_piece is Some) by {
                let p = choose|p: (int, int)| #[trigger] g.contains(p) && touches_corner(self.board, corner.row + 1 + p.0, corner.col + 1 + p.1, self.current_color());
                assert(g.contains(p));
            }
            self.place_piece(corner);
            self.end_turn();
        }
        place_ok
    }

    /// When the player to move has no legal placement, passes the turn and
    /// counts the pass. Returns whether the turn was passed.
    pub fn pass_if_stuck(&mut self) -> (passed: bool)
        requires
            old(self).wf(),
            old(self).pass_counter < old(self).players.len(),
        ensures
            final(self).wf(),
            passed == !old(self).has_move(),
            passed ==> forced_pass(*old(self), *final(self)),
            !passed ==> *final(self) == *old(self),
            board_extends(old(self).board, final(self).board),
    {
        if self.can_make_move() {
            false
        } else {
            self.end_turn();
            self.pass_counter = self.pass_counter + 1;
            true
        }
    }
}

/// With the centre (2, 2) of the piece buffer's frame at play-area cell
/// `proposed`: the play-area position of the frame's origin, when the buffer
/// fits in the play area there and the current player may place it.
pub fn update_suggestion(game_state: &GameState, proposed: Coord) -> (hint: Option<Coord>)
    requires
        game_state.wf(),
    ensures
        hint == if fits_at(cells(game_state.piece_buffer), proposed.row as int, proposed.col as int)
            && legal_placement(game_state.board, cells(game_state.piece_buffer), proposed.row - 1, proposed.col - 1, game_state.current_color()) {
            Some(Coord { row: (proposed.row - 2) as i32, col: (proposed.col - 2) as i32 })
        } else {
            None::<Coord>
        },
{
    match game_state.check_bounds_and_recenter(proposed) {
        Some(corner) => {
            // Legality is judged in board coordinates, one cell in from the play area.
            if game_state.valid_move(Coord { row: corner.row + 1, col: corner.col + 1 }) {
                Some(corner)
            } else {
                None
            }
        },
        None => None,
    }
}

/// A fresh board for two to four players has the wall border all round, but
/// for one seed cell per player, which holds that player's color: the far
/// corners for two players, the corners in turn for three or four. The play
/// area is empty.
pub proof fn lemma_fresh_board(b: Board, players: Seq<Player>)
    requires
        2 <= players.len() <= 4,
        is_initial_board(b, players),
    ensures
        forall|i: int| 0 <= i < players.len() ==> {
            let (r, c) = #[trigger] seed_cell(players.len() as int, i);
            b[r][c] == players[i].color && (r == 0 || r == 21) && (c == 0 || c == 21)
        },
        forall|i: int, j: int| 0 <= i < j < players.len() ==> seed_cell(players.len() as int, i) != seed_cell(players.len() as int, j),
        players.len() == 2 ==> seed_cell(2, 0) == (21int, 21int) && seed_cell(2, 1) == (0int, 0int),
        forall|r: int, c: int| 0 <= r < 22 && 0 <= c < 22 && on_border(r, c)
            && (forall|i: int| 0 <= i < players.len() ==> seed_cell(players.len() as int, i) != (r, c))
            ==> #[trigger] b[r][c] == TileColor::Wall,
        forall|r: int, c: int| 1 <= r <= 20 && 1 <= c <= 20 ==> #[trigger] b[r][c] == TileColor::Empty,
{
    let n = players.len() as int;
    assert forall|i: int| 0 <= i < n implies {
        let (r, c) = #[trigger] seed_cell(n, i);
        b[r][c] == players[i].color && (r == 0 || r == 21) && (c == 0 || c == 21)
    } by {
        let (r, c) = seed_cell(n, i);
        assert(b[r][c] == initial_tile(players, r, c));
        let j = choose|j: int| 0 <= j < n && seed_cell(n, j) == (r, c);
        assert(seed_cell(n, j) == seed_cell(n, i));
    }
    assert forall|r: int, c: int| 1 <= r <= 20 && 1 <= c <= 20 implies #[trigger] b[r][c] == TileColor::Empty by {
        assert(b[r][c] == initial_tile(players, r, c));
    }
}

/// Once a cell holds a color or a wall it keeps it: along any sequence of
/// boards in which each step keeps the non-empty cells of the one before,
/// every board keeps the non-empty cells of every earlier one.
pub proof fn lemma_filled_cells_stay(boards: Seq<Board>)
    requires
        forall|i: int| 0 <= i < boards.len() - 1 ==> board_extends(#[trigger] boards[i], boards[i + 1]),
    ensures
        forall|i: int, j: int| 0 <= i <= j < boards.len() ==> board_extends(#[trigger] boards[i], #[trigger] boards[j]),
    decreases boards.len(),
{
    if boards.len() > 1 {
        let front = boards.drop_last();
        assert forall|i: int| 0 <= i < front.len() - 1 implies board_extends(#[trigger] front[i], front[i + 1]) by {
            assert(board_extends(boards[i], boards[i + 1]));
        }
        lemma_filled_cells_stay(front);
        assert forall|i: int, j: int| 0 <= i <= j < boards.len() implies board_extends(#[trigger] boards[i], #[trigger] boards[j]) by {
            if j < boards.len() - 1 {
                assert(board_extends(front[i], front[j]));
            } else if i < j {
                assert(board_extends(front[i], front[j - 1]));
                assert(board_extends(boards[j - 1], boards[j]));
            }
        }
    }
}

/// A placement in which no cell shares a corner with a cell of the player's
/// color is illegal, however free the cells are.
pub proof fn lemma_no_corner_contact_is_illegal(b: Board, g: Set<(int, int)>, row: int, col: int, color: TileColor)
    requires
        forall|p: (int, int)| #[trigger] g.contains(p) ==> !touches_corner(b, row + p.0, col + p.1, color),
    ensures
        !legal_placement(b, g, row, col, color),
{
}

/// A placement in which some cell shares an edge with a cell of the player's
/// color is illegal, whatever corner contacts it has.
pub proof fn lemma_side_contact_is_illegal(b: Board, g: Set<(int, int)>, row: int, col: int, color: TileColor, p: (int, int))
    requires
        g.contains(p),
        touches_side(b, row + p.0, col + p.1, color),
    ensures
        !legal_placement(b, g, row, col, color),
{
}

/// When the player to move has no piece left, the game is over, whatever the
/// pass counter says.
pub proof fn lemma_empty_hand_ends_game(g: GameState)
    requires
        g.current_hand() == Set::<usize>::empty(),
    ensures
        g.game_over(),
{
}

/// When every player in turn has to pass, the pass counter reaches the number
/// of players and the game is over, pieces in hand or not.
pub proof fn lemma_all_passes_end_game(states: Seq<GameState>)
    requires
        states.len() >= 1,
        states[0].wf(),
        states.len() == states[0].players.len() - states[0].pass_counter + 1,
        forall|i: int| 0 <= i < states.len() - 1 ==> forced_pass(#[trigger] states[i], states[i + 1]),
    ensures
        states.last().game_over(),
        states.last().pass_counter == states.last().players.len(),
{
    let n = states.len() - 1;
    assert forall|i: int| 0 <= i <= n implies #[trigger] states[i].pass_counter == states[0].pass_counter + i
        && states[i].players.len() == states[0].players.len() by {
        lemma_pass_count(states, i);
    }
    assert(states[n].pass_counter == states[0].players.len());
}

proof fn lemma_pass_count(states: Seq<GameState>, i: int)
    requires
        0 <= i < states.len(),
        forall|k: int| 0 <= k < states.len() - 1 ==> forced_pass(#[trigger] states[k], states[k + 1]),
    ensures
        states[i].pass_counter == states[0].pass_counter + i,
        states[i].players.len() == states[0].players.len(),
    decreases i,
{
    if i > 0 {
        lemma_pass_count(states, i - 1);
        assert(forced_pass(states[i - 1], states[i]));
    }
}

/// The zig-zag piece, cell by cell.
proof fn lemma_zigzag_cells()
    ensures
        catalog_cells(6) == set![(1int, 1int), (1int, 2int), (2int, 2int), (2int, 3int)],
{
    assert(forall|c: u8| c < 5 ==> (((0u8 >> c) & 1u8 == 1u8) <==> false)) by (bit_vector);
    assert(forall|c: u8| c < 5 ==> (((6u8 >> c) & 1u8 == 1u8) <==> (c == 1 || c == 2))) by (bit_vector);
    assert(forall|c: u8| c < 5 ==> (((12u8 >> c) & 1u8 == 1u8) <==> (c == 2 || c == 3))) by (bit_vector);
    assert(catalog_masks(6) == seq![0u8, 6u8, 12u8, 0u8, 0u8]);
    assert(catalog_cells(6) =~= set![(1int, 1int), (1int, 2int), (2int, 2int), (2int, 3int)]);
}

/// On a fresh board, every player with a full hand has a legal placement:
/// the zig-zag piece, turned so that one cell touches the player's seed cell
/// at a corner.
pub proof fn lemma_fresh_game_has_move(g: GameState)
    requires
        g.wf(),
        is_initial_board(g.board, g.players@),
        g.current_hand() == all_pieces(),
        g.current_color() != TileColor::Empty,
        g.current_color() != TileColor::Wall,
    ensures
        g.has_move(),
{
    let b = g.board;
    let color = g.current_color();
    let z = catalog_cells(6);
    lemma_zigzag_cells();
    lemma_fresh_board_colors(g);
    let seed = seed_cell(g.players.len() as int, g.current_player as int);
    if seed == (0int, 0int) {
        let o = orientation(z, false, 0);
        assert(o == z);
        assert(legal_placement(b, o, 0, 0, color)) by {
            assert(z.contains((1int, 1int)) && touches_corner(b, 1, 1, color));
        }
        assert(placeable(b, o, color));
    } else if seed == (21int, 21int) {
        let o = orientation(z, false, 2);
        reveal_with_fuel(turned, 3);
        assert(o =~= set![(3int, 3int), (3int, 2int), (2int, 2int), (2int, 1int)]);
        assert(legal_placement(b, o, 17, 17, color)) by {
            assert(o.contains((3int, 3int)) && touches_corner(b, 20, 20, color));
        }
        assert(placeable(b, o, color));
    } else if seed == (21int, 0int) {
        let o = orientation(z, true, 0);
        assert(o =~= set![(3int, 1int), (3int, 2int), (2int, 2int), (2int, 3int)]);
        assert(legal_placement(b, o, 17, 0, color)) by {
            assert(o.contains((3int, 1int)) && touches_corner(b, 20, 1, color));
        }
        assert(placeable(b, o, color));
    } else {
        let o = orientation(z, true, 2);
        reveal_with_fuel(turned, 3);
        assert(o =~= set![(1int, 3int), (1int, 2int), (2int, 2int), (2int, 1int)]);
        assert(legal_placement(b, o, 0, 17, color)) by {
            assert(o.contains((1int, 3int)) && touches_corner(b, 1, 20, color));
        }
        assert(placeable(b, o, color));
    }
}

/// On a fresh board, only the four corners can hold the current player's
/// color, and the player's seed cell does.
proof fn lemma_fresh_board_colors(g: GameState)
    requires
        g.wf(),
        is_initial_board(g.board, g.players@),
        g.current_color() != TileColor::Empty,
        g.current_color() != TileColor::Wall,
    ensures
        forall|r: int, c: int| 0 <= r < 22 && 0 <= c < 22 && !((r == 0 || r == 21) && (c == 0 || c == 21))
            ==> #[trigger] g.board[r][c] != g.current_color(),
        ({
            let seed = seed_cell(g.players.len() as int, g.current_player as int);
            g.board[seed.0][seed.1] == g.current_color()
        }),
{
    let b = g.board;
    let n = g.players.len() as int;
    let color = g.current_color();
    assert forall|r: int, c: int| 0 <= r < 22 && 0 <= c < 22 && !((r == 0 || r == 21) && (c == 0 || c == 21))
        implies #[trigger] b[r][c] != color by {
        assert(b[r][c] == initial_tile(g.players@, r, c));
        assert(forall|j: int| 0 <= j < n ==> seed_cell(n, j) != (r, c));
    }
    let seed = seed_cell(n, g.current_player as int);
    assert(b[seed.0][seed.1] == initial_tile(g.players@, seed.0, seed.1));
    let j = choose|j: int| 0 <= j < n && seed_cell(n, j) == seed;
    assert(seed_cell(n, j) == seed_cell(n, g.current_player as int));
}

/// The dot piece, cell by cell.
proof fn lemma_dot_cells()
    ensures
        catalog_cells(0) == set![(2int, 2int)],
{
    assert(forall|c: u8| c < 5 ==> (((0u8 >> c) & 1u8 == 1u8) <==> false)) by (bit_vector);
    assert(forall|c: u8| c < 5 ==> (((4u8 >> c) & 1u8 == 1u8) <==> c == 2)) by (bit_vector);
    assert(catalog_masks(0) == seq![0u8, 0u8, 4u8, 0u8, 0u8]);
    assert(catalog_cells(0) =~= set![(2int, 2int)]);
}

/// On a fresh board the first move of every player may be the dot on the
/// play-area corner cell that touches the player's seed cell at a corner.
pub proof fn lemma_first_move_at_own_corner(g: GameState)
    requires
        g.wf(),
        is_initial_board(g.board, g.players@),
        g.current_color() != TileColor::Empty,
        g.current_color() != TileColor::Wall,
    ensures
        ({
            let seed = seed_cell(g.players.len() as int, g.current_player as int);
            let target_row = if seed.0 == 0 { 1int } else { 20int };
            let target_col = if seed.1 == 0 { 1int } else { 20int };
            legal_placement(g.board, catalog_cells(0), target_row - 2, target_col - 2, g.current_color())
        }),
{
    lemma_fresh_board_colors(g);
    lemma_dot_cells();
    let seed = seed_cell(g.players.len() as int, g.current_player as int);
    let target_row = if seed.0 == 0 { 1int } else { 20int };
    let target_col = if seed.1 == 0 { 1int } else { 20int };
    assert(g.board[target_row][target_col] == initial_tile(g.players@, target_row, target_col));
    assert(catalog_cells(0).contains((2int, 2int)) && touches_corner(g.board, target_row, target_col, g.current_color()));
}

/// Every cell of the wall border holds something other than `Empty`.
pub open spec fn border_filled(b: Board) -> bool {
    forall|r: int, c: int| 0 <= r < 22 && 0 <= c < 22 && on_border(r, c) ==> #[trigger] b[r][c] != TileColor::Empty
}

/// Every catalog piece covers the centre (2, 2) of its frame.
proof fn lemma_catalog_has_centre(id: int)
    requires
        0 <= id < PIECE_COUNT,
    ensures
        catalog_cells(id).contains((2int, 2int)),
{
    assert((4u8 >> 2u8) & 1u8 == 1u8) by (bit_vector);
    assert((12u8 >> 2u8) & 1u8 == 1u8) by (bit_vector);
    assert((14u8 >> 2u8) & 1u8 == 1u8) by (bit_vector);
    assert((28u8 >> 2u8) & 1u8 == 1u8) by (bit_vector);
    let m = catalog_masks(id)[2];
    assert(m == 4u8 || m == 12u8 || m == 14u8 || m == 28u8);
}

/// Turns and flips keep the centre of the frame where it is.
proof fn lemma_orientation_has_centre(g: Set<(int, int)>, flipped: bool, turns: nat)
    requires
        g.contains((2int, 2int)),
    ensures
        orientation(g, flipped, turns).contains((2int, 2int)),
    decreases turns,
{
    if turns > 0 {
        lemma_orientation_has_centre(g, flipped, (turns - 1) as nat);
    }
}

/// The search misses no move: while the wall border holds no empty cell, any
/// legal placement of a piece in hand, in any orientation and at any origin,
/// means that the player has a move in the sense `can_make_move` decides.
pub proof fn lemma_every_legal_move_is_found(
    g: GameState,
    id: usize,
    flipped: bool,
    turns: nat,
    row: int,
    col: int,
)
    requires
        g.wf(),
        border_filled(g.board),
        id < PIECE_COUNT,
        turns < 4,
        g.current_hand().contains(id),
        legal_placement(g.board, orientation(catalog_cells(id as int), flipped, turns), row, col, g.current_color()),
    ensures
        g.has_move(),
{
    let o = orientation(catalog_cells(id as int), flipped, turns);
    lemma_catalog_has_centre(id as int);
    lemma_orientation_has_centre(catalog_cells(id as int), flipped, turns);
    assert(o.contains((2int, 2int)));
    assert(tile(g.board, row + 2, col + 2) == TileColor::Empty);
    assert(-1 <= row < 19 && -1 <= col < 19);
    assert(placeable(g.board, o, g.current_color()));
}

} // verus!
