//! Board state: piece placement, side to move, castling rights, en passant
//! square and move clocks, with FEN output and input.
use vstd::prelude::*;

use crate::bits::{bit, group_bits};
use crate::text::chars_to_string;
use crate::fen::{
    castling_letter, castling_letter_of, fen_error_text, parse_board, parse_board_chars, parse_castling,
    parse_castling_chars, parse_ep,
    parse_ep_chars, parse_number, parse_number_chars, parse_side, parse_side_chars, split,
    split_chars, str_chars, FenError,
};
use crate::types::{
    group_square, file_char, rank_char, square_name, CastlingPolicy, Color, Error, Piece, PieceKind,
    Square,
};

verus! {

broadcast use group_bits, group_square;

/// Which castling moves each side may still make.
#[derive(Clone, Copy, Debug, Eq, PartialEq, Hash, Structural)]
pub struct CastlingRights {
    /// White may castle kingside.
    pub white_kingside: bool,
    /// White may castle queenside.
    pub white_queenside: bool,
    /// Black may castle kingside.
    pub black_kingside: bool,
    /// Black may castle queenside.
    pub black_queenside: bool,
}

/// The mathematical content of a [`Position`].
pub struct PositionView {
    /// Piece on each square, indexed `a1 = 0` to `h8 = 63` (always 64 entries).
    pub board: Seq<Option<Piece>>,
    /// Side to move.
    pub turn: Color,
    /// Castling rights.
    pub rights: CastlingRights,
    /// En passant target square.
    pub ep: Option<Square>,
    /// Half-moves since the last pawn move or capture.
    pub halfmove: u16,
    /// Full-move number, starting at 1 and incremented after Black moves.
    pub fullmove: u16,
}

/// Bitboard-free board state.
#[derive(Clone, Debug)]
pub struct Position {
    squares: [Option<Piece>; 64],
    turn: Color,
    castling_rights: CastlingRights,
    en_passant: Option<Square>,
    halfmove_clock: u16,
    fullmove_number: u16,
}

impl View for Position {
    type V = PositionView;

    closed spec fn view(&self) -> PositionView {
        PositionView {
            board: self.squares@,
            turn: self.turn,
            rights: self.castling_rights,
            ep: self.en_passant,
            halfmove: self.halfmove_clock,
            fullmove: self.fullmove_number,
        }
    }
}

// ---------------------------------------------------------------------------
// Views of positions
// ---------------------------------------------------------------------------

/// `v` and `w` agree everywhere but on the board.
pub open spec fn same_state(v: PositionView, w: PositionView) -> bool {
    &&& v.turn == w.turn
    &&& v.rights == w.rights
    &&& v.ep == w.ep
    &&& v.halfmove == w.halfmove
    &&& v.fullmove == w.fullmove
}

/// Square `i` holds a piece of `color`.
pub open spec fn own_at(v: PositionView, color: Color, i: int) -> bool {
    v.board[i] matches Some(p) && p.color == color
}

/// `color` has a king somewhere on the board.
pub open spec fn has_king_of(v: PositionView, color: Color) -> bool {
    exists|i: int|
        0 <= i < 64 && #[trigger] v.board[i] == Some(Piece { color, kind: PieceKind::King })
}

/// `x + 1`, held at the largest `u16`.
pub open spec fn sat_inc(x: u16) -> u16 {
    if x < u16::MAX {
        (x + 1) as u16
    } else {
        x
    }
}

/// Rights with both of `color`'s rights removed.
pub open spec fn rights_without_color(r: CastlingRights, color: Color) -> CastlingRights {
    match color {
        Color::White => CastlingRights { white_kingside: false, white_queenside: false, ..r },
        Color::Black => CastlingRights { black_kingside: false, black_queenside: false, ..r },
    }
}

/// Rights after `color`'s rook on square `i` moved or was captured: a rook
/// leaving its home corner takes that side's right with it.
pub open spec fn rights_without_rook(r: CastlingRights, color: Color, i: int) -> CastlingRights {
    let home = color.home_rank() as int;
    if i == home * 8 + 7 {
        match color {
            Color::White => CastlingRights { white_kingside: false, ..r },
            Color::Black => CastlingRights { black_kingside: false, ..r },
        }
    } else if i == home * 8 {
        match color {
            Color::White => CastlingRights { white_queenside: false, ..r },
            Color::Black => CastlingRights { black_queenside: false, ..r },
        }
    } else {
        r
    }
}

/// The position after the side to move passes: the turn changes, the en
/// passant square is cleared, the half-move clock advances and the full-move
/// number advances after Black.
pub open spec fn null_move_view(v: PositionView) -> PositionView {
    PositionView {
        turn: v.turn.opposite(),
        ep: None,
        halfmove: sat_inc(v.halfmove),
        fullmove: if v.turn == Color::Black {
            sat_inc(v.fullmove)
        } else {
            v.fullmove
        },
        ..v
    }
}

/// The clocks, turn and en passant square after `mover` moved, capturing
/// `captured` if any: the half-move clock resets on pawn moves and captures,
/// and the full-move number advances after a Black piece moved.
pub open spec fn finish_move_view(
    v: PositionView,
    mover: Piece,
    captured: Option<Piece>,
    ep: Option<Square>,
) -> PositionView {
    PositionView {
        turn: v.turn.opposite(),
        ep: ep,
        halfmove: if mover.kind == PieceKind::Pawn || captured is Some {
            0
        } else {
            sat_inc(v.halfmove)
        },
        fullmove: if mover.color == Color::Black {
            sat_inc(v.fullmove)
        } else {
            v.fullmove
        },
        ..v
    }
}

/// Back-rank piece of the standard starting position on file `f`.
pub open spec fn standard_back_rank(f: int) -> PieceKind {
    if f == 0 || f == 7 {
        PieceKind::Rook
    } else if f == 1 || f == 6 {
        PieceKind::Knight
    } else if f == 2 || f == 5 {
        PieceKind::Bishop
    } else if f == 3 {
        PieceKind::Queen
    } else {
        PieceKind::King
    }
}

/// Piece on square `i` in the standard starting position.
pub open spec fn standard_piece(i: int) -> Option<Piece> {
    let f = i % 8;
    let r = i / 8;
    if r == 0 {
        Some(Piece { color: Color::White, kind: standard_back_rank(f) })
    } else if r == 1 {
        Some(Piece { color: Color::White, kind: PieceKind::Pawn })
    } else if r == 6 {
        Some(Piece { color: Color::Black, kind: PieceKind::Pawn })
    } else if r == 7 {
        Some(Piece { color: Color::Black, kind: standard_back_rank(f) })
    } else {
        None
    }
}

/// The standard starting position.
pub open spec fn standard_view() -> PositionView {
    PositionView {
        board: Seq::new(64, |i: int| standard_piece(i)),
        turn: Color::White,
        rights: CastlingRights {
            white_kingside: true,
            white_queenside: true,
            black_kingside: true,
            black_queenside: true,
        },
        ep: None,
        halfmove: 0,
        fullmove: 1,
    }
}

/// Piece on square `i` at the start of a game with the given back ranks
/// (file a to h), pawns in front of them.
pub open spec fn starting_piece(white: Seq<PieceKind>, black: Seq<PieceKind>, i: int) -> Option<Piece> {
    let f = i % 8;
    let r = i / 8;
    if r == 0 {
        Some(Piece { color: Color::White, kind: white[f] })
    } else if r == 1 {
        Some(Piece { color: Color::White, kind: PieceKind::Pawn })
    } else if r == 6 {
        Some(Piece { color: Color::Black, kind: PieceKind::Pawn })
    } else if r == 7 {
        Some(Piece { color: Color::Black, kind: black[f] })
    } else {
        None
    }
}

/// The arrangement holds a king.
pub open spec fn holds_king(rank: Seq<PieceKind>) -> bool {
    exists|k: int| 0 <= k < 8 && rank[k] == PieceKind::King
}

/// The arrangement holds a rook on the kingside (higher files) or the
/// queenside (lower files) of a king.
pub open spec fn rook_beside_king(rank: Seq<PieceKind>, kingside: bool) -> bool {
    exists|k: int, r: int|
        0 <= k < 8 && 0 <= r < 8 && rank[k] == PieceKind::King && rank[r] == PieceKind::Rook && if kingside {
            r > k
        } else {
            r < k
        }
}

/// Starting castling rights: the structural rights of the back ranks
/// intersected with the policy.
pub open spec fn starting_rights(
    white: Seq<PieceKind>,
    black: Seq<PieceKind>,
    policy: CastlingPolicy,
) -> CastlingRights {
    CastlingRights {
        white_kingside: policy.white_kingside && rook_beside_king(white, true),
        white_queenside: policy.white_queenside && rook_beside_king(white, false),
        black_kingside: policy.black_kingside && rook_beside_king(black, true),
        black_queenside: policy.black_queenside && rook_beside_king(black, false),
    }
}

/// The starting position for the given back ranks and castling policy.
pub open spec fn starting_view(
    white: Seq<PieceKind>,
    black: Seq<PieceKind>,
    policy: CastlingPolicy,
) -> PositionView {
    PositionView {
        board: Seq::new(64, |i: int| starting_piece(white, black, i)),
        turn: Color::White,
        rights: starting_rights(white, black, policy),
        ep: None,
        halfmove: 0,
        fullmove: 1,
    }
}

/// Whether the arrangement has a rook on the kingside and on the queenside
/// of a king.
fn flank_rooks(rank: &[PieceKind; 8]) -> (r: (bool, bool))
    ensures
        r.0 == rook_beside_king(rank@, true),
        r.1 == rook_beside_king(rank@, false),
{
    let mut seen_king = false;
    let mut seen_rook = false;
    let mut kingside = false;
    let mut queenside = false;
    let mut f: usize = 0;
    while f < 8
        invariant
            f <= 8,
            rank@.len() == 8,
            seen_king == exists|k: int| 0 <= k < f && rank@[k] == PieceKind::King,
            seen_rook == exists|k: int| 0 <= k < f && rank@[k] == PieceKind::Rook,
            kingside == exists|k: int, r: int|
                0 <= k < r < f && rank@[k] == PieceKind::King && rank@[r] == PieceKind::Rook,
            queenside == exists|k: int, r: int|
                0 <= r < k < f && rank@[k] == PieceKind::King && rank@[r] == PieceKind::Rook,
        decreases 8 - f,
    {
        let kind = rank[f];
        if kind == PieceKind::King {
            if seen_rook {
                queenside = true;
            }
            seen_king = true;
        }
        if kind == PieceKind::Rook {
            if seen_king {
                kingside = true;
            }
            seen_rook = true;
        }
        proof {
            let fi = f as int;
            if kind == PieceKind::King && !(exists|k: int, r: int|
                0 <= r < k < fi && rank@[k] == PieceKind::King && rank@[r] == PieceKind::Rook) && (exists|k: int| 0 <= k < fi && rank@[k] == PieceKind::Rook) {
                let r0 = choose|k: int| 0 <= k < fi && rank@[k] == PieceKind::Rook;
                assert(0 <= r0 < fi < fi + 1 && rank@[fi] == PieceKind::King && rank@[r0] == PieceKind::Rook);
            }
            if kind == PieceKind::Rook && (exists|k: int| 0 <= k < fi && rank@[k] == PieceKind::King) {
                let k0 = choose|k: int| 0 <= k < fi && rank@[k] == PieceKind::King;
                assert(0 <= k0 < fi < fi + 1 && rank@[k0] == PieceKind::King && rank@[fi] == PieceKind::Rook);
            }
            if kind == PieceKind::King {
                assert(rank@[fi] == PieceKind::King);
            }
            if kind == PieceKind::Rook {
                assert(rank@[fi] == PieceKind::Rook);
            }
        }
        f += 1;
    }
    proof {
        if kingside {
            let (k, r) = choose|k: int, r: int|
                0 <= k < r < 8 && rank@[k] == PieceKind::King && rank@[r] == PieceKind::Rook;
            assert(0 <= k < 8 && 0 <= r < 8 && rank@[k] == PieceKind::King && rank@[r] == PieceKind::Rook && r > k);
        }
        if queenside {
            let (k, r) = choose|k: int, r: int|
                0 <= r < k < 8 && rank@[k] == PieceKind::King && rank@[r] == PieceKind::Rook;
            assert(0 <= k < 8 && 0 <= r < 8 && rank@[k] == PieceKind::King && rank@[r] == PieceKind::Rook && r < k);
        }
    }
    (kingside, queenside)
}

// ---------------------------------------------------------------------------
// FEN output
// ---------------------------------------------------------------------------

/// FEN letter of a piece: upper case for White.
pub open spec fn piece_letter(p: Piece) -> char {
    match (p.color, p.kind) {
        (Color::White, PieceKind::King) => 'K',
        (Color::White, PieceKind::Queen) => 'Q',
        (Color::White, PieceKind::Rook) => 'R',
        (Color::White, PieceKind::Bishop) => 'B',
        (Color::White, PieceKind::Knight) => 'N',
        (Color::White, PieceKind::Pawn) => 'P',
        (Color::Black, PieceKind::King) => 'k',
        (Color::Black, PieceKind::Queen) => 'q',
        (Color::Black, PieceKind::Rook) => 'r',
        (Color::Black, PieceKind::Bishop) => 'b',
        (Color::Black, PieceKind::Knight) => 'n',
        (Color::Black, PieceKind::Pawn) => 'p',
    }
}

/// Decimal digit character of `d < 10`.
pub open spec fn digit_char(d: int) -> char {
    (48 + d) as char
}

/// The count of pending empty squares, if any, as one digit.
pub open spec fn empty_run(empty: int) -> Seq<char> {
    if empty > 0 {
        seq![digit_char(empty)]
    } else {
        Seq::empty()
    }
}

/// FEN text of a run of cells, with `empty` empty squares already pending
/// before it.
pub open spec fn row_text(cells: Seq<Option<Piece>>, empty: int) -> Seq<char>
    decreases cells.len(),
{
    if cells.len() == 0 {
        empty_run(empty)
    } else {
        match cells[0] {
            None => row_text(cells.drop_first(), empty + 1),
            Some(p) => empty_run(empty) + seq![piece_letter(p)] + row_text(cells.drop_first(), 0),
        }
    }
}

/// The cells of rank `r`, file a to h.
pub open spec fn rank_cells(board: Seq<Option<Piece>>, r: int) -> Seq<Option<Piece>> {
    board.subrange(r * 8, r * 8 + 8)
}

/// The first `n` ranks of the board text, from rank 8 downwards, joined by `/`.
pub open spec fn ranks_text(board: Seq<Option<Piece>>, n: nat) -> Seq<char>
    decreases n,
{
    if n == 0 {
        Seq::empty()
    } else if n == 1 {
        row_text(rank_cells(board, 7), 0)
    } else {
        ranks_text(board, (n - 1) as nat) + seq!['/'] + row_text(rank_cells(board, 8 - n), 0)
    }
}

/// Decimal text of `n`, without leading zeros.
pub open spec fn decimal(n: nat) -> Seq<char>
    decreases n,
{
    if n < 10 {
        seq![digit_char(n as int)]
    } else {
        decimal(n / 10) + seq![digit_char((n % 10) as int)]
    }
}

/// FEN castling field: the rights of White then Black, kingside first,
/// each named by [`castling_letter`]; `-` for none.
pub open spec fn castling_text(board: Seq<Option<Piece>>, r: CastlingRights) -> Seq<char> {
    let s = (if r.white_kingside {
        seq![castling_letter(board, Color::White, true)]
    } else {
        Seq::empty()
    }) + (if r.white_queenside {
        seq![castling_letter(board, Color::White, false)]
    } else {
        Seq::empty()
    }) + (if r.black_kingside {
        seq![castling_letter(board, Color::Black, true)]
    } else {
        Seq::empty()
    }) + (if r.black_queenside {
        seq![castling_letter(board, Color::Black, false)]
    } else {
        Seq::empty()
    });
    if s.len() == 0 {
        seq!['-']
    } else {
        s
    }
}

/// FEN side-to-move field.
pub open spec fn turn_text(c: Color) -> Seq<char> {
    match c {
        Color::White => seq!['w'],
        Color::Black => seq!['b'],
    }
}

/// FEN en passant field.
pub open spec fn ep_text(ep: Option<Square>) -> Seq<char> {
    match ep {
        None => seq!['-'],
        Some(s) => square_name(s.idx()),
    }
}

/// The FEN text of a position.
pub open spec fn fen_text(v: PositionView) -> Seq<char> {
    ranks_text(v.board, 8) + seq![' '] + turn_text(v.turn) + seq![' '] + castling_text(v.board, v.rights)
        + seq![' '] + ep_text(v.ep) + seq![' '] + decimal(v.halfmove as nat) + seq![' '] + decimal(
        v.fullmove as nat,
    )
}

proof fn lemma_row_text_step(cells: Seq<Option<Piece>>, i: int, empty: int)
    requires
        0 <= i < cells.len(),
    ensures
        row_text(cells.skip(i), empty) == (match cells[i] {
            None => row_text(cells.skip(i + 1), empty + 1),
            Some(p) => empty_run(empty) + seq![piece_letter(p)] + row_text(cells.skip(i + 1), 0),
        }),
{
    assert(cells.skip(i).drop_first() =~= cells.skip(i + 1));
}

pub(crate) fn push_digit(out: &mut Vec<char>, d: u16)
    requires
        d < 10,
    ensures
        final(out)@ == old(out)@.push(digit_char(d as int)),
{
    let b: u8 = 48 + (d as u8);
    out.push(b as char);
}

/// Appends the decimal text of `n`.
pub(crate) fn push_decimal(out: &mut Vec<char>, n: u16)
    ensures
        final(out)@ == old(out)@ + decimal(n as nat),
    decreases n,
{
    if n >= 10 {
        push_decimal(out, n / 10);
    }
    push_digit(out, n % 10);
    proof {
        if n >= 10 {
            assert(decimal(n as nat) == decimal((n / 10) as nat) + seq![digit_char((n % 10) as int)]);
        }
    }
}

fn piece_to_fen(piece: Piece) -> (c: char)
    ensures
        c == piece_letter(piece),
{
    match (piece.color, piece.kind) {
        (Color::White, PieceKind::King) => 'K',
        (Color::White, PieceKind::Queen) => 'Q',
        (Color::White, PieceKind::Rook) => 'R',
        (Color::White, PieceKind::Bishop) => 'B',
        (Color::White, PieceKind::Knight) => 'N',
        (Color::White, PieceKind::Pawn) => 'P',
        (Color::Black, PieceKind::King) => 'k',
        (Color::Black, PieceKind::Queen) => 'q',
        (Color::Black, PieceKind::Rook) => 'r',
        (Color::Black, PieceKind::Bishop) => 'b',
        (Color::Black, PieceKind::Knight) => 'n',
        (Color::Black, PieceKind::Pawn) => 'p',
    }
}


// ---------------------------------------------------------------------------
// FEN input
// ---------------------------------------------------------------------------

/// The position a FEN text describes, or the first problem found in it
/// (fields are examined from left to right).
pub open spec fn parse_fen(fen: Seq<char>) -> Result<PositionView, FenError> {
    let f = split(fen, ' ');
    if parse_board(f[0]) is None {
        Err(FenError::InvalidBoard)
    } else if f.len() < 2 {
        Err(FenError::MissingField)
    } else if parse_side(f[1]) is None {
        Err(FenError::InvalidSideToMove)
    } else if f.len() < 3 {
        Err(FenError::MissingField)
    } else if parse_castling(f[2], parse_board(f[0])->0) is None {
        Err(FenError::InvalidCastlingRights)
    } else if f.len() < 4 {
        Err(FenError::MissingField)
    } else if parse_ep(f[3]) is None {
        Err(FenError::InvalidEnPassant)
    } else if f.len() < 5 {
        Err(FenError::MissingField)
    } else if parse_number(f[4]) is None {
        Err(FenError::InvalidHalfMoveClock)
    } else if f.len() < 6 {
        Err(FenError::MissingField)
    } else if parse_number(f[5]) is None {
        Err(FenError::InvalidFullmoveNumber)
    } else if f.len() > 6 {
        Err(FenError::TooManyFields)
    } else {
        Ok(
            PositionView {
                board: parse_board(f[0])->0,
                turn: parse_side(f[1])->0,
                rights: parse_castling(f[2], parse_board(f[0])->0)->0,
                ep: parse_ep(f[3])->0,
                halfmove: parse_number(f[4])->0,
                fullmove: parse_number(f[5])->0,
            },
        )
    }
}

/// `r` is what reading `fen` gives: the position it describes, or an
/// [`Error::InvalidFen`] carrying the text of the first problem.
pub open spec fn fen_read_result(fen: Seq<char>, r: Result<PositionView, Error>) -> bool {
    match parse_fen(fen) {
        Ok(v) => r == Ok::<PositionView, Error>(v),
        Err(e) => r matches Err(Error::InvalidFen(m)) && m@ == fen_error_text(e),
    }
}

fn fen_error(e: FenError) -> (r: Error)
    ensures
        r matches Error::InvalidFen(m) && m@ == fen_error_text(e),
{
    Error::InvalidFen(e.text())
}

// ---------------------------------------------------------------------------
// Position
// ---------------------------------------------------------------------------

impl Position {
    /// The board of a position always has 64 squares.
    pub broadcast proof fn lemma_board_len(p: Position)
        ensures
            #[trigger] p@.board.len() == 64,
    {
        assert(p.squares@.len() == 64);
    }

    /// The standard chess starting position.
    pub fn standard() -> (r: Position)
        ensures
            r@ == standard_view(),
    {
        let mut squares: [Option<Piece>; 64] = [None; 64];
        let mut i: u8 = 0;
        while i < 64
            invariant
                i <= 64,
                squares@.len() == 64,
                forall|j: int| 0 <= j < i ==> squares@[j] == standard_piece(j),
            decreases 64 - i,
        {
            let f: u8 = i % 8;
            let r: u8 = i / 8;
            let back = if f == 0 || f == 7 {
                PieceKind::Rook
            } else if f == 1 || f == 6 {
                PieceKind::Knight
            } else if f == 2 || f == 5 {
                PieceKind::Bishop
            } else if f == 3 {
                PieceKind::Queen
            } else {
                PieceKind::King
            };
            let cell = if r == 0 {
                Some(Piece { color: Color::White, kind: back })
            } else if r == 1 {
                Some(Piece { color: Color::White, kind: PieceKind::Pawn })
            } else if r == 6 {
                Some(Piece { color: Color::Black, kind: PieceKind::Pawn })
            } else if r == 7 {
                Some(Piece { color: Color::Black, kind: back })
            } else {
                None
            };
            squares[i as usize] = cell;
            i += 1;
        }
        let p = Position {
            squares,
            turn: Color::White,
            castling_rights: CastlingRights {
                white_kingside: true,
                white_queenside: true,
                black_kingside: true,
                black_queenside: true,
            },
            en_passant: None,
            halfmove_clock: 0,
            fullmove_number: 1,
        };
        assert(p@.board =~= standard_view().board);
        p
    }

    /// The starting position for the given back ranks (file a to h), with
    /// the structural castling rights intersected with `policy`.
    pub fn starting(white: &[PieceKind; 8], black: &[PieceKind; 8], policy: CastlingPolicy) -> (r: Position)
        ensures
            r@ == starting_view(white@, black@, policy),
    {
        let mut squares: [Option<Piece>; 64] = [None; 64];
        let mut i: usize = 0;
        while i < 64
            invariant
                i <= 64,
                squares@.len() == 64,
                white@.len() == 8,
                black@.len() == 8,
                forall|j: int| 0 <= j < i ==> squares@[j] == starting_piece(white@, black@, j),
            decreases 64 - i,
        {
            let f: usize = i % 8;
            let r: usize = i / 8;
            let cell = if r == 0 {
                Some(Piece { color: Color::White, kind: white[f] })
            } else if r == 1 {
                Some(Piece { color: Color::White, kind: PieceKind::Pawn })
            } else if r == 6 {
                Some(Piece { color: Color::Black, kind: PieceKind::Pawn })
            } else if r == 7 {
                Some(Piece { color: Color::Black, kind: black[f] })
            } else {
                None
            };
            squares[i] = cell;
            i += 1;
        }
        let (white_kingside, white_queenside) = flank_rooks(white);
        let (black_kingside, black_queenside) = flank_rooks(black);
        let p = Position {
            squares,
            turn: Color::White,
            castling_rights: CastlingRights {
                white_kingside: policy.white_kingside && white_kingside,
                white_queenside: policy.white_queenside && white_queenside,
                black_kingside: policy.black_kingside && black_kingside,
                black_queenside: policy.black_queenside && black_queenside,
            },
            en_passant: None,
            halfmove_clock: 0,
            fullmove_number: 1,
        };
        assert(p@.board =~= starting_view(white@, black@, policy).board);
        p
    }

    /// Reads a position from FEN text.
    pub fn from_fen(fen: &str) -> (r: Result<Position, Error>)
        ensures
            fen_read_result(
                fen@,
                match r {
                    Ok(p) => Ok(p@),
                    Err(e) => Err(e),
                },
            ),
    {
        let chars = str_chars(fen);
        let fields = split_chars(&chars, ' ');
        proof {
            crate::fen::lemma_split_len(fen@, ' ');
        }
        let board = match parse_board_chars(&fields[0]) {
            Some(b) => b,
            None => return Err(fen_error(FenError::InvalidBoard)),
        };
        if fields.len() < 2 {
            return Err(fen_error(FenError::MissingField));
        }
        let turn = match parse_side_chars(&fields[1]) {
            Some(c) => c,
            None => return Err(fen_error(FenError::InvalidSideToMove)),
        };
        if fields.len() < 3 {
            return Err(fen_error(FenError::MissingField));
        }
        let castling_rights = match parse_castling_chars(&fields[2], &board) {
            Some(c) => c,
            None => return Err(fen_error(FenError::InvalidCastlingRights)),
        };
        if fields.len() < 4 {
            return Err(fen_error(FenError::MissingField));
        }
        let en_passant = match parse_ep_chars(&fields[3]) {
            Some(e) => e,
            None => return Err(fen_error(FenError::InvalidEnPassant)),
        };
        if fields.len() < 5 {
            return Err(fen_error(FenError::MissingField));
        }
        let halfmove_clock = match parse_number_chars(&fields[4]) {
            Some(n) => n,
            None => return Err(fen_error(FenError::InvalidHalfMoveClock)),
        };
        if fields.len() < 6 {
            return Err(fen_error(FenError::MissingField));
        }
        let fullmove_number = match parse_number_chars(&fields[5]) {
            Some(n) => n,
            None => return Err(fen_error(FenError::InvalidFullmoveNumber)),
        };
        if fields.len() > 6 {
            return Err(fen_error(FenError::TooManyFields));
        }
        Ok(
            Position {
                squares: board,
                turn,
                castling_rights,
                en_passant,
                halfmove_clock,
                fullmove_number,
            },
        )
    }

    /// The piece on `square`.
    pub fn piece_at(&self, square: Square) -> (r: Option<Piece>)
        ensures
            r == self@.board[square.idx()],
    {
        self.squares[square.index() as usize]
    }

    /// The side to move.
    pub fn turn(&self) -> (r: Color)
        ensures
            r == self@.turn,
    {
        self.turn
    }

    /// The castling rights.
    pub fn castling_rights(&self) -> (r: CastlingRights)
        ensures
            r == self@.rights,
    {
        self.castling_rights
    }

    /// The en passant target square.
    pub fn en_passant(&self) -> (r: Option<Square>)
        ensures
            r == self@.ep,
    {
        self.en_passant
    }

    /// Half-moves since the last pawn move or capture.
    pub fn halfmove_clock(&self) -> (r: u16)
        ensures
            r == self@.halfmove,
    {
        self.halfmove_clock
    }

    /// The full-move number.
    pub fn fullmove_number(&self) -> (r: u16)
        ensures
            r == self@.fullmove,
    {
        self.fullmove_number
    }

    /// Squares holding a piece of `color`.
    pub fn occupied_by(&self, color: Color) -> (r: u64)
        ensures
            forall|t: int| bit(r, t) <==> (0 <= t < 64 && own_at(self@, color, t)),
    {
        let mut bb: u64 = 0;
        let mut i: usize = 0;
        while i < 64
            invariant
                i <= 64,
                self.squares@.len() == 64,
                forall|t: int| bit(bb, t) <==> (0 <= t < i && own_at(self@, color, t)),
            decreases 64 - i,
        {
            let ghost old_bb = bb;
            match self.squares[i] {
                Some(p) => {
                    if p.color == color {
                        bb = bb | (1u64 << (i as u64));
                    }
                },
                None => {},
            }
            assert forall|t: int| bit(bb, t) <==> (0 <= t < i + 1 && own_at(self@, color, t)) by {
                if 0 <= t < i {
                    assert(bit(old_bb, t) == own_at(self@, color, t));
                }
            }
            i += 1;
        }
        bb
    }

    /// Squares holding any piece.
    pub fn occupied(&self) -> (r: u64)
        ensures
            forall|t: int| bit(r, t) <==> (0 <= t < 64 && self@.board[t] is Some),
    {
        let mut bb: u64 = 0;
        let mut i: usize = 0;
        while i < 64
            invariant
                i <= 64,
                self.squares@.len() == 64,
                forall|t: int| bit(bb, t) <==> (0 <= t < i && self@.board[t] is Some),
            decreases 64 - i,
        {
            let ghost old_bb = bb;
            if self.squares[i].is_some() {
                bb = bb | (1u64 << (i as u64));
            }
            assert forall|t: int| bit(bb, t) <==> (0 <= t < i + 1 && self@.board[t] is Some) by {
                if 0 <= t < i {
                    assert(bit(old_bb, t) == (self@.board[t] is Some));
                }
            }
            i += 1;
        }
        bb
    }

    /// Squares holding `color`'s pieces of `kind`.
    pub fn piece_bitboard(&self, color: Color, kind: PieceKind) -> (r: u64)
        ensures
            forall|t: int|
                bit(r, t) <==> (0 <= t < 64 && self@.board[t] == Some(Piece { color, kind })),
    {
        let mut bb: u64 = 0;
        let mut i: usize = 0;
        while i < 64
            invariant
                i <= 64,
                self.squares@.len() == 64,
                forall|t: int|
                    bit(bb, t) <==> (0 <= t < i && self@.board[t] == Some(Piece { color, kind })),
            decreases 64 - i,
        {
            let ghost old_bb = bb;
            match self.squares[i] {
                Some(p) => {
                    if p.color == color && p.kind == kind {
                        bb = bb | (1u64 << (i as u64));
                    }
                },
                None => {},
            }
            assert forall|t: int|
                bit(bb, t) <==> (0 <= t < i + 1 && self@.board[t] == Some(
                    Piece { color, kind },
                )) by {
                if 0 <= t < i {
                    assert(bit(old_bb, t) == (self@.board[t] == Some(Piece { color, kind })));
                }
            }
            i += 1;
        }
        bb
    }

    /// Whether `color` still has a king on the board.
    pub fn has_king(&self, color: Color) -> (r: bool)
        ensures
            r == has_king_of(self@, color),
    {
        let mut i: usize = 0;
        while i < 64
            invariant
                i <= 64,
                self.squares@.len() == 64,
                forall|j: int|
                    0 <= j < i ==> #[trigger] self@.board[j] != Some(
                        Piece { color, kind: PieceKind::King },
                    ),
            decreases 64 - i,
        {
            match self.squares[i] {
                Some(p) => {
                    if p.color == color && p.kind == PieceKind::King {
                        assert(self@.board[i as int] == Some(Piece { color, kind: PieceKind::King }));
                        return true;
                    }
                },
                None => {},
            }
            i += 1;
        }
        false
    }

    /// Puts `piece` (or nothing) on `square`.
    pub fn set_piece(&mut self, square: Square, piece: Option<Piece>)
        ensures
            final(self)@.board == old(self)@.board.update(square.idx(), piece),
            same_state(final(self)@, old(self)@),
    {
        let i = square.index() as usize;
        self.squares[i] = piece;
        assert(self@.board =~= old(self)@.board.update(square.idx(), piece));
    }

    /// Empties `square` and returns what stood there.
    pub fn remove_piece(&mut self, square: Square) -> (r: Option<Piece>)
        ensures
            r == old(self)@.board[square.idx()],
            final(self)@.board == old(self)@.board.update(square.idx(), None),
            same_state(final(self)@, old(self)@),
    {
        let removed = self.piece_at(square);
        self.set_piece(square, None);
        removed
    }

    /// Passes the turn without moving a piece.
    pub fn null_move(&mut self)
        ensures
            final(self)@ == null_move_view(old(self)@),
    {
        if self.turn == Color::Black {
            self.fullmove_number = self.fullmove_number.saturating_add(1);
        }
        self.halfmove_clock = self.halfmove_clock.saturating_add(1);
        self.en_passant = None;
        self.turn = self.turn.opposite();
    }

    /// Updates clocks, en passant square and turn after `moving_piece` moved,
    /// capturing `captured` if any.
    pub fn finish_move(&mut self, moving_piece: Piece, captured: Option<Piece>, en_passant: Option<Square>)
        ensures
            final(self)@ == finish_move_view(old(self)@, moving_piece, captured, en_passant),
    {
        if moving_piece.kind == PieceKind::Pawn || captured.is_some() {
            self.halfmove_clock = 0;
        } else {
            self.halfmove_clock = self.halfmove_clock.saturating_add(1);
        }
        if moving_piece.color == Color::Black {
            self.fullmove_number = self.fullmove_number.saturating_add(1);
        }
        self.en_passant = en_passant;
        self.turn = self.turn.opposite();
    }

    /// Removes both of `color`'s castling rights.
    pub fn disable_castling_for_color(&mut self, color: Color)
        ensures
            final(self)@ == (PositionView {
                rights: rights_without_color(old(self)@.rights, color),
                ..old(self)@
            }),
    {
        match color {
            Color::White => {
                self.castling_rights.white_kingside = false;
                self.castling_rights.white_queenside = false;
            },
            Color::Black => {
                self.castling_rights.black_kingside = false;
                self.castling_rights.black_queenside = false;
            },
        }
    }

    /// Removes the castling right tied to `color`'s rook on `square`, if any.
    pub fn disable_rook_castling_right(&mut self, color: Color, square: Square)
        ensures
            final(self)@ == (PositionView {
                rights: rights_without_rook(old(self)@.rights, color, square.idx()),
                ..old(self)@
            }),
    {
        let home: u8 = color.home_rank();
        let idx: u8 = square.index();
        if idx == home * 8 + 7 {
            match color {
                Color::White => self.castling_rights.white_kingside = false,
                Color::Black => self.castling_rights.black_kingside = false,
            }
        } else if idx == home * 8 {
            match color {
                Color::White => self.castling_rights.white_queenside = false,
                Color::Black => self.castling_rights.black_queenside = false,
            }
        }
    }

    /// Appends the FEN text of rank `rank`.
    fn push_rank_text(&self, out: &mut Vec<char>, rank: u8)
        requires
            rank < 8,
        ensures
            final(out)@ == old(out)@ + row_text(rank_cells(self@.board, rank as int), 0),
    {
        let ghost before = out@;
        let ghost cells = rank_cells(self@.board, rank as int);
        let mut empty_count: u16 = 0;
        let mut file: u8 = 0;
        assert(cells.skip(0) =~= cells);
        while file < 8
            invariant
                file <= 8,
                rank < 8,
                empty_count <= file,
                self.squares@.len() == 64,
                cells == rank_cells(self@.board, rank as int),
                out@ + row_text(cells.skip(file as int), empty_count as int) == before + row_text(
                    cells,
                    0,
                ),
            decreases 8 - file,
        {
            proof {
                lemma_row_text_step(cells, file as int, empty_count as int);
            }
            let idx = (rank as usize) * 8 + (file as usize);
            assert(cells[file as int] == self@.board[idx as int]);
            match self.squares[idx] {
                Some(piece) => {
                    if empty_count > 0 {
                        push_digit(out, empty_count);
                    }
                    out.push(piece_to_fen(piece));
                    proof {
                        if empty_count > 0 {
                            assert(empty_run(empty_count as int) == seq![digit_char(
                                empty_count as int,
                            )]);
                        } else {
                            assert(empty_run(0) =~= Seq::<char>::empty());
                        }
                        assert(out@ + row_text(cells.skip(file + 1), 0) =~= before + row_text(
                            cells,
                            0,
                        ));
                    }
                    empty_count = 0;
                },
                None => {
                    empty_count += 1;
                },
            }
            file += 1;
        }
        if empty_count > 0 {
            push_digit(out, empty_count);
        }
        proof {
            assert(cells.skip(8) =~= Seq::<Option<Piece>>::empty());
            assert(out@ =~= before + row_text(cells, 0));
        }
    }

    /// Appends the board field of the FEN text.
    fn push_board_text(&self, out: &mut Vec<char>)
        requires
            old(out)@.len() == 0,
        ensures
            final(out)@ == ranks_text(self@.board, 8),
    {
        let mut n: u8 = 0;
        while n < 8
            invariant
                n <= 8,
                out@ == ranks_text(self@.board, n as nat),
            decreases 8 - n,
        {
            let rank: u8 = 7 - n;
            if n > 0 {
                out.push('/');
            }
            let ghost before = out@;
            self.push_rank_text(out, rank);
            proof {
                if n == 0 {
                    assert(before =~= Seq::<char>::empty());
                    assert(out@ =~= ranks_text(self@.board, 1));
                } else {
                    assert(out@ =~= ranks_text(self@.board, (n + 1) as nat));
                }
            }
            n += 1;
        }
    }

    /// Appends the FEN castling field.
    fn push_castling_text(&self, out: &mut Vec<char>)
        ensures
            final(out)@ == old(out)@ + castling_text(self@.board, self@.rights),
    {
        let ghost start = out@;
        let ghost b = self@.board;
        let r = self.castling_rights;
        let mut any: bool = false;
        if r.white_kingside {
            out.push(castling_letter_of(&self.squares, Color::White, true));
            any = true;
        }
        if r.white_queenside {
            out.push(castling_letter_of(&self.squares, Color::White, false));
            any = true;
        }
        if r.black_kingside {
            out.push(castling_letter_of(&self.squares, Color::Black, true));
            any = true;
        }
        if r.black_queenside {
            out.push(castling_letter_of(&self.squares, Color::Black, false));
            any = true;
        }
        if !any {
            out.push('-');
        }
        proof {
            let s = (if r.white_kingside {
                seq![castling_letter(b, Color::White, true)]
            } else {
                Seq::empty()
            }) + (if r.white_queenside {
                seq![castling_letter(b, Color::White, false)]
            } else {
                Seq::empty()
            }) + (if r.black_kingside {
                seq![castling_letter(b, Color::Black, true)]
            } else {
                Seq::empty()
            }) + (if r.black_queenside {
                seq![castling_letter(b, Color::Black, false)]
            } else {
                Seq::empty()
            });
            if any {
                assert(out@ =~= start + s);
            } else {
                assert(s =~= Seq::empty());
                assert(out@ =~= start + seq!['-']);
            }
        }
    }

    /// The FEN text of the position; reading it back gives this position.
    #[verifier::rlimit(50)]
    pub fn to_fen(&self) -> (r: String)
        ensures
            r@ == fen_text(self@),
            parse_fen(r@) == Ok::<PositionView, FenError>(self@),
    {
        let mut out: Vec<char> = Vec::new();
        self.push_board_text(&mut out);
        out.push(' ');
        match self.turn {
            Color::White => out.push('w'),
            Color::Black => out.push('b'),
        }
        out.push(' ');
        self.push_castling_text(&mut out);
        out.push(' ');
        match self.en_passant {
            None => out.push('-'),
            Some(sq) => {
                proof {
                    use_type_invariant(&sq);
                }
                out.push(file_char(sq.file()));
                out.push(rank_char(sq.rank()));
            },
        }
        out.push(' ');
        push_decimal(&mut out, self.halfmove_clock);
        out.push(' ');
        push_decimal(&mut out, self.fullmove_number);
        proof {
            assert(out@ =~= fen_text(self@));
            crate::fen_round_trip::lemma_fen_round_trip(self@);
        }
        chars_to_string(&out)
    }
}

} // verus!
