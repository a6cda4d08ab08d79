//! The FEN grammar: field splitting and the parsers of each field.
//!
//! A FEN has six fields separated by single spaces: the board (eight rows
//! from rank 8 down to rank 1, separated by `/`, each row made of piece
//! letters and the digits `1` to `8` that count empty squares, eight squares
//! in all), the side to move (`w` or `b`), the castling rights (`-`, or
//! distinct rights named by `KQkq` or by the file letters of their rooks,
//! upper case for White and lower case for Black, a file above the home-rank
//! king naming the kingside right), the en passant square (`-` or a square
//! name), the half-move clock and the full-move number (decimal, at most
//! 65535). No further check is made of the position: boards without kings,
//! for instance, are accepted.
use vstd::prelude::*;

use crate::types::{group_square, Color, Piece, PieceKind, Square};
use crate::position::CastlingRights;

verus! {

broadcast use group_square;

/// Why a FEN was refused.
#[derive(Clone, Copy, Debug, Eq, PartialEq, Hash, Structural)]
pub enum FenError {
    /// The board field is malformed.
    InvalidBoard,
    /// The side-to-move field is neither `w` nor `b`.
    InvalidSideToMove,
    /// The castling field is malformed.
    InvalidCastlingRights,
    /// The en passant field is malformed.
    InvalidEnPassant,
    /// The half-move clock is not a number up to 65535.
    InvalidHalfMoveClock,
    /// The full-move number is not a number up to 65535.
    InvalidFullmoveNumber,
    /// A field is missing.
    MissingField,
    /// There are more than six fields.
    TooManyFields,
}

/// Text of a FEN error.
pub open spec fn fen_error_text(e: FenError) -> Seq<char> {
    match e {
        FenError::InvalidBoard => "The board is invalid."@,
        FenError::InvalidSideToMove => "The side to move is invalid."@,
        FenError::InvalidCastlingRights => "The castling rights are invalid."@,
        FenError::InvalidEnPassant => "The en passant square is invalid."@,
        FenError::InvalidHalfMoveClock => "The halfmove clock is invalid."@,
        FenError::InvalidFullmoveNumber => "The fullmove number is invalid."@,
        FenError::MissingField => "The FEN is missing a field."@,
        FenError::TooManyFields => "The FEN has too many fields."@,
    }
}

impl FenError {
    /// Text of the error.
    pub fn text(self) -> (r: String)
        ensures
            r@ == fen_error_text(self),
    {
        match self {
            FenError::InvalidBoard => String::from_str("The board is invalid."),
            FenError::InvalidSideToMove => String::from_str("The side to move is invalid."),
            FenError::InvalidCastlingRights => String::from_str("The castling rights are invalid."),
            FenError::InvalidEnPassant => String::from_str("The en passant square is invalid."),
            FenError::InvalidHalfMoveClock => String::from_str("The halfmove clock is invalid."),
            FenError::InvalidFullmoveNumber => String::from_str("The fullmove number is invalid."),
            FenError::MissingField => String::from_str("The FEN is missing a field."),
            FenError::TooManyFields => String::from_str("The FEN has too many fields."),
        }
    }
}

// ---------------------------------------------------------------------------
// Grammar
// ---------------------------------------------------------------------------

/// The pieces of `s` between occurrences of `sep` (always at least one).
pub open spec fn split(s: Seq<char>, sep: char) -> Seq<Seq<char>>
    decreases s.len(),
{
    if s.len() == 0 {
        seq![Seq::empty()]
    } else {
        let rest = split(s.drop_last(), sep);
        if s.last() == sep {
            rest.push(Seq::empty())
        } else {
            rest.update(rest.len() - 1, rest.last().push(s.last()))
        }
    }
}

pub proof fn lemma_split_len(s: Seq<char>, sep: char)
    ensures
        split(s, sep).len() >= 1,
    decreases s.len(),
{
    if s.len() > 0 {
        lemma_split_len(s.drop_last(), sep);
    }
}

/// The piece a FEN letter stands for.
pub open spec fn piece_of_letter(c: char) -> Option<Piece> {
    if c == 'K' {
        Some(Piece { color: Color::White, kind: PieceKind::King })
    } else if c == 'Q' {
        Some(Piece { color: Color::White, kind: PieceKind::Queen })
    } else if c == 'R' {
        Some(Piece { color: Color::White, kind: PieceKind::Rook })
    } else if c == 'B' {
        Some(Piece { color: Color::White, kind: PieceKind::Bishop })
    } else if c == 'N' {
        Some(Piece { color: Color::White, kind: PieceKind::Knight })
    } else if c == 'P' {
        Some(Piece { color: Color::White, kind: PieceKind::Pawn })
    } else if c == 'k' {
        Some(Piece { color: Color::Black, kind: PieceKind::King })
    } else if c == 'q' {
        Some(Piece { color: Color::Black, kind: PieceKind::Queen })
    } else if c == 'r' {
        Some(Piece { color: Color::Black, kind: PieceKind::Rook })
    } else if c == 'b' {
        Some(Piece { color: Color::Black, kind: PieceKind::Bishop })
    } else if c == 'n' {
        Some(Piece { color: Color::Black, kind: PieceKind::Knight })
    } else if c == 'p' {
        Some(Piece { color: Color::Black, kind: PieceKind::Pawn })
    } else {
        None
    }
}

/// `c` is one of the digits `1` to `8`.
pub open spec fn is_run_digit(c: char) -> bool {
    '1' <= c && c <= '8'
}

/// The cells a row text describes, or `None` once it runs past eight squares
/// or holds a character that is neither a piece letter nor a run digit.
pub open spec fn row_cells_of(chars: Seq<char>) -> Option<Seq<Option<Piece>>>
    decreases chars.len(),
{
    if chars.len() == 0 {
        Some(Seq::empty())
    } else {
        match row_cells_of(chars.drop_last()) {
            None => None,
            Some(cells) => {
                let c = chars.last();
                if is_run_digit(c) {
                    let n = c as int - 48;
                    if cells.len() + n <= 8 {
                        Some(cells + Seq::new(n as nat, |j: int| None))
                    } else {
                        None
                    }
                } else {
                    match piece_of_letter(c) {
                        Some(p) => if cells.len() < 8 {
                            Some(cells.push(Some(p)))
                        } else {
                            None
                        },
                        None => None,
                    }
                }
            },
        }
    }
}

/// The eight cells of a row text, file a to h.
pub open spec fn parse_row(chars: Seq<char>) -> Option<Seq<Option<Piece>>> {
    match row_cells_of(chars) {
        Some(cells) => if cells.len() == 8 {
            Some(cells)
        } else {
            None
        },
        None => None,
    }
}

/// The 64 cells of a board field (rank 8 first in the text).
pub open spec fn parse_board(field: Seq<char>) -> Option<Seq<Option<Piece>>> {
    let rows = split(field, '/');
    if rows.len() == 8 && forall|k: int| 0 <= k < 8 ==> (#[trigger] parse_row(rows[k])) is Some {
        Some(Seq::new(64, |i: int| parse_row(rows[7 - i / 8])->0[i % 8]))
    } else {
        None
    }
}

/// The side to move of a FEN field.
pub open spec fn parse_side(s: Seq<char>) -> Option<Color> {
    if s == seq!['w'] {
        Some(Color::White)
    } else if s == seq!['b'] {
        Some(Color::Black)
    } else {
        None
    }
}

pub open spec fn no_rights() -> CastlingRights {
    CastlingRights {
        white_kingside: false,
        white_queenside: false,
        black_kingside: false,
        black_queenside: false,
    }
}

/// What stands on file `f` of `color`'s home rank.
pub open spec fn home_piece(board: Seq<Option<Piece>>, color: Color, f: int) -> Option<Piece> {
    board[color.home_rank() * 8 + f]
}

/// The lowest file from `f` on where `color`'s king stands on its home rank.
pub open spec fn king_file_from(board: Seq<Option<Piece>>, color: Color, f: int) -> Option<int>
    decreases 8 - f,
{
    if f < 0 || f >= 8 {
        None
    } else if home_piece(board, color, f) == Some(Piece { color, kind: PieceKind::King }) {
        Some(f)
    } else {
        king_file_from(board, color, f + 1)
    }
}

/// The file of `color`'s king on its home rank (the lowest, if several).
pub open spec fn home_king_file(board: Seq<Option<Piece>>, color: Color) -> Option<int> {
    king_file_from(board, color, 0)
}

/// The highest file in `k + 1 ..= f` where `color`'s rook stands on its home
/// rank.
pub open spec fn rook_file_down(board: Seq<Option<Piece>>, color: Color, k: int, f: int) -> Option<int>
    decreases f + 1,
{
    if f <= k || f < 0 {
        None
    } else if home_piece(board, color, f) == Some(Piece { color, kind: PieceKind::Rook }) {
        Some(f)
    } else {
        rook_file_down(board, color, k, f - 1)
    }
}

/// The lowest file in `f .. k` where `color`'s rook stands on its home rank.
pub open spec fn rook_file_up(board: Seq<Option<Piece>>, color: Color, k: int, f: int) -> Option<int>
    decreases k - f,
{
    if f >= k || f >= 8 {
        None
    } else if home_piece(board, color, f) == Some(Piece { color, kind: PieceKind::Rook }) {
        Some(f)
    } else {
        rook_file_up(board, color, k, f + 1)
    }
}

/// The outermost rook of `color` on the kingside (`short`) or queenside of
/// a king standing on file `k` of the home rank.
pub open spec fn castling_rook_file(board: Seq<Option<Piece>>, color: Color, k: int, short: bool) -> Option<int> {
    if short {
        rook_file_down(board, color, k, 7)
    } else {
        rook_file_up(board, color, k, 0)
    }
}

/// The standard castling letter: `K`/`Q` for White, `k`/`q` for Black.
pub open spec fn plain_castling_letter(color: Color, short: bool) -> char {
    match (color, short) {
        (Color::White, true) => 'K',
        (Color::White, false) => 'Q',
        (Color::Black, true) => 'k',
        (Color::Black, false) => 'q',
    }
}

/// The letter of file `f` in `color`'s case: `A`..`H` for White, `a`..`h`
/// for Black.
pub open spec fn file_letter_of(color: Color, f: int) -> char {
    match color {
        Color::White => (65 + f) as char,
        Color::Black => (97 + f) as char,
    }
}

/// The letter naming `color`'s kingside (`short`) or queenside right: the
/// standard letter while the king stands on the e-file with that right's
/// outermost rook on the corner (or when the home rank has no king, or no
/// rook on that side), and otherwise the file of that rook.
pub open spec fn castling_letter(board: Seq<Option<Piece>>, color: Color, short: bool) -> char {
    match home_king_file(board, color) {
        None => plain_castling_letter(color, short),
        Some(k) => match castling_rook_file(board, color, k, short) {
            None => plain_castling_letter(color, short),
            Some(r) => if k == 4 && r == (if short {
                7int
            } else {
                0int
            }) {
                plain_castling_letter(color, short)
            } else {
                file_letter_of(color, r)
            },
        },
    }
}

/// `r` with `color`'s kingside (`short`) or queenside right added, or `None`
/// if it is already there.
pub open spec fn set_right(r: CastlingRights, color: Color, short: bool) -> Option<CastlingRights> {
    match (color, short) {
        (Color::White, true) => if r.white_kingside {
            None
        } else {
            Some(CastlingRights { white_kingside: true, ..r })
        },
        (Color::White, false) => if r.white_queenside {
            None
        } else {
            Some(CastlingRights { white_queenside: true, ..r })
        },
        (Color::Black, true) => if r.black_kingside {
            None
        } else {
            Some(CastlingRights { black_kingside: true, ..r })
        },
        (Color::Black, false) => if r.black_queenside {
            None
        } else {
            Some(CastlingRights { black_queenside: true, ..r })
        },
    }
}

/// `r` with the right named by the rook file `f` of `color` added: a
/// kingside right for a file above the home-rank king, a queenside right
/// below it; `None` without a king on the home rank, on the king's own
/// file, or for a repeated right.
pub open spec fn add_file_right(r: CastlingRights, board: Seq<Option<Piece>>, color: Color, f: int) -> Option<CastlingRights> {
    match home_king_file(board, color) {
        None => None,
        Some(k) => if f > k {
            set_right(r, color, true)
        } else if f < k {
            set_right(r, color, false)
        } else {
            None
        },
    }
}

/// `r` with the right named by `c` added, or `None` for a repeated or
/// unknown letter. `K`, `Q`, `k` and `q` name the rights directly; the file
/// letters `A`..`H` (White) and `a`..`h` (Black) name the right whose rook
/// stands on that file.
pub open spec fn add_right(r: CastlingRights, board: Seq<Option<Piece>>, c: char) -> Option<CastlingRights> {
    if c == 'K' {
        set_right(r, Color::White, true)
    } else if c == 'Q' {
        set_right(r, Color::White, false)
    } else if c == 'k' {
        set_right(r, Color::Black, true)
    } else if c == 'q' {
        set_right(r, Color::Black, false)
    } else if 'A' <= c && c <= 'H' {
        add_file_right(r, board, Color::White, c as int - 65)
    } else if 'a' <= c && c <= 'h' {
        add_file_right(r, board, Color::Black, c as int - 97)
    } else {
        None
    }
}

/// The rights named by a sequence of letters.
pub open spec fn rights_of(s: Seq<char>, board: Seq<Option<Piece>>) -> Option<CastlingRights>
    decreases s.len(),
{
    if s.len() == 0 {
        Some(no_rights())
    } else {
        match rights_of(s.drop_last(), board) {
            None => None,
            Some(r) => add_right(r, board, s.last()),
        }
    }
}

/// The castling rights of a FEN field, read against the board.
pub open spec fn parse_castling(s: Seq<char>, board: Seq<Option<Piece>>) -> Option<CastlingRights> {
    if s == seq!['-'] {
        Some(no_rights())
    } else {
        rights_of(s, board)
    }
}

/// The en passant square of a FEN field (`Some(None)` for `-`).
pub open spec fn parse_ep(s: Seq<char>) -> Option<Option<Square>> {
    if s == seq!['-'] {
        Some(None)
    } else if s.len() == 2 && 'a' <= s[0] && s[0] <= 'h' && '1' <= s[1] && s[1] <= '8' {
        Some(Some(Square::at((s[1] as int - 49) * 8 + (s[0] as int - 97))))
    } else {
        None
    }
}

/// Every character of `s` is a decimal digit.
pub open spec fn all_digits(s: Seq<char>) -> bool {
    forall|i: int| 0 <= i < s.len() ==> '0' <= #[trigger] s[i] && s[i] <= '9'
}

/// The value of a decimal digit string.
pub open spec fn digits_value(s: Seq<char>) -> nat
    decreases s.len(),
{
    if s.len() == 0 {
        0
    } else {
        digits_value(s.drop_last()) * 10 + (s.last() as int - 48) as nat
    }
}

/// A non-empty decimal number of at most 65535.
pub open spec fn parse_number(s: Seq<char>) -> Option<u16> {
    if s.len() > 0 && all_digits(s) && digits_value(s) <= 65535 {
        Some(digits_value(s) as u16)
    } else {
        None
    }
}

// ---------------------------------------------------------------------------
// Executable parsers
// ---------------------------------------------------------------------------

/// The characters of `s`.
pub(crate) fn str_chars(s: &str) -> (r: Vec<char>)
    ensures
        r@ == s@,
{
    let n = s.unicode_len();
    let mut r: Vec<char> = Vec::new();
    let mut i: usize = 0;
    while i < n
        invariant
            n == s@.len(),
            i <= n,
            r@ == s@.take(i as int),
        decreases n - i,
    {
        r.push(s.get_char(i));
        assert(r@ =~= s@.take(i + 1));
        i += 1;
    }
    assert(r@ =~= s@);
    r
}

/// Splits `s` at each occurrence of `sep`.
pub(crate) fn split_chars(s: &Vec<char>, sep: char) -> (r: Vec<Vec<char>>)
    ensures
        r@.len() == split(s@, sep).len(),
        forall|k: int| 0 <= k < r@.len() ==> (#[trigger] r@[k])@ == split(s@, sep)[k],
{
    let mut fields: Vec<Vec<char>> = Vec::new();
    let mut cur: Vec<char> = Vec::new();
    let mut i: usize = 0;
    assert(s@.take(0) =~= Seq::<char>::empty());
    while i < s.len()
        invariant
            i <= s@.len(),
            split(s@.take(i as int), sep).len() == fields@.len() + 1,
            forall|k: int|
                0 <= k < fields@.len() ==> (#[trigger] fields@[k])@ == split(
                    s@.take(i as int),
                    sep,
                )[k],
            cur@ == split(s@.take(i as int), sep).last(),
        decreases s@.len() - i,
    {
        let c = s[i];
        let ghost pre = s@.take(i as int);
        assert(s@.take(i + 1).drop_last() =~= pre);
        assert(s@.take(i + 1).last() == c);
        proof {
            lemma_split_len(pre, sep);
        }
        if c == sep {
            let done = cur;
            fields.push(done);
            cur = Vec::new();
        } else {
            cur.push(c);
        }
        i += 1;
    }
    assert(s@.take(s@.len() as int) =~= s@);
    fields.push(cur);
    fields
}

/// Once a prefix of a row is refused, the whole row is.
proof fn lemma_row_refused(s: Seq<char>, i: int)
    requires
        0 <= i <= s.len(),
        row_cells_of(s.take(i)) is None,
    ensures
        row_cells_of(s) is None,
    decreases s.len() - i,
{
    if i < s.len() {
        assert(s.take(i + 1).drop_last() =~= s.take(i));
        lemma_row_refused(s, i + 1);
    } else {
        assert(s.take(i) =~= s);
    }
}

/// The piece a FEN letter stands for.
pub(crate) fn piece_from_letter(c: char) -> (r: Option<Piece>)
    ensures
        r == piece_of_letter(c),
{
    if c == 'K' {
        Some(Piece { color: Color::White, kind: PieceKind::King })
    } else if c == 'Q' {
        Some(Piece { color: Color::White, kind: PieceKind::Queen })
    } else if c == 'R' {
        Some(Piece { color: Color::White, kind: PieceKind::Rook })
    } else if c == 'B' {
        Some(Piece { color: Color::White, kind: PieceKind::Bishop })
    } else if c == 'N' {
        Some(Piece { color: Color::White, kind: PieceKind::Knight })
    } else if c == 'P' {
        Some(Piece { color: Color::White, kind: PieceKind::Pawn })
    } else if c == 'k' {
        Some(Piece { color: Color::Black, kind: PieceKind::King })
    } else if c == 'q' {
        Some(Piece { color: Color::Black, kind: PieceKind::Queen })
    } else if c == 'r' {
        Some(Piece { color: Color::Black, kind: PieceKind::Rook })
    } else if c == 'b' {
        Some(Piece { color: Color::Black, kind: PieceKind::Bishop })
    } else if c == 'n' {
        Some(Piece { color: Color::Black, kind: PieceKind::Knight })
    } else if c == 'p' {
        Some(Piece { color: Color::Black, kind: PieceKind::Pawn })
    } else {
        None
    }
}

/// The eight cells of a row text.
pub(crate) fn parse_row_chars(row: &Vec<char>) -> (r: Option<Vec<Option<Piece>>>)
    ensures
        match r {
            Some(cells) => parse_row(row@) == Some(cells@),
            None => parse_row(row@) is None,
        },
{
    let mut cells: Vec<Option<Piece>> = Vec::new();
    let mut i: usize = 0;
    assert(row@.take(0) =~= Seq::<char>::empty());
    while i < row.len()
        invariant
            i <= row@.len(),
            row_cells_of(row@.take(i as int)) == Some(cells@),
            cells@.len() <= 8,
        decreases row@.len() - i,
    {
        let c = row[i];
        assert(row@.take(i + 1).drop_last() =~= row@.take(i as int));
        assert(row@.take(i + 1).last() == c);
        if '1' <= c && c <= '8' {
            let n: usize = ((c as u32) - 48) as usize;
            if cells.len() + n > 8 {
                proof {
                    lemma_row_refused(row@, i + 1);
                }
                return None;
            }
            let ghost before = cells@;
            let mut k: usize = 0;
            while k < n
                invariant
                    k <= n,
                    n <= 8,
                    before.len() + n <= 8,
                    cells@ == before + Seq::new(k as nat, |j: int| None::<Piece>),
                decreases n - k,
            {
                cells.push(None);
                assert(cells@ =~= before + Seq::new((k + 1) as nat, |j: int| None::<Piece>));
                k += 1;
            }
        } else {
            match piece_from_letter(c) {
                Some(p) => {
                    if cells.len() >= 8 {
                        proof {
                            lemma_row_refused(row@, i + 1);
                        }
                        return None;
                    }
                    cells.push(Some(p));
                },
                None => {
                    proof {
                        lemma_row_refused(row@, i + 1);
                    }
                    return None;
                },
            }
        }
        i += 1;
    }
    assert(row@.take(row@.len() as int) =~= row@);
    if cells.len() == 8 {
        Some(cells)
    } else {
        None
    }
}

/// The 64 cells of a board field.
pub(crate) fn parse_board_chars(field: &Vec<char>) -> (r: Option<[Option<Piece>; 64]>)
    ensures
        match r {
            Some(cells) => parse_board(field@) == Some(cells@),
            None => parse_board(field@) is None,
        },
{
    let rows = split_chars(field, '/');
    let ghost srows = split(field@, '/');
    if rows.len() != 8 {
        return None;
    }
    let mut board: [Option<Piece>; 64] = [None; 64];
    let mut k: usize = 0;
    while k < 8
        invariant
            k <= 8,
            rows@.len() == 8,
            srows == split(field@, '/'),
            srows.len() == 8,
            forall|j: int| 0 <= j < 8 ==> (#[trigger] rows@[j])@ == srows[j],
            forall|j: int| 0 <= j < k ==> (#[trigger] parse_row(srows[j])) is Some,
            forall|i: int|
                0 <= i < 64 && 7 - i / 8 < k ==> board@[i] == parse_row(srows[7 - i / 8])->0[i
                    % 8],
        decreases 8 - k,
    {
        match parse_row_chars(&rows[k]) {
            None => {
                assert(parse_row(srows[k as int]) is None);
                return None;
            },
            Some(cells) => {
                let rank: usize = 7 - k;
                let mut f: usize = 0;
                while f < 8
                    invariant
                        f <= 8,
                        k < 8,
                        rank == 7 - k,
                        cells@.len() == 8,
                        parse_row(srows[k as int]) == Some(cells@),
                        forall|i: int|
                            0 <= i < 64 && 7 - i / 8 < k ==> board@[i] == parse_row(
                                srows[7 - i / 8],
                            )->0[i % 8],
                        forall|i: int|
                            0 <= i < 64 && i / 8 == rank && i % 8 < f ==> board@[i] == cells@[i
                                % 8],
                    decreases 8 - f,
                {
                    board[rank * 8 + f] = cells[f];
                    f += 1;
                }
            },
        }
        k += 1;
    }
    assert(Seq::new(64, |i: int| parse_row(srows[7 - i / 8])->0[i % 8]) =~= board@);
    Some(board)
}

/// The side to move of a FEN field.
pub(crate) fn parse_side_chars(s: &Vec<char>) -> (r: Option<Color>)
    ensures
        r == parse_side(s@),
{
    if s.len() == 1 && s[0] == 'w' {
        assert(s@ =~= seq!['w']);
        Some(Color::White)
    } else if s.len() == 1 && s[0] == 'b' {
        assert(s@ =~= seq!['b']);
        Some(Color::Black)
    } else {
        proof {
            if s@ == seq!['w'] || s@ == seq!['b'] {
                assert(s@.len() == 1);
            }
        }
        None
    }
}

/// Once a prefix of a castling field is refused, the whole field is.
proof fn lemma_rights_refused(s: Seq<char>, board: Seq<Option<Piece>>, i: int)
    requires
        0 <= i <= s.len(),
        rights_of(s.take(i), board) is None,
    ensures
        rights_of(s, board) is None,
    decreases s.len() - i,
{
    if i < s.len() {
        assert(s.take(i + 1).drop_last() =~= s.take(i));
        lemma_rights_refused(s, board, i + 1);
    } else {
        assert(s.take(i) =~= s);
    }
}

/// The file of `color`'s king on its home rank (the lowest, if several).
pub(crate) fn home_king_file_of(board: &[Option<Piece>; 64], color: Color) -> (r: Option<u8>)
    ensures
        match r {
            Some(k) => k < 8 && home_king_file(board@, color) == Some(k as int),
            None => home_king_file(board@, color) is None,
        },
{
    let base: usize = (color.home_rank() as usize) * 8;
    let mut f: u8 = 0;
    while f < 8
        invariant
            f <= 8,
            base == color.home_rank() * 8,
            base <= 56,
            board@.len() == 64,
            home_king_file(board@, color) == king_file_from(board@, color, f as int),
        decreases 8 - f,
    {
        match board[base + f as usize] {
            Some(p) => {
                if p.color == color && p.kind == PieceKind::King {
                    return Some(f);
                }
            },
            None => {},
        }
        f += 1;
    }
    None
}

/// The outermost rook of `color` on the kingside (`short`) or queenside of
/// a king on file `k` of the home rank.
pub(crate) fn castling_rook_file_of(board: &[Option<Piece>; 64], color: Color, k: u8, short: bool) -> (r: Option<u8>)
    requires
        k < 8,
    ensures
        match r {
            Some(x) => x < 8 && castling_rook_file(board@, color, k as int, short) == Some(x as int),
            None => castling_rook_file(board@, color, k as int, short) is None,
        },
{
    let base: usize = (color.home_rank() as usize) * 8;
    if short {
        let mut f: u8 = 7;
        while f > k
            invariant
                short,
                k < f + 1,
                f <= 7,
                base == color.home_rank() * 8,
                base <= 56,
                board@.len() == 64,
                rook_file_down(board@, color, k as int, 7) == rook_file_down(board@, color, k as int, f as int),
            decreases f,
        {
            match board[base + f as usize] {
                Some(p) => {
                    if p.color == color && p.kind == PieceKind::Rook {
                        assert(home_piece(board@, color, f as int) == Some(p));
                        assert(rook_file_down(board@, color, k as int, f as int) == Some(f as int));
                        assert(castling_rook_file(board@, color, k as int, short) == Some(f as int));
                        return Some(f);
                    }
                },
                None => {},
            }
            f -= 1;
        }
        None
    } else {
        let mut f: u8 = 0;
        while f < k
            invariant
                !short,
                f <= k,
                k < 8,
                base == color.home_rank() * 8,
                base <= 56,
                board@.len() == 64,
                rook_file_up(board@, color, k as int, 0) == rook_file_up(board@, color, k as int, f as int),
            decreases k - f,
        {
            match board[base + f as usize] {
                Some(p) => {
                    if p.color == color && p.kind == PieceKind::Rook {
                        assert(home_piece(board@, color, f as int) == Some(p));
                        assert(rook_file_up(board@, color, k as int, f as int) == Some(f as int));
                        assert(castling_rook_file(board@, color, k as int, short) == Some(f as int));
                        return Some(f);
                    }
                },
                None => {},
            }
            f += 1;
        }
        None
    }
}

/// The letter naming `color`'s kingside (`short`) or queenside right.
pub(crate) fn castling_letter_of(board: &[Option<Piece>; 64], color: Color, short: bool) -> (c: char)
    ensures
        c == castling_letter(board@, color, short),
{
    let plain = match (color, short) {
        (Color::White, true) => 'K',
        (Color::White, false) => 'Q',
        (Color::Black, true) => 'k',
        (Color::Black, false) => 'q',
    };
    let k = match home_king_file_of(board, color) {
        Some(k) => k,
        None => return plain,
    };
    let r = match castling_rook_file_of(board, color, k, short) {
        Some(r) => r,
        None => return plain,
    };
    let corner: u8 = if short {
        7
    } else {
        0
    };
    if k == 4 && r == corner {
        plain
    } else {
        match color {
            Color::White => (65u8 + r) as char,
            Color::Black => (97u8 + r) as char,
        }
    }
}

fn set_right_of(r: CastlingRights, color: Color, short: bool) -> (x: Option<CastlingRights>)
    ensures
        x == set_right(r, color, short),
{
    let mut x = r;
    match (color, short) {
        (Color::White, true) => {
            if r.white_kingside {
                return None;
            }
            x.white_kingside = true;
        },
        (Color::White, false) => {
            if r.white_queenside {
                return None;
            }
            x.white_queenside = true;
        },
        (Color::Black, true) => {
            if r.black_kingside {
                return None;
            }
            x.black_kingside = true;
        },
        (Color::Black, false) => {
            if r.black_queenside {
                return None;
            }
            x.black_queenside = true;
        },
    }
    Some(x)
}

fn add_right_of(r: CastlingRights, board: &[Option<Piece>; 64], c: char) -> (x: Option<CastlingRights>)
    ensures
        x == add_right(r, board@, c),
{
    if c == 'K' {
        set_right_of(r, Color::White, true)
    } else if c == 'Q' {
        set_right_of(r, Color::White, false)
    } else if c == 'k' {
        set_right_of(r, Color::Black, true)
    } else if c == 'q' {
        set_right_of(r, Color::Black, false)
    } else {
        let (color, f) = if 'A' <= c && c <= 'H' {
            (Color::White, (c as u32 - 65) as u8)
        } else if 'a' <= c && c <= 'h' {
            (Color::Black, (c as u32 - 97) as u8)
        } else {
            return None;
        };
        match home_king_file_of(board, color) {
            None => None,
            Some(k) => if f > k {
                set_right_of(r, color, true)
            } else if f < k {
                set_right_of(r, color, false)
            } else {
                None
            },
        }
    }
}

/// The castling rights of a FEN field, read against the board.
pub(crate) fn parse_castling_chars(s: &Vec<char>, board: &[Option<Piece>; 64]) -> (r: Option<CastlingRights>)
    ensures
        r == parse_castling(s@, board@),
{
    let mut r = CastlingRights {
        white_kingside: false,
        white_queenside: false,
        black_kingside: false,
        black_queenside: false,
    };
    if s.len() == 1 && s[0] == '-' {
        assert(s@ =~= seq!['-']);
        return Some(r);
    }
    proof {
        if s@ == seq!['-'] {
            assert(s@.len() == 1);
        }
    }
    let mut i: usize = 0;
    assert(s@.take(0) =~= Seq::<char>::empty());
    while i < s.len()
        invariant
            i <= s@.len(),
            s@ != seq!['-'],
            rights_of(s@.take(i as int), board@) == Some(r),
        decreases s@.len() - i,
    {
        let c = s[i];
        assert(s@.take(i + 1).drop_last() =~= s@.take(i as int));
        assert(s@.take(i + 1).last() == c);
        match add_right_of(r, board, c) {
            Some(x) => {
                r = x;
            },
            None => {
                proof {
                    lemma_rights_refused(s@, board@, i + 1);
                }
                return None;
            },
        }
        i += 1;
    }
    assert(s@.take(s@.len() as int) =~= s@);
    Some(r)
}

/// The en passant square of a FEN field.
pub(crate) fn parse_ep_chars(s: &Vec<char>) -> (r: Option<Option<Square>>)
    ensures
        r == parse_ep(s@),
{
    if s.len() == 1 && s[0] == '-' {
        assert(s@ =~= seq!['-']);
        return Some(None);
    }
    proof {
        if s@ == seq!['-'] {
            assert(s@.len() == 1);
        }
    }
    if s.len() == 2 && 'a' <= s[0] && s[0] <= 'h' && '1' <= s[1] && s[1] <= '8' {
        let f: u8 = ((s[0] as u32) - 97) as u8;
        let rk: u8 = ((s[1] as u32) - 49) as u8;
        match Square::from_coords(f, rk) {
            Some(sq) => Some(Some(sq)),
            None => None,
        }
    } else {
        None
    }
}

/// A decimal number up to 65535.
pub(crate) fn parse_number_chars(s: &Vec<char>) -> (r: Option<u16>)
    ensures
        r == parse_number(s@),
{
    if s.len() == 0 {
        return None;
    }
    let mut acc: u32 = 0;
    let mut i: usize = 0;
    assert(s@.take(0) =~= Seq::<char>::empty());
    while i < s.len()
        invariant
            i <= s@.len(),
            all_digits(s@.take(i as int)),
            digits_value(s@.take(i as int)) <= 65535 ==> acc == digits_value(s@.take(i as int)),
            digits_value(s@.take(i as int)) > 65535 ==> acc > 65535,
            acc <= 655359,
        decreases s@.len() - i,
    {
        let c = s[i];
        assert(s@.take(i + 1).drop_last() =~= s@.take(i as int));
        assert(s@.take(i + 1).last() == c);
        if !('0' <= c && c <= '9') {
            assert(!all_digits(s@));
            return None;
        }
        assert forall|j: int| 0 <= j < i + 1 implies '0' <= #[trigger] s@.take(i + 1)[j]
            && s@.take(i + 1)[j] <= '9' by {
            if j < i {
                assert(s@.take(i + 1)[j] == s@.take(i as int)[j]);
            }
        }
        let d: u32 = (c as u32) - 48;
        if acc <= 65535 {
            acc = acc * 10 + d;
        }
        i += 1;
    }
    assert(s@.take(s@.len() as int) =~= s@);
    if acc <= 65535 {
        Some(acc as u16)
    } else {
        None
    }
}

} // verus!
