//! Value types shared by the board, the move rules and the game driver.
use vstd::prelude::*;

use crate::text::chars_to_string;

verus! {

/// Player color.
#[derive(Clone, Copy, Debug, PartialEq, Eq, Hash, Structural)]
pub enum Color {
    /// White moves first.
    White,
    /// Black moves second.
    Black,
}

impl Color {
    /// Returns the opposite color.
    #[verifier::allow_in_spec]
    #[must_use]
    pub fn opposite(self) -> Color
        returns
            (match self {
                Color::White => Color::Black,
                Color::Black => Color::White,
            }),
    {
        match self {
            Color::White => Color::Black,
            Color::Black => Color::White,
        }
    }

    /// Returns a stable array index for the color.
    #[verifier::allow_in_spec]
    #[must_use]
    pub fn index(self) -> usize
        returns
            (match self {
                Color::White => 0usize,
                Color::Black => 1usize,
            }),
    {
        match self {
            Color::White => 0,
            Color::Black => 1,
        }
    }

    /// Rank step of this color's pawns: `1` for White, `-1` for Black.
    #[verifier::allow_in_spec]
    pub fn pawn_dir(self) -> i8
        returns
            (match self {
                Color::White => 1i8,
                Color::Black => -1i8,
            }),
    {
        match self {
            Color::White => 1,
            Color::Black => -1,
        }
    }

    /// Rank from which this color's pawns may advance two squares.
    #[verifier::allow_in_spec]
    pub fn pawn_start_rank(self) -> u8
        returns
            (match self {
                Color::White => 1u8,
                Color::Black => 6u8,
            }),
    {
        match self {
            Color::White => 1,
            Color::Black => 6,
        }
    }

    /// Rank on which this color's pawns promote.
    #[verifier::allow_in_spec]
    pub fn pawn_promotion_rank(self) -> u8
        returns
            (match self {
                Color::White => 7u8,
                Color::Black => 0u8,
            }),
    {
        match self {
            Color::White => 7,
            Color::Black => 0,
        }
    }

    /// Rank holding this color's king and rooks at the start.
    #[verifier::allow_in_spec]
    pub fn home_rank(self) -> u8
        returns
            (match self {
                Color::White => 0u8,
                Color::Black => 7u8,
            }),
    {
        match self {
            Color::White => 0,
            Color::Black => 7,
        }
    }
}

/// A board square, indexed from `a1 = 0` to `h8 = 63`.
#[derive(Clone, Copy, Debug, Eq, PartialEq, Ord, PartialOrd, Hash, Structural)]
pub struct Square(u8);

impl Square {
    /// Every square value holds an index on the board.
    #[verifier::type_invariant]
    pub closed spec fn wf(self) -> bool {
        self.0 < 64
    }

    /// The zero-based index of the square.
    pub closed spec fn idx(self) -> int {
        self.0 as int
    }

    /// The square with index `i` (meaningful for `0 <= i < 64`).
    pub closed spec fn at(i: int) -> Square {
        Square(i as u8)
    }

    pub broadcast proof fn lemma_at(i: int)
        requires
            0 <= i < 64,
        ensures
            #![trigger Square::at(i)]
            Square::at(i).wf(),
            Square::at(i).idx() == i,
    {
    }

    pub broadcast proof fn lemma_wf(s: Square)
        requires
            #[trigger] s.wf(),
        ensures
            s.idx() < 64,
            Square::at(s.idx()) == s,
    {
    }

    pub broadcast proof fn lemma_idx_bound(s: Square)
        ensures
            0 <= #[trigger] s.idx() < 256,
    {
    }

    /// A square value is valid exactly when its index is on the board.
    pub broadcast proof fn lemma_wf_idx(s: Square)
        ensures
            #[trigger] s.wf() <==> s.idx() < 64,
    {
    }

    /// Squares are equal exactly when their indices are.
    pub proof fn lemma_eq_idx(a: Square, b: Square)
        ensures
            (a == b) <==> (a.idx() == b.idx()),
    {
    }

    /// Creates a square from zero-based file and rank coordinates.
    #[must_use]
    pub fn from_coords(file: u8, rank: u8) -> (r: Option<Square>)
        ensures
            r is Some <==> (file < 8 && rank < 8),
            r matches Some(s) ==> s == Square::at(rank * 8 + file),
    {
        if file < 8 && rank < 8 {
            Some(Square(rank * 8 + file))
        } else {
            None
        }
    }

    /// Creates a square from a zero-based index.
    #[must_use]
    pub fn from_index(index: u8) -> (r: Option<Square>)
        ensures
            r is Some <==> index < 64,
            r matches Some(s) ==> s == Square::at(index as int),
    {
        if index < 64 {
            Some(Square(index))
        } else {
            None
        }
    }

    /// Returns the zero-based square index.
    #[must_use]
    pub fn index(self) -> (r: u8)
        ensures
            r == self.idx(),
            r < 64,
    {
        proof {
            use_type_invariant(&self);
        }
        self.0
    }

    /// Returns the zero-based file.
    #[must_use]
    pub fn file(self) -> (r: u8)
        ensures
            r == self.idx() % 8,
            r < 8,
    {
        self.0 % 8
    }

    /// Returns the zero-based rank.
    #[must_use]
    pub fn rank(self) -> (r: u8)
        ensures
            r == self.idx() / 8,
            r < 8,
    {
        proof {
            use_type_invariant(&self);
        }
        self.0 / 8
    }

    /// Returns the algebraic coordinate, such as `e4`.
    #[must_use]
    pub fn to_algebraic(self) -> (r: String)
        ensures
            r@ == square_name(self.idx()),
    {
        let file: u8 = self.file();
        let rank: u8 = self.rank();
        let mut chars: Vec<char> = Vec::new();
        chars.push(file_char(file));
        chars.push(rank_char(rank));
        chars_to_string(&chars)
    }
}

pub broadcast group group_square {
    Square::lemma_at,
    Square::lemma_wf,
    Square::lemma_idx_bound,
    Square::lemma_wf_idx,
}

/// The letter of file `f` (`a` to `h`).
pub open spec fn file_letter(f: int) -> char {
    (97 + f) as char
}

/// The digit of rank `r` (`1` to `8`).
pub open spec fn rank_digit(r: int) -> char {
    (49 + r) as char
}

/// The algebraic name of the square with index `i`.
pub open spec fn square_name(i: int) -> Seq<char> {
    seq![file_letter(i % 8), rank_digit(i / 8)]
}

pub(crate) fn file_char(f: u8) -> (c: char)
    requires
        f < 8,
    ensures
        c == file_letter(f as int),
{
    let b: u8 = 97 + f;
    b as char
}

pub(crate) fn rank_char(r: u8) -> (c: char)
    requires
        r < 8,
    ensures
        c == rank_digit(r as int),
{
    let b: u8 = 49 + r;
    b as char
}

/// A chess piece kind.
#[derive(Clone, Copy, Debug, Eq, PartialEq, Hash, Structural)]
pub enum PieceKind {
    /// King.
    King,
    /// Queen.
    Queen,
    /// Rook.
    Rook,
    /// Bishop.
    Bishop,
    /// Knight.
    Knight,
    /// Pawn.
    Pawn,
}

impl PieceKind {
    /// A stable index for the kind, from King (0) to Pawn (5).
    #[verifier::allow_in_spec]
    pub fn index(self) -> usize
        returns
            (match self {
                PieceKind::King => 0usize,
                PieceKind::Queen => 1usize,
                PieceKind::Rook => 2usize,
                PieceKind::Bishop => 3usize,
                PieceKind::Knight => 4usize,
                PieceKind::Pawn => 5usize,
            }),
    {
        match self {
            PieceKind::King => 0,
            PieceKind::Queen => 1,
            PieceKind::Rook => 2,
            PieceKind::Bishop => 3,
            PieceKind::Knight => 4,
            PieceKind::Pawn => 5,
        }
    }

    /// The kind with the given index; the inverse of [`PieceKind::index`].
    pub(crate) fn from_index(idx: usize) -> (r: PieceKind)
        requires
            idx < 6,
        ensures
            r.index() == idx,
    {
        match idx {
            0 => PieceKind::King,
            1 => PieceKind::Queen,
            2 => PieceKind::Rook,
            3 => PieceKind::Bishop,
            4 => PieceKind::Knight,
            _ => PieceKind::Pawn,
        }
    }
}

/// A colored chess piece.
#[derive(Clone, Copy, Debug, Eq, PartialEq, Hash, Structural)]
pub struct Piece {
    /// Piece color.
    pub color: Color,
    /// Piece kind.
    pub kind: PieceKind,
}

/// A chess move request.
#[derive(Clone, Copy, Debug, Eq, PartialEq, Hash, Structural)]
pub struct Move {
    /// Origin square.
    pub from: Square,
    /// Destination square.
    pub to: Square,
    /// Optional promotion piece.
    pub promotion: Option<PieceKind>,
}

impl Move {
    /// Both squares of the move hold board indices.
    pub open spec fn wf(self) -> bool {
        self.from.wf() && self.to.wf()
    }
}

/// Per-side, per-direction castling-right toggles applied at game start.
#[derive(Clone, Copy, Debug, Eq, PartialEq, Hash, Structural)]
pub struct CastlingPolicy {
    /// White is allowed to castle kingside (h-side).
    pub white_kingside: bool,
    /// White is allowed to castle queenside (a-side).
    pub white_queenside: bool,
    /// Black is allowed to castle kingside (h-side).
    pub black_kingside: bool,
    /// Black is allowed to castle queenside (a-side).
    pub black_queenside: bool,
}

impl Default for CastlingPolicy {
    /// Every castling right is allowed.
    fn default() -> (r: Self)
        ensures
            r.white_kingside && r.white_queenside && r.black_kingside && r.black_queenside,
    {
        CastlingPolicy {
            white_kingside: true,
            white_queenside: true,
            black_kingside: true,
            black_queenside: true,
        }
    }
}

/// The standard back-rank arrangement, file a to h: `RNBQKBNR`.
pub const STANDARD_BACK_RANK: [PieceKind; 8] = [
    PieceKind::Rook,
    PieceKind::Knight,
    PieceKind::Bishop,
    PieceKind::Queen,
    PieceKind::King,
    PieceKind::Bishop,
    PieceKind::Knight,
    PieceKind::Rook,
];

/// The standard back-rank arrangement as a sequence.
pub open spec fn standard_back_rank_seq() -> Seq<PieceKind> {
    seq![
        PieceKind::Rook,
        PieceKind::Knight,
        PieceKind::Bishop,
        PieceKind::Queen,
        PieceKind::King,
        PieceKind::Bishop,
        PieceKind::Knight,
        PieceKind::Rook,
    ]
}

/// Static game configuration.
///
/// The starting back ranks default to the standard arrangement; any
/// arrangement holding a king may be set for shuffle variants (the same
/// array on both sides gives mirrored play, different arrays give each side
/// its own setup). The starting castling rights are the structural rights of
/// the arrangement (a rook on that side of the king) intersected with the
/// castling policy.
#[derive(Clone, Debug, Eq, PartialEq)]
pub struct GameConfig {
    /// Maximum half-moves without a pawn move or capture before a draw.
    pub reversible_moves_limit: Option<u16>,
    /// Maximum full turns before a draw.
    pub full_turn_limit: Option<u16>,
    /// White's rank-1 starting arrangement, file a to h.
    pub white_backrank: [PieceKind; 8],
    /// Black's rank-8 starting arrangement, file a to h.
    pub black_backrank: [PieceKind; 8],
    /// Castling rights allowed at game start.
    pub castling_policy: CastlingPolicy,
    /// White's sense capability.
    pub white_sense_policy: SensePolicy,
    /// Black's sense capability.
    pub black_sense_policy: SensePolicy,
}

impl Default for GameConfig {
    /// A 100 half-move reversible limit, no full-turn limit, the standard
    /// back ranks, every castling right allowed and the standard 3×3 sense
    /// for both sides.
    fn default() -> (r: Self)
        ensures
            r.reversible_moves_limit == Some(100u16),
            r.full_turn_limit is None,
            r.white_backrank@ == standard_back_rank_seq(),
            r.black_backrank@ == standard_back_rank_seq(),
            r.castling_policy.white_kingside && r.castling_policy.white_queenside
                && r.castling_policy.black_kingside && r.castling_policy.black_queenside,
            r.white_sense_policy.tokens@.len() == 1,
            r.white_sense_policy.tokens@[0].shape.offsets@ == rect_offsets(1, 1),
            r.black_sense_policy.tokens@.len() == 1,
            r.black_sense_policy.tokens@[0].shape.offsets@ == rect_offsets(1, 1),
    {
        let r = GameConfig {
            reversible_moves_limit: Some(100),
            full_turn_limit: None,
            white_backrank: STANDARD_BACK_RANK,
            black_backrank: STANDARD_BACK_RANK,
            castling_policy: CastlingPolicy::default(),
            white_sense_policy: SensePolicy::default(),
            black_sense_policy: SensePolicy::default(),
        };
        assert(r.white_backrank@ =~= standard_back_rank_seq());
        assert(r.black_backrank@ =~= standard_back_rank_seq());
        r
    }
}

/// Shape of a single sense action: relative `(file, rank)` offsets from the
/// sense center, in iteration order.
#[derive(Clone, Debug, Eq, PartialEq, Hash)]
#[non_exhaustive]
pub struct SenseShape {
    /// Relative `(file_offset, rank_offset)` from the sense center,
    /// in iteration order.
    pub offsets: Vec<(i8, i8)>,
}

/// One row of a rectangle: file offsets `-w..=w` at rank offset `dy`.
pub open spec fn rect_row(w: int, dy: int) -> Seq<(i8, i8)> {
    Seq::new((2 * w + 1) as nat, |j: int| ((j - w) as i8, dy as i8))
}

/// The first `n` rows of a rectangle of half sizes `w` and `h`, from the top.
pub open spec fn rect_rows(w: int, h: int, n: nat) -> Seq<(i8, i8)>
    decreases n,
{
    if n == 0 {
        Seq::empty()
    } else {
        rect_rows(w, h, (n - 1) as nat) + rect_row(w, h - (n - 1))
    }
}

/// The offsets of a `(2w + 1)` by `(2h + 1)` rectangle: rank-descending,
/// file-ascending.
pub open spec fn rect_offsets(w: int, h: int) -> Seq<(i8, i8)> {
    rect_rows(w, h, (2 * h + 1) as nat)
}

/// The offsets of a plus shape with arms of length `a`: the top arm from its
/// tip down, the center row from left to right, then the bottom arm.
pub open spec fn cross_offsets(a: int) -> Seq<(i8, i8)> {
    Seq::new(a as nat, |j: int| (0i8, (a - j) as i8)) + Seq::new(
        (2 * a + 1) as nat,
        |j: int| ((j - a) as i8, 0i8),
    ) + Seq::new(a as nat, |j: int| (0i8, (-(j + 1)) as i8))
}

/// The offsets of the whole board relative to a center at `(0, 0)`.
pub open spec fn full_board_offsets() -> Seq<(i8, i8)> {
    rect_rows_at(0, 7, 8)
}

/// The first `n` rows of files `0..=7`, top row at rank `top`.
pub open spec fn rect_rows_at(left: int, top: int, n: nat) -> Seq<(i8, i8)>
    decreases n,
{
    if n == 0 {
        Seq::empty()
    } else {
        rect_rows_at(left, top, (n - 1) as nat) + Seq::new(
            8,
            |j: int| ((left + j) as i8, (top - (n - 1)) as i8),
        )
    }
}

impl SenseShape {
    /// A `(2·half_width + 1)` × `(2·half_width + 1)` window centred
    /// on the chosen square. `window(1)` is the standard 3×3.
    #[must_use]
    pub fn window(half_width: u8) -> (r: SenseShape)
        requires
            half_width <= 127,
        ensures
            r.offsets@ == rect_offsets(half_width as int, half_width as int),
    {
        SenseShape::rectangle(half_width, half_width)
    }

    /// A `(2·half_w + 1)` × `(2·half_h + 1)` rectangle centred on
    /// the chosen square. Iteration order: rank-descending, file-ascending.
    #[must_use]
    pub fn rectangle(half_w: u8, half_h: u8) -> (r: SenseShape)
        requires
            half_w <= 127,
            half_h <= 127,
        ensures
            r.offsets@ == rect_offsets(half_w as int, half_h as int),
    {
        let mut offsets: Vec<(i8, i8)> = Vec::new();
        let mut n: u16 = 0;
        while n < 2 * (half_h as u16) + 1
            invariant
                half_h <= 127,
                half_w <= 127,
                n <= 2 * half_h + 1,
                offsets@ == rect_rows(half_w as int, half_h as int, n as nat),
            decreases 2 * half_h + 1 - n,
        {
            let ghost before = offsets@;
            let dy: i8 = ((half_h as i16) - (n as i16)) as i8;
            let mut j: u16 = 0;
            while j < 2 * (half_w as u16) + 1
                invariant
                    half_w <= 127,
                    -127 <= dy <= 127,
                    j <= 2 * half_w + 1,
                    offsets@ == before + Seq::new(j as nat, |k: int| ((k - half_w) as i8, dy)),
                decreases 2 * half_w + 1 - j,
            {
                let dx: i8 = ((j as i16) - (half_w as i16)) as i8;
                offsets.push((dx, dy));
                proof {
                    assert(offsets@ =~= before + Seq::new(
                        (j + 1) as nat,
                        |k: int| ((k - half_w) as i8, dy),
                    ));
                }
                j += 1;
            }
            proof {
                assert(Seq::new(j as nat, |k: int| ((k - half_w) as i8, dy)) =~= rect_row(
                    half_w as int,
                    half_h - n,
                ));
            }
            n += 1;
        }
        SenseShape { offsets }
    }

    /// A plus-shape with arms of length `arm` extending in each of
    /// the four cardinal directions, plus the center.
    #[must_use]
    pub fn cross(arm: u8) -> (r: SenseShape)
        requires
            arm <= 127,
        ensures
            r.offsets@ == cross_offsets(arm as int),
    {
        let mut offsets: Vec<(i8, i8)> = Vec::new();
        let a: i8 = arm as i8;
        let mut j: i8 = 0;
        while j < a
            invariant
                a == arm,
                arm <= 127,
                0 <= j <= a,
                offsets@ == Seq::new(j as nat, |k: int| (0i8, (a - k) as i8)),
            decreases a - j,
        {
            offsets.push((0, a - j));
            assert(offsets@ =~= Seq::new((j + 1) as nat, |k: int| (0i8, (a - k) as i8)));
            j += 1;
        }
        let ghost top = offsets@;
        let mut k: i16 = 0;
        while k < 2 * (a as i16) + 1
            invariant
                a == arm,
                arm <= 127,
                0 <= k <= 2 * a + 1,
                top == Seq::new(a as nat, |k: int| (0i8, (a - k) as i8)),
                offsets@ == top + Seq::new(k as nat, |m: int| ((m - a) as i8, 0i8)),
            decreases 2 * a + 1 - k,
        {
            let dx: i8 = (k - (a as i16)) as i8;
            offsets.push((dx, 0));
            assert(offsets@ =~= top + Seq::new((k + 1) as nat, |m: int| ((m - a) as i8, 0i8)));
            k += 1;
        }
        let ghost middle = offsets@;
        let mut m: i8 = 0;
        while m < a
            invariant
                a == arm,
                arm <= 127,
                0 <= m <= a,
                middle == top + Seq::new((2 * a + 1) as nat, |m: int| ((m - a) as i8, 0i8)),
                offsets@ == middle + Seq::new(m as nat, |q: int| (0i8, (-(q + 1)) as i8)),
            decreases a - m,
        {
            offsets.push((0, -(m + 1)));
            assert(offsets@ =~= middle + Seq::new((m + 1) as nat, |q: int| (0i8, (-(q + 1)) as i8)));
            m += 1;
        }
        assert(offsets@ =~= cross_offsets(arm as int));
        SenseShape { offsets }
    }

    /// A single-square shape — only the sense center itself.
    #[must_use]
    pub fn point() -> (r: SenseShape)
        ensures
            r.offsets@ == seq![(0i8, 0i8)],
    {
        let r = SenseShape::window(0);
        assert(rect_row(0, 0) =~= seq![(0i8, 0i8)]);
        assert(rect_rows(0, 0, 0) =~= Seq::<(i8, i8)>::empty());
        assert(rect_rows(0, 0, 1) =~= seq![(0i8, 0i8)]);
        r
    }

    /// A shape that reveals the entire 8×8 board when centred on a1: files
    /// `0..=7` and ranks `7` down to `0`.
    #[must_use]
    pub fn full_board() -> (r: SenseShape)
        ensures
            r.offsets@ == full_board_offsets(),
            r.offsets@.len() == 64,
    {
        let mut offsets: Vec<(i8, i8)> = Vec::new();
        let mut n: i8 = 0;
        while n < 8
            invariant
                0 <= n <= 8,
                offsets@ == rect_rows_at(0, 7, n as nat),
                offsets@.len() == n * 8,
            decreases 8 - n,
        {
            let ghost before = offsets@;
            let dy: i8 = 7 - n;
            let mut dx: i8 = 0;
            while dx < 8
                invariant
                    0 <= dx <= 8,
                    0 <= n < 8,
                    dy == 7 - n,
                    offsets@ == before + Seq::new(dx as nat, |j: int| (j as i8, dy)),
                decreases 8 - dx,
            {
                offsets.push((dx, dy));
                assert(offsets@ =~= before + Seq::new((dx + 1) as nat, |j: int| (j as i8, dy)));
                dx += 1;
            }
            assert(Seq::new(8, |j: int| (j as i8, dy)) =~= Seq::new(
                8,
                |j: int| ((0 + j) as i8, (7 - n) as i8),
            ));
            n += 1;
        }
        SenseShape { offsets }
    }

    /// An empty shape — the sense yields zero squares.
    #[must_use]
    pub fn empty() -> (r: SenseShape)
        ensures
            r.offsets@ == Seq::<(i8, i8)>::empty(),
    {
        SenseShape { offsets: Vec::new() }
    }

    /// A shape with caller-supplied offsets.
    #[must_use]
    pub fn custom(offsets: Vec<(i8, i8)>) -> (r: SenseShape)
        ensures
            r.offsets == offsets,
    {
        SenseShape { offsets }
    }
}

impl Default for SenseShape {
    /// The standard 3×3 window.
    fn default() -> (r: Self)
        ensures
            r.offsets@ == rect_offsets(1, 1),
    {
        SenseShape::window(1)
    }
}

/// A single sense capability — a shape the holder can sense with.
#[derive(Clone, Debug, Eq, PartialEq, Hash)]
#[non_exhaustive]
pub struct SenseToken {
    /// The shape this token reveals when used.
    pub shape: SenseShape,
}

impl SenseToken {
    /// Constructs a token with the given shape.
    #[must_use]
    pub fn new(shape: SenseShape) -> (r: SenseToken)
        ensures
            r.shape == shape,
    {
        SenseToken { shape }
    }
}

impl Default for SenseToken {
    /// A token with the standard 3×3 window.
    fn default() -> (r: Self)
        ensures
            r.shape.offsets@ == rect_offsets(1, 1),
    {
        SenseToken::new(SenseShape::default())
    }
}

/// Per-side configuration of the sense capability — a list of tokens.
#[derive(Clone, Debug, Eq, PartialEq, Hash)]
#[non_exhaustive]
pub struct SensePolicy {
    /// The tokens available to the holder.
    pub tokens: Vec<SenseToken>,
}

impl SensePolicy {
    /// Constructs a policy with a single token of the given shape.
    #[must_use]
    pub fn single(shape: SenseShape) -> (r: SensePolicy)
        ensures
            r.tokens@ == seq![SenseToken { shape }],
    {
        let mut tokens: Vec<SenseToken> = Vec::new();
        tokens.push(SenseToken::new(shape));
        SensePolicy { tokens }
    }
}

impl Default for SensePolicy {
    /// One token with the standard 3×3 window.
    fn default() -> (r: Self)
        ensures
            r.tokens@.len() == 1,
            r.tokens@[0].shape.offsets@ == rect_offsets(1, 1),
    {
        SensePolicy::single(SenseShape::default())
    }
}

/// Opaque identifier for a sense token.
#[derive(Clone, Copy, Debug, Eq, PartialEq, Hash, Ord, PartialOrd, Structural)]
pub struct SenseTokenId(pub(crate) u32);

/// A specific (token, center) sense.
#[derive(Clone, Copy, Debug, Eq, PartialEq, Hash, Structural)]
pub struct SenseAction {
    /// Opaque token identifier.
    pub token: SenseTokenId,
    /// Center square the sense is performed from.
    pub center: Square,
}

/// A sensed square and its current piece, if any.
#[derive(Clone, Copy, Debug, Eq, PartialEq, Hash, Structural)]
pub struct SensedSquare {
    /// Square included in the sense result.
    pub square: Square,
    /// Piece on the square.
    pub piece: Option<Piece>,
}

/// Result of a sense action. A passed sense has no center and no squares.
#[derive(Clone, Debug, Eq, PartialEq)]
pub struct SenseResult {
    /// Sense center, or `None` for a passed sense.
    pub center: Option<Square>,
    /// Sensed squares, rank-descending and file-ascending.
    pub squares: Vec<SensedSquare>,
}

/// Information about a capture.
#[derive(Clone, Copy, Debug, Eq, PartialEq, Hash, Structural)]
pub struct Capture {
    /// Captured square.
    pub square: Square,
    /// Captured piece.
    pub piece: Piece,
}

/// Move execution status.
#[derive(Clone, Copy, Debug, Eq, PartialEq, Hash, Structural)]
pub enum MoveStatus {
    /// The requested move was taken unchanged.
    Taken,
    /// The requested move was revised before being taken.
    Revised,
    /// The requested move was illegal and consumed the turn.
    Illegal,
    /// The player passed the move phase.
    Pass,
}

/// Result of a move action.
#[derive(Clone, Copy, Debug, Eq, PartialEq, Structural)]
pub struct MoveOutcome {
    /// Requested move, if any.
    pub requested: Option<Move>,
    /// Move that was actually applied, if any.
    pub taken: Option<Move>,
    /// Move status.
    pub status: MoveStatus,
    /// Capture information, if a piece was captured.
    pub capture: Option<Capture>,
}

/// Game status.
#[derive(Clone, Copy, Debug, Eq, PartialEq, Structural)]
pub enum GameStatus {
    /// Game is still running.
    Ongoing {
        /// Color to move.
        turn: Color,
    },
    /// Game ended with a winner.
    Won(GameResult),
    /// Game ended in a draw.
    Draw {
        /// Reason the game was adjudicated as drawn.
        reason: DrawReason,
    },
}

/// Winning result.
#[derive(Clone, Copy, Debug, Eq, PartialEq, Hash, Structural)]
pub struct GameResult {
    /// Winning color.
    pub winner: Color,
    /// Win reason.
    pub reason: WinReason,
}

/// Win reason.
#[derive(Clone, Copy, Debug, Eq, PartialEq, Hash, Structural)]
pub enum WinReason {
    /// Opponent king was captured.
    KingCapture,
    /// Opponent resigned.
    Resignation,
    /// Opponent lost on time. Clocks are external to this crate.
    Timeout,
}

/// Draw reason.
#[derive(Clone, Copy, Debug, Eq, PartialEq, Hash, Structural)]
pub enum DrawReason {
    /// Reversible move limit was reached.
    MoveLimit,
    /// Full turn limit was reached.
    TurnLimit,
}

/// History entry for a completed player turn.
#[derive(Clone, Debug, Eq, PartialEq)]
pub struct HistoryEntry {
    /// Acting color.
    pub color: Color,
    /// The sense performed this turn (a passed sense if none was made).
    pub sense: SenseResult,
    /// Move outcome.
    pub move_outcome: MoveOutcome,
    /// FEN before the move.
    pub fen_before_move: String,
    /// FEN after the move.
    pub fen_after_move: String,
}

/// Library error type.
#[non_exhaustive]
#[derive(Clone, Debug, Eq, PartialEq)]
pub enum Error {
    /// The game has already ended.
    GameOver,
    /// The requested move is invalid for move generation.
    InvalidMove,
    /// FEN parsing failed.
    InvalidFen(String),
    /// The requested sense action references an unknown or
    /// unavailable token, or an out-of-range center square.
    InvalidSense,
}

impl Error {
    /// The error's display text.
    pub fn message(&self) -> (r: String)
        ensures
            r@ == error_message(*self),
    {
        match self {
            Error::GameOver => String::from_str("game is over"),
            Error::InvalidMove => String::from_str("invalid move"),
            Error::InvalidFen(detail) => {
                let mut s = String::from_str("invalid FEN: ");
                s.append(detail.as_str());
                s
            },
            Error::InvalidSense => String::from_str("invalid sense action"),
        }
    }
}

/// The display text of an error.
pub open spec fn error_message(e: Error) -> Seq<char> {
    match e {
        Error::GameOver => "game is over"@,
        Error::InvalidMove => "invalid move"@,
        Error::InvalidFen(detail) => "invalid FEN: "@ + detail@,
        Error::InvalidSense => "invalid sense action"@,
    }
}

} // verus!
