//! The rules of RBC, stated over position views: which move requests a
//! player may make from their own-piece view, how a request is revised
//! against the true board, what it captures, the position it leads to, and
//! how the game is adjudicated.
use vstd::prelude::*;

use crate::attack_tables::{
    bishop_target, dir_df, dir_dr, king_target, knight_target, lemma_ray_on_prefix,
    lemma_ray_point, on_ray, ray_clear, ray_hit, ray_on, ray_point, rook_target, slider_hit,
};
use crate::bits::bit;
use crate::position::{
    finish_move_view, has_king_of, own_at, rights_without_color, rights_without_rook,
    CastlingRights, PositionView,
};
use crate::types::{group_square, 
    Capture, Color, DrawReason, GameConfig, GameResult, GameStatus, Move, Piece, PieceKind, Square,
    WinReason,
};

verus! {

broadcast use group_square;

// ---------------------------------------------------------------------------
// Coordinates
// ---------------------------------------------------------------------------

/// File of a square.
pub open spec fn file(s: Square) -> int {
    s.idx() % 8
}

/// Rank of a square.
pub open spec fn rank(s: Square) -> int {
    s.idx() / 8
}

/// File change of a move.
pub open spec fn dx(m: Move) -> int {
    file(m.to) - file(m.from)
}

/// Rank change of a move.
pub open spec fn dy(m: Move) -> int {
    rank(m.to) - rank(m.from)
}

pub open spec fn abs(x: int) -> int {
    if x < 0 {
        -x
    } else {
        x
    }
}

pub open spec fn signum(x: int) -> int {
    if x < 0 {
        -1
    } else if x > 0 {
        1
    } else {
        0
    }
}

/// A kind a pawn may promote to.
pub open spec fn is_promotion_kind(k: PieceKind) -> bool {
    k == PieceKind::Queen || k == PieceKind::Rook || k == PieceKind::Bishop || k
        == PieceKind::Knight
}

/// `color` has a piece on square `s`.
pub open spec fn has_own(v: PositionView, s: Square, color: Color) -> bool {
    own_at(v, color, s.idx())
}

/// The square `s` of `color`'s home rank on file `f`.
pub open spec fn home_square(color: Color, f: int) -> Square {
    Square::at(color.home_rank() * 8 + f)
}

// ---------------------------------------------------------------------------
// Move requests (what the acting player may ask for, from their own view)
// ---------------------------------------------------------------------------

/// `t` is reachable from `from` along direction `d` without crossing or
/// landing on a piece of `color` (opponent pieces are invisible).
pub open spec fn own_view_reach(v: PositionView, color: Color, from: int, d: int, t: int) -> bool {
    exists|k: int|
        #[trigger] ray_hit(from, d, k, t) && forall|j: int|
            1 <= j <= k ==> !own_at(v, color, #[trigger] ray_point(from, d, j))
}

pub open spec fn rook_request(v: PositionView, color: Color, from: int, t: int) -> bool {
    own_view_reach(v, color, from, 0, t) || own_view_reach(v, color, from, 1, t) || own_view_reach(
        v,
        color,
        from,
        4,
        t,
    ) || own_view_reach(v, color, from, 5, t)
}

pub open spec fn bishop_request(v: PositionView, color: Color, from: int, t: int) -> bool {
    own_view_reach(v, color, from, 2, t) || own_view_reach(v, color, from, 3, t) || own_view_reach(
        v,
        color,
        from,
        6,
        t,
    ) || own_view_reach(v, color, from, 7, t)
}

/// No square of `color`'s home rank with file in `lo..=hi` holds a piece of `color`.
pub open spec fn castle_path_free_of_own(v: PositionView, color: Color, lo: int, hi: int) -> bool {
    forall|f: int| lo <= f <= hi ==> !#[trigger] own_at(v, color, color.home_rank() * 8 + f)
}

/// Kingside castling right of `color`.
pub open spec fn kingside_right(r: CastlingRights, color: Color) -> bool {
    match color {
        Color::White => r.white_kingside,
        Color::Black => r.black_kingside,
    }
}

/// Queenside castling right of `color`.
pub open spec fn queenside_right(r: CastlingRights, color: Color) -> bool {
    match color {
        Color::White => r.white_queenside,
        Color::Black => r.black_queenside,
    }
}

/// A pawn request: a push onto a square free of own pieces (promoting on
/// the last rank), a double push from the start rank over and onto squares
/// free of own pieces, or a diagonal step onto a square free of own pieces
/// (a blind capture attempt; promotion optional on the last rank).
pub open spec fn pawn_request(v: PositionView, color: Color, m: Move) -> bool {
    let dir = color.pawn_dir() as int;
    let promo = color.pawn_promotion_rank() as int;
    if dx(m) == 0 && dy(m) == dir {
        !has_own(v, m.to, color) && if rank(m.to) == promo {
            m.promotion matches Some(k) && is_promotion_kind(k)
        } else {
            m.promotion is None
        }
    } else if dx(m) == 0 && dy(m) == 2 * dir && rank(m.from) == color.pawn_start_rank() {
        m.promotion is None && !own_at(v, color, m.from.idx() + 8 * dir) && !has_own(v, m.to, color)
    } else if abs(dx(m)) == 1 && dy(m) == dir {
        !has_own(v, m.to, color) && if rank(m.to) == promo {
            m.promotion matches Some(k) ==> is_promotion_kind(k)
        } else {
            m.promotion is None
        }
    } else {
        false
    }
}

/// A king request: a castling request from the home square while the right
/// stands and no own piece is in the way, or a step onto a square free of
/// own pieces.
pub open spec fn king_request(v: PositionView, color: Color, m: Move) -> bool {
    m.promotion is None && if dy(m) == 0 && abs(dx(m)) == 2 {
        m.from == home_square(color, 4) && if dx(m) == 2 {
            kingside_right(v.rights, color) && castle_path_free_of_own(v, color, 5, 6)
        } else {
            queenside_right(v.rights, color) && castle_path_free_of_own(v, color, 1, 3)
        }
    } else {
        king_target(m.from.idx(), m.to.idx()) && !has_own(v, m.to, color)
    }
}

/// `m` is a move request the player `turn` may make in `v`: the origin holds
/// one of their pieces and the piece could make the move if the opponent's
/// pieces were not there.
pub open spec fn is_move_request(v: PositionView, turn: Color, m: Move) -> bool {
    match v.board[m.from.idx()] {
        None => false,
        Some(p) => p.color == turn && match p.kind {
            PieceKind::Pawn => pawn_request(v, p.color, m),
            PieceKind::King => king_request(v, p.color, m),
            PieceKind::Knight => m.promotion is None && knight_target(m.from.idx(), m.to.idx())
                && !has_own(v, m.to, p.color),
            PieceKind::Bishop => m.promotion is None && bishop_request(
                v,
                p.color,
                m.from.idx(),
                m.to.idx(),
            ),
            PieceKind::Rook => m.promotion is None && rook_request(
                v,
                p.color,
                m.from.idx(),
                m.to.idx(),
            ),
            PieceKind::Queen => m.promotion is None && (rook_request(
                v,
                p.color,
                m.from.idx(),
                m.to.idx(),
            ) || bishop_request(v, p.color, m.from.idx(), m.to.idx())),
        },
    }
}

/// A pawn request onto the last rank without a promotion piece asks for a queen.
pub open spec fn with_default_promotion(v: PositionView, m: Move) -> Move {
    if m.promotion is None && (v.board[m.from.idx()] matches Some(p) && p.kind == PieceKind::Pawn
        && rank(m.to) == p.color.pawn_promotion_rank()) {
        Move { promotion: Some(PieceKind::Queen), ..m }
    } else {
        m
    }
}

// ---------------------------------------------------------------------------
// Ordering of move lists
// ---------------------------------------------------------------------------

/// Sort rank of a promotion piece (no promotion sorts first).
pub open spec fn promotion_key(p: Option<PieceKind>) -> int {
    match p {
        None => 0,
        Some(PieceKind::Queen) => 1,
        Some(PieceKind::Rook) => 2,
        Some(PieceKind::Bishop) => 3,
        Some(PieceKind::Knight) => 4,
        Some(PieceKind::King) => 5,
        Some(PieceKind::Pawn) => 6,
    }
}

/// Moves are ordered by origin, then destination, then promotion piece.
pub open spec fn move_key(m: Move) -> int {
    m.from.idx() * 512 + m.to.idx() * 8 + promotion_key(m.promotion)
}

/// Strictly increasing in move order (hence without repeats).
pub open spec fn sorted_moves(s: Seq<Move>) -> bool {
    forall|i: int, j: int| 0 <= i < j < s.len() ==> move_key(#[trigger] s[i]) < move_key(#[trigger] s[j])
}

pub open spec fn all_wf(s: Seq<Move>) -> bool {
    forall|i: int| 0 <= i < s.len() ==> (#[trigger] s[i]).wf()
}

/// Distinct valid moves have distinct keys.
pub proof fn lemma_move_key_injective(a: Move, b: Move)
    requires
        a.wf(),
        b.wf(),
        move_key(a) == move_key(b),
    ensures
        a == b,
{
    Square::lemma_eq_idx(a.from, b.from);
    Square::lemma_eq_idx(a.to, b.to);
}

/// `s` lists exactly the move requests of `turn` in `v`, in move order.
pub open spec fn lists_requests(v: PositionView, turn: Color, s: Seq<Move>) -> bool {
    &&& sorted_moves(s)
    &&& all_wf(s)
    &&& forall|m: Move| m.wf() ==> (s.contains(m) <==> is_move_request(v, turn, m))
}

// ---------------------------------------------------------------------------
// Revision of requests against the true board
// ---------------------------------------------------------------------------

/// A requested promotion to a king or a pawn makes the move illegal.
pub open spec fn valid_promotion(m: Move) -> Option<Move> {
    match m.promotion {
        Some(PieceKind::King) | Some(PieceKind::Pawn) => None,
        _ => Some(m),
    }
}

/// A pawn of `color` moving diagonally onto the en passant square, with an
/// enemy pawn right behind it.
pub open spec fn is_en_passant_capture(v: PositionView, m: Move, color: Color) -> bool {
    &&& v.board[m.from.idx()] matches Some(p) && p.kind == PieceKind::Pawn
    &&& abs(dx(m)) == 1
    &&& v.ep == Some(m.to)
    &&& 0 <= rank(m.to) - color.pawn_dir() < 8
    &&& v.board[m.to.idx() - 8 * color.pawn_dir()] == Some(
        Piece { color: color.opposite(), kind: PieceKind::Pawn },
    )
}

/// The pawn move actually made for request `m`.
pub open spec fn revise_pawn(v: PositionView, m: Move, color: Color) -> Option<Move> {
    let dir = color.pawn_dir() as int;
    let middle = m.from.idx() + 8 * dir;
    if dx(m) == 0 && dy(m) == dir && v.board[m.to.idx()] is None {
        valid_promotion(m)
    } else if dx(m) == 0 && dy(m) == 2 * dir && rank(m.from) == color.pawn_start_rank() && v.board[middle]
        is None && v.board[m.to.idx()] is None {
        Some(m)
    } else if dx(m) == 0 && dy(m) == 2 * dir && rank(m.from) == color.pawn_start_rank() && v.board[middle]
        is None && (v.board[m.to.idx()] matches Some(q) && q.color != color) {
        Some(Move { from: m.from, to: Square::at(middle), promotion: None })
    } else if abs(dx(m)) == 1 && dy(m) == dir && ((v.board[m.to.idx()] matches Some(q) && q.color
        != color) || is_en_passant_capture(v, m, color)) {
        valid_promotion(m)
    } else {
        None
    }
}

/// The knight move actually made for request `m`.
pub open spec fn revise_knight(v: PositionView, m: Move, color: Color) -> Option<Move> {
    if ((abs(dx(m)) == 1 && abs(dy(m)) == 2) || (abs(dx(m)) == 2 && abs(dy(m)) == 1)) && !has_own(
        v,
        m.to,
        color,
    ) {
        Some(m)
    } else {
        None
    }
}

/// The unit direction of a slider request, if the piece moves that way.
pub open spec fn slider_direction(m: Move, kind: PieceKind) -> Option<(int, int)> {
    let aligned = match kind {
        PieceKind::Rook => dx(m) == 0 || dy(m) == 0,
        PieceKind::Bishop => abs(dx(m)) == abs(dy(m)),
        PieceKind::Queen => dx(m) == 0 || dy(m) == 0 || abs(dx(m)) == abs(dy(m)),
        _ => false,
    };
    if aligned && !(dx(m) == 0 && dy(m) == 0) {
        Some((signum(dx(m)), signum(dy(m))))
    } else {
        None
    }
}

/// The direction index of a unit step.
pub open spec fn direction_of(df: int, dr: int) -> int {
    choose|d: int| 0 <= d < 8 && dir_df(d) == df && dir_dr(d) == dr
}

/// The `k`-th square of the ray from `from` in direction `d` is the first
/// occupied one.
pub open spec fn first_occupied(v: PositionView, from: int, d: int, k: int) -> bool {
    &&& k >= 1
    &&& ray_on(from, d, k)
    &&& v.board[ray_point(from, d, k)] is Some
    &&& forall|j: int| 1 <= j < k ==> v.board[#[trigger] ray_point(from, d, j)] is None
}

/// The slider move actually made for request `m`: unchanged if nothing
/// stands in front of the destination, cut short onto the first blocker if
/// that is an enemy piece, refused if it is an own piece.
pub open spec fn revise_slider(v: PositionView, m: Move, piece: Piece) -> Option<Move> {
    match slider_direction(m, piece.kind) {
        None => None,
        Some((df, dr)) => {
            let d = direction_of(df, dr);
            let from = m.from.idx();
            if !on_ray(from, d, m.to.idx()) {
                None
            } else if !(exists|k: int| #[trigger] first_occupied(v, from, d, k)) {
                Some(m)
            } else {
                let kb = choose|k: int| #[trigger] first_occupied(v, from, d, k);
                let kt = choose|k: int| #[trigger] ray_hit(from, d, k, m.to.idx());
                let b = ray_point(from, d, kb);
                if kt < kb {
                    Some(m)
                } else if v.board[b]->0.color == piece.color {
                    None
                } else if kt == kb {
                    Some(m)
                } else {
                    Some(Move { to: Square::at(b), ..m })
                }
            }
        },
    }
}

/// The castling move actually made for request `m`: it needs the right, the
/// rook on its corner and empty squares between king and rook; check is
/// ignored.
pub open spec fn revise_castling(v: PositionView, m: Move, color: Color) -> Option<Move> {
    let kingside = file(m.to) == 6;
    let queenside = file(m.to) == 2;
    let allowed = if kingside {
        kingside_right(v.rights, color)
    } else {
        queenside_right(v.rights, color)
    };
    let rook_file = if kingside {
        7int
    } else {
        0int
    };
    let home = color.home_rank() as int;
    if m.from != home_square(color, 4) || (!kingside && !queenside) || !allowed {
        None
    } else if v.board[home * 8 + rook_file] != Some(Piece { color, kind: PieceKind::Rook }) {
        None
    } else if kingside && (v.board[home * 8 + 5] is Some || v.board[home * 8 + 6] is Some) {
        None
    } else if !kingside && (v.board[home * 8 + 1] is Some || v.board[home * 8 + 2] is Some
        || v.board[home * 8 + 3] is Some) {
        None
    } else {
        Some(m)
    }
}

/// The king move actually made for request `m`.
pub open spec fn revise_king(v: PositionView, m: Move, color: Color) -> Option<Move> {
    if abs(dx(m)) == 2 && dy(m) == 0 {
        revise_castling(v, m, color)
    } else if abs(dx(m)) <= 1 && abs(dy(m)) <= 1 && !has_own(v, m.to, color) {
        Some(m)
    } else {
        None
    }
}

/// The move actually made for request `m`, or `None` if it is illegal on
/// the true board.
pub open spec fn revise_move(v: PositionView, m: Move) -> Option<Move> {
    match v.board[m.from.idx()] {
        None => None,
        Some(p) => match p.kind {
            PieceKind::Pawn => revise_pawn(v, m, p.color),
            PieceKind::Knight => revise_knight(v, m, p.color),
            PieceKind::King => revise_king(v, m, p.color),
            _ => revise_slider(v, m, p),
        },
    }
}

// ---------------------------------------------------------------------------
// Effects of a taken move
// ---------------------------------------------------------------------------

/// What the taken move `m` of `moving` captures.
pub open spec fn capture_for_move(v: PositionView, m: Move, moving: Piece) -> Option<Capture> {
    if is_en_passant_capture(v, m, moving.color) {
        let cap = m.to.idx() - 8 * moving.color.pawn_dir();
        match v.board[cap] {
            Some(p) => Some(Capture { square: Square::at(cap), piece: p }),
            None => None,
        }
    } else {
        match v.board[m.to.idx()] {
            Some(p) => Some(Capture { square: m.to, piece: p }),
            None => None,
        }
    }
}

/// A king move of two files along a rank.
pub open spec fn is_castling_move(m: Move, moving: Piece) -> bool {
    moving.kind == PieceKind::King && rank(m.from) == rank(m.to) && abs(dx(m)) == 2
}

pub open spec fn put(v: PositionView, i: int, p: Option<Piece>) -> PositionView {
    PositionView { board: v.board.update(i, p), ..v }
}

pub open spec fn with_rights(v: PositionView, r: CastlingRights) -> PositionView {
    PositionView { rights: r, ..v }
}

/// The captured piece leaves the board; a captured rook takes its side's
/// castling right with it.
pub open spec fn remove_captured(v: PositionView, capture: Option<Capture>) -> PositionView {
    match capture {
        None => v,
        Some(c) => {
            let v1 = put(v, c.square.idx(), None);
            if c.piece.kind == PieceKind::Rook {
                with_rights(v1, rights_without_rook(v1.rights, c.piece.color, c.square.idx()))
            } else {
                v1
            }
        },
    }
}

/// The moving piece leaves its square and lands (promoted, if asked) on the target.
pub open spec fn relocate(v: PositionView, m: Move, moving: Piece) -> PositionView {
    let placed = Piece {
        kind: match m.promotion {
            Some(k) => k,
            None => moving.kind,
        },
        ..moving
    };
    put(put(v, m.from.idx(), None), m.to.idx(), Some(placed))
}

/// After castling, the rook jumps over the king.
pub open spec fn move_castling_rook(v: PositionView, m: Move, moving: Piece) -> PositionView {
    if is_castling_move(m, moving) {
        let home = moving.color.home_rank() as int;
        let rook_from = if file(m.to) == 6 {
            home * 8 + 7
        } else {
            home * 8
        };
        let rook_to = if file(m.to) == 6 {
            home * 8 + 5
        } else {
            home * 8 + 3
        };
        let rook = v.board[rook_from];
        put(put(v, rook_from, None), rook_to, rook)
    } else {
        v
    }
}

/// A king move removes both castling rights; a rook move the right of its corner.
pub open spec fn update_mover_rights(v: PositionView, m: Move, moving: Piece) -> PositionView {
    let v1 = if moving.kind == PieceKind::King {
        with_rights(v, rights_without_color(v.rights, moving.color))
    } else {
        v
    };
    if moving.kind == PieceKind::Rook {
        with_rights(v1, rights_without_rook(v1.rights, moving.color, m.from.idx()))
    } else {
        v1
    }
}

/// The en passant square a move leaves behind: the square a pawn skipped.
pub open spec fn en_passant_after(m: Move, moving: Piece) -> Option<Square> {
    if moving.kind == PieceKind::Pawn && file(m.from) == file(m.to) && abs(dy(m)) == 2 && 0 <= rank(
        m.from,
    ) + moving.color.pawn_dir() < 8 {
        Some(Square::at(m.from.idx() + 8 * moving.color.pawn_dir()))
    } else {
        None
    }
}

/// The position after the taken move `m` of `moving`, capturing `capture`.
pub open spec fn apply_taken_move(
    v: PositionView,
    m: Move,
    moving: Piece,
    capture: Option<Capture>,
) -> PositionView {
    let v1 = remove_captured(v, capture);
    let v2 = relocate(v1, m, moving);
    let v3 = move_castling_rook(v2, m, moving);
    let v4 = update_mover_rights(v3, m, moving);
    finish_move_view(
        v4,
        moving,
        match capture {
            Some(c) => Some(c.piece),
            None => None,
        },
        en_passant_after(m, moving),
    )
}

// ---------------------------------------------------------------------------
// Adjudication
// ---------------------------------------------------------------------------

/// The side to move, while the game runs.
pub open spec fn turn_of(status: GameStatus) -> Option<Color> {
    match status {
        GameStatus::Ongoing { turn } => Some(turn),
        _ => None,
    }
}

/// Status after a turn that captured no king: a draw once the full-turn
/// limit is passed or the reversible-move limit is reached, else the game
/// goes on with the position's side to move.
pub open spec fn status_after_turn(v: PositionView, config: GameConfig) -> GameStatus {
    if config.full_turn_limit matches Some(limit) && v.fullmove > limit {
        GameStatus::Draw { reason: DrawReason::TurnLimit }
    } else if config.reversible_moves_limit matches Some(limit) && v.halfmove >= limit {
        GameStatus::Draw { reason: DrawReason::MoveLimit }
    } else {
        GameStatus::Ongoing { turn: v.turn }
    }
}

/// Status of a new game: a missing king means its side has already lost.
pub open spec fn initial_status(v: PositionView, config: GameConfig) -> GameStatus {
    if !has_king_of(v, Color::White) {
        GameStatus::Won(GameResult { winner: Color::Black, reason: WinReason::KingCapture })
    } else if !has_king_of(v, Color::Black) {
        GameStatus::Won(GameResult { winner: Color::White, reason: WinReason::KingCapture })
    } else {
        status_after_turn(v, config)
    }
}

// ---------------------------------------------------------------------------
// Bitboard bridges
// ---------------------------------------------------------------------------

/// `own` marks exactly the squares holding `color`'s pieces.
pub open spec fn marks_own(own: u64, v: PositionView, color: Color) -> bool {
    forall|t: int| bit(own, t) <==> (0 <= t < 64 && own_at(v, color, t))
}

/// With `own` marking `color`'s pieces, the bitboard ray cut equals the
/// own-view reach.
pub proof fn lemma_slider_bridge(own: u64, v: PositionView, color: Color, from: int, d: int, t: int)
    requires
        marks_own(own, v, color),
        0 <= from < 64,
        0 <= d < 8,
    ensures
        slider_hit(own, from, d, t) <==> own_view_reach(v, color, from, d, t),
{
    if slider_hit(own, from, d, t) {
        let k = choose|k: int| #[trigger] ray_hit(from, d, k, t) && ray_clear(own, from, d, k);
        assert forall|j: int| 1 <= j <= k implies !own_at(v, color, #[trigger] ray_point(from, d, j)) by {
            lemma_ray_on_prefix(from, d, j, k);
            lemma_ray_point(from, d, j);
            assert(!bit(own, ray_point(from, d, j)));
        }
    }
    if own_view_reach(v, color, from, d, t) {
        let k = choose|k: int|
            #[trigger] ray_hit(from, d, k, t) && forall|j: int|
                1 <= j <= k ==> !own_at(v, color, #[trigger] ray_point(from, d, j));
        assert forall|j: int| 1 <= j <= k implies !#[trigger] bit(own, ray_point(from, d, j)) by {
            assert(!own_at(v, color, ray_point(from, d, j)));
        }
        assert(ray_hit(from, d, k, t) && ray_clear(own, from, d, k));
    }
}

pub proof fn lemma_rook_bridge(own: u64, v: PositionView, color: Color, from: int, t: int)
    requires
        marks_own(own, v, color),
        0 <= from < 64,
    ensures
        rook_target(own, from, t) <==> rook_request(v, color, from, t),
{
    lemma_slider_bridge(own, v, color, from, 0, t);
    lemma_slider_bridge(own, v, color, from, 1, t);
    lemma_slider_bridge(own, v, color, from, 4, t);
    lemma_slider_bridge(own, v, color, from, 5, t);
}

pub proof fn lemma_bishop_bridge(own: u64, v: PositionView, color: Color, from: int, t: int)
    requires
        marks_own(own, v, color),
        0 <= from < 64,
    ensures
        bishop_target(own, from, t) <==> bishop_request(v, color, from, t),
{
    lemma_slider_bridge(own, v, color, from, 2, t);
    lemma_slider_bridge(own, v, color, from, 3, t);
    lemma_slider_bridge(own, v, color, from, 6, t);
    lemma_slider_bridge(own, v, color, from, 7, t);
}

} // verus!
