//! The RBC game driver: sensing, move requests, move resolution, history
//! and adjudication.
use vstd::prelude::*;

use crate::attack_tables::{lemma_step_hit, step_hit, pawn_attack_target, pawn_push_target, pawn_step, king_target, knight_target, king_offsets, file_of, rank_of, lemma_sq_at, 
    bishop_attacks, closest_blocker, direction_index, dir_df, dir_dr, king_attacks,
    knight_attacks, lemma_nearest_blocker, lemma_ray_injective, lemma_ray_on_prefix,
    lemma_ray_point, nearest_index, on_board, on_ray, pawn_attacks_for, pawn_single_push_for,
    queen_attacks, ray_attacks_one_dir, ray_clear, ray_for, ray_hit, ray_on, ray_point,
    rook_attacks, slider_hit, sq_at,
};
use crate::bits::{bit, group_bits, lemma_clear_lowest, lemma_lowest_bit, lemma_test_bit, lemma_zero_iff_empty};
use crate::fen::{fen_error_text, FenError};
use crate::position::{
    fen_read_result, fen_text, holds_king, null_move_view, own_at, parse_fen, starting_view, Position,
    PositionView,
};
use crate::rules::{is_promotion_kind, bishop_request, rook_request, 
    abs, apply_taken_move, capture_for_move, castle_path_free_of_own, dx, dy, file,
    first_occupied, has_own, home_square, initial_status, is_en_passant_capture, is_move_request,
    king_request, kingside_right, lemma_bishop_bridge, lemma_move_key_injective, lemma_rook_bridge,
    lists_requests, marks_own, move_key, pawn_request, promotion_key, queenside_right, rank,
    revise_castling, revise_king, revise_knight, revise_move, revise_pawn, revise_slider,
    signum, slider_direction, sorted_moves, status_after_turn, turn_of,
    with_default_promotion, all_wf, direction_of, en_passant_after,
    remove_captured, relocate, move_castling_rook, update_mover_rights,
};
use crate::types::{group_square, 
    Capture, Color, Error, GameConfig, GameResult, GameStatus, HistoryEntry, Move, MoveOutcome,
    MoveStatus, Piece, PieceKind, SenseResult, SensedSquare, Square, WinReason,
};

verus! {

broadcast use group_bits, group_square, Position::lemma_board_len;

/// Reconnaissance Blind Chess game state.
#[derive(Clone, Debug)]
pub struct Game {
    position: Position,
    config: GameConfig,
    status: GameStatus,
    history: Vec<HistoryEntry>,
    pending_capture: [Option<Square>; 2],
    pending_sense: Option<SenseResult>,
}

/// The mathematical content of a [`Game`].
pub struct GameView {
    /// The true board.
    pub position: PositionView,
    /// Static configuration.
    pub config: GameConfig,
    /// Current status.
    pub status: GameStatus,
    /// Completed turns.
    pub history: Seq<HistoryEntry>,
    /// For each color (by index), where the opponent captured one of its
    /// pieces on the opponent's last turn.
    pub pending_capture: Seq<Option<Square>>,
    /// The sense made in the current turn, if any.
    pub pending_sense: Option<SenseResult>,
}

impl View for Game {
    type V = GameView;

    closed spec fn view(&self) -> GameView {
        GameView {
            position: self.position@,
            config: self.config,
            status: self.status,
            history: self.history@,
            pending_capture: self.pending_capture@,
            pending_sense: self.pending_sense,
        }
    }
}

/// A game in its stored form: the board and the position state as FEN, and
/// the rest of the game state as it is.
pub struct GameSnapshot {
    /// FEN of the current position.
    pub fen: String,
    /// Static configuration.
    pub config: GameConfig,
    /// Current status.
    pub status: GameStatus,
    /// Completed turns.
    pub history: Vec<HistoryEntry>,
    /// For each color (by index), where the opponent captured one of its
    /// pieces on the opponent's last turn.
    pub pending_capture: [Option<Square>; 2],
    /// The sense made in the current turn, if any.
    pub pending_sense: Option<SenseResult>,
}

/// The game a snapshot describes, or why its FEN is refused.
pub open spec fn restored(s: &GameSnapshot) -> Result<GameView, FenError> {
    match parse_fen(s.fen@) {
        Ok(v) => Ok(
            GameView {
                position: v,
                config: s.config,
                status: s.status,
                history: s.history@,
                pending_capture: s.pending_capture@,
                pending_sense: s.pending_sense,
            },
        ),
        Err(e) => Err(e),
    }
}

/// A game that starts from position `v`.
pub open spec fn fresh_game(v: PositionView, config: GameConfig) -> GameView {
    GameView {
        position: v,
        config,
        status: initial_status(v, config),
        history: Seq::empty(),
        pending_capture: seq![None, None],
        pending_sense: None,
    }
}

/// A sense result that records no sense.
pub open spec fn is_pass_sense(s: SenseResult) -> bool {
    s.center is None && s.squares@.len() == 0
}

/// Offset of the `k`-th square of the 3×3 sense window: rank-descending,
/// file-ascending.
pub open spec fn window_offset(k: int) -> (int, int) {
    ((k % 3) - 1, 1 - k / 3)
}

/// The on-board squares among the first `n` of the window around `c`.
pub open spec fn window_squares(v: PositionView, c: int, n: nat) -> Seq<SensedSquare>
    decreases n,
{
    if n == 0 {
        Seq::empty()
    } else {
        let prev = window_squares(v, c, (n - 1) as nat);
        let off = window_offset(n - 1);
        let f = c % 8 + off.0;
        let r = c / 8 + off.1;
        if on_board(f, r) {
            prev.push(SensedSquare { square: Square::at(sq_at(f, r)), piece: v.board[sq_at(f, r)] })
        } else {
            prev
        }
    }
}

/// The squares a sense centred on `c` reveals, with their pieces.
pub open spec fn sense_window(v: PositionView, c: int) -> Seq<SensedSquare> {
    window_squares(v, c, 9)
}

/// What a turn leads to, before it is written into the history.
pub struct TurnResult {
    /// The reported outcome.
    pub outcome: MoveOutcome,
    /// The position after the turn.
    pub position: PositionView,
    /// The status after the turn.
    pub status: GameStatus,
    /// The square where the mover captured, if anywhere.
    pub capture_square: Option<Square>,
}

/// A turn in which no piece moves (a pass, or an illegal request).
pub open spec fn turn_without_move(g: GameView, requested: Option<Move>, status: MoveStatus) -> TurnResult {
    let p = null_move_view(g.position);
    TurnResult {
        outcome: MoveOutcome { requested, taken: None, status, capture: None },
        position: p,
        status: status_after_turn(p, g.config),
        capture_square: None,
    }
}

/// A turn in which the taken move `t` is made for the request `requested`
/// (with `m` the request after the default promotion).
pub open spec fn turn_with_move(g: GameView, color: Color, requested: Option<Move>, m: Move, t: Move) -> TurnResult {
    let v = g.position;
    let moving = v.board[t.from.idx()]->0;
    let cap = capture_for_move(v, t, moving);
    let p = apply_taken_move(v, t, moving, cap);
    TurnResult {
        outcome: MoveOutcome {
            requested,
            taken: Some(t),
            status: if t == m {
                MoveStatus::Taken
            } else {
                MoveStatus::Revised
            },
            capture: cap,
        },
        position: p,
        status: if cap matches Some(c) && c.piece.kind == PieceKind::King {
            GameStatus::Won(GameResult { winner: color, reason: WinReason::KingCapture })
        } else {
            status_after_turn(p, g.config)
        },
        capture_square: match cap {
            Some(c) => Some(c.square),
            None => None,
        },
    }
}

/// The effect of the acting player's move request (or pass) in game `g`.
pub open spec fn play(g: GameView, requested: Option<Move>) -> Result<TurnResult, Error> {
    match turn_of(g.status) {
        None => Err(Error::GameOver),
        Some(color) => match requested {
            None => Ok(turn_without_move(g, requested, MoveStatus::Pass)),
            Some(m0) => {
                let m = with_default_promotion(g.position, m0);
                if !is_move_request(g.position, color, m) {
                    Err(Error::InvalidMove)
                } else {
                    match revise_move(g.position, m) {
                        None => Ok(turn_without_move(g, requested, MoveStatus::Illegal)),
                        Some(t) => Ok(turn_with_move(g, color, requested, m, t)),
                    }
                }
            },
        },
    }
}

/// `e` records a turn of `color` with outcome `outcome` from `before` to
/// `after`, with the pending sense `sense` (a passed sense if none).
pub open spec fn records_turn(
    e: HistoryEntry,
    color: Color,
    sense: Option<SenseResult>,
    outcome: MoveOutcome,
    before: PositionView,
    after: PositionView,
) -> bool {
    &&& e.color == color
    &&& e.move_outcome == outcome
    &&& e.fen_before_move@ == fen_text(before)
    &&& e.fen_after_move@ == fen_text(after)
    &&& match sense {
        Some(s) => e.sense == s,
        None => is_pass_sense(e.sense),
    }
}

/// `after` is `before` once the turn `t` of `color` is completed and recorded.
pub open spec fn turn_completed(before: GameView, after: GameView, color: Color, t: TurnResult) -> bool {
    &&& after.position == t.position
    &&& after.status == t.status
    &&& after.config == before.config
    &&& after.pending_capture == before.pending_capture.update(
        color.opposite().index() as int,
        t.capture_square,
    )
    &&& after.pending_sense is None
    &&& after.history.len() == before.history.len() + 1
    &&& after.history.take(before.history.len() as int) == before.history
    &&& records_turn(after.history.last(), color, before.pending_sense, t.outcome, before.position, t.position)
}

/// The game result of `color` giving up for `reason`.
pub open spec fn concession(g: GameView, color: Color, reason: WinReason) -> GameView {
    GameView {
        status: GameStatus::Won(GameResult { winner: color.opposite(), reason }),
        ..g
    }
}

impl Game {
    /// A game keeps one capture notice per color.
    pub broadcast proof fn lemma_pending_capture_len(g: Game)
        ensures
            #[trigger] g@.pending_capture.len() == 2,
    {
    }

    /// Creates a game from the starting position of the configured back
    /// ranks (pawns in front of them, White to move), with the structural
    /// castling rights intersected with the configured castling policy. Each
    /// back rank must hold a king.
    #[must_use]
    pub fn new(config: GameConfig) -> (r: Game)
        requires
            holds_king(config.white_backrank@),
            holds_king(config.black_backrank@),
        ensures
            r@ == fresh_game(
                starting_view(config.white_backrank@, config.black_backrank@, config.castling_policy),
                config,
            ),
    {
        let position = Position::starting(&config.white_backrank, &config.black_backrank, config.castling_policy);
        let status = initial_status_of(&position, &config);
        let r = Game {
            status,
            position,
            config,
            history: Vec::new(),
            pending_capture: [None, None],
            pending_sense: None,
        };
        assert(r@.pending_capture =~= seq![None, None]);
        r
    }

    /// Creates a game from a FEN string.
    pub fn from_fen(fen: &str, config: GameConfig) -> (r: Result<Game, Error>)
        ensures
            fen_read_result(
                fen@,
                match r {
                    Ok(g) => Ok(g@.position),
                    Err(e) => Err(e),
                },
            ),
            r matches Ok(g) ==> g@ == fresh_game(g@.position, config),
    {
        let position = Position::from_fen(fen)?;
        let status = initial_status_of(&position, &config);
        let r = Game {
            status,
            position,
            config,
            history: Vec::new(),
            pending_capture: [None, None],
            pending_sense: None,
        };
        assert(r@.pending_capture =~= seq![None, None]);
        Ok(r)
    }

    /// Returns the current FEN string; reading it back gives the current
    /// position.
    #[must_use]
    pub fn to_fen(&self) -> (r: String)
        ensures
            r@ == fen_text(self@.position),
            parse_fen(r@) == Ok::<PositionView, FenError>(self@.position),
    {
        self.position.to_fen()
    }

    /// Takes the game apart into its stored form: the board as FEN and the
    /// other state as it is. Restoring the snapshot gives this game back.
    pub fn into_snapshot(self) -> (r: GameSnapshot)
        ensures
            r.fen@ == fen_text(self@.position),
            r.config == self@.config,
            r.status == self@.status,
            r.history@ == self@.history,
            r.pending_capture@ == self@.pending_capture,
            r.pending_sense == self@.pending_sense,
            restored(&r) == Ok::<GameView, FenError>(self@),
    {
        let fen = self.position.to_fen();
        let r = GameSnapshot {
            fen,
            config: self.config,
            status: self.status,
            history: self.history,
            pending_capture: self.pending_capture,
            pending_sense: self.pending_sense,
        };
        r
    }

    /// Rebuilds a game from its stored form. The FEN is read as
    /// [`Position::from_fen`] reads it; the other state is taken as it is.
    pub fn from_snapshot(snapshot: GameSnapshot) -> (r: Result<Game, Error>)
        ensures
            match restored(&snapshot) {
                Ok(g) => r matches Ok(game) && game@ == g,
                Err(e) => r matches Err(Error::InvalidFen(m)) && m@ == fen_error_text(e),
            },
    {
        let position = match Position::from_fen(snapshot.fen.as_str()) {
            Ok(p) => p,
            Err(e) => return Err(e),
        };
        Ok(
            Game {
                position,
                config: snapshot.config,
                status: snapshot.status,
                history: snapshot.history,
                pending_capture: snapshot.pending_capture,
                pending_sense: snapshot.pending_sense,
            },
        )
    }

    /// Returns static game configuration.
    #[must_use]
    pub fn config(&self) -> (r: &GameConfig)
        ensures
            *r == self@.config,
    {
        &self.config
    }

    /// Returns current game status.
    #[must_use]
    pub fn status(&self) -> (r: &GameStatus)
        ensures
            *r == self@.status,
    {
        &self.status
    }

    /// Returns recorded history entries.
    #[must_use]
    pub fn history(&self) -> (r: &[HistoryEntry])
        ensures
            r@ == self@.history,
    {
        self.history.as_slice()
    }

    /// Returns the side to move if the game is ongoing.
    #[must_use]
    pub fn turn(&self) -> (r: Option<Color>)
        ensures
            r == turn_of(self@.status),
    {
        match self.status {
            GameStatus::Ongoing { turn } => Some(turn),
            GameStatus::Won(_) | GameStatus::Draw { .. } => None,
        }
    }

    /// Returns all legal sense center squares: every square while the game
    /// runs, none once it is over.
    #[must_use]
    pub fn sense_actions(&self) -> (r: Vec<Square>)
        ensures
            turn_of(self@.status) is Some ==> r@ == Seq::new(64, |i: int| Square::at(i)),
            turn_of(self@.status) is None ==> r@ == Seq::<Square>::empty(),
    {
        let mut squares: Vec<Square> = Vec::new();
        if self.turn().is_none() {
            return squares;
        }
        let mut i: u8 = 0;
        while i < 64
            invariant
                i <= 64,
                squares@ == Seq::new(i as nat, |j: int| Square::at(j)),
            decreases 64 - i,
        {
            match Square::from_index(i) {
                Some(s) => squares.push(s),
                None => {},
            }
            assert(squares@ =~= Seq::new((i + 1) as nat, |j: int| Square::at(j)));
            i += 1;
        }
        squares
    }

    /// Returns the square where the opponent captured a piece of `color` on
    /// their last turn.
    #[must_use]
    pub fn opponent_capture_square(&self, color: Color) -> (r: Option<Square>)
        ensures
            r == self@.pending_capture[color.index() as int],
    {
        self.pending_capture[color.index()]
    }

    /// Performs a sense action: the 3×3 window around `center`, clipped to
    /// the board, rank-descending and file-ascending; `None` passes.
    #[must_use]
    pub fn sense(&mut self, center: Option<Square>) -> (r: SenseResult)
        ensures
            r.center == center,
            match center {
                None => r.squares@.len() == 0,
                Some(c) => r.squares@ == sense_window(old(self)@.position, c.idx()),
            },
            final(self)@ == (GameView { pending_sense: final(self)@.pending_sense, ..old(self)@ }),
            final(self)@.pending_sense matches Some(s) && s.center == r.center && s.squares@
                == r.squares@,
    {
        let c = match center {
            None => {
                let result = SenseResult { center: None, squares: Vec::new() };
                self.pending_sense = Some(copy_sense(&result));
                return result;
            },
            Some(c) => c,
        };
        proof {
            use_type_invariant(&c);
        }
        let mut squares: Vec<SensedSquare> = Vec::new();
        let rank: i8 = c.rank() as i8;
        let file: i8 = c.file() as i8;
        let mut i: i8 = 0;
        while i < 3
            invariant
                0 <= i <= 3,
                c.wf(),
                rank == c.idx() / 8,
                file == c.idx() % 8,
                squares@ == window_squares(self@.position, c.idx(), (3 * i) as nat),
            decreases 3 - i,
        {
            let delta_rank: i8 = 1 - i;
            let mut j: i8 = 0;
            while j < 3
                invariant
                    0 <= i < 3,
                    0 <= j <= 3,
                    c.wf(),
                    delta_rank == 1 - i,
                    rank == c.idx() / 8,
                    file == c.idx() % 8,
                    squares@ == window_squares(self@.position, c.idx(), (3 * i + j) as nat),
                decreases 3 - j,
            {
                let delta_file: i8 = j - 1;
                let next_rank: i8 = rank + delta_rank;
                let next_file: i8 = file + delta_file;
                assert(window_offset(3 * i + j) == (delta_file as int, delta_rank as int));
                if next_rank >= 0 && next_rank <= 7 && next_file >= 0 && next_file <= 7 {
                    match Square::from_coords(next_file as u8, next_rank as u8) {
                        Some(square) => {
                            let piece = self.position.piece_at(square);
                            squares.push(SensedSquare { square, piece });
                        },
                        None => {},
                    }
                }
                j += 1;
            }
            i += 1;
        }
        let result = SenseResult { center: Some(c), squares };
        self.pending_sense = Some(copy_sense(&result));
        result
    }

    /// Returns the piece at a square.
    #[must_use]
    pub fn piece_at(&self, square: Square) -> (r: Option<Piece>)
        ensures
            r == self@.position.board[square.idx()],
    {
        self.position.piece_at(square)
    }

    /// Records a resignation by the given color.
    pub fn resign(&mut self, color: Color) -> (r: Result<GameResult, Error>)
        ensures
            turn_of(old(self)@.status) is None ==> r == Err::<GameResult, Error>(Error::GameOver)
                && final(self)@ == old(self)@,
            turn_of(old(self)@.status) is Some ==> r == Ok::<GameResult, Error>(
                GameResult { winner: color.opposite(), reason: WinReason::Resignation },
            ) && final(self)@ == concession(old(self)@, color, WinReason::Resignation),
    {
        self.ensure_ongoing()?;
        let result = GameResult { winner: color.opposite(), reason: WinReason::Resignation };
        self.status = GameStatus::Won(result);
        Ok(result)
    }

    /// Records a timeout for the given color.
    pub fn declare_timeout(&mut self, color: Color) -> (r: Result<GameResult, Error>)
        ensures
            turn_of(old(self)@.status) is None ==> r == Err::<GameResult, Error>(Error::GameOver)
                && final(self)@ == old(self)@,
            turn_of(old(self)@.status) is Some ==> r == Ok::<GameResult, Error>(
                GameResult { winner: color.opposite(), reason: WinReason::Timeout },
            ) && final(self)@ == concession(old(self)@, color, WinReason::Timeout),
    {
        self.ensure_ongoing()?;
        let result = GameResult { winner: color.opposite(), reason: WinReason::Timeout };
        self.status = GameStatus::Won(result);
        Ok(result)
    }

    /// Whether `color` has a piece on `square`.
    fn has_own_piece(&self, square: Square, color: Color) -> (r: bool)
        ensures
            r == has_own(self@.position, square, color),
    {
        match self.position.piece_at(square) {
            Some(piece) => piece.color == color,
            None => false,
        }
    }

    /// Whether no square of `color`'s home rank with file in `lo..=hi` holds
    /// a piece of `color`.
    fn castle_path_clear_of_own_pieces(&self, color: Color, lo: u8, hi: u8) -> (r: bool)
        requires
            lo <= hi <= 7,
        ensures
            r == castle_path_free_of_own(self@.position, color, lo as int, hi as int),
    {
        let rank: u8 = color.home_rank();
        let mut file: u8 = lo;
        while file <= hi
            invariant
                lo <= file,
                hi <= 7,
                file <= hi + 1,
                rank == color.home_rank(),
                forall|f: int| lo <= f < file ==> !#[trigger] own_at(self@.position, color, rank * 8 + f),
            decreases hi + 1 - file,
        {
            match Square::from_coords(file, rank) {
                Some(sq) => {
                    if self.has_own_piece(sq, color) {
                        return false;
                    }
                },
                None => {},
            }
            file += 1;
        }
        true
    }

    /// Appends the pawn requests from `from`: pushes (promoting on the last
    /// rank), the double push from the start rank, and blind diagonal captures.
    fn add_pawn_move_actions(&self, from: Square, color: Color, moves: &mut Vec<Move>)
        ensures
            grew_by(
                old(moves)@,
                final(moves)@,
                |m: Move| m.from == from && pawn_request(self@.position, color, m),
            ),
    {
        proof {
            use_type_invariant(&from);
        }
        let ghost v = self@.position;
        let ghost start = moves@;
        let dir: i8 = color.pawn_dir();
        let promotion_rank: u8 = color.pawn_promotion_rank();
        let own = self.position.occupied_by(color);
        let from_idx: u8 = from.index();
        let ghost f = from.idx();
        let ghost t1 = f + 8 * dir;
        let push_bb = pawn_single_push_for(color.index(), from_idx);
        proof {
            assert(pawn_step(color.index() as int) == dir);
            lemma_zero_iff_empty(push_bb);
            lemma_zero_iff_empty(push_bb & own);
            if on_board(file_of(f), rank_of(f) + dir) {
                lemma_sq_at(file_of(f), rank_of(f) + dir);
                assert(step_hit(f, 0, dir as int, t1));
                assert(bit(push_bb, t1));
            }
            assert forall|t: int| #[trigger] bit(push_bb, t) implies t == t1 && on_board(
                file_of(f),
                rank_of(f) + dir,
            ) by {
                assert(pawn_push_target(color.index() as int, f, t));
            }
        }
        let ghost pf = |m: Move| m.from == from && dx(m) == 0 && pawn_request(v, color, m);
        if push_bb != 0 && push_bb & own == 0 {
            proof {
                lemma_lowest_bit(push_bb);
            }
            let one_idx: u8 = push_bb.trailing_zeros() as u8;
            assert(bit(push_bb, one_idx as int));
            assert(one_idx == t1);
            assert(!bit(push_bb & own, t1));
            assert(!bit(own, t1));
            match Square::from_index(one_idx) {
                Some(one_step) => {
                    add_promotion_moves(from, one_step, promotion_rank, moves);
                    let ghost ga = moves@;
                    let ghost pa = |m: Move|
                        m.from == from && m.to == one_step && if rank(one_step) == promotion_rank {
                            (m.promotion matches Some(k) && is_promotion_kind(k))
                        } else {
                            m.promotion is None
                        };
                    let mut double_pushed: bool = false;
                    let mut double_target: Option<Square> = None;
                    if from.rank() == color.pawn_start_rank() {
                        double_target = offset(one_step, 0, dir);
                        match double_target {
                            Some(two_step) => {
                                if !self.has_own_piece(two_step, color) {
                                    push_move(moves, Move { from, to: two_step, promotion: None });
                                    double_pushed = true;
                                }
                            },
                            None => {},
                        }
                    }
                    proof {
                        lemma_sq_at(file_of(f), rank_of(f) + dir);
                        assert forall|m: Move| m.wf() && m.from == from && dx(m) == 0 && dy(m) == dir
                            implies m.to == one_step by {
                            lemma_step_hit(f, 0, dir as int, m.to.idx());
                            Square::lemma_eq_idx(m.to, one_step);
                        }
                        if double_pushed {
                            let two_step = double_target->0;
                            let dbl = Move { from, to: two_step, promotion: None };
                            assert(two_step != one_step) by {
                                Square::lemma_eq_idx(two_step, one_step);
                            }
                            assert forall|m: Move| m.wf() implies !(pa(m) && m == dbl) && (pf(m) <==> (pa(m)
                                || m == dbl)) by {
                                let t = m.to.idx();
                                lemma_step_hit(f, 0, dir as int, t);
                                lemma_step_hit(f, 0, 2 * dir, t);
                                if m.from == from && dx(m) == 0 && dy(m) == 2 * dir && rank(m.from)
                                    == color.pawn_start_rank() {
                                    lemma_sq_at(file_of(f), rank_of(f) + 2 * dir);
                                    Square::lemma_eq_idx(m.to, two_step);
                                }
                            }
                            lemma_grew_by_chain(start, ga, moves@, pa, |m: Move| m == dbl, pf);
                        } else {
                            assert forall|m: Move| m.wf() implies (pa(m) <==> pf(m)) by {
                                let t = m.to.idx();
                                lemma_step_hit(f, 0, dir as int, t);
                                lemma_step_hit(f, 0, 2 * dir, t);
                                if m.from == from && dx(m) == 0 && dy(m) == 2 * dir && rank(m.from)
                                    == color.pawn_start_rank() {
                                    lemma_sq_at(file_of(f), rank_of(f) + 2 * dir);
                                    if double_target is Some {
                                        Square::lemma_eq_idx(m.to, double_target->0);
                                    }
                                }
                            }
                            lemma_grew_by_same(start, moves@, pa, pf);
                        }
                    }
                },
                None => {},
            }
        } else {
            proof {
                assert forall|m: Move| m.wf() implies !pf(m) by {
                    let t = m.to.idx();
                    lemma_step_hit(f, 0, dir as int, t);
                    lemma_step_hit(f, 0, 2 * dir, t);
                    if m.from == from && dx(m) == 0 && dy(m) == dir {
                        Square::lemma_eq_idx(m.to, Square::at(t1));
                    }
                    if m.from == from && dx(m) == 0 && dy(m) == 2 * dir && rank(m.from)
                        == color.pawn_start_rank() {
                        lemma_sq_at(file_of(f), rank_of(f) + 2 * dir);
                    }
                }
                lemma_grew_by_nothing(start, pf);
            }
        }
        let ghost g2 = moves@;
        assert(grew_by(start, g2, pf));
        let captures = pawn_attacks_for(color.index(), from_idx) & !own;
        let mut bb = captures;
        let ghost pc = |m: Move|
            m.from == from && bit(captures, m.to.idx()) && (m.promotion is None || (rank(m.to)
                == promotion_rank && (m.promotion matches Some(k) && is_promotion_kind(k))));
        proof {
            lemma_grew_by_nothing(
                g2,
                |m: Move|
                    m.from == from && bit(captures, m.to.idx()) && !bit(bb, m.to.idx()) && (
                    m.promotion is None || (rank(m.to) == promotion_rank && (
                    m.promotion matches Some(k) && is_promotion_kind(k)))),
            );
        }
        while bb != 0
            invariant
                from.wf(),
                forall|i: int| #[trigger] bit(bb, i) ==> bit(captures, i),
                grew_by(
                    g2,
                    moves@,
                    |m: Move|
                        m.from == from && bit(captures, m.to.idx()) && !bit(bb, m.to.idx()) && (
                        m.promotion is None || (rank(m.to) == promotion_rank && (
                        m.promotion matches Some(k) && is_promotion_kind(k)))),
                ),
            decreases bb,
        {
            proof {
                lemma_lowest_bit(bb);
                lemma_clear_lowest(bb);
            }
            let to_idx: u8 = bb.trailing_zeros() as u8;
            let ghost old_bb = bb;
            bb = bb & (bb - 1);
            assert(bb < old_bb) by {
                let p = (old_bb - 1) as u64;
                assert(old_bb & p <= p) by (bit_vector);
            }
            match Square::from_index(to_idx) {
                Some(to) => {
                    let ghost before = moves@;
                    add_pawn_capture_moves(from, to, promotion_rank, moves);
                    proof {
                        let p_old = |m: Move|
                            m.from == from && bit(captures, m.to.idx()) && !bit(old_bb, m.to.idx()) && (
                            m.promotion is None || (rank(m.to) == promotion_rank && (
                            m.promotion matches Some(k) && is_promotion_kind(k))));
                        let p_step = |m: Move|
                            m.from == from && m.to == to && (m.promotion is None || (rank(to) == promotion_rank
                                && (m.promotion matches Some(k) && is_promotion_kind(k))));
                        let p_new = |m: Move|
                            m.from == from && bit(captures, m.to.idx()) && !bit(bb, m.to.idx()) && (
                            m.promotion is None || (rank(m.to) == promotion_rank && (
                            m.promotion matches Some(k) && is_promotion_kind(k))));
                        assert forall|m: Move| m.wf() implies !(p_old(m) && p_step(m)) && (p_new(m) <==> (
                            p_old(m) || p_step(m))) by {
                            if m.to.idx() == to_idx {
                                Square::lemma_eq_idx(m.to, to);
                            }
                        }
                        lemma_grew_by_chain(g2, before, moves@, p_old, p_step, p_new);
                    }
                },
                None => {},
            }
        }
        proof {
            lemma_zero_iff_empty(bb);
            let pc0 = |m: Move|
                m.from == from && bit(captures, m.to.idx()) && !bit(bb, m.to.idx()) && (
                m.promotion is None || (rank(m.to) == promotion_rank && (
                m.promotion matches Some(k) && is_promotion_kind(k))));
            let target = |m: Move| m.from == from && pawn_request(v, color, m);
            assert forall|m: Move| m.wf() implies !(pf(m) && pc0(m)) && (target(m) <==> (pf(m) || pc0(m))) by {
                let t = m.to.idx();
                lemma_step_hit(f, 0, dir as int, t);
                lemma_step_hit(f, -1, dir as int, t);
                lemma_step_hit(f, 1, dir as int, t);
                lemma_step_hit(f, 0, 2 * dir, t);
                assert(bit(captures, t) == (pawn_attack_target(color.index() as int, f, t) && !bit(
                    own,
                    t,
                )));
            }
            lemma_grew_by_chain(start, g2, moves@, pf, pc0, target);
        }
    }

    /// Appends the castling requests of a king standing on its home square:
    /// kingside first, then queenside.
    fn add_castling_move_actions(&self, from: Square, color: Color, moves: &mut Vec<Move>)
        ensures
            final(moves)@ == old(moves)@ + castling_requests(self@.position, color, from),
            grew_by(
                old(moves)@,
                final(moves)@,
                |m: Move|
                    m.from == from && from == home_square(color, 4) && m.promotion is None && ((m.to
                        == home_square(color, 6) && kingside_right(self@.position.rights, color)
                        && castle_path_free_of_own(self@.position, color, 5, 6)) || (m.to
                        == home_square(color, 2) && queenside_right(self@.position.rights, color)
                        && castle_path_free_of_own(self@.position, color, 1, 3))),
            ),
    {
        let ghost v = self@.position;
        let ghost start = moves@;
        let home_rank: u8 = color.home_rank();
        let king_home = match Square::from_coords(4, home_rank) {
            Some(s) => s,
            None => {
                assert(false);
                return;
            },
        };
        let rights = self.position.castling_rights();
        let (kingside, queenside) = match color {
            Color::White => (rights.white_kingside, rights.white_queenside),
            Color::Black => (rights.black_kingside, rights.black_queenside),
        };
        if from == king_home {
            if kingside && self.castle_path_clear_of_own_pieces(color, 5, 6) {
                match Square::from_coords(6, home_rank) {
                    Some(to) => push_move(moves, Move { from, to, promotion: None }),
                    None => {},
                }
            }
            let ghost mid = moves@;
            if queenside && self.castle_path_clear_of_own_pieces(color, 1, 3) {
                match Square::from_coords(2, home_rank) {
                    Some(to) => push_move(moves, Move { from, to, promotion: None }),
                    None => {},
                }
            }
        }
        proof {
            let c = castling_requests(v, color, from);
            assert(moves@ =~= start + c);
            let p = |m: Move|
                m.from == from && from == home_square(color, 4) && m.promotion is None && ((m.to
                    == home_square(color, 6) && kingside_right(v.rights, color)
                    && castle_path_free_of_own(v, color, 5, 6)) || (m.to
                    == home_square(color, 2) && queenside_right(v.rights, color)
                    && castle_path_free_of_own(v, color, 1, 3)));
            assert(appended(start, moves@) =~= c);
            assert(moves@.take(start.len() as int) =~= start);
            assert(home_square(color, 6) != home_square(color, 2)) by {
                assert(home_square(color, 6).idx() != home_square(color, 2).idx());
            }
            assert forall|m: Move| m.wf() implies (#[trigger] c.contains(m) <==> p(m)) by {
                if c.contains(m) {
                    let i = choose|i: int| 0 <= i < c.len() && c[i] == m;
                }
                if p(m) {
                    if m.to == home_square(color, 6) && kingside_right(v.rights, color)
                        && castle_path_free_of_own(v, color, 5, 6) {
                        assert(c[0] == m);
                    } else {
                        assert(c[c.len() - 1] == m);
                    }
                }
            }
            lemma_grew_by_intro(start, moves@, p);
        }
    }

    /// Appends every request of `piece` standing on `from`.
    fn add_piece_move_actions(&self, from: Square, piece: Piece, moves: &mut Vec<Move>)
        requires
            self@.position.board[from.idx()] == Some(piece),
        ensures
            grew_by(
                old(moves)@,
                final(moves)@,
                |m: Move| m.from == from && is_move_request(self@.position, piece.color, m),
            ),
    {
        proof {
            use_type_invariant(&from);
        }
        let ghost v = self@.position;
        let ghost f = from.idx();
        let ghost start = moves@;
        let own = self.position.occupied_by(piece.color);
        assert(marks_own(own, v, piece.color));
        let ghost target = |m: Move| m.from == from && is_move_request(v, piece.color, m);
        match piece.kind {
            PieceKind::Pawn => {
                self.add_pawn_move_actions(from, piece.color, moves);
                proof {
                    lemma_grew_by_same(
                        start,
                        moves@,
                        |m: Move| m.from == from && pawn_request(v, piece.color, m),
                        target,
                    );
                }
            },
            PieceKind::Knight => {
                let targets = knight_attacks(from.index()) & !own;
                push_targets_from_bitboard(from, targets, moves);
                proof {
                    lemma_grew_by_same(
                        start,
                        moves@,
                        |m: Move| m.from == from && m.promotion is None && bit(targets, m.to.idx()),
                        target,
                    );
                }
            },
            PieceKind::Bishop => {
                let targets = bishop_attacks(from.index(), own);
                proof {
                    assert forall|t: int| bit(targets, t) == bishop_request(v, piece.color, f, t) by {
                        lemma_bishop_bridge(own, v, piece.color, f, t);
                    }
                }
                push_targets_from_bitboard(from, targets, moves);
                proof {
                    lemma_grew_by_same(
                        start,
                        moves@,
                        |m: Move| m.from == from && m.promotion is None && bit(targets, m.to.idx()),
                        target,
                    );
                }
            },
            PieceKind::Rook => {
                let targets = rook_attacks(from.index(), own);
                proof {
                    assert forall|t: int| bit(targets, t) == rook_request(v, piece.color, f, t) by {
                        lemma_rook_bridge(own, v, piece.color, f, t);
                    }
                }
                push_targets_from_bitboard(from, targets, moves);
                proof {
                    lemma_grew_by_same(
                        start,
                        moves@,
                        |m: Move| m.from == from && m.promotion is None && bit(targets, m.to.idx()),
                        target,
                    );
                }
            },
            PieceKind::Queen => {
                let targets = queen_attacks(from.index(), own);
                proof {
                    assert forall|t: int|
                        bit(targets, t) == (rook_request(v, piece.color, f, t) || bishop_request(
                            v,
                            piece.color,
                            f,
                            t,
                        )) by {
                        lemma_rook_bridge(own, v, piece.color, f, t);
                        lemma_bishop_bridge(own, v, piece.color, f, t);
                    }
                }
                push_targets_from_bitboard(from, targets, moves);
                proof {
                    lemma_grew_by_same(
                        start,
                        moves@,
                        |m: Move| m.from == from && m.promotion is None && bit(targets, m.to.idx()),
                        target,
                    );
                }
            },
            PieceKind::King => {
                let targets = king_attacks(from.index()) & !own;
                push_targets_from_bitboard(from, targets, moves);
                let ghost g1 = moves@;
                self.add_castling_move_actions(from, piece.color, moves);
                proof {
                    let color = piece.color;
                    let p_steps = |m: Move| m.from == from && m.promotion is None && bit(targets, m.to.idx());
                    let p_castle = |m: Move|
                        m.from == from && from == home_square(color, 4) && m.promotion is None && ((m.to
                            == home_square(color, 6) && kingside_right(v.rights, color)
                            && castle_path_free_of_own(v, color, 5, 6)) || (m.to
                            == home_square(color, 2) && queenside_right(v.rights, color)
                            && castle_path_free_of_own(v, color, 1, 3)));
                    assert forall|m: Move| m.wf() implies !(p_steps(m) && p_castle(m)) && (target(m) <==> (
                        p_steps(m) || p_castle(m))) by {
                        let t = m.to.idx();
                        if m.from == from && king_target(f, t) {
                            let k = choose|k: int|
                                0 <= k < king_offsets().len() && #[trigger] step_hit(
                                    f,
                                    king_offsets()[k].0 as int,
                                    king_offsets()[k].1 as int,
                                    t,
                                );
                            lemma_step_hit(f, king_offsets()[k].0 as int, king_offsets()[k].1 as int, t);
                        }
                        if m.from == from && from == home_square(color, 4) {
                            if dy(m) == 0 && dx(m) == 2 {
                                Square::lemma_eq_idx(m.to, home_square(color, 6));
                            }
                            if dy(m) == 0 && dx(m) == -2 {
                                Square::lemma_eq_idx(m.to, home_square(color, 2));
                            }
                        }
                    }
                    lemma_grew_by_chain(start, g1, moves@, p_steps, p_castle, target);
                }
            },
        }
    }

    /// The requests the acting player may make, from their own-piece view,
    /// in move order.
    #[must_use]
    pub fn move_actions(&self) -> (r: Vec<Move>)
        ensures
            turn_of(self@.status) matches Some(t) ==> lists_requests(self@.position, t, r@),
            turn_of(self@.status) is None ==> r@ == Seq::<Move>::empty(),
    {
        let turn = match self.turn() {
            Some(t) => t,
            None => return Vec::new(),
        };
        let ghost v = self@.position;
        let mut moves: Vec<Move> = Vec::new();
        let mut ki: usize = 0;
        while ki < 6
            invariant
                ki <= 6,
                v == self@.position,
                all_wf(moves@),
                forall|m: Move|
                    m.wf() ==> (#[trigger] moves@.contains(m) <==> (is_move_request(v, turn, m)
                        && v.board[m.from.idx()]->0.kind.index() < ki)),
            decreases 6 - ki,
        {
            let kind = PieceKind::from_index(ki);
            let bitboard = self.position.piece_bitboard(turn, kind);
            let mut bb = bitboard;
            while bb != 0
                invariant
                    ki < 6,
                    v == self@.position,
                    kind.index() == ki,
                    all_wf(moves@),
                    forall|i: int| #[trigger] bit(bb, i) ==> bit(bitboard, i),
                    forall|t: int|
                        bit(bitboard, t) <==> (0 <= t < 64 && v.board[t] == Some(
                            Piece { color: turn, kind },
                        )),
                    forall|m: Move|
                        m.wf() ==> (#[trigger] moves@.contains(m) <==> (is_move_request(v, turn, m)
                            && (v.board[m.from.idx()]->0.kind.index() < ki || (v.board[m.from.idx()]->0.kind
                            == kind && !bit(bb, m.from.idx()))))),
                decreases bb,
            {
                proof {
                    lemma_lowest_bit(bb);
                    lemma_clear_lowest(bb);
                }
                let idx: u8 = bb.trailing_zeros() as u8;
                let ghost old_bb = bb;
                bb = bb & (bb - 1);
                assert(bb < old_bb) by {
                    let p = (old_bb - 1) as u64;
                    assert(old_bb & p <= p) by (bit_vector);
                }
                assert(bit(old_bb, idx as int));
                assert(bit(bitboard, idx as int));
                match Square::from_index(idx) {
                    Some(from) => {
                        let ghost before = moves@;
                        self.add_piece_move_actions(from, Piece { color: turn, kind }, &mut moves);
                        assert forall|m: Move| m.wf() implies (#[trigger] moves@.contains(m) <==> (
                        is_move_request(v, turn, m) && (v.board[m.from.idx()]->0.kind.index() < ki || (
                        v.board[m.from.idx()]->0.kind == kind && !bit(bb, m.from.idx()))))) by {
                            if m.from.idx() == idx {
                                Square::lemma_eq_idx(m.from, from);
                            }
                            if is_move_request(v, turn, m) && v.board[m.from.idx()]->0.kind == kind {
                                assert(bit(bitboard, m.from.idx()));
                            }
                        }
                    },
                    None => {},
                }
            }
            proof {
                lemma_zero_iff_empty(bb);
                assert forall|m: Move| m.wf() implies (#[trigger] moves@.contains(m) <==> (
                is_move_request(v, turn, m) && v.board[m.from.idx()]->0.kind.index() < ki + 1)) by {
                    if is_move_request(v, turn, m) && v.board[m.from.idx()]->0.kind.index() == ki {
                        assert(v.board[m.from.idx()]->0.kind == kind);
                    }
                }
            }
            ki += 1;
        }
        sort_and_dedup(moves)
    }

    /// Whether `mv` is a pawn request of `color`.
    fn is_pawn_move_action(&self, mv: Move, color: Color) -> (r: bool)
        ensures
            r == pawn_request(self@.position, color, mv),
    {
        proof {
            use_type_invariant(&mv.from);
            use_type_invariant(&mv.to);
        }
        let dx: i8 = mv.to.file() as i8 - mv.from.file() as i8;
        let dy: i8 = mv.to.rank() as i8 - mv.from.rank() as i8;
        let dir: i8 = color.pawn_dir();
        let promotion_rank: u8 = color.pawn_promotion_rank();
        if dx == 0 && dy == dir {
            if self.has_own_piece(mv.to, color) {
                return false;
            }
            if mv.to.rank() == promotion_rank {
                match mv.promotion {
                    Some(PieceKind::Queen) | Some(PieceKind::Rook) | Some(PieceKind::Bishop) | Some(
                        PieceKind::Knight,
                    ) => true,
                    _ => false,
                }
            } else {
                mv.promotion.is_none()
            }
        } else if dx == 0 && dy == 2 * dir && mv.from.rank() == color.pawn_start_rank() {
            if mv.promotion.is_some() {
                return false;
            }
            let middle = match offset(mv.from, 0, dir) {
                Some(m) => m,
                None => return false,
            };
            proof {
                lemma_sq_at(file(mv.from), rank(mv.from) + dir);
            }
            !self.has_own_piece(middle, color) && !self.has_own_piece(mv.to, color)
        } else if (dx == 1 || dx == -1) && dy == dir {
            if self.has_own_piece(mv.to, color) {
                return false;
            }
            if mv.to.rank() == promotion_rank {
                match mv.promotion {
                    Some(PieceKind::King) | Some(PieceKind::Pawn) => false,
                    _ => true,
                }
            } else {
                mv.promotion.is_none()
            }
        } else {
            false
        }
    }

    /// Whether `mv` is a king request of `color`.
    fn is_king_move_action(&self, mv: Move, color: Color) -> (r: bool)
        ensures
            r == king_request(self@.position, color, mv),
    {
        proof {
            use_type_invariant(&mv.from);
            use_type_invariant(&mv.to);
        }
        if mv.promotion.is_some() {
            return false;
        }
        let dx: i8 = mv.to.file() as i8 - mv.from.file() as i8;
        let dy: i8 = mv.to.rank() as i8 - mv.from.rank() as i8;
        if dy == 0 && (dx == 2 || dx == -2) {
            let home_rank: u8 = color.home_rank();
            let king_home = match Square::from_coords(4, home_rank) {
                Some(s) => s,
                None => return false,
            };
            if mv.from != king_home {
                return false;
            }
            let rights = self.position.castling_rights();
            let (kingside, queenside) = match color {
                Color::White => (rights.white_kingside, rights.white_queenside),
                Color::Black => (rights.black_kingside, rights.black_queenside),
            };
            return if dx == 2 {
                kingside && self.castle_path_clear_of_own_pieces(color, 5, 6)
            } else {
                queenside && self.castle_path_clear_of_own_pieces(color, 1, 3)
            };
        }
        let from_idx: u8 = mv.from.index();
        let own = self.position.occupied_by(color);
        let attacks = king_attacks(from_idx) & !own;
        let to_bit = 1u64 << mv.to.index();
        proof {
            lemma_test_bit(attacks, mv.to.idx() as u64);
        }
        attacks & to_bit != 0
    }

    /// Whether `mv` is a request the acting player may make.
    fn is_move_action(&self, mv: Move) -> (r: bool)
        ensures
            r == (turn_of(self@.status) matches Some(t) && is_move_request(self@.position, t, mv)),
    {
        proof {
            use_type_invariant(&mv.from);
            use_type_invariant(&mv.to);
        }
        let turn = match self.turn() {
            Some(t) => t,
            None => return false,
        };
        let piece = match self.piece_at(mv.from) {
            Some(p) => p,
            None => return false,
        };
        if piece.color != turn {
            return false;
        }
        match piece.kind {
            PieceKind::Pawn => return self.is_pawn_move_action(mv, piece.color),
            PieceKind::King => return self.is_king_move_action(mv, piece.color),
            _ => {},
        }
        if mv.promotion.is_some() {
            return false;
        }
        let ghost v = self@.position;
        let ghost f = mv.from.idx();
        let ghost t = mv.to.idx();
        let from_idx: u8 = mv.from.index();
        let own = self.position.occupied_by(piece.color);
        let attacks = match piece.kind {
            PieceKind::Knight => knight_attacks(from_idx) & !own,
            PieceKind::Bishop => bishop_attacks(from_idx, own),
            PieceKind::Rook => rook_attacks(from_idx, own),
            PieceKind::Queen => queen_attacks(from_idx, own),
            _ => 0,
        };
        let to_bit = 1u64 << mv.to.index();
        proof {
            lemma_test_bit(attacks, t as u64);
            lemma_rook_bridge(own, v, piece.color, f, t);
            lemma_bishop_bridge(own, v, piece.color, f, t);
        }
        attacks & to_bit != 0
    }

    /// A pawn request onto the last rank without a promotion piece becomes
    /// a queen promotion.
    fn add_pawn_queen_promotion(&self, requested: Move) -> (r: Move)
        ensures
            r == with_default_promotion(self@.position, requested),
    {
        proof {
            use_type_invariant(&requested.to);
        }
        if requested.promotion.is_none() {
            match self.piece_at(requested.from) {
                Some(piece) => {
                    if piece.kind == PieceKind::Pawn && requested.to.rank()
                        == piece.color.pawn_promotion_rank() {
                        return Move { promotion: Some(PieceKind::Queen), ..requested };
                    }
                },
                None => {},
            }
        }
        requested
    }

    /// Whether `mv` is an en passant capture by a pawn of `color`.
    fn is_en_passant_capture(&self, mv: Move, color: Color) -> (r: bool)
        ensures
            r == is_en_passant_capture(self@.position, mv, color),
    {
        proof {
            use_type_invariant(&mv.from);
            use_type_invariant(&mv.to);
        }
        let moving_piece = match self.piece_at(mv.from) {
            Some(p) => p,
            None => return false,
        };
        let from_file: u8 = mv.from.file();
        let to_file: u8 = mv.to.file();
        let file_gap: u8 = if from_file > to_file {
            from_file - to_file
        } else {
            to_file - from_file
        };
        let on_ep_square = match self.position.en_passant() {
            Some(ep) => ep == mv.to,
            None => false,
        };
        if moving_piece.kind != PieceKind::Pawn || file_gap != 1 || !on_ep_square {
            return false;
        }
        let capture_square = match offset(mv.to, 0, -color.pawn_dir()) {
            Some(s) => s,
            None => return false,
        };
        proof {
            lemma_sq_at(file(mv.to), rank(mv.to) - color.pawn_dir());
        }
        match self.piece_at(capture_square) {
            Some(p) => p.color == color.opposite() && p.kind == PieceKind::Pawn,
            None => false,
        }
    }

    /// The pawn move actually made for request `mv`.
    fn revise_pawn_move(&self, mv: Move, color: Color) -> (r: Option<Move>)
        ensures
            r == revise_pawn(self@.position, mv, color),
    {
        proof {
            use_type_invariant(&mv.from);
            use_type_invariant(&mv.to);
        }
        let dx: i8 = mv.to.file() as i8 - mv.from.file() as i8;
        let dy: i8 = mv.to.rank() as i8 - mv.from.rank() as i8;
        let dir: i8 = color.pawn_dir();
        if dx == 0 && dy == dir && self.piece_at(mv.to).is_none() {
            return valid_promotion(mv);
        }
        if dx == 0 && dy == 2 * dir && mv.from.rank() == color.pawn_start_rank() {
            let middle = match offset(mv.from, 0, dir) {
                Some(m) => m,
                None => return None,
            };
            proof {
                lemma_sq_at(file(mv.from), rank(mv.from) + dir);
            }
            let middle_empty = self.piece_at(middle).is_none();
            if middle_empty && self.piece_at(mv.to).is_none() {
                return Some(mv);
            }
            let to_enemy = match self.piece_at(mv.to) {
                Some(p) => p.color != color,
                None => false,
            };
            if middle_empty && to_enemy {
                return Some(Move { from: mv.from, to: middle, promotion: None });
            }
        }
        if (dx == 1 || dx == -1) && dy == dir {
            let to_enemy = match self.piece_at(mv.to) {
                Some(p) => p.color != color,
                None => false,
            };
            if to_enemy || self.is_en_passant_capture(mv, color) {
                return valid_promotion(mv);
            }
        }
        None
    }

    /// The knight move actually made for request `mv`.
    fn revise_knight_move(&self, mv: Move, color: Color) -> (r: Option<Move>)
        ensures
            r == revise_knight(self@.position, mv, color),
    {
        let fx: i8 = mv.to.file() as i8 - mv.from.file() as i8;
        let fy: i8 = mv.to.rank() as i8 - mv.from.rank() as i8;
        let dx: i8 = if fx < 0 {
            -fx
        } else {
            fx
        };
        let dy: i8 = if fy < 0 {
            -fy
        } else {
            fy
        };
        if ((dx == 1 && dy == 2) || (dx == 2 && dy == 1)) && !self.has_own_piece(mv.to, color) {
            Some(mv)
        } else {
            None
        }
    }

    /// The slider move actually made for request `mv`.
    #[verifier::rlimit(60)]
    fn revise_slider_move(&self, mv: Move, piece: Piece) -> (r: Option<Move>)
        ensures
            r == revise_slider(self@.position, mv, piece),
    {
        proof {
            use_type_invariant(&mv.from);
            use_type_invariant(&mv.to);
        }
        let ghost v = self@.position;
        let (df, dr) = match slider_direction_of(mv, piece.kind) {
            Some(d) => d,
            None => return None,
        };
        let dir_idx = match direction_index(df, dr) {
            Some(d) => d,
            None => return None,
        };
        let ghost d = dir_idx as int;
        proof {
            lemma_direction_unique(df as int, dr as int, d);
        }
        let from_idx: usize = mv.from.index() as usize;
        let to_idx: usize = mv.to.index() as usize;
        let ghost from = from_idx as int;
        let ghost t = to_idx as int;
        let to_bit = 1u64 << (to_idx as u64);
        let ray = ray_for(dir_idx, from_idx as u8);
        proof {
            lemma_test_bit(ray, to_idx as u64);
        }
        if ray & to_bit == 0 {
            return None;
        }
        let kt = Ghost(choose|k: int| #[trigger] ray_hit(from, d, k, t));
        let occupied = self.position.occupied();
        let blockers = ray & occupied;
        if blockers == 0 {
            proof {
                lemma_zero_iff_empty(blockers);
                if exists|k: int| #[trigger] first_occupied(v, from, d, k) {
                    let k = choose|k: int| #[trigger] first_occupied(v, from, d, k);
                    lemma_ray_point(from, d, k);
                    assert(ray_hit(from, d, k, ray_point(from, d, k)));
                    assert(bit(blockers, ray_point(from, d, k)));
                }
            }
            return Some(mv);
        }
        let blocker_idx = closest_blocker(blockers, dir_idx);
        let ghost kb = lemma_nearest_blocker(blockers, from, d);
        proof {
            assert forall|j: int| 1 <= j < kb implies v.board[#[trigger] ray_point(from, d, j)] is None by {
                lemma_ray_on_prefix(from, d, j, kb);
                lemma_ray_point(from, d, j);
                assert(ray_hit(from, d, j, ray_point(from, d, j)));
                assert(!bit(blockers, ray_point(from, d, j)));
            }
            assert(first_occupied(v, from, d, kb));
            lemma_slider_cases(v, mv, piece, df as int, dr as int, d, kb, kt@);
        }
        let reachable = ray_attacks_one_dir(from_idx, occupied, dir_idx);
        proof {
            lemma_test_bit(reachable, to_idx as u64);
            if kt@ < kb {
                assert forall|j: int| 1 <= j <= kt@ implies !#[trigger] bit(
                    occupied,
                    ray_point(from, d, j),
                ) by {
                    assert(v.board[ray_point(from, d, j)] is None);
                }
                assert(ray_hit(from, d, kt@, t) && ray_clear(occupied, from, d, kt@));
            }
            if slider_hit(occupied, from, d, t) {
                let k = choose|k: int| #[trigger] ray_hit(from, d, k, t) && ray_clear(occupied, from, d, k);
                lemma_ray_injective(from, d, k, kt@);
                if kb <= k {
                    assert(!bit(occupied, ray_point(from, d, kb)));
                }
                assert(kt@ < kb);
            }
            assert(bit(reachable, t) <==> kt@ < kb);
            assert(blocker_idx == ray_point(from, d, kb));
        }
        if reachable & to_bit != 0 {
            return Some(mv);
        }
        let blocker_sq = match Square::from_index(blocker_idx as u8) {
            Some(s) => s,
            None => return None,
        };
        let blocker_piece = match self.piece_at(blocker_sq) {
            Some(p) => p,
            None => return None,
        };
        if blocker_piece.color == piece.color {
            return None;
        }
        proof {
            if to_idx == blocker_idx {
                lemma_ray_injective(from, d, kt@, kb);
            }
        }
        if to_idx == blocker_idx {
            Some(mv)
        } else {
            Some(Move { to: blocker_sq, ..mv })
        }
    }

    /// The castling move actually made for request `mv`.
    #[verifier::loop_isolation(false)]
    fn revise_castling_move(&self, mv: Move, color: Color) -> (r: Option<Move>)
        ensures
            r == revise_castling(self@.position, mv, color),
    {
        proof {
            use_type_invariant(&mv.to);
        }
        let home_rank: u8 = color.home_rank();
        let king_home = match Square::from_coords(4, home_rank) {
            Some(s) => s,
            None => return None,
        };
        if mv.from != king_home {
            return None;
        }
        let kingside = mv.to.file() == 6;
        let queenside = mv.to.file() == 2;
        if !kingside && !queenside {
            return None;
        }
        let rights = self.position.castling_rights();
        let allowed = match (color, kingside) {
            (Color::White, true) => rights.white_kingside,
            (Color::White, false) => rights.white_queenside,
            (Color::Black, true) => rights.black_kingside,
            (Color::Black, false) => rights.black_queenside,
        };
        if !allowed {
            return None;
        }
        let rook_file: u8 = if kingside {
            7
        } else {
            0
        };
        let rook_square = match Square::from_coords(rook_file, home_rank) {
            Some(s) => s,
            None => return None,
        };
        match self.piece_at(rook_square) {
            Some(p) => {
                if p.color != color || p.kind != PieceKind::Rook {
                    return None;
                }
            },
            None => return None,
        }
        let (lo, hi): (u8, u8) = if kingside {
            (5, 6)
        } else {
            (1, 3)
        };
        let mut file: u8 = lo;
        while file <= hi
            invariant
                lo <= file <= hi + 1,
                hi <= 6,
                home_rank == color.home_rank(),
                forall|f: int| lo <= f < file ==> #[trigger] self@.position.board[home_rank * 8 + f] is None,
            decreases hi + 1 - file,
        {
            match Square::from_coords(file, home_rank) {
                Some(sq) => {
                    if self.piece_at(sq).is_some() {
                        return None;
                    }
                },
                None => {},
            }
            file += 1;
        }
        Some(mv)
    }

    /// The king move actually made for request `mv`.
    fn revise_king_move(&self, mv: Move, color: Color) -> (r: Option<Move>)
        ensures
            r == revise_king(self@.position, mv, color),
    {
        let fx: i8 = mv.to.file() as i8 - mv.from.file() as i8;
        let fy: i8 = mv.to.rank() as i8 - mv.from.rank() as i8;
        let dx: i8 = if fx < 0 {
            -fx
        } else {
            fx
        };
        let dy: i8 = if fy < 0 {
            -fy
        } else {
            fy
        };
        if dx == 2 && dy == 0 {
            return self.revise_castling_move(mv, color);
        }
        if dx <= 1 && dy <= 1 && !self.has_own_piece(mv.to, color) {
            Some(mv)
        } else {
            None
        }
    }

    /// The move actually made for request `requested`, or `None` if it is
    /// illegal on the true board.
    fn revise_move(&self, requested: Move) -> (r: Option<Move>)
        ensures
            r == revise_move(self@.position, requested),
    {
        let moving_piece = match self.piece_at(requested.from) {
            Some(p) => p,
            None => return None,
        };
        match moving_piece.kind {
            PieceKind::Pawn => self.revise_pawn_move(requested, moving_piece.color),
            PieceKind::Knight => self.revise_knight_move(requested, moving_piece.color),
            PieceKind::Bishop | PieceKind::Rook | PieceKind::Queen => self.revise_slider_move(
                requested,
                moving_piece,
            ),
            PieceKind::King => self.revise_king_move(requested, moving_piece.color),
        }
    }

    /// What the taken move `mv` of `moving_piece` captures.
    fn capture_for_move(&self, mv: Move, moving_piece: Piece) -> (r: Option<Capture>)
        ensures
            r == capture_for_move(self@.position, mv, moving_piece),
    {
        proof {
            use_type_invariant(&mv.to);
        }
        if self.is_en_passant_capture(mv, moving_piece.color) {
            let capture_square = offset(mv.to, 0, -moving_piece.color.pawn_dir())?;
            proof {
                lemma_sq_at(file(mv.to), rank(mv.to) - moving_piece.color.pawn_dir());
            }
            let piece = self.piece_at(capture_square)?;
            return Some(Capture { square: capture_square, piece });
        }
        let piece = self.piece_at(mv.to)?;
        Some(Capture { square: mv.to, piece })
    }

    /// Plays the taken move `mv` of `moving_piece`, capturing `capture`.
    fn apply_taken_move(&mut self, mv: Move, moving_piece: Piece, capture: Option<Capture>)
        ensures
            final(self)@ == (GameView {
                position: apply_taken_move(old(self)@.position, mv, moving_piece, capture),
                ..old(self)@
            }),
    {
        proof {
            use_type_invariant(&mv.from);
            use_type_invariant(&mv.to);
        }
        let ghost v0 = self@.position;
        match capture {
            Some(c) => {
                self.position.remove_piece(c.square);
                if c.piece.kind == PieceKind::Rook {
                    self.position.disable_rook_castling_right(c.piece.color, c.square);
                }
            },
            None => {},
        }
        assert(self@.position == remove_captured(v0, capture));
        let ghost v1 = self@.position;
        self.position.remove_piece(mv.from);
        let placed_kind = match mv.promotion {
            Some(k) => k,
            None => moving_piece.kind,
        };
        let placed_piece = Piece { kind: placed_kind, ..moving_piece };
        self.position.set_piece(mv.to, Some(placed_piece));
        assert(self@.position == relocate(v1, mv, moving_piece));
        let ghost v2 = self@.position;
        if is_castling_move(mv, moving_piece) {
            let rank: u8 = moving_piece.color.home_rank();
            let (rook_from_file, rook_to_file): (u8, u8) = if mv.to.file() == 6 {
                (7, 5)
            } else {
                (0, 3)
            };
            let rook_from = match Square::from_coords(rook_from_file, rank) {
                Some(s) => s,
                None => return,
            };
            let rook_to = match Square::from_coords(rook_to_file, rank) {
                Some(s) => s,
                None => return,
            };
            let rook = self.position.remove_piece(rook_from);
            self.position.set_piece(rook_to, rook);
        }
        assert(self@.position == move_castling_rook(v2, mv, moving_piece));
        let ghost v3 = self@.position;
        if moving_piece.kind == PieceKind::King {
            self.position.disable_castling_for_color(moving_piece.color);
        }
        if moving_piece.kind == PieceKind::Rook {
            self.position.disable_rook_castling_right(moving_piece.color, mv.from);
        }
        assert(self@.position == update_mover_rights(v3, mv, moving_piece));
        let from_rank: u8 = mv.from.rank();
        let to_rank: u8 = mv.to.rank();
        let rank_gap: u8 = if from_rank > to_rank {
            from_rank - to_rank
        } else {
            to_rank - from_rank
        };
        let en_passant = if moving_piece.kind == PieceKind::Pawn && mv.from.file() == mv.to.file()
            && rank_gap == 2 {
            offset(mv.from, 0, moving_piece.color.pawn_dir())
        } else {
            None
        };
        proof {
            if en_passant is Some {
                lemma_sq_at(file(mv.from), rank(mv.from) + moving_piece.color.pawn_dir());
            }
        }
        assert(en_passant == en_passant_after(mv, moving_piece));
        let captured = match capture {
            Some(c) => Some(c.piece),
            None => None,
        };
        self.position.finish_move(moving_piece, captured, en_passant);
    }

    /// Applies a requested move or pass.
    pub fn apply_move(&mut self, requested: Option<Move>) -> (r: Result<MoveOutcome, Error>)
        ensures
            match play(old(self)@, requested) {
                Err(e) => r == Err::<MoveOutcome, Error>(e) && final(self)@ == old(self)@,
                Ok(t) => r == Ok::<MoveOutcome, Error>(t.outcome) && turn_completed(
                    old(self)@,
                    final(self)@,
                    turn_of(old(self)@.status)->0,
                    t,
                ),
            },
    {
        let ghost g = self@;
        let color = match self.turn() {
            Some(c) => c,
            None => return Err(Error::GameOver),
        };
        let fen_before_move = self.to_fen();
        let requested_move = match requested {
            None => {
                self.complete_turn_without_move(color);
                let outcome = MoveOutcome {
                    requested: None,
                    taken: None,
                    status: MoveStatus::Pass,
                    capture: None,
                };
                self.record_history(color, outcome, fen_before_move);
                return Ok(outcome);
            },
            Some(m) => m,
        };
        let requested_move = self.add_pawn_queen_promotion(requested_move);
        if !self.is_move_action(requested_move) {
            return Err(Error::InvalidMove);
        }
        let taken_move = match self.revise_move(requested_move) {
            Some(t) => t,
            None => {
                self.complete_turn_without_move(color);
                let outcome = MoveOutcome {
                    requested,
                    taken: None,
                    status: MoveStatus::Illegal,
                    capture: None,
                };
                self.record_history(color, outcome, fen_before_move);
                return Ok(outcome);
            },
        };
        proof {
            use_type_invariant(&requested_move.from);
            use_type_invariant(&requested_move.to);
            lemma_revise_keeps_origin(g.position, requested_move);
        }
        let moving_piece = match self.piece_at(taken_move.from) {
            Some(p) => p,
            None => return Err(Error::InvalidMove),
        };
        let capture = self.capture_for_move(taken_move, moving_piece);
        self.apply_taken_move(taken_move, moving_piece, capture);
        let capture_square = match capture {
            Some(c) => Some(c.square),
            None => None,
        };
        self.pending_capture[color.opposite().index()] = capture_square;
        let king_captured = match capture {
            Some(c) => c.piece.kind == PieceKind::King,
            None => false,
        };
        self.status = if king_captured {
            GameStatus::Won(GameResult { winner: color, reason: WinReason::KingCapture })
        } else {
            self.status_after_non_winning_turn()
        };
        let outcome = MoveOutcome {
            requested,
            taken: Some(taken_move),
            status: if taken_move == requested_move {
                MoveStatus::Taken
            } else {
                MoveStatus::Revised
            },
            capture,
        };
        self.record_history(color, outcome, fen_before_move);
        Ok(outcome)
    }

    fn ensure_ongoing(&self) -> (r: Result<(), Error>)
        ensures
            r is Ok <==> turn_of(self@.status) is Some,
            r is Err ==> r == Err::<(), Error>(Error::GameOver),
    {
        match self.status {
            GameStatus::Ongoing { .. } => Ok(()),
            GameStatus::Won(_) | GameStatus::Draw { .. } => Err(Error::GameOver),
        }
    }

    fn status_after_non_winning_turn(&self) -> (r: GameStatus)
        ensures
            r == status_after_turn(self@.position, self@.config),
    {
        status_after(&self.position, &self.config)
    }

    fn update_status_after_turn(&mut self)
        ensures
            final(self)@ == (GameView {
                status: status_after_turn(old(self)@.position, old(self)@.config),
                ..old(self)@
            }),
    {
        self.status = self.status_after_non_winning_turn();
    }

    fn complete_turn_without_move(&mut self, color: Color)
        ensures
            final(self)@ == (GameView {
                position: null_move_view(old(self)@.position),
                status: status_after_turn(null_move_view(old(self)@.position), old(self)@.config),
                pending_capture: old(self)@.pending_capture.update(
                    color.opposite().index() as int,
                    None,
                ),
                ..old(self)@
            }),
    {
        self.position.null_move();
        self.update_status_after_turn();
        self.pending_capture[color.opposite().index()] = None;
    }

    fn record_history(&mut self, color: Color, move_outcome: MoveOutcome, fen_before_move: String)
        ensures
            final(self)@.position == old(self)@.position,
            final(self)@.status == old(self)@.status,
            final(self)@.config == old(self)@.config,
            final(self)@.pending_capture == old(self)@.pending_capture,
            final(self)@.pending_sense is None,
            final(self)@.history.len() == old(self)@.history.len() + 1,
            final(self)@.history.take(old(self)@.history.len() as int) == old(self)@.history,
            final(self)@.history.last().color == color,
            final(self)@.history.last().move_outcome == move_outcome,
            final(self)@.history.last().fen_before_move == fen_before_move,
            final(self)@.history.last().fen_after_move@ == fen_text(old(self)@.position),
            match old(self)@.pending_sense {
                Some(s) => final(self)@.history.last().sense == s,
                None => is_pass_sense(final(self)@.history.last().sense),
            },
    {
        let sense = match self.pending_sense.take() {
            Some(s) => s,
            None => SenseResult { center: None, squares: Vec::new() },
        };
        let fen_after_move = self.to_fen();
        self.history.push(
            HistoryEntry { color, sense, move_outcome, fen_before_move, fen_after_move },
        );
        assert(self.history@.take(old(self)@.history.len() as int) =~= old(self)@.history);
    }
}

/// A copy of a sense result.
fn copy_sense(s: &SenseResult) -> (r: SenseResult)
    ensures
        r.center == s.center,
        r.squares@ == s.squares@,
{
    let squares = s.squares.clone();
    assert(squares@ =~= s.squares@);
    SenseResult { center: s.center, squares }
}

/// Pushing `x` adds exactly `x` to what a sequence contains.
proof fn lemma_push_contains<T>(s: Seq<T>, x: T, m: T)
    ensures
        s.push(x).contains(m) <==> (s.contains(m) || m == x),
{
    if s.contains(m) {
        let i = choose|i: int| 0 <= i < s.len() && s[i] == m;
        assert(s.push(x)[i] == m);
    }
    if m == x {
        assert(s.push(x)[s.len() as int] == x);
    }
    if s.push(x).contains(m) {
        let i = choose|i: int| 0 <= i < s.push(x).len() && s.push(x)[i] == m;
        if i < s.len() {
            assert(s[i] == m);
        }
    }
}

/// The castling requests of `color`'s king on `from`, kingside first.
pub open spec fn castling_requests(v: PositionView, color: Color, from: Square) -> Seq<Move> {
    let kingside = Move { from, to: home_square(color, 6), promotion: None };
    let queenside = Move { from, to: home_square(color, 2), promotion: None };
    if from != home_square(color, 4) {
        Seq::empty()
    } else {
        (if kingside_right(v.rights, color) && castle_path_free_of_own(v, color, 5, 6) {
            seq![kingside]
        } else {
            Seq::empty()
        }) + (if queenside_right(v.rights, color) && castle_path_free_of_own(v, color, 1, 3) {
            seq![queenside]
        } else {
            Seq::empty()
        })
    }
}

/// The moves appended to `old_moves` to give `new_moves`.
pub open spec fn appended(old_moves: Seq<Move>, new_moves: Seq<Move>) -> Seq<Move> {
    new_moves.skip(old_moves.len() as int)
}

/// `new_moves` is `old_moves` followed by the valid moves satisfying `p`,
/// each once.
pub open spec fn grew_by(old_moves: Seq<Move>, new_moves: Seq<Move>, p: spec_fn(Move) -> bool) -> bool {
    &&& old_moves.len() <= new_moves.len()
    &&& new_moves.take(old_moves.len() as int) == old_moves
    &&& appended(old_moves, new_moves).no_duplicates()
    &&& all_wf(appended(old_moves, new_moves))
    &&& forall|m: Move| m.wf() ==> (#[trigger] appended(old_moves, new_moves).contains(m) <==> p(m))
    &&& all_wf(old_moves) ==> all_wf(new_moves)
    &&& forall|m: Move| m.wf() ==> (#[trigger] new_moves.contains(m) <==> (old_moves.contains(m) || p(m)))
}

/// The first four clauses of [`grew_by`] give the rest.
proof fn lemma_grew_by_intro(s0: Seq<Move>, s1: Seq<Move>, p: spec_fn(Move) -> bool)
    requires
        s0.len() <= s1.len(),
        s1.take(s0.len() as int) == s0,
        appended(s0, s1).no_duplicates(),
        all_wf(appended(s0, s1)),
        forall|m: Move| m.wf() ==> (#[trigger] appended(s0, s1).contains(m) <==> p(m)),
    ensures
        grew_by(s0, s1, p),
{
    let a = appended(s0, s1);
    assert(s1 =~= s0 + a);
    assert forall|m: Move| m.wf() implies (#[trigger] s1.contains(m) <==> (s0.contains(m) || p(m))) by {
        if s1.contains(m) {
            let i = choose|i: int| 0 <= i < s1.len() && s1[i] == m;
            if i < s0.len() {
                assert(s0[i] == m);
            } else {
                assert(a[i - s0.len()] == m);
            }
        }
        if s0.contains(m) {
            let i = choose|i: int| 0 <= i < s0.len() && s0[i] == m;
            assert(s1[i] == m);
        }
        if a.contains(m) {
            let i = choose|i: int| 0 <= i < a.len() && a[i] == m;
            assert(s1[i + s0.len()] == m);
        }
    }
    if all_wf(s0) {
        assert forall|i: int| 0 <= i < s1.len() implies (#[trigger] s1[i]).wf() by {
            if i < s0.len() {
                assert(s1[i] == s0[i]);
            } else {
                assert(s1[i] == a[i - s0.len()]);
            }
        }
    }
}

/// Nothing appended.
proof fn lemma_grew_by_nothing(s: Seq<Move>, p: spec_fn(Move) -> bool)
    requires
        forall|m: Move| m.wf() ==> !p(m),
    ensures
        grew_by(s, s, p),
{
    assert(s.take(s.len() as int) =~= s);
    assert(appended(s, s) =~= Seq::<Move>::empty());
    lemma_grew_by_intro(s, s, p);
}

/// Two appends of disjoint move sets make one.
proof fn lemma_grew_by_chain(
    s0: Seq<Move>,
    s1: Seq<Move>,
    s2: Seq<Move>,
    p1: spec_fn(Move) -> bool,
    p2: spec_fn(Move) -> bool,
    q: spec_fn(Move) -> bool,
)
    requires
        grew_by(s0, s1, p1),
        grew_by(s1, s2, p2),
        forall|m: Move| m.wf() ==> !(p1(m) && p2(m)),
        forall|m: Move| m.wf() ==> (q(m) <==> (p1(m) || p2(m))),
    ensures
        grew_by(s0, s2, q),
{
    let a1 = appended(s0, s1);
    let a2 = appended(s1, s2);
    let a = appended(s0, s2);
    assert(s1 =~= s0 + a1);
    assert(s2 =~= s1 + a2);
    assert(a =~= a1 + a2);
    assert(s2.take(s0.len() as int) =~= s0);
    assert forall|i: int, j: int| 0 <= i < a.len() && 0 <= j < a.len() && i != j implies a[i] != a[j] by {
        if i < a1.len() && j < a1.len() {
            assert(a[i] == a1[i] && a[j] == a1[j]);
        } else if i >= a1.len() && j >= a1.len() {
            assert(a[i] == a2[i - a1.len()] && a[j] == a2[j - a1.len()]);
        } else if i < a1.len() {
            let m = a1[i];
            assert(a[j] == a2[j - a1.len()]);
            assert(a1.contains(m));
            if a[i] == a[j] {
                assert(a2.contains(m));
                assert(m.wf());
            }
        } else {
            let m = a1[j];
            assert(a[i] == a2[i - a1.len()]);
            assert(a1.contains(m));
            if a[i] == a[j] {
                assert(a2.contains(m));
                assert(m.wf());
            }
        }
    }
    assert forall|i: int| 0 <= i < a.len() implies (#[trigger] a[i]).wf() by {
        if i < a1.len() {
            assert(a[i] == a1[i]);
        } else {
            assert(a[i] == a2[i - a1.len()]);
        }
    }
    assert forall|m: Move| m.wf() implies (#[trigger] a.contains(m) <==> q(m)) by {
        if a.contains(m) {
            let i = choose|i: int| 0 <= i < a.len() && a[i] == m;
            if i < a1.len() {
                assert(a1[i] == m);
            } else {
                assert(a2[i - a1.len()] == m);
            }
        }
        if a1.contains(m) {
            let i = choose|i: int| 0 <= i < a1.len() && a1[i] == m;
            assert(a[i] == m);
        }
        if a2.contains(m) {
            let i = choose|i: int| 0 <= i < a2.len() && a2[i] == m;
            assert(a[i + a1.len()] == m);
        }
    }
    lemma_grew_by_intro(s0, s2, q);
}

/// The predicate of [`grew_by`] may be replaced by an equivalent one.
proof fn lemma_grew_by_same(s0: Seq<Move>, s1: Seq<Move>, p: spec_fn(Move) -> bool, q: spec_fn(Move) -> bool)
    requires
        grew_by(s0, s1, p),
        forall|m: Move| m.wf() ==> (p(m) <==> q(m)),
    ensures
        grew_by(s0, s1, q),
{
    lemma_grew_by_intro(s0, s1, q);
}

/// Appends a move, keeping track of what the list contains.
fn push_move(moves: &mut Vec<Move>, mv: Move)
    requires
        mv.wf(),
    ensures
        final(moves)@ == old(moves)@.push(mv),
        grew_by(old(moves)@, final(moves)@, |m: Move| m == mv),
{
    let ghost before = moves@;
    moves.push(mv);
    proof {
        let a = appended(before, moves@);
        assert(a =~= seq![mv]);
        assert(moves@.take(before.len() as int) =~= before);
        assert forall|m: Move| m.wf() implies (#[trigger] a.contains(m) <==> m == mv) by {
            if a.contains(m) {
                let i = choose|i: int| 0 <= i < a.len() && a[i] == m;
            }
            if m == mv {
                assert(a[0] == m);
            }
        }
        lemma_grew_by_intro(before, moves@, |m: Move| m == mv);
    }
}

/// Appends a move from `from` to every square set in `bb`, lowest first.
fn push_targets_from_bitboard(from: Square, bb: u64, moves: &mut Vec<Move>)
    ensures
        grew_by(
            old(moves)@,
            final(moves)@,
            |m: Move| m.from == from && m.promotion is None && bit(bb, m.to.idx()),
        ),
{
    proof {
        use_type_invariant(&from);
    }
    let ghost orig = bb;
    let ghost start = moves@;
    let mut bb = bb;
    proof {
        lemma_grew_by_nothing(
            start,
            |m: Move| m.from == from && m.promotion is None && bit(orig, m.to.idx()) && !bit(bb, m.to.idx()),
        );
    }
    while bb != 0
        invariant
            from.wf(),
            forall|i: int| #[trigger] bit(bb, i) ==> bit(orig, i),
            grew_by(
                start,
                moves@,
                |m: Move| m.from == from && m.promotion is None && bit(orig, m.to.idx()) && !bit(bb, m.to.idx()),
            ),
        decreases bb,
    {
        proof {
            lemma_lowest_bit(bb);
            lemma_clear_lowest(bb);
        }
        let to_idx: u8 = bb.trailing_zeros() as u8;
        let ghost old_bb = bb;
        bb = bb & (bb - 1);
        assert(bb < old_bb) by {
            let p = (old_bb - 1) as u64;
            assert(old_bb & p <= p) by (bit_vector);
        }
        match Square::from_index(to_idx) {
            Some(to) => {
                let ghost before = moves@;
                let ghost mv = Move { from, to, promotion: None };
                push_move(moves, Move { from, to, promotion: None });
                proof {
                    let p_old = |m: Move|
                        m.from == from && m.promotion is None && bit(orig, m.to.idx()) && !bit(old_bb, m.to.idx());
                    let p_new = |m: Move|
                        m.from == from && m.promotion is None && bit(orig, m.to.idx()) && !bit(bb, m.to.idx());
                    assert forall|m: Move| m.wf() implies !(p_old(m) && m == mv) && (p_new(m) <==> (p_old(m)
                        || m == mv)) by {
                        if m.to.idx() == to_idx {
                            Square::lemma_eq_idx(m.to, to);
                        }
                    }
                    lemma_grew_by_chain(start, before, moves@, p_old, |m: Move| m == mv, p_new);
                }
            },
            None => {},
        }
    }
    proof {
        lemma_zero_iff_empty(bb);
    }
}

/// The square `(df, dr)` away from `square`, if it is on the board.
fn offset(square: Square, df: i8, dr: i8) -> (r: Option<Square>)
    requires
        -16 <= df <= 16,
        -16 <= dr <= 16,
    ensures
        r is Some <==> on_board(file(square) + df, rank(square) + dr),
        r matches Some(s) ==> s == Square::at(sq_at(file(square) + df, rank(square) + dr)),
{
    let file: i8 = square.file() as i8 + df;
    let rank: i8 = square.rank() as i8 + dr;
    if 0 <= file && file <= 7 && 0 <= rank && rank <= 7 {
        Square::from_coords(file as u8, rank as u8)
    } else {
        None
    }
}

/// Appends the push onto `to`, as the four promotions on the last rank.
fn add_promotion_moves(from: Square, to: Square, promotion_rank: u8, moves: &mut Vec<Move>)
    ensures
        grew_by(
            old(moves)@,
            final(moves)@,
            |m: Move|
                m.from == from && m.to == to && if rank(to) == promotion_rank {
                    (m.promotion matches Some(k) && is_promotion_kind(k))
                } else {
                    m.promotion is None
                },
        ),
{
    proof {
        use_type_invariant(&from);
        use_type_invariant(&to);
    }
    let ghost start = moves@;
    let ghost q = Move { from, to, promotion: Some(PieceKind::Queen) };
    let ghost r = Move { from, to, promotion: Some(PieceKind::Rook) };
    let ghost b = Move { from, to, promotion: Some(PieceKind::Bishop) };
    let ghost n = Move { from, to, promotion: Some(PieceKind::Knight) };
    let ghost plain = Move { from, to, promotion: None };
    if to.rank() == promotion_rank {
        push_move(moves, Move { from, to, promotion: Some(PieceKind::Queen) });
        push_move(moves, Move { from, to, promotion: Some(PieceKind::Rook) });
        push_move(moves, Move { from, to, promotion: Some(PieceKind::Bishop) });
        push_move(moves, Move { from, to, promotion: Some(PieceKind::Knight) });
        proof {
            assert(appended(start, moves@) =~= seq![q, r, b, n]);
        }
    } else {
        push_move(moves, Move { from, to, promotion: None });
        proof {
            assert(appended(start, moves@) =~= seq![plain]);
        }
    }
    proof {
        let a = appended(start, moves@);
        let p = |m: Move|
            m.from == from && m.to == to && if rank(to) == promotion_rank {
                (m.promotion matches Some(k) && is_promotion_kind(k))
            } else {
                m.promotion is None
            };
        assert(moves@.take(start.len() as int) =~= start);
        assert forall|m: Move| m.wf() implies (#[trigger] a.contains(m) <==> p(m)) by {
            if a.contains(m) {
                let i = choose|i: int| 0 <= i < a.len() && a[i] == m;
            }
            if p(m) {
                if rank(to) == promotion_rank {
                    if m == q {
                        assert(a[0] == m);
                    } else if m == r {
                        assert(a[1] == m);
                    } else if m == b {
                        assert(a[2] == m);
                    } else {
                        assert(m == n);
                        assert(a[3] == m);
                    }
                } else {
                    assert(m == plain);
                    assert(a[0] == m);
                }
            }
        }
        lemma_grew_by_intro(start, moves@, p);
    }
}

/// Appends the diagonal step onto `to`, plus the four promotions on the last rank.
fn add_pawn_capture_moves(from: Square, to: Square, promotion_rank: u8, moves: &mut Vec<Move>)
    ensures
        grew_by(
            old(moves)@,
            final(moves)@,
            |m: Move|
                m.from == from && m.to == to && (m.promotion is None || (rank(to) == promotion_rank
                    && (m.promotion matches Some(k) && is_promotion_kind(k)))),
        ),
{
    proof {
        use_type_invariant(&from);
        use_type_invariant(&to);
    }
    let ghost start = moves@;
    let ghost q = Move { from, to, promotion: Some(PieceKind::Queen) };
    let ghost r = Move { from, to, promotion: Some(PieceKind::Rook) };
    let ghost b = Move { from, to, promotion: Some(PieceKind::Bishop) };
    let ghost n = Move { from, to, promotion: Some(PieceKind::Knight) };
    let ghost plain = Move { from, to, promotion: None };
    push_move(moves, Move { from, to, promotion: None });
    if to.rank() == promotion_rank {
        push_move(moves, Move { from, to, promotion: Some(PieceKind::Queen) });
        push_move(moves, Move { from, to, promotion: Some(PieceKind::Rook) });
        push_move(moves, Move { from, to, promotion: Some(PieceKind::Bishop) });
        push_move(moves, Move { from, to, promotion: Some(PieceKind::Knight) });
        proof {
            assert(appended(start, moves@) =~= seq![plain, q, r, b, n]);
        }
    } else {
        proof {
            assert(appended(start, moves@) =~= seq![plain]);
        }
    }
    proof {
        let a = appended(start, moves@);
        let p = |m: Move|
            m.from == from && m.to == to && (m.promotion is None || (rank(to) == promotion_rank
                && (m.promotion matches Some(k) && is_promotion_kind(k))));
        assert(moves@.take(start.len() as int) =~= start);
        assert forall|m: Move| m.wf() implies (#[trigger] a.contains(m) <==> p(m)) by {
            if a.contains(m) {
                let i = choose|i: int| 0 <= i < a.len() && a[i] == m;
            }
            if p(m) {
                if m == plain {
                    assert(a[0] == m);
                } else if m == q {
                    assert(a[1] == m);
                } else if m == r {
                    assert(a[2] == m);
                } else if m == b {
                    assert(a[3] == m);
                } else {
                    assert(m == n);
                    assert(a[4] == m);
                }
            }
        }
        lemma_grew_by_intro(start, moves@, p);
    }
}

/// Sort rank of a promotion piece.
fn piece_sort_key(piece: PieceKind) -> (r: u32)
    ensures
        r == promotion_key(Some(piece)),
{
    match piece {
        PieceKind::Queen => 1,
        PieceKind::Rook => 2,
        PieceKind::Bishop => 3,
        PieceKind::Knight => 4,
        PieceKind::King => 5,
        PieceKind::Pawn => 6,
    }
}

/// Sort key of a move: origin, then destination, then promotion piece.
fn move_sort_key(mv: &Move) -> (r: u32)
    ensures
        r == move_key(*mv),
{
    proof {
        use_type_invariant(&mv.from);
        use_type_invariant(&mv.to);
    }
    let promotion: u32 = match mv.promotion {
        Some(p) => piece_sort_key(p),
        None => 0,
    };
    (mv.from.index() as u32) * 512 + (mv.to.index() as u32) * 8 + promotion
}

/// The moves of `moves` in move order, each once.
fn sort_and_dedup(moves: Vec<Move>) -> (r: Vec<Move>)
    requires
        all_wf(moves@),
    ensures
        sorted_moves(r@),
        all_wf(r@),
        forall|m: Move| m.wf() ==> (#[trigger] r@.contains(m) <==> moves@.contains(m)),
{
    let mut sorted: Vec<Move> = Vec::new();
    let mut i: usize = 0;
    while i < moves.len()
        invariant
            i <= moves@.len(),
            all_wf(moves@),
            all_wf(sorted@),
            sorted_moves(sorted@),
            forall|m: Move|
                m.wf() ==> (#[trigger] sorted@.contains(m) <==> moves@.take(i as int).contains(m)),
        decreases moves@.len() - i,
    {
        let mv = moves[i];
        let key = move_sort_key(&mv);
        let mut pos: usize = 0;
        while pos < sorted.len() && move_sort_key(&sorted[pos]) < key
            invariant
                pos <= sorted@.len(),
                key == move_key(mv),
                forall|j: int| 0 <= j < pos ==> move_key(#[trigger] sorted@[j]) < key,
            decreases sorted@.len() - pos,
        {
            pos += 1;
        }
        let ghost before = sorted@;
        assert(moves@.take(i + 1) =~= moves@.take(i as int).push(mv));
        if pos < sorted.len() && move_sort_key(&sorted[pos]) == key {
            proof {
                lemma_move_key_injective(sorted@[pos as int], mv);
                assert forall|m: Move| m.wf() implies (#[trigger] sorted@.contains(m)
                    <==> moves@.take(i + 1).contains(m)) by {
                    lemma_push_contains(moves@.take(i as int), mv, m);
                }
            }
        } else {
            sorted.insert(pos, mv);
            proof {
                assert forall|a: int, b: int| 0 <= a < b < sorted@.len() implies move_key(
                    #[trigger] sorted@[a],
                ) < move_key(#[trigger] sorted@[b]) by {
                    if b < pos {
                    } else if a < pos && b == pos {
                    } else if a < pos {
                        assert(sorted@[b] == before[b - 1]);
                        assert(move_key(before[a]) < move_key(before[b - 1]));
                    } else if a == pos {
                        assert(sorted@[b] == before[b - 1]);
                        if pos < before.len() {
                            assert(move_key(before[pos as int]) > key);
                            if b - 1 > pos {
                                assert(move_key(before[pos as int]) < move_key(before[b - 1]));
                            }
                        }
                    } else {
                        assert(sorted@[a] == before[a - 1]);
                        assert(sorted@[b] == before[b - 1]);
                    }
                }
                assert forall|m: Move| m.wf() implies (#[trigger] sorted@.contains(m)
                    <==> moves@.take(i + 1).contains(m)) by {
                    lemma_push_contains(moves@.take(i as int), mv, m);
                    if before.contains(m) {
                        let j = choose|j: int| 0 <= j < before.len() && before[j] == m;
                        if j < pos {
                            assert(sorted@[j] == m);
                        } else {
                            assert(sorted@[j + 1] == m);
                        }
                    }
                    if m == mv {
                        assert(sorted@[pos as int] == m);
                    }
                    if sorted@.contains(m) {
                        let j = choose|j: int| 0 <= j < sorted@.len() && sorted@[j] == m;
                        if j < pos {
                            assert(before[j] == m);
                        } else if j > pos {
                            assert(before[j - 1] == m);
                        }
                    }
                }
                assert forall|j: int| 0 <= j < sorted@.len() implies (#[trigger] sorted@[j]).wf() by {
                    if j < pos {
                    } else if j > pos {
                        assert(sorted@[j] == before[j - 1]);
                    }
                }
            }
        }
        i += 1;
    }
    assert(moves@.take(moves@.len() as int) =~= moves@);
    sorted
}

/// A revised move keeps the origin of the request.
pub(crate) proof fn lemma_revise_keeps_origin(v: PositionView, m: Move)
    requires
        m.wf(),
    ensures
        revise_move(v, m) matches Some(t) ==> t.from == m.from && t.wf() && v.board[t.from.idx()] is Some,
{
    if let Some(p) = v.board[m.from.idx()] {
        if p.kind == PieceKind::Pawn {
            let dir = p.color.pawn_dir() as int;
            if dx(m) == 0 && dy(m) == 2 * dir && rank(m.from) == p.color.pawn_start_rank() {
                assert(0 <= m.from.idx() + 8 * dir < 64);
            }
        }
        if p.kind == PieceKind::Queen || p.kind == PieceKind::Rook || p.kind == PieceKind::Bishop {
            if let Some((df, dr)) = slider_direction(m, p.kind) {
                let d = direction_of(df, dr);
                if exists|k: int| #[trigger] first_occupied(v, m.from.idx(), d, k) {
                    let kb = choose|k: int| #[trigger] first_occupied(v, m.from.idx(), d, k);
                    if 0 <= d < 8 {
                        lemma_ray_point(m.from.idx(), d, kb);
                    }
                }
            }
        }
    }
}

/// A requested promotion to a king or a pawn makes the move illegal.
fn valid_promotion(mv: Move) -> (r: Option<Move>)
    ensures
        r == crate::rules::valid_promotion(mv),
{
    match mv.promotion {
        Some(PieceKind::King) | Some(PieceKind::Pawn) => None,
        _ => Some(mv),
    }
}

/// The unit direction of a slider request, if the piece moves that way.
fn slider_direction_of(mv: Move, kind: PieceKind) -> (r: Option<(i8, i8)>)
    ensures
        match r {
            Some((a, b)) => slider_direction(mv, kind) == Some((a as int, b as int)),
            None => slider_direction(mv, kind) is None,
        },
{
    let dx: i8 = mv.to.file() as i8 - mv.from.file() as i8;
    let dy: i8 = mv.to.rank() as i8 - mv.from.rank() as i8;
    let ax: i8 = if dx < 0 {
        -dx
    } else {
        dx
    };
    let ay: i8 = if dy < 0 {
        -dy
    } else {
        dy
    };
    let aligned = match kind {
        PieceKind::Rook => dx == 0 || dy == 0,
        PieceKind::Bishop => ax == ay,
        PieceKind::Queen => dx == 0 || dy == 0 || ax == ay,
        _ => false,
    };
    if !aligned || (dx == 0 && dy == 0) {
        return None;
    }
    let sx: i8 = if dx < 0 {
        -1
    } else if dx > 0 {
        1
    } else {
        0
    };
    let sy: i8 = if dy < 0 {
        -1
    } else if dy > 0 {
        1
    } else {
        0
    };
    Some((sx, sy))
}

/// With the first occupied square of the ray at step `kb` and the target at
/// step `kt`, the slider revision is decided by their order.
proof fn lemma_slider_cases(v: PositionView, m: Move, piece: Piece, df: int, dr: int, d: int, kb: int, kt: int)
    requires
        m.wf(),
        slider_direction(m, piece.kind) == Some((df, dr)),
        0 <= d < 8,
        direction_of(df, dr) == d,
        first_occupied(v, m.from.idx(), d, kb),
        ray_hit(m.from.idx(), d, kt, m.to.idx()),
    ensures
        revise_slider(v, m, piece) == (if kt < kb {
            Some(m)
        } else if v.board[ray_point(m.from.idx(), d, kb)]->0.color == piece.color {
            None
        } else if kt == kb {
            Some(m)
        } else {
            Some(Move { to: Square::at(ray_point(m.from.idx(), d, kb)), ..m })
        }),
{
    let from = m.from.idx();
    let t = m.to.idx();
    assert(on_ray(from, d, t));
    let cb = choose|k: int| #[trigger] first_occupied(v, from, d, k);
    let ct = choose|k: int| #[trigger] ray_hit(from, d, k, t);
    if cb < kb {
        assert(v.board[ray_point(from, d, cb)] is None);
    }
    if cb > kb {
        assert(v.board[ray_point(from, d, kb)] is None);
    }
    lemma_ray_injective(from, d, ct, kt);
}

/// The eight directions have distinct unit steps.
proof fn lemma_direction_unique(df: int, dr: int, d: int)
    requires
        0 <= d < 8,
        dir_df(d) == df,
        dir_dr(d) == dr,
    ensures
        direction_of(df, dr) == d,
{
    let c = direction_of(df, dr);
    assert(0 <= c < 8 && dir_df(c) == df && dir_dr(c) == dr);
}

/// A piece of a kind that promotes moves two files along a rank only when castling.
fn is_castling_move(mv: Move, moving_piece: Piece) -> (r: bool)
    ensures
        r == crate::rules::is_castling_move(mv, moving_piece),
{
    let from_file: u8 = mv.from.file();
    let to_file: u8 = mv.to.file();
    let gap: u8 = if from_file > to_file {
        from_file - to_file
    } else {
        to_file - from_file
    };
    moving_piece.kind == PieceKind::King && mv.from.rank() == mv.to.rank() && gap == 2
}

/// The status after a turn that captured no king.
fn status_after(position: &Position, config: &GameConfig) -> (r: GameStatus)
    ensures
        r == status_after_turn(position@, *config),
{
    let over_turns = match config.full_turn_limit {
        Some(limit) => position.fullmove_number() > limit,
        None => false,
    };
    if over_turns {
        return GameStatus::Draw { reason: crate::types::DrawReason::TurnLimit };
    }
    let over_moves = match config.reversible_moves_limit {
        Some(limit) => position.halfmove_clock() >= limit,
        None => false,
    };
    if over_moves {
        return GameStatus::Draw { reason: crate::types::DrawReason::MoveLimit };
    }
    GameStatus::Ongoing { turn: position.turn() }
}

/// The status of a game that starts from `position`.
fn initial_status_of(position: &Position, config: &GameConfig) -> (r: GameStatus)
    ensures
        r == initial_status(position@, *config),
{
    if !position.has_king(Color::White) {
        return GameStatus::Won(GameResult { winner: Color::Black, reason: WinReason::KingCapture });
    }
    if !position.has_king(Color::Black) {
        return GameStatus::Won(GameResult { winner: Color::White, reason: WinReason::KingCapture });
    }
    status_after(position, config)
}

} // verus!
