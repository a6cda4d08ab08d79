//! Properties of the library that span several operations: what a listed
//! request is answered, how turns alternate, what the history keeps, what
//! a sense reveals, and that written FEN and stored games read back
//! unchanged.
use vstd::prelude::*;

use crate::attack_tables::{
    dir_df, dir_dr, lemma_ray_on_prefix, lemma_ray_point, on_board, ray_hit, ray_point,
};
use crate::fen::FenError;
use crate::game::{
    concession, fresh_game, is_pass_sense, lemma_revise_keeps_origin, play, restored, sense_window,
    turn_completed, window_offset, window_squares, GameSnapshot, GameView, TurnResult,
};
use crate::position::{
    fen_text, own_at, parse_fen, starting_rights, CastlingRights, PositionView,
};
use crate::rules::{
    all_wf, castle_path_free_of_own, direction_of, dx, dy, file, first_occupied, home_square,
    is_move_request, kingside_right, lists_requests, move_key, own_view_reach, queenside_right,
    rank, revise_move, revise_slider, slider_direction, sorted_moves, turn_of,
    with_default_promotion,
};
use crate::types::{
    group_square, standard_back_rank_seq, Capture, CastlingPolicy, Color, DrawReason, Error,
    GameConfig, GameResult, GameStatus, Move, MoveStatus, Piece, PieceKind, SenseResult, Square,
    WinReason,
};

verus! {

broadcast use group_square;

/// While the game runs, the side whose turn the status names is the side to
/// move of the position.
pub open spec fn turn_agrees(g: GameView) -> bool {
    turn_of(g.status) matches Some(c) ==> c == g.position.turn
}

/// Each history entry starts from the position the previous one ended in,
/// and the last one ends in the current position.
pub open spec fn history_chained(g: GameView) -> bool {
    &&& forall|i: int|
        0 <= i < g.history.len() - 1 ==> (#[trigger] g.history[i]).fen_after_move@
            == g.history[i + 1].fen_before_move@
    &&& g.history.len() > 0 ==> g.history.last().fen_after_move@ == fen_text(g.position)
}

/// A request is refused as invalid exactly when its default-promoted form is
/// not among the listed move actions; in particular every listed action is
/// accepted.
pub proof fn law_move_actions_are_exactly_the_accepted_requests(
    g: GameView,
    actions: Seq<Move>,
    m: Move,
)
    requires
        turn_of(g.status) matches Some(c) && lists_requests(g.position, c, actions),
        m.wf(),
    ensures
        play(g, Some(m)) == Err::<TurnResult, Error>(Error::InvalidMove) <==> !actions.contains(
            with_default_promotion(g.position, m),
        ),
        play(g, Some(m)) is Err ==> play(g, Some(m)) == Err::<TurnResult, Error>(
            Error::InvalidMove,
        ),
        actions.contains(m) ==> play(g, Some(m)) is Ok,
{
    let c = turn_of(g.status)->0;
    let d = with_default_promotion(g.position, m);
    assert(d.wf());
}

/// Once the game is over, every move request and pass is refused.
pub proof fn law_finished_game_refuses_turns(g: GameView, requested: Option<Move>)
    requires
        turn_of(g.status) is None,
    ensures
        play(g, requested) == Err::<TurnResult, Error>(Error::GameOver),
{
}

/// A new game names the position's side to move as the acting player.
pub proof fn law_new_game_turn_agrees(v: PositionView, config: GameConfig)
    ensures
        turn_agrees(fresh_game(v, config)),
{
}

/// Every turn hands the move to the other side: the position's side to move
/// flips, and if the game goes on it is the opponent who acts next. The
/// agreement between status and position is kept.
pub proof fn law_turns_alternate(
    before: GameView,
    after: GameView,
    requested: Option<Move>,
    t: TurnResult,
)
    requires
        turn_agrees(before),
        play(before, requested) == Ok::<TurnResult, Error>(t),
        turn_completed(before, after, turn_of(before.status)->0, t),
    ensures
        after.position.turn == before.position.turn.opposite(),
        turn_of(after.status) is Some ==> turn_of(after.status) == Some(
            turn_of(before.status)->0.opposite(),
        ),
        turn_agrees(after),
{
}

/// Resigning or running out of time ends the game.
pub proof fn law_concession_ends_game(g: GameView, color: Color, reason: WinReason)
    ensures
        turn_of(concession(g, color, reason).status) is None,
        turn_agrees(concession(g, color, reason)),
        concession(g, color, reason).status == GameStatus::Won(
            GameResult { winner: color.opposite(), reason },
        ),
{
}

/// Capturing the king wins the game for the mover.
pub proof fn law_king_capture_wins(g: GameView, requested: Option<Move>, t: TurnResult)
    requires
        play(g, requested) == Ok::<TurnResult, Error>(t),
        t.outcome.capture matches Some(cap) && cap.piece.kind == PieceKind::King,
    ensures
        t.status == GameStatus::Won(
            GameResult { winner: turn_of(g.status)->0, reason: WinReason::KingCapture },
        ),
{
}

/// After a turn, the opponent of the mover is told where a piece of theirs
/// was captured (or that none was), and the mover's own notice is kept.
pub proof fn law_capture_is_reported_to_the_victim(
    before: GameView,
    after: GameView,
    requested: Option<Move>,
    t: TurnResult,
)
    requires
        before.pending_capture.len() == 2,
        play(before, requested) == Ok::<TurnResult, Error>(t),
        turn_completed(before, after, turn_of(before.status)->0, t),
    ensures
        after.pending_capture[turn_of(before.status)->0.opposite().index() as int] == match t.outcome.capture {
            Some(cap) => Some(cap.square),
            None => None,
        },
        after.pending_capture[turn_of(before.status)->0.index() as int]
            == before.pending_capture[turn_of(before.status)->0.index() as int],
{
    let c = turn_of(before.status)->0;
    assert(c.index() != c.opposite().index());
}

/// A move actually made keeps the origin of the request; it is reported as
/// taken exactly when it is the request itself (after the default
/// promotion), and as revised otherwise.
pub proof fn law_taken_move_keeps_origin(g: GameView, m: Move, t: TurnResult)
    requires
        m.wf(),
        play(g, Some(m)) == Ok::<TurnResult, Error>(t),
    ensures
        t.outcome.taken matches Some(tm) ==> tm.from == m.from && (t.outcome.status
            == MoveStatus::Taken <==> tm == with_default_promotion(g.position, m)),
        t.outcome.taken is None ==> t.outcome.status == MoveStatus::Illegal,
        t.outcome.requested == Some(m),
{
    let d = with_default_promotion(g.position, m);
    lemma_revise_keeps_origin(g.position, d);
}

/// A pass moves no piece.
pub proof fn law_pass_moves_nothing(g: GameView, t: TurnResult)
    requires
        play(g, None) == Ok::<TurnResult, Error>(t),
    ensures
        t.position.board == g.position.board,
        t.outcome.status == MoveStatus::Pass,
        t.outcome.taken is None,
        t.outcome.capture is None,
{
}

/// A new game has an empty history.
pub proof fn law_new_game_history_chained(v: PositionView, config: GameConfig)
    ensures
        history_chained(fresh_game(v, config)),
{
}

/// Each completed turn extends the history so that the entries stay chained
/// and the last one ends in the current position.
pub proof fn law_turn_keeps_history_chained(
    before: GameView,
    after: GameView,
    requested: Option<Move>,
    t: TurnResult,
)
    requires
        history_chained(before),
        play(before, requested) == Ok::<TurnResult, Error>(t),
        turn_completed(before, after, turn_of(before.status)->0, t),
    ensures
        history_chained(after),
        after.history.last().fen_before_move@ == fen_text(before.position),
{
    let n = before.history.len();
    assert forall|i: int| 0 <= i < after.history.len() - 1 implies (#[trigger] after.history[i]).fen_after_move@
        == after.history[i + 1].fen_before_move@ by {
        assert(after.history[i] == after.history.take(n as int)[i]);
        if i + 1 < n {
            assert(after.history[i + 1] == after.history.take(n as int)[i + 1]);
        }
    }
}

/// Sensing, resigning and timing out leave the history chained.
pub proof fn law_other_actions_keep_history_chained(
    g: GameView,
    sense: Option<SenseResult>,
    color: Color,
    reason: WinReason,
)
    requires
        history_chained(g),
    ensures
        history_chained(GameView { pending_sense: sense, ..g }),
        history_chained(concession(g, color, reason)),
{
    lemma_chained_by_history(g, GameView { pending_sense: sense, ..g });
    lemma_chained_by_history(g, concession(g, color, reason));
}

proof fn lemma_chained_by_history(g: GameView, h: GameView)
    requires
        history_chained(g),
        h.history == g.history,
        h.position == g.position,
    ensures
        history_chained(h),
{
}

/// Every square a sense reveals lies within one file and one rank of the
/// centre, and shows the piece that truly stands there.
pub proof fn law_sense_reveals_true_board(v: PositionView, center: int, k: int)
    requires
        0 <= center < 64,
        0 <= k < sense_window(v, center).len(),
    ensures
        ({
            let s = sense_window(v, center)[k];
            &&& -1 <= s.square.idx() % 8 - center % 8 <= 1
            &&& -1 <= s.square.idx() / 8 - center / 8 <= 1
            &&& s.piece == v.board[s.square.idx()]
        }),
{
    lemma_window_squares(v, center, 9, k);
}

proof fn lemma_window_squares(v: PositionView, center: int, n: nat, k: int)
    requires
        0 <= center < 64,
        n <= 9,
        0 <= k < window_squares(v, center, n).len(),
    ensures
        ({
            let s = window_squares(v, center, n)[k];
            &&& -1 <= s.square.idx() % 8 - center % 8 <= 1
            &&& -1 <= s.square.idx() / 8 - center / 8 <= 1
            &&& s.piece == v.board[s.square.idx()]
        }),
    decreases n,
{
    let prev = window_squares(v, center, (n - 1) as nat);
    if k < prev.len() {
        lemma_window_squares(v, center, (n - 1) as nat, k);
    } else {
        let off = window_offset(n - 1);
        let f = center % 8 + off.0;
        let r = center / 8 + off.1;
        assert(on_board(f, r));
        assert(-1 <= off.0 <= 1 && -1 <= off.1 <= 1);
        crate::attack_tables::lemma_sq_at(f, r);
    }
}

/// Writing a position as FEN and reading the text back gives the same
/// position.
pub proof fn law_fen_round_trip(v: PositionView)
    requires
        v.board.len() == 64,
        v.ep matches Some(s) ==> s.wf(),
    ensures
        parse_fen(fen_text(v)) == Ok::<PositionView, FenError>(v),
{
    crate::fen_round_trip::lemma_fen_round_trip(v);
}

/// Any position read from FEN is written back as a FEN that reads as the
/// same position.
pub proof fn law_read_position_rewrites_faithfully(fen: Seq<char>, v: PositionView)
    requires
        parse_fen(fen) == Ok::<PositionView, FenError>(v),
    ensures
        v.board.len() == 64,
        parse_fen(fen_text(v)) == Ok::<PositionView, FenError>(v),
{
    let f = crate::fen::split(fen, ' ');
    match crate::fen::parse_ep(f[3]) {
        Some(Some(sq)) => {
            let e = f[3];
            assert(0 <= (e[1] as int - 49) * 8 + (e[0] as int - 97) < 64);
        },
        _ => {},
    }
    crate::fen_round_trip::lemma_fen_round_trip(v);
}

/// A snapshot that holds a game's FEN and the rest of its state restores to
/// that game.
pub proof fn law_snapshot_round_trip(g: GameView, s: GameSnapshot)
    requires
        g.position.board.len() == 64,
        g.position.ep matches Some(sq) ==> sq.wf(),
        s.fen@ == fen_text(g.position),
        s.config == g.config,
        s.status == g.status,
        s.history@ == g.history,
        s.pending_capture@ == g.pending_capture,
        s.pending_sense == g.pending_sense,
    ensures
        restored(&s) == Ok::<GameView, FenError>(g),
{
    crate::fen_round_trip::lemma_fen_round_trip(g.position);
}

/// Each unit step names one of the eight directions.
proof fn lemma_direction_of(df: int, dr: int)
    requires
        -1 <= df <= 1,
        -1 <= dr <= 1,
        !(df == 0 && dr == 0),
    ensures
        0 <= direction_of(df, dr) < 8,
        dir_df(direction_of(df, dr)) == df,
        dir_dr(direction_of(df, dr)) == dr,
{
    let d: int = if df == 1 && dr == 0 {
        0
    } else if df == 0 && dr == 1 {
        1
    } else if df == 1 && dr == 1 {
        2
    } else if df == -1 && dr == 1 {
        3
    } else if df == -1 && dr == 0 {
        4
    } else if df == 0 && dr == -1 {
        5
    } else if df == 1 && dr == -1 {
        6
    } else {
        7
    };
    assert(0 <= d < 8 && dir_df(d) == df && dir_dr(d) == dr);
}

/// A revised rook, bishop or queen move stops on the first piece in the
/// requested path, an enemy piece short of the requested destination, and
/// captures it.
pub proof fn law_revised_slider_stops_at_first_blocker(
    g: GameView,
    m: Move,
    t: TurnResult,
)
    requires
        m.wf(),
        g.position.board.len() == 64,
        play(g, Some(m)) == Ok::<TurnResult, Error>(t),
        t.outcome.status == MoveStatus::Revised,
        g.position.board[m.from.idx()] matches Some(p) && (p.kind == PieceKind::Rook || p.kind
            == PieceKind::Bishop || p.kind == PieceKind::Queen),
    ensures
        t.outcome.taken matches Some(tm) && tm.from == m.from && tm.promotion == m.promotion
            && exists|d: int, k: int, kt: int|
            {
                &&& 0 <= d < 8
                &&& 1 <= k < kt
                &&& #[trigger] ray_hit(m.from.idx(), d, kt, m.to.idx())
                &&& #[trigger] ray_hit(m.from.idx(), d, k, tm.to.idx())
                &&& forall|j: int|
                    1 <= j < k ==> g.position.board[#[trigger] ray_point(m.from.idx(), d, j)] is None
                &&& g.position.board[tm.to.idx()] matches Some(q) && q.color
                    != g.position.board[m.from.idx()]->0.color && t.outcome.capture == Some(
                    Capture { square: tm.to, piece: q },
                )
            },
{
    let v = g.position;
    let p = v.board[m.from.idx()]->0;
    let from = m.from.idx();
    assert(with_default_promotion(v, m) == m);
    assert(revise_move(v, m) == revise_slider(v, m, p));
    let (df, dr) = slider_direction(m, p.kind)->0;
    lemma_direction_of(df, dr);
    let d = direction_of(df, dr);
    let kb = choose|k: int| #[trigger] first_occupied(v, from, d, k);
    let kt = choose|k: int| #[trigger] ray_hit(from, d, k, m.to.idx());
    let b = ray_point(from, d, kb);
    lemma_ray_point(from, d, kb);
    let tm = Move { to: Square::at(b), ..m };
    assert(revise_slider(v, m, p) == Some(tm));
    assert(t.outcome.taken == Some(tm));
    assert(tm.to.idx() == b);
    assert(ray_hit(from, d, kb, tm.to.idx()));
}

/// Two move lists in strictly increasing move order that hold the same
/// valid moves are the same list.
pub proof fn law_sorted_move_lists_are_unique(s1: Seq<Move>, s2: Seq<Move>)
    requires
        sorted_moves(s1),
        sorted_moves(s2),
        all_wf(s1),
        all_wf(s2),
        forall|m: Move| m.wf() ==> (s1.contains(m) <==> s2.contains(m)),
    ensures
        s1 == s2,
    decreases s1.len(),
{
    if s1.len() == 0 || s2.len() == 0 {
        if s2.len() > 0 {
            assert(s2.contains(s2[0]) && s2[0].wf());
        }
        if s1.len() > 0 {
            assert(s1.contains(s1[0]) && s1[0].wf());
        }
        assert(s1 =~= s2);
    } else {
        let a = s1[0];
        let b = s2[0];
        assert(s1.contains(a) && a.wf());
        assert(s2.contains(b) && b.wf());
        let j = choose|j: int| 0 <= j < s2.len() && s2[j] == a;
        let i = choose|i: int| 0 <= i < s1.len() && s1[i] == b;
        if j > 0 {
            assert(move_key(s2[0]) < move_key(s2[j]));
            if i > 0 {
                assert(move_key(s1[0]) < move_key(s1[i]));
            }
        }
        if i > 0 {
            assert(move_key(s1[0]) < move_key(s1[i]));
        }
        assert(a == b);
        let t1 = s1.drop_first();
        let t2 = s2.drop_first();
        assert forall|m: Move| m.wf() implies (t1.contains(m) <==> t2.contains(m)) by {
            if t1.contains(m) {
                let k = choose|k: int| 0 <= k < t1.len() && t1[k] == m;
                assert(s1[k + 1] == m);
                assert(move_key(s1[0]) < move_key(s1[k + 1]));
                assert(s2.contains(m));
                let k2 = choose|k2: int| 0 <= k2 < s2.len() && s2[k2] == m;
                assert(k2 != 0);
                assert(t2[k2 - 1] == m);
            }
            if t2.contains(m) {
                let k = choose|k: int| 0 <= k < t2.len() && t2[k] == m;
                assert(s2[k + 1] == m);
                assert(move_key(s2[0]) < move_key(s2[k + 1]));
                assert(s1.contains(m));
                let k1 = choose|k1: int| 0 <= k1 < s1.len() && s1[k1] == m;
                assert(k1 != 0);
                assert(t1[k1 - 1] == m);
            }
        }
        assert(sorted_moves(t1)) by {
            assert forall|x: int, y: int| 0 <= x < y < t1.len() implies move_key(#[trigger] t1[x]) < move_key(#[trigger] t1[y]) by {
                assert(t1[x] == s1[x + 1] && t1[y] == s1[y + 1]);
            }
        }
        assert(sorted_moves(t2)) by {
            assert forall|x: int, y: int| 0 <= x < y < t2.len() implies move_key(#[trigger] t2[x]) < move_key(#[trigger] t2[y]) by {
                assert(t2[x] == s2[x + 1] && t2[y] == s2[y + 1]);
            }
        }
        assert(all_wf(t1)) by {
            assert forall|x: int| 0 <= x < t1.len() implies (#[trigger] t1[x]).wf() by {
                assert(t1[x] == s1[x + 1]);
            }
        }
        assert(all_wf(t2)) by {
            assert forall|x: int| 0 <= x < t2.len() implies (#[trigger] t2[x]).wf() by {
                assert(t2[x] == s2[x + 1]);
            }
        }
        law_sorted_move_lists_are_unique(t1, t2);
        assert(s1 =~= seq![a] + t1);
        assert(s2 =~= seq![b] + t2);
    }
}

/// A position and side to move determine the move actions: any two lists
/// that list the requests are equal. In particular, sensing, which keeps
/// the position and the status, leaves the move actions unchanged.
pub proof fn law_move_actions_are_determined(v: PositionView, c: Color, s1: Seq<Move>, s2: Seq<Move>)
    requires
        lists_requests(v, c, s1),
        lists_requests(v, c, s2),
    ensures
        s1 == s2,
{
    law_sorted_move_lists_are_unique(s1, s2);
}

/// A request check and a move listing agree: a valid move is listed exactly
/// when it is a request of the side to move.
pub proof fn law_listing_agrees_with_request_check(v: PositionView, c: Color, s: Seq<Move>, m: Move)
    requires
        lists_requests(v, c, s),
        m.wf(),
    ensures
        s.contains(m) == is_move_request(v, c, m),
{
}

/// Two positions that agree on `c`'s pieces and on `c`'s castling rights;
/// the opponent's pieces, the en passant square and the clocks may differ.
pub open spec fn same_own_information(v1: PositionView, v2: PositionView, c: Color) -> bool {
    &&& v1.board.len() == 64
    &&& v2.board.len() == 64
    &&& forall|i: int| 0 <= i < 64 ==> (#[trigger] own_at(v1, c, i) <==> own_at(v2, c, i))
    &&& forall|i: int| 0 <= i < 64 && #[trigger] own_at(v1, c, i) ==> v1.board[i] == v2.board[i]
    &&& kingside_right(v1.rights, c) == kingside_right(v2.rights, c)
    &&& queenside_right(v1.rights, c) == queenside_right(v2.rights, c)
}

proof fn lemma_reach_own_information(v1: PositionView, v2: PositionView, c: Color, from: int, d: int, t: int)
    requires
        same_own_information(v1, v2, c),
        0 <= from < 64,
        0 <= d < 8,
        own_view_reach(v1, c, from, d, t),
    ensures
        own_view_reach(v2, c, from, d, t),
{
    let k = choose|k: int|
        #[trigger] ray_hit(from, d, k, t) && forall|j: int|
            1 <= j <= k ==> !own_at(v1, c, #[trigger] ray_point(from, d, j));
    assert forall|j: int| 1 <= j <= k implies !own_at(v2, c, #[trigger] ray_point(from, d, j)) by {
        lemma_ray_on_prefix(from, d, j, k);
        lemma_ray_point(from, d, j);
        assert(!own_at(v1, c, ray_point(from, d, j)));
    }
    assert(ray_hit(from, d, k, t));
}

proof fn lemma_reach_both(v1: PositionView, v2: PositionView, c: Color, from: int, d: int, t: int)
    requires
        same_own_information(v1, v2, c),
        same_own_information(v2, v1, c),
        0 <= from < 64,
        0 <= d < 8,
    ensures
        own_view_reach(v1, c, from, d, t) == own_view_reach(v2, c, from, d, t),
{
    if own_view_reach(v1, c, from, d, t) {
        lemma_reach_own_information(v1, v2, c, from, d, t);
    }
    if own_view_reach(v2, c, from, d, t) {
        lemma_reach_own_information(v2, v1, c, from, d, t);
    }
}

proof fn lemma_castle_path_own_information(v1: PositionView, v2: PositionView, c: Color, lo: int, hi: int)
    requires
        same_own_information(v1, v2, c),
        0 <= lo <= hi < 8,
    ensures
        castle_path_free_of_own(v1, c, lo, hi) == castle_path_free_of_own(v2, c, lo, hi),
{
    if castle_path_free_of_own(v1, c, lo, hi) {
        assert forall|f: int| lo <= f <= hi implies !#[trigger] own_at(v2, c, c.home_rank() * 8 + f) by {
            assert(0 <= c.home_rank() * 8 + f < 64);
            assert(!own_at(v1, c, c.home_rank() * 8 + f));
        }
    }
    if castle_path_free_of_own(v2, c, lo, hi) {
        assert forall|f: int| lo <= f <= hi implies !#[trigger] own_at(v1, c, c.home_rank() * 8 + f) by {
            assert(0 <= c.home_rank() * 8 + f < 64);
            assert(!own_at(v2, c, c.home_rank() * 8 + f));
        }
    }
}

proof fn lemma_request_own_information(v1: PositionView, v2: PositionView, c: Color, m: Move)
    requires
        same_own_information(v1, v2, c),
        same_own_information(v2, v1, c),
        m.wf(),
    ensures
        is_move_request(v1, c, m) == is_move_request(v2, c, m),
{
    let from = m.from.idx();
    let to = m.to.idx();
    assert(own_at(v1, c, to) == own_at(v2, c, to));
    assert(own_at(v1, c, from) == own_at(v2, c, from));
    let dir = c.pawn_dir() as int;
    if 0 <= from + 8 * dir < 64 {
        assert(own_at(v1, c, from + 8 * dir) == own_at(v2, c, from + 8 * dir));
    }
    lemma_castle_path_own_information(v1, v2, c, 5, 6);
    lemma_castle_path_own_information(v1, v2, c, 1, 3);
    lemma_reach_both(v1, v2, c, from, 0, to);
    lemma_reach_both(v1, v2, c, from, 1, to);
    lemma_reach_both(v1, v2, c, from, 2, to);
    lemma_reach_both(v1, v2, c, from, 3, to);
    lemma_reach_both(v1, v2, c, from, 4, to);
    lemma_reach_both(v1, v2, c, from, 5, to);
    lemma_reach_both(v1, v2, c, from, 6, to);
    lemma_reach_both(v1, v2, c, from, 7, to);
    if v1.board[from] is Some && v1.board[from]->0.color == c {
        assert(own_at(v1, c, from));
    }
    if v2.board[from] is Some && v2.board[from]->0.color == c {
        assert(own_at(v2, c, from));
    }
}

/// Move actions depend only on the acting player's own information: two
/// positions with the same pieces of the side to move and the same castling
/// rights of that side give the same move actions, whatever the opponent's
/// pieces, the en passant square and the clocks.
pub proof fn law_move_actions_depend_on_own_information(
    v1: PositionView,
    v2: PositionView,
    c: Color,
    s1: Seq<Move>,
    s2: Seq<Move>,
)
    requires
        same_own_information(v1, v2, c),
        lists_requests(v1, c, s1),
        lists_requests(v2, c, s2),
    ensures
        s1 == s2,
{
    assert(same_own_information(v2, v1, c)) by {
        assert forall|i: int| 0 <= i < 64 && #[trigger] own_at(v2, c, i) implies v2.board[i] == v1.board[i] by {
            assert(own_at(v1, c, i));
        }
    }
    assert forall|m: Move| m.wf() implies (s1.contains(m) <==> s2.contains(m)) by {
        lemma_request_own_information(v1, v2, c, m);
    }
    law_sorted_move_lists_are_unique(s1, s2);
}

/// The history records the sides alternately, and the last entry was made
/// by the side that is not to move now.
pub open spec fn colors_alternate(g: GameView) -> bool {
    &&& forall|i: int|
        0 <= i < g.history.len() - 1 ==> (#[trigger] g.history[i]).color.opposite() == g.history[i
            + 1].color
    &&& g.history.len() > 0 ==> g.history.last().color == g.position.turn.opposite()
}

/// A new game's history is empty, so its colors alternate trivially.
pub proof fn law_new_game_colors_alternate(v: PositionView, config: GameConfig)
    ensures
        colors_alternate(fresh_game(v, config)),
{
}

/// Each completed turn adds exactly one entry, made by the mover, with the
/// reported outcome; the sides keep alternating in the history.
pub proof fn law_turn_keeps_colors_alternating(
    before: GameView,
    after: GameView,
    requested: Option<Move>,
    t: TurnResult,
)
    requires
        turn_agrees(before),
        colors_alternate(before),
        play(before, requested) == Ok::<TurnResult, Error>(t),
        turn_completed(before, after, turn_of(before.status)->0, t),
    ensures
        colors_alternate(after),
        after.history.len() == before.history.len() + 1,
        after.history.last().color == turn_of(before.status)->0,
        after.history.last().move_outcome == t.outcome,
{
    let c = turn_of(before.status)->0;
    law_turns_alternate(before, after, requested, t);
    lemma_colors_extend(before, after, c);
}

proof fn lemma_colors_extend(before: GameView, after: GameView, c: Color)
    requires
        colors_alternate(before),
        after.history.len() == before.history.len() + 1,
        after.history.take(before.history.len() as int) == before.history,
        after.history.last().color == c,
        c == before.position.turn,
        after.position.turn == c.opposite(),
    ensures
        colors_alternate(after),
{
    let n = before.history.len();
    assert forall|i: int| 0 <= i < after.history.len() - 1 implies (#[trigger] after.history[i]).color.opposite()
        == after.history[i + 1].color by {
        assert(after.history[i] == after.history.take(n as int)[i]);
        if i + 1 < n {
            assert(after.history[i + 1] == after.history.take(n as int)[i + 1]);
        } else {
            assert(before.history.last() == before.history[i]);
        }
    }
}

/// Sensing, resigning and timing out keep the history and the position, so
/// the sides keep alternating.
pub proof fn law_other_actions_keep_colors_alternating(
    g: GameView,
    sense: Option<SenseResult>,
    color: Color,
    reason: WinReason,
)
    requires
        colors_alternate(g),
    ensures
        colors_alternate(GameView { pending_sense: sense, ..g }),
        colors_alternate(concession(g, color, reason)),
{
    lemma_alternate_by_history(g, GameView { pending_sense: sense, ..g });
    lemma_alternate_by_history(g, concession(g, color, reason));
}

proof fn lemma_alternate_by_history(g: GameView, h: GameView)
    requires
        colors_alternate(g),
        h.history == g.history,
        h.position == g.position,
    ensures
        colors_alternate(h),
{
}

/// The next completed turn records the sense made before it (a passed sense
/// if none was made), and clears it.
pub proof fn law_sense_is_recorded_by_next_turn(
    before: GameView,
    after: GameView,
    requested: Option<Move>,
    t: TurnResult,
)
    requires
        play(before, requested) == Ok::<TurnResult, Error>(t),
        turn_completed(before, after, turn_of(before.status)->0, t),
    ensures
        before.pending_sense matches Some(s) ==> after.history.last().sense == s,
        before.pending_sense is None ==> is_pass_sense(after.history.last().sense),
        after.pending_sense is None,
{
}

/// With the standard back ranks each starting castling right is exactly the
/// policy toggle of the same side and direction: switching one toggle off
/// removes that right and keeps the other three.
pub proof fn law_standard_start_rights_are_the_policy(policy: CastlingPolicy)
    ensures
        starting_rights(standard_back_rank_seq(), standard_back_rank_seq(), policy) == (CastlingRights {
            white_kingside: policy.white_kingside,
            white_queenside: policy.white_queenside,
            black_kingside: policy.black_kingside,
            black_queenside: policy.black_queenside,
        }),
{
    let b = standard_back_rank_seq();
    assert(b[4] == PieceKind::King && b[7] == PieceKind::Rook && b[0] == PieceKind::Rook);
    assert(0 <= 4int < 8 && 0 <= 7int < 8 && 7int > 4int);
}

/// Whatever the back ranks, a starting castling right needs the policy
/// toggle of the same side and direction.
pub proof fn law_start_right_needs_its_toggle(
    white: Seq<PieceKind>,
    black: Seq<PieceKind>,
    policy: CastlingPolicy,
)
    ensures
        starting_rights(white, black, policy).white_kingside ==> policy.white_kingside,
        starting_rights(white, black, policy).white_queenside ==> policy.white_queenside,
        starting_rights(white, black, policy).black_kingside ==> policy.black_kingside,
        starting_rights(white, black, policy).black_queenside ==> policy.black_queenside,
{
}

/// No listed move request ends on a square holding a piece of the side to
/// move, and a two-square pawn push is listed only when the square it passes
/// is free of that side's pieces too.
pub proof fn law_listed_requests_never_land_on_own_pieces(v: PositionView, c: Color, s: Seq<Move>, m: Move)
    requires
        lists_requests(v, c, s),
        s.contains(m),
    ensures
        !own_at(v, c, m.to.idx()),
        (v.board[m.from.idx()] matches Some(p) && p.kind == PieceKind::Pawn && dx(m) == 0 && dy(m)
            == 2 * c.pawn_dir()) ==> !own_at(v, c, (m.from.idx() + m.to.idx()) / 2),
{
    let i = choose|i: int| 0 <= i < s.len() && s[i] == m;
    assert(s[i].wf());
    lemma_request_target_not_own(v, c, m);
}

proof fn lemma_request_target_not_own(v: PositionView, c: Color, m: Move)
    requires
        m.wf(),
        is_move_request(v, c, m),
    ensures
        !own_at(v, c, m.to.idx()),
        (v.board[m.from.idx()] matches Some(p) && p.kind == PieceKind::Pawn && dx(m) == 0 && dy(m)
            == 2 * c.pawn_dir()) ==> !own_at(v, c, (m.from.idx() + m.to.idx()) / 2),
{
    let p = v.board[m.from.idx()]->0;
    let from = m.from.idx();
    let t = m.to.idx();
    if p.kind == PieceKind::Rook || p.kind == PieceKind::Bishop || p.kind == PieceKind::Queen {
        let mut d: int = 0;
        if own_view_reach(v, c, from, 0, t) {
            d = 0;
        } else if own_view_reach(v, c, from, 1, t) {
            d = 1;
        } else if own_view_reach(v, c, from, 2, t) {
            d = 2;
        } else if own_view_reach(v, c, from, 3, t) {
            d = 3;
        } else if own_view_reach(v, c, from, 4, t) {
            d = 4;
        } else if own_view_reach(v, c, from, 5, t) {
            d = 5;
        } else if own_view_reach(v, c, from, 6, t) {
            d = 6;
        } else {
            d = 7;
        }
        assert(own_view_reach(v, c, from, d, t));
        let k = choose|k: int|
            #[trigger] ray_hit(from, d, k, t) && forall|j: int|
                1 <= j <= k ==> !own_at(v, c, #[trigger] ray_point(from, d, j));
        assert(ray_point(from, d, k) == t);
        assert(!own_at(v, c, ray_point(from, d, k)));
    }
    if p.kind == PieceKind::King && dy(m) == 0 && abs_int(dx(m)) == 2 {
        let home = c.home_rank() as int;
        if dx(m) == 2 {
            assert(m.to == home_square(c, 6));
            assert(!own_at(v, c, home * 8 + 6));
        } else {
            assert(m.to == home_square(c, 2));
            assert(!own_at(v, c, home * 8 + 2));
        }
    }
    if p.kind == PieceKind::Pawn && dx(m) == 0 && dy(m) == 2 * c.pawn_dir() {
        assert((from + t) / 2 == from + 8 * c.pawn_dir());
    }
}

spec fn abs_int(x: int) -> int {
    if x < 0 {
        -x
    } else {
        x
    }
}

/// A pawn never captures on its own file: a request along the file captures
/// nothing, and the square the pawn lands on was empty.
pub proof fn law_pawn_never_captures_straight_ahead(g: GameView, m: Move, t: TurnResult)
    requires
        m.wf(),
        g.position.board.len() == 64,
        play(g, Some(m)) == Ok::<TurnResult, Error>(t),
        g.position.board[m.from.idx()] matches Some(p) && p.kind == PieceKind::Pawn,
        file(m.from) == file(m.to),
    ensures
        t.outcome.capture is None,
        t.outcome.taken matches Some(tm) ==> g.position.board[tm.to.idx()] is None && file(tm.to) == file(
            m.from,
        ),
{
    let v = g.position;
    let d = with_default_promotion(v, m);
    lemma_revise_keeps_origin(v, d);
    let c = v.board[m.from.idx()]->0.color;
    let dir = c.pawn_dir() as int;
    if t.outcome.taken is Some {
        let tm = t.outcome.taken->0;
        if dy(d) == 2 * dir && v.board[m.from.idx() + 8 * dir] is None && (v.board[d.to.idx()] matches Some(q)
            && q.color != c) && !(v.board[d.to.idx()] is None) {
            assert(tm.to == Square::at(m.from.idx() + 8 * dir));
            assert(0 <= m.from.idx() + 8 * dir < 64);
        }
    }
}

/// A two-square pawn push whose middle square is empty and whose destination
/// holds an enemy piece stops on the middle square: the taken move is the
/// one-square push, reported as revised, capturing nothing, and the enemy
/// piece stays where it is.
pub proof fn law_blocked_double_push_stops_short(g: GameView, c: Color, m: Move)
    requires
        m.wf(),
        g.position.board.len() == 64,
        turn_of(g.status) == Some(c),
        g.position.board[m.from.idx()] == Some(Piece { color: c, kind: PieceKind::Pawn }),
        dy(m) == 2 * c.pawn_dir(),
        rank(m.from) == c.pawn_start_rank(),
        g.position.board[m.to.idx()] matches Some(q) && q.color != c,
        m.promotion is None,
        dx(m) == 0,
        g.position.board[(m.from.idx() + m.to.idx()) / 2] is None,
    ensures
        play(g, Some(m)) matches Ok(t) && t.outcome.status == MoveStatus::Revised
            && t.outcome.taken == Some(
            Move { from: m.from, to: Square::at((m.from.idx() + m.to.idx()) / 2), promotion: None },
        ) && t.outcome.capture is None && t.position.board[m.to.idx()] == g.position.board[m.to.idx()]
            && t.position.board[(m.from.idx() + m.to.idx()) / 2] == g.position.board[m.from.idx()]
            && t.position.board[m.from.idx()] is None,
{
    let v = g.position;
    let dir = c.pawn_dir() as int;
    let mid = (m.from.idx() + m.to.idx()) / 2;
    assert(m.to.idx() == m.from.idx() + 16 * dir);
    assert(mid == m.from.idx() + 8 * dir);
    assert(0 <= mid < 64);
    assert(with_default_promotion(v, m) == m);
    assert(is_move_request(v, c, m));
    let tm = Move { from: m.from, to: Square::at(mid), promotion: None };
    assert(revise_move(v, m) == Some(tm));
    assert(tm != m) by {
        assert(tm.to.idx() != m.to.idx());
    }
}

/// The full-move number after a turn: one more (held at the largest `u16`)
/// after Black's turn, unchanged after White's, whether the turn was a pass,
/// an illegal request or a move.
pub proof fn law_fullmove_counts_black_turns(g: GameView, requested: Option<Move>, t: TurnResult)
    requires
        turn_agrees(g),
        play(g, requested) == Ok::<TurnResult, Error>(t),
        requested matches Some(m) ==> m.wf(),
    ensures
        turn_of(g.status) == Some(Color::Black) ==> t.position.fullmove == (if g.position.fullmove < 65535 {
            (g.position.fullmove + 1) as u16
        } else {
            65535u16
        }),
        turn_of(g.status) == Some(Color::White) ==> t.position.fullmove == g.position.fullmove,
{
    if let Some(m) = requested {
        let d = with_default_promotion(g.position, m);
        lemma_revise_keeps_origin(g.position, d);
    }
}

/// With a full-turn limit of `n`, Black's turn that completes turn `n` ends
/// the game in a draw by the turn limit, unless it captured the king.
pub proof fn law_full_turn_limit_draws_after_black(
    g: GameView,
    requested: Option<Move>,
    t: TurnResult,
    n: u16,
)
    requires
        turn_agrees(g),
        turn_of(g.status) == Some(Color::Black),
        g.config.full_turn_limit == Some(n),
        g.position.fullmove == n,
        n < 65535,
        play(g, requested) == Ok::<TurnResult, Error>(t),
        requested matches Some(m) ==> m.wf(),
        !(t.outcome.capture matches Some(cap) && cap.piece.kind == PieceKind::King),
    ensures
        t.status == (GameStatus::Draw { reason: DrawReason::TurnLimit }),
{
    law_fullmove_counts_black_turns(g, requested, t);
}

/// A rook that leaves its home corner takes that corner's castling right
/// with it: h1 the White kingside right, a1 the White queenside right, h8
/// and a8 Black's.
pub proof fn law_rook_leaving_its_corner_loses_that_right(g: GameView, m: Move, t: TurnResult)
    requires
        m.wf(),
        play(g, Some(m)) == Ok::<TurnResult, Error>(t),
        t.outcome.taken matches Some(tm) && g.position.board[tm.from.idx()] matches Some(p) && p.kind
            == PieceKind::Rook,
    ensures
        ({
            let tm = t.outcome.taken->0;
            let p = g.position.board[tm.from.idx()]->0;
            &&& (p.color == Color::White && tm.from.idx() == 7) ==> !t.position.rights.white_kingside
            &&& (p.color == Color::White && tm.from.idx() == 0) ==> !t.position.rights.white_queenside
            &&& (p.color == Color::Black && tm.from.idx() == 63) ==> !t.position.rights.black_kingside
            &&& (p.color == Color::Black && tm.from.idx() == 56) ==> !t.position.rights.black_queenside
        }),
{
}

/// A king move, castling included, takes both of its side's castling rights.
pub proof fn law_king_move_loses_both_rights(g: GameView, m: Move, t: TurnResult)
    requires
        m.wf(),
        play(g, Some(m)) == Ok::<TurnResult, Error>(t),
        t.outcome.taken matches Some(tm) && g.position.board[tm.from.idx()] matches Some(p) && p.kind
            == PieceKind::King,
    ensures
        ({
            let p = g.position.board[t.outcome.taken->0.from.idx()]->0;
            &&& p.color == Color::White ==> !t.position.rights.white_kingside
                && !t.position.rights.white_queenside
            &&& p.color == Color::Black ==> !t.position.rights.black_kingside
                && !t.position.rights.black_queenside
        }),
{
}

/// Capturing a rook on its home corner removes that corner's castling right.
pub proof fn law_captured_corner_rook_loses_that_right(g: GameView, m: Move, t: TurnResult)
    requires
        m.wf(),
        g.position.board.len() == 64,
        play(g, Some(m)) == Ok::<TurnResult, Error>(t),
        t.outcome.capture matches Some(cap) && cap.piece.kind == PieceKind::Rook,
    ensures
        ({
            let cap = t.outcome.capture->0;
            &&& (cap.piece.color == Color::White && cap.square.idx() == 7) ==> !t.position.rights.white_kingside
            &&& (cap.piece.color == Color::White && cap.square.idx() == 0) ==> !t.position.rights.white_queenside
            &&& (cap.piece.color == Color::Black && cap.square.idx() == 63) ==> !t.position.rights.black_kingside
            &&& (cap.piece.color == Color::Black && cap.square.idx() == 56) ==> !t.position.rights.black_queenside
        }),
{
}

/// The half-move clock after a turn: reset to zero by a pawn move or a
/// capture, otherwise one more (held at the largest `u16`).
pub proof fn law_halfmove_clock(g: GameView, requested: Option<Move>, t: TurnResult)
    requires
        play(g, requested) == Ok::<TurnResult, Error>(t),
        requested matches Some(m) ==> m.wf(),
    ensures
        ({
            let reset = t.outcome.capture is Some || (t.outcome.taken matches Some(tm)
                && g.position.board[tm.from.idx()] matches Some(p) && p.kind == PieceKind::Pawn);
            t.position.halfmove == if reset {
                0u16
            } else if g.position.halfmove < 65535 {
                (g.position.halfmove + 1) as u16
            } else {
                65535u16
            }
        }),
{
    if let Some(m) = requested {
        let d = with_default_promotion(g.position, m);
        lemma_revise_keeps_origin(g.position, d);
    }
}

/// A taken move leaves its origin empty and puts the mover on its
/// destination, promoted to the requested piece if any.
pub proof fn law_taken_move_lands_the_mover(g: GameView, m: Move, t: TurnResult)
    requires
        m.wf(),
        g.position.board.len() == 64,
        play(g, Some(m)) == Ok::<TurnResult, Error>(t),
        t.outcome.taken is Some,
    ensures
        ({
            let tm = t.outcome.taken->0;
            let p = g.position.board[tm.from.idx()]->0;
            &&& g.position.board[tm.from.idx()] is Some
            &&& tm.from != tm.to
            &&& t.position.board[tm.from.idx()] is None
            &&& t.position.board[tm.to.idx()] == Some(
                Piece {
                    color: p.color,
                    kind: match tm.promotion {
                        Some(k) => k,
                        None => p.kind,
                    },
                },
            )
        }),
{
    let v = g.position;
    let d = with_default_promotion(v, m);
    lemma_revise_keeps_origin(v, d);
    let tm = t.outcome.taken->0;
    assert(tm.from.idx() != tm.to.idx()) by {
        lemma_taken_move_moves(v, d);
    }
    Square::lemma_eq_idx(tm.from, tm.to);
}

proof fn lemma_taken_move_moves(v: PositionView, m: Move)
    requires
        m.wf(),
        v.board.len() == 64,
        revise_move(v, m) is Some,
    ensures
        revise_move(v, m)->0.from.idx() != revise_move(v, m)->0.to.idx(),
{
    lemma_revise_keeps_origin(v, m);
    let p = v.board[m.from.idx()]->0;
    if p.kind == PieceKind::Queen || p.kind == PieceKind::Rook || p.kind == PieceKind::Bishop {
        let (df, dr) = slider_direction(m, p.kind)->0;
        lemma_direction_of(df, dr);
        let d = direction_of(df, dr);
        let from = m.from.idx();
        if exists|k: int| #[trigger] first_occupied(v, from, d, k) {
            let kb = choose|k: int| #[trigger] first_occupied(v, from, d, k);
            lemma_ray_point(from, d, kb);
        }
    }
}

/// A pawn request onto the last rank without a promotion piece promotes to a
/// queen.
pub proof fn law_default_promotion_is_a_queen(g: GameView, m: Move, t: TurnResult)
    requires
        m.wf(),
        play(g, Some(m)) == Ok::<TurnResult, Error>(t),
        m.promotion is None,
        g.position.board[m.from.idx()] matches Some(p) && p.kind == PieceKind::Pawn && rank(m.to)
            == p.color.pawn_promotion_rank(),
        t.outcome.taken is Some,
    ensures
        t.outcome.taken->0.promotion == Some(PieceKind::Queen),
{
    let d = with_default_promotion(g.position, m);
    lemma_revise_keeps_origin(g.position, d);
}

} // verus!
