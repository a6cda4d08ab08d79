use reconchess_rs::{
    Color, Error, Game, GameConfig, GameResult, GameSnapshot, GameStatus, Move, MoveStatus,
    PieceKind, Position, Square, WinReason,
};

fn sq(file: u8, rank: u8) -> Square {
    Square::from_coords(file, rank).expect("valid square")
}

fn mv(from: (u8, u8), to: (u8, u8)) -> Move {
    Move {
        from: sq(from.0, from.1),
        to: sq(to.0, to.1),
        promotion: None,
    }
}

fn all_requests() -> Vec<Move> {
    let mut out = Vec::new();
    for from in 0..64u8 {
        for to in 0..64u8 {
            out.push(Move {
                from: Square::from_index(from).unwrap(),
                to: Square::from_index(to).unwrap(),
                promotion: None,
            });
        }
    }
    out
}

#[test]
fn every_listed_action_is_accepted_and_no_other() {
    for fen in [
        "rnbqkbnr/pppppppp/8/8/8/8/PPPPPPPP/RNBQKBNR w KQkq - 0 1",
        "r3k2r/pppq1ppp/2n2n2/3pp3/3PP3/2N2N2/PPPQ1PPP/R3K2R b KQkq - 4 8",
    ] {
        let game = Game::from_fen(fen, GameConfig::default()).unwrap();
        let actions = game.move_actions();
        for request in all_requests() {
            let mut copy = Game::from_fen(fen, GameConfig::default()).unwrap();
            let result = copy.apply_move(Some(request));
            if actions.contains(&request) {
                assert!(result.is_ok(), "{fen}: {request:?} was listed but refused");
            } else {
                assert_eq!(result, Err(Error::InvalidMove), "{fen}: {request:?}");
            }
        }
    }
}

#[test]
fn move_actions_are_strictly_ordered() {
    let game = Game::new(GameConfig::default());
    let actions = game.move_actions();
    let key = |m: &Move| {
        let promotion = match m.promotion {
            None => 0,
            Some(PieceKind::Queen) => 1,
            Some(PieceKind::Rook) => 2,
            Some(PieceKind::Bishop) => 3,
            Some(PieceKind::Knight) => 4,
            Some(PieceKind::King) => 5,
            Some(PieceKind::Pawn) => 6,
        };
        (m.from.index(), m.to.index(), promotion)
    };
    for pair in actions.windows(2) {
        assert!(key(&pair[0]) < key(&pair[1]));
    }
}

#[test]
fn promotion_without_piece_is_read_as_queen_request() {
    let mut game = Game::from_fen("4k3/P7/8/8/8/8/8/4K3 w - - 0 1", GameConfig::default()).unwrap();
    let listed = Move {
        promotion: Some(PieceKind::Queen),
        ..mv((0, 6), (0, 7))
    };
    assert!(game.move_actions().contains(&listed));
    assert!(!game.move_actions().contains(&mv((0, 6), (0, 7))));
    let outcome = game.apply_move(Some(mv((0, 6), (0, 7)))).unwrap();
    assert_eq!(outcome.taken, Some(listed));
    assert_eq!(outcome.status, MoveStatus::Taken);
}

#[test]
fn turns_alternate_between_the_sides() {
    let mut game = Game::new(GameConfig::default());
    assert_eq!(game.turn(), Some(Color::White));
    game.apply_move(Some(mv((4, 1), (4, 3)))).unwrap();
    assert_eq!(game.turn(), Some(Color::Black));
    game.apply_move(None).unwrap();
    assert_eq!(game.turn(), Some(Color::White));
    assert!(game.to_fen().contains(" w "));
    game.apply_move(Some(mv((3, 0), (6, 3)))).unwrap();
    assert_eq!(game.turn(), Some(Color::Black));
    assert!(game.to_fen().contains(" b "));
}

#[test]
fn history_entries_are_chained() {
    let mut game = Game::new(GameConfig::default());
    let start = game.to_fen();
    let _ = game.sense(Some(sq(4, 6)));
    game.apply_move(Some(mv((4, 1), (4, 3)))).unwrap();
    game.apply_move(Some(mv((3, 6), (3, 4)))).unwrap();
    let _ = game.sense(None);
    game.apply_move(Some(mv((4, 3), (3, 4)))).unwrap();
    game.apply_move(None).unwrap();
    let history = game.history();
    assert_eq!(history.len(), 4);
    assert_eq!(history[0].fen_before_move, start);
    for pair in history.windows(2) {
        assert_eq!(pair[0].fen_after_move, pair[1].fen_before_move);
    }
    assert_eq!(history[3].fen_after_move, game.to_fen());
    assert_eq!(history[0].color, Color::White);
    assert_eq!(history[1].color, Color::Black);
}

#[test]
fn sense_reveals_the_true_board_around_the_center() {
    let mut game = Game::new(GameConfig::default());
    for index in 0..64u8 {
        let center = Square::from_index(index).unwrap();
        let result = game.sense(Some(center));
        assert_eq!(result.center, Some(center));
        for sensed in &result.squares {
            assert!((sensed.square.file() as i16 - center.file() as i16).abs() <= 1);
            assert!((sensed.square.rank() as i16 - center.rank() as i16).abs() <= 1);
            assert_eq!(sensed.piece, game.piece_at(sensed.square));
        }
        let edge_files = (center.file() == 0 || center.file() == 7) as usize;
        let edge_ranks = (center.rank() == 0 || center.rank() == 7) as usize;
        assert_eq!(result.squares.len(), (3 - edge_files) * (3 - edge_ranks));
    }
}

#[test]
fn capture_square_is_reported_to_the_victim() {
    let mut game =
        Game::from_fen("4k3/8/8/3p4/4P3/8/8/4K3 w - - 0 1", GameConfig::default()).unwrap();
    assert_eq!(game.opponent_capture_square(Color::Black), None);
    let outcome = game.apply_move(Some(mv((4, 3), (3, 4)))).unwrap();
    assert_eq!(outcome.capture.map(|c| c.square), Some(sq(3, 4)));
    assert_eq!(game.opponent_capture_square(Color::Black), Some(sq(3, 4)));
    assert_eq!(game.opponent_capture_square(Color::White), None);
    game.apply_move(None).unwrap();
    assert_eq!(game.opponent_capture_square(Color::White), None);
    assert_eq!(game.opponent_capture_square(Color::Black), Some(sq(3, 4)));
}

#[test]
fn revised_move_keeps_its_origin() {
    let mut game =
        Game::from_fen("4k3/8/8/8/3p4/8/8/3QK3 w - - 0 1", GameConfig::default()).unwrap();
    let outcome = game.apply_move(Some(mv((3, 0), (3, 6)))).unwrap();
    assert_eq!(outcome.status, MoveStatus::Revised);
    assert_eq!(outcome.taken, Some(mv((3, 0), (3, 3))));
    assert_eq!(outcome.requested, Some(mv((3, 0), (3, 6))));
    let capture = outcome.capture.expect("the blocker is captured");
    assert_eq!(capture.square, sq(3, 3));
    assert_eq!(capture.piece.color, Color::Black);
    assert_eq!(capture.piece.kind, PieceKind::Pawn);
    assert_eq!(game.to_fen(), "4k3/8/8/8/3Q4/8/8/4K3 b - - 0 1");
}

#[test]
fn illegal_request_moves_nothing_but_passes_the_turn() {
    let mut game =
        Game::from_fen("4k3/8/8/8/8/3p4/3P4/4K3 w - - 0 1", GameConfig::default()).unwrap();
    let outcome = game.apply_move(Some(mv((3, 1), (3, 2)))).unwrap();
    assert_eq!(outcome.status, MoveStatus::Illegal);
    assert_eq!(outcome.taken, None);
    assert_eq!(game.to_fen(), "4k3/8/8/8/8/3p4/3P4/4K3 b - - 1 1");
}

#[test]
fn finished_game_refuses_every_turn() {
    let mut game = Game::new(GameConfig::default());
    assert_eq!(
        game.resign(Color::Black),
        Ok(GameResult {
            winner: Color::White,
            reason: WinReason::Resignation
        })
    );
    let fen = game.to_fen();
    assert_eq!(game.apply_move(None), Err(Error::GameOver));
    assert_eq!(game.apply_move(Some(mv((4, 1), (4, 3)))), Err(Error::GameOver));
    assert_eq!(game.resign(Color::White), Err(Error::GameOver));
    assert_eq!(game.declare_timeout(Color::White), Err(Error::GameOver));
    assert_eq!(game.turn(), None);
    assert!(game.move_actions().is_empty());
    assert!(game.sense_actions().is_empty());
    assert_eq!(game.to_fen(), fen);
    assert!(game.history().is_empty());
}

#[test]
fn positions_round_trip_through_fen() {
    for fen in [
        "rnbqkbnr/pppppppp/8/8/8/8/PPPPPPPP/RNBQKBNR w KQkq - 0 1",
        "r3k2r/8/8/8/4Pp2/8/8/R3K2R b Kq e3 0 23",
        "8/8/8/8/8/8/8/8 w - - 65535 65535",
        "1n2k1n1/8/8/8/8/8/8/1N2K1N1 b Qk h6 17 0",
    ] {
        let position = Position::from_fen(fen).unwrap();
        let written = position.to_fen();
        assert_eq!(written, fen);
        let again = Position::from_fen(&written).unwrap();
        assert_eq!(again.to_fen(), written);
        for index in 0..64u8 {
            let square = Square::from_index(index).unwrap();
            assert_eq!(again.piece_at(square), position.piece_at(square));
        }
        assert_eq!(again.castling_rights(), position.castling_rights());
        assert_eq!(again.en_passant(), position.en_passant());
        assert_eq!(again.halfmove_clock(), position.halfmove_clock());
        assert_eq!(again.fullmove_number(), position.fullmove_number());
    }
}

#[test]
fn unusual_fen_spellings_are_normalised_on_output() {
    let position = Position::from_fen("44/8/8/8/8/8/8/1111k3 w qkQK - 00 007").unwrap();
    assert_eq!(position.to_fen(), "8/8/8/8/8/8/8/4k3 w KQkq - 0 7");
}

#[test]
fn game_snapshot_round_trips_with_history() {
    let mut game =
        Game::from_fen("4k3/4Q3/8/8/8/8/8/4K3 w - - 0 1", GameConfig::default()).unwrap();
    let _ = game.sense(Some(sq(4, 6)));
    game.apply_move(Some(mv((4, 6), (4, 7)))).unwrap();
    let fen = game.to_fen();
    let status = game.status().clone();
    let history = game.history().to_vec();
    let snapshot = game.into_snapshot();
    assert_eq!(snapshot.fen, fen);
    assert_eq!(snapshot.pending_capture, [None, Some(sq(4, 7))]);
    let restored = Game::from_snapshot(snapshot).unwrap();
    assert_eq!(restored.to_fen(), fen);
    assert_eq!(restored.status(), &status);
    assert_eq!(
        restored.status(),
        &GameStatus::Won(GameResult {
            winner: Color::White,
            reason: WinReason::KingCapture
        })
    );
    assert_eq!(restored.history(), history.as_slice());
    assert_eq!(restored.opponent_capture_square(Color::Black), Some(sq(4, 7)));
}

#[test]
fn game_snapshot_keeps_a_pending_sense() {
    let mut game = Game::new(GameConfig::default());
    let sensed = game.sense(Some(sq(0, 0)));
    let restored = Game::from_snapshot(game.into_snapshot()).unwrap();
    let mut restored = restored;
    restored.apply_move(None).unwrap();
    assert_eq!(restored.history()[0].sense, sensed);
}

#[test]
fn snapshot_with_bad_fen_is_refused() {
    let snapshot = GameSnapshot {
        fen: String::from("8/8/8 w - - 0 1"),
        config: GameConfig::default(),
        status: GameStatus::Ongoing { turn: Color::White },
        history: Vec::new(),
        pending_capture: [None, None],
        pending_sense: None,
    };
    match Game::from_snapshot(snapshot) {
        Err(e) => assert_eq!(e, Error::InvalidFen(String::from("The board is invalid."))),
        Ok(_) => panic!("bad FEN accepted"),
    }
}

#[test]
fn move_actions_ignore_the_opponents_pieces() {
    let a = Game::from_fen(
        "r1bqkb1r/pppp1ppp/2n2n2/4p3/4P3/5N2/PPPP1PPP/RNBQKB1R w KQkq - 4 4",
        GameConfig::default(),
    )
    .unwrap();
    let b = Game::from_fen(
        "4k3/8/3q4/8/4P3/5N2/PPPP1PPP/RNBQKB1R w KQ e6 0 30",
        GameConfig::default(),
    )
    .unwrap();
    assert_eq!(a.move_actions(), b.move_actions());
}

#[test]
fn sensing_leaves_move_actions_and_state_unchanged() {
    let mut game = Game::new(GameConfig::default());
    let actions = game.move_actions();
    let fen = game.to_fen();
    let _ = game.sense(Some(sq(3, 4)));
    assert_eq!(game.move_actions(), actions);
    assert_eq!(game.to_fen(), fen);
    assert!(game.history().is_empty());
}
