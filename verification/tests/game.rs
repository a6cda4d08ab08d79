use reconchess_rs::{
    Color, DrawReason, Error, Game, GameConfig, GameResult, GameStatus, Move, MoveStatus, Piece,
    PieceKind, Square, WinReason,
};

fn sq(file: u8, rank: u8) -> Square {
    Square::from_coords(file, rank).unwrap()
}

#[test]
fn game_standard_position_round_trips_as_fen() {
    let game = Game::new(GameConfig::default());
    assert_eq!(
        game.to_fen(),
        "rnbqkbnr/pppppppp/8/8/8/8/PPPPPPPP/RNBQKBNR w KQkq - 0 1"
    );
}

#[test]
fn parses_fen_and_exposes_turn() {
    let game = Game::from_fen("4k3/8/8/8/8/8/8/4K3 b - - 0 12", GameConfig::default()).unwrap();
    assert_eq!(game.turn(), Some(Color::Black));
    assert_eq!(game.to_fen(), "4k3/8/8/8/8/8/8/4K3 b - - 0 12");
}

#[test]
fn sense_center_returns_rank_descending_file_ascending_window() {
    let mut game = Game::new(GameConfig::default());
    let result = game.sense(Some(sq(1, 1)));
    let squares: Vec<Square> = result.squares.iter().map(|entry| entry.square).collect();
    assert_eq!(
        squares,
        vec![
            sq(0, 2),
            sq(1, 2),
            sq(2, 2),
            sq(0, 1),
            sq(1, 1),
            sq(2, 1),
            sq(0, 0),
            sq(1, 0),
            sq(2, 0),
        ]
    );
}

#[test]
fn sense_corner_is_clipped() {
    let mut game = Game::new(GameConfig::default());
    let result = game.sense(Some(sq(0, 7)));
    let squares: Vec<Square> = result.squares.iter().map(|entry| entry.square).collect();
    assert_eq!(squares, vec![sq(0, 7), sq(1, 7), sq(0, 6), sq(1, 6)]);
}

#[test]
fn pass_sense_returns_empty_result() {
    let mut game = Game::new(GameConfig::default());
    assert!(game.sense(None).squares.is_empty());
}

#[test]
fn starting_move_actions_include_pawn_capture_attempts() {
    let game = Game::new(GameConfig::default());
    let actions = game.move_actions();
    assert!(actions.contains(&Move {
        from: sq(0, 1),
        to: sq(1, 2),
        promotion: None,
    }));
    assert!(actions.contains(&Move {
        from: sq(1, 1),
        to: sq(0, 2),
        promotion: None,
    }));
    assert!(actions.contains(&Move {
        from: sq(1, 1),
        to: sq(2, 2),
        promotion: None,
    }));
}

#[test]
fn pawn_forward_actions_ignore_unseen_opponent_piece() {
    let game = Game::from_fen("4k3/8/8/8/4p3/8/4P3/4K3 w - - 0 1", GameConfig::default()).unwrap();
    assert!(game.move_actions().contains(&Move {
        from: sq(4, 1),
        to: sq(4, 2),
        promotion: None,
    }));
    assert!(game.move_actions().contains(&Move {
        from: sq(4, 1),
        to: sq(4, 3),
        promotion: None,
    }));
}

#[test]
fn slider_actions_ignore_unseen_opponent_piece() {
    let game = Game::from_fen("4k3/8/8/3R1p2/8/8/8/4K3 w - - 0 1", GameConfig::default()).unwrap();
    assert!(game.move_actions().contains(&Move {
        from: sq(3, 4),
        to: sq(7, 4),
        promotion: None,
    }));
}

#[test]
fn pass_move_flips_turn() {
    let mut game = Game::new(GameConfig::default());
    let outcome = game.apply_move(None).unwrap();
    assert_eq!(outcome.status, MoveStatus::Pass);
    assert_eq!(
        game.to_fen(),
        "rnbqkbnr/pppppppp/8/8/8/8/PPPPPPPP/RNBQKBNR b KQkq - 1 1"
    );
}

#[test]
fn illegal_truth_move_consumes_turn() {
    let mut game = Game::new(GameConfig::default());
    let outcome = game
        .apply_move(Some(Move {
            from: sq(4, 1),
            to: sq(5, 2),
            promotion: None,
        }))
        .unwrap();
    assert_eq!(outcome.status, MoveStatus::Illegal);
    assert_eq!(
        game.to_fen(),
        "rnbqkbnr/pppppppp/8/8/8/8/PPPPPPPP/RNBQKBNR b KQkq - 1 1"
    );
}

#[test]
fn slider_move_revises_to_first_opponent_piece() {
    let mut game = Game::from_fen(
        "4k3/3p4/8/1p1R1p2/8/8/8/4K3 w - - 0 1",
        GameConfig::default(),
    )
    .unwrap();
    let outcome = game
        .apply_move(Some(Move {
            from: sq(3, 4),
            to: sq(7, 4),
            promotion: None,
        }))
        .unwrap();
    assert_eq!(outcome.status, MoveStatus::Revised);
    assert_eq!(
        outcome.taken,
        Some(Move {
            from: sq(3, 4),
            to: sq(5, 4),
            promotion: None,
        })
    );
    assert_eq!(outcome.capture.unwrap().square, sq(5, 4));
}

#[test]
fn own_piece_blocker_is_invalid_request() {
    let mut game = Game::from_fen("4k3/8/8/3R4/8/8/3P4/4K3 w - - 0 1", GameConfig::default()).unwrap();
    let result = game.apply_move(Some(Move {
        from: sq(3, 4),
        to: sq(3, 0),
        promotion: None,
    }));
    assert_eq!(result, Err(Error::InvalidMove));
}

#[test]
fn pawn_auto_promotes_to_queen_when_omitted() {
    let mut game = Game::from_fen("7k/3P4/8/8/8/8/8/4K3 w - - 0 1", GameConfig::default()).unwrap();
    let outcome = game
        .apply_move(Some(Move {
            from: sq(3, 6),
            to: sq(3, 7),
            promotion: None,
        }))
        .unwrap();
    assert_eq!(
        outcome.taken,
        Some(Move {
            from: sq(3, 6),
            to: sq(3, 7),
            promotion: Some(PieceKind::Queen),
        })
    );
    assert_eq!(
        game.piece_at(sq(3, 7)),
        Some(Piece {
            color: Color::White,
            kind: PieceKind::Queen,
        })
    );
}

#[test]
fn promotion_capture_actions_include_omitted_request() {
    let game = Game::from_fen("1r5k/P7/8/8/8/8/8/4K3 w - - 0 1", GameConfig::default()).unwrap();
    assert!(game.move_actions().contains(&Move {
        from: sq(0, 6),
        to: sq(1, 7),
        promotion: None,
    }));
}

#[test]
fn en_passant_reports_captured_pawn_square() {
    let mut game = Game::from_fen("4k3/8/8/8/1p6/8/P7/4K3 w - - 0 1", GameConfig::default()).unwrap();
    game.apply_move(Some(Move {
        from: sq(0, 1),
        to: sq(0, 3),
        promotion: None,
    }))
    .unwrap();
    let outcome = game
        .apply_move(Some(Move {
            from: sq(1, 3),
            to: sq(0, 2),
            promotion: None,
        }))
        .unwrap();
    assert_eq!(outcome.capture.unwrap().square, sq(0, 3));
}

#[test]
fn castling_ignores_check_but_not_between_pieces() {
    // A black queen on g4 stands next to the castling king's path.
    let mut game = Game::from_fen("4k3/8/8/8/6q1/8/8/4K2R w K - 0 1", GameConfig::default()).unwrap();
    let outcome = game
        .apply_move(Some(Move {
            from: sq(4, 0),
            to: sq(6, 0),
            promotion: None,
        }))
        .unwrap();
    assert_eq!(outcome.status, MoveStatus::Taken);
    assert_eq!(game.to_fen(), "4k3/8/8/8/6q1/8/8/5RK1 b - - 1 1");

    // A black knight on g1 stands between king and rook.
    let mut blocked =
        Game::from_fen("4k3/8/8/8/8/8/8/4K1nR w K - 0 1", GameConfig::default()).unwrap();
    let outcome = blocked
        .apply_move(Some(Move {
            from: sq(4, 0),
            to: sq(6, 0),
            promotion: None,
        }))
        .unwrap();
    assert_eq!(outcome.status, MoveStatus::Illegal);
}

#[test]
fn king_capture_ends_game() {
    // A white queen on e7 faces the black king.
    let mut game = Game::from_fen("4k3/4Q3/8/8/8/8/8/4K3 w - - 0 1", GameConfig::default()).unwrap();
    let outcome = game
        .apply_move(Some(Move {
            from: sq(4, 6),
            to: sq(4, 7),
            promotion: None,
        }))
        .unwrap();
    assert_eq!(outcome.capture.unwrap().piece.kind, PieceKind::King);
    assert_eq!(
        game.status(),
        &GameStatus::Won(GameResult {
            winner: Color::White,
            reason: WinReason::KingCapture,
        })
    );
    assert_eq!(game.to_fen(), "4Q3/8/8/8/8/8/8/4K3 b - - 0 1");
}

#[test]
fn reversible_move_limit_causes_draw() {
    let mut game = Game::from_fen(
        "4k3/8/8/8/8/8/8/4K3 w - - 0 1",
        GameConfig {
            reversible_moves_limit: Some(2),
            full_turn_limit: None,
            ..GameConfig::default()
        },
    )
    .unwrap();
    game.apply_move(None).unwrap();
    assert_eq!(game.status(), &GameStatus::Ongoing { turn: Color::Black });
    game.apply_move(None).unwrap();
    assert_eq!(
        game.status(),
        &GameStatus::Draw {
            reason: DrawReason::MoveLimit,
        }
    );
}

#[test]
fn full_turn_limit_causes_draw_after_black_turn() {
    let mut game = Game::from_fen(
        "4k3/8/8/8/8/8/8/4K3 w - - 0 1",
        GameConfig {
            reversible_moves_limit: None,
            full_turn_limit: Some(1),
            ..GameConfig::default()
        },
    )
    .unwrap();
    game.apply_move(None).unwrap();
    assert_eq!(game.status(), &GameStatus::Ongoing { turn: Color::Black });
    game.apply_move(None).unwrap();
    assert_eq!(
        game.status(),
        &GameStatus::Draw {
            reason: DrawReason::TurnLimit,
        }
    );
}

#[test]
fn resign_and_timeout_set_winner() {
    let mut resigned = Game::new(GameConfig::default());
    assert_eq!(
        resigned.resign(Color::White).unwrap(),
        GameResult {
            winner: Color::Black,
            reason: WinReason::Resignation,
        }
    );

    let mut timed_out = Game::new(GameConfig::default());
    assert_eq!(
        timed_out.declare_timeout(Color::Black).unwrap(),
        GameResult {
            winner: Color::White,
            reason: WinReason::Timeout,
        }
    );
}

#[test]
fn completed_game_rejects_further_actions() {
    let mut game = Game::new(GameConfig::default());
    game.resign(Color::White).unwrap();
    assert_eq!(game.apply_move(None), Err(Error::GameOver));
    assert_eq!(game.resign(Color::Black), Err(Error::GameOver));
}

#[test]
fn constructors_apply_terminal_position_status() {
    let no_white_king = Game::from_fen("4k3/8/8/8/8/8/8/8 w - - 0 1", GameConfig::default()).unwrap();
    assert_eq!(
        no_white_king.status(),
        &GameStatus::Won(GameResult {
            winner: Color::Black,
            reason: WinReason::KingCapture,
        })
    );

    let move_limit = Game::new(GameConfig {
        reversible_moves_limit: Some(0),
        full_turn_limit: None,
        ..GameConfig::default()
    });
    assert_eq!(
        move_limit.status(),
        &GameStatus::Draw {
            reason: DrawReason::MoveLimit,
        }
    );

    let turn_limit = Game::from_fen(
        "4k3/8/8/8/8/8/8/4K3 w - - 0 2",
        GameConfig {
            reversible_moves_limit: None,
            full_turn_limit: Some(1),
            ..GameConfig::default()
        },
    )
    .unwrap();
    assert_eq!(
        turn_limit.status(),
        &GameStatus::Draw {
            reason: DrawReason::TurnLimit,
        }
    );
}

#[test]
fn history_records_sense_and_move_outcome() {
    let mut game = Game::new(GameConfig::default());
    let sensed = game.sense(Some(sq(1, 1)));
    let outcome = game
        .apply_move(Some(Move {
            from: sq(4, 1),
            to: sq(4, 3),
            promotion: None,
        }))
        .unwrap();
    let entry = &game.history()[0];
    assert_eq!(entry.color, Color::White);
    assert_eq!(entry.sense, sensed);
    assert_eq!(entry.move_outcome, outcome);
    assert_eq!(
        entry.fen_before_move,
        "rnbqkbnr/pppppppp/8/8/8/8/PPPPPPPP/RNBQKBNR w KQkq - 0 1"
    );
    assert_eq!(
        entry.fen_after_move,
        "rnbqkbnr/pppppppp/8/8/4P3/8/PPPP1PPP/RNBQKBNR b KQkq e3 0 1"
    );
}

#[test]
fn history_defaults_to_pass_sense_when_none_recorded() {
    let mut game = Game::new(GameConfig::default());
    game.apply_move(None).unwrap();
    assert_eq!(game.history()[0].sense.center, None);
    assert!(game.history()[0].sense.squares.is_empty());
}
