use reconchess_rs::{
    CastlingPolicy, Color, Error, Game, GameConfig, PieceKind, Position, SensePolicy, SenseShape,
    SenseToken, Square, STANDARD_BACK_RANK,
};

#[test]
fn squares_know_their_coordinates_and_names() {
    assert_eq!(Square::from_coords(8, 0), None);
    assert_eq!(Square::from_coords(0, 8), None);
    assert_eq!(Square::from_index(64), None);
    let e4 = Square::from_coords(4, 3).unwrap();
    assert_eq!(e4.index(), 28);
    assert_eq!(e4.file(), 4);
    assert_eq!(e4.rank(), 3);
    assert_eq!(e4.to_algebraic(), "e4");
    assert_eq!(Square::from_index(0).unwrap().to_algebraic(), "a1");
    assert_eq!(Square::from_index(63).unwrap().to_algebraic(), "h8");
    assert_eq!(Square::from_index(28), Some(e4));
}

#[test]
fn colors_and_piece_kinds() {
    assert_eq!(Color::White.opposite(), Color::Black);
    assert_eq!(Color::Black.opposite(), Color::White);
    assert_eq!(Color::White.index(), 0);
    assert_eq!(Color::Black.index(), 1);
    assert_ne!(PieceKind::King, PieceKind::Queen);
}

#[test]
fn configuration_defaults() {
    let config = GameConfig::default();
    assert_eq!(config.reversible_moves_limit, Some(100));
    assert_eq!(config.full_turn_limit, None);
    assert_eq!(config.white_backrank, STANDARD_BACK_RANK);
    assert_eq!(config.black_backrank, STANDARD_BACK_RANK);
    assert_eq!(config.castling_policy, CastlingPolicy::default());
    assert_eq!(config.white_sense_policy, SensePolicy::default());
    assert_eq!(config.black_sense_policy, SensePolicy::default());
    let policy = CastlingPolicy::default();
    assert!(policy.white_kingside && policy.white_queenside);
    assert!(policy.black_kingside && policy.black_queenside);
}

#[test]
fn sense_shapes_list_their_offsets() {
    assert_eq!(
        SenseShape::window(1).offsets,
        vec![
            (-1, 1),
            (0, 1),
            (1, 1),
            (-1, 0),
            (0, 0),
            (1, 0),
            (-1, -1),
            (0, -1),
            (1, -1)
        ]
    );
    assert_eq!(SenseShape::rectangle(0, 1).offsets, vec![(0, 1), (0, 0), (0, -1)]);
    assert_eq!(SenseShape::rectangle(2, 0).offsets, vec![(-2, 0), (-1, 0), (0, 0), (1, 0), (2, 0)]);
    assert_eq!(
        SenseShape::cross(1).offsets,
        vec![(0, 1), (-1, 0), (0, 0), (1, 0), (0, -1)]
    );
    assert_eq!(SenseShape::cross(2).offsets.len(), 9);
    assert_eq!(SenseShape::point().offsets, vec![(0, 0)]);
    let full = SenseShape::full_board().offsets;
    assert_eq!(full.len(), 64);
    assert_eq!(full[0], (0, 7));
    assert_eq!(full[63], (7, 0));
    assert!(SenseShape::empty().offsets.is_empty());
    assert_eq!(SenseShape::custom(vec![(3, -2)]).offsets, vec![(3, -2)]);
    assert_eq!(SenseShape::default(), SenseShape::window(1));
    assert_eq!(SenseToken::new(SenseShape::point()).shape, SenseShape::point());
    assert_eq!(SenseToken::default().shape, SenseShape::window(1));
    assert_eq!(SensePolicy::single(SenseShape::cross(1)).tokens, vec![SenseToken::new(SenseShape::cross(1))]);
    assert_eq!(SensePolicy::default().tokens, vec![SenseToken::default()]);
}

#[test]
fn error_messages() {
    assert_eq!(Error::GameOver.message(), "game is over");
    assert_eq!(Error::InvalidMove.message(), "invalid move");
    assert_eq!(Error::InvalidSense.message(), "invalid sense action");
    assert_eq!(
        Error::InvalidFen(String::from("The FEN is missing a field.")).message(),
        "invalid FEN: The FEN is missing a field."
    );
}

fn fen_error(fen: &str) -> String {
    match Position::from_fen(fen) {
        Err(Error::InvalidFen(text)) => text,
        other => panic!("{fen}: expected an invalid FEN, got {:?}", other.map(|p| p.to_fen())),
    }
}

#[test]
fn each_fen_field_has_its_own_error() {
    assert_eq!(fen_error(""), "The board is invalid.");
    assert_eq!(fen_error("9/8/8/8/8/8/8/8 w - - 0 1"), "The board is invalid.");
    assert_eq!(fen_error("8/8/8/8/8/8/8/7X w - - 0 1"), "The board is invalid.");
    assert_eq!(fen_error("8/8/8/8/8/8/8/7 w - - 0 1"), "The board is invalid.");
    assert_eq!(fen_error("8/8/8/8/8/8/8/8/8 w - - 0 1"), "The board is invalid.");
    assert_eq!(fen_error("8/8/8/8/8/8/8/8"), "The FEN is missing a field.");
    assert_eq!(fen_error("8/8/8/8/8/8/8/8 x - - 0 1"), "The side to move is invalid.");
    assert_eq!(fen_error("8/8/8/8/8/8/8/8 w"), "The FEN is missing a field.");
    assert_eq!(fen_error("8/8/8/8/8/8/8/8 w KK - 0 1"), "The castling rights are invalid.");
    assert_eq!(fen_error("8/8/8/8/8/8/8/8 w A - 0 1"), "The castling rights are invalid.");
    assert_eq!(fen_error("8/8/8/8/8/8/8/8 w - i3 0 1"), "The en passant square is invalid.");
    assert_eq!(fen_error("8/8/8/8/8/8/8/8 w - - x 1"), "The halfmove clock is invalid.");
    assert_eq!(fen_error("8/8/8/8/8/8/8/8 w - - 65536 1"), "The halfmove clock is invalid.");
    assert_eq!(fen_error("8/8/8/8/8/8/8/8 w - - 0 -1"), "The fullmove number is invalid.");
    assert_eq!(fen_error("8/8/8/8/8/8/8/8 w - - 0"), "The FEN is missing a field.");
    assert_eq!(fen_error("8/8/8/8/8/8/8/8 w - - 0 1 x"), "The FEN has too many fields.");
    assert_eq!(fen_error("8/8/8/8/8/8/8/8  w - - 0 1"), "The side to move is invalid.");
}

#[test]
fn game_from_bad_fen_reports_the_error() {
    match Game::from_fen("8/8/8/8/8/8/8/8 w - - 0 1 x", GameConfig::default()) {
        Err(e) => {
            assert_eq!(e, Error::InvalidFen(String::from("The FEN has too many fields.")));
            assert_eq!(e.message(), "invalid FEN: The FEN has too many fields.");
        }
        Ok(_) => panic!("accepted"),
    }
}

#[test]
fn castling_field_lists_the_remaining_rights() {
    let game = Game::from_fen("r3k2r/8/8/8/8/8/8/R3K2R w Kq - 0 1", GameConfig::default()).unwrap();
    assert!(game.to_fen().ends_with(" w Kq - 0 1"));
    let none = Game::from_fen("4k3/8/8/8/8/8/8/4K3 w - - 0 1", GameConfig::default()).unwrap();
    assert!(none.to_fen().ends_with(" w - - 0 1"));
}
