use reconchess_rs::{
    CastlingPolicy, Color, Error, Game, GameConfig, PieceKind, Position, STANDARD_BACK_RANK,
};

const STANDARD_FEN: &str = "rnbqkbnr/pppppppp/8/8/8/8/PPPPPPPP/RNBQKBNR w KQkq - 0 1";

use PieceKind::{Bishop, King, Knight, Queen, Rook};

/// Chess960 start position 0: BBQNNRKR.
const SP_ID_0: [PieceKind; 8] = [Bishop, Bishop, Queen, Knight, Knight, Rook, King, Rook];
/// Chess960 start position 518: the standard arrangement.
const SP_ID_518: [PieceKind; 8] = [Rook, Knight, Bishop, Queen, King, Bishop, Knight, Rook];
/// Chess960 start position 959: RKRNNQBB.
const SP_ID_959: [PieceKind; 8] = [Rook, King, Rook, Knight, Knight, Queen, Bishop, Bishop];

fn castling_field(game: &Game) -> String {
    game.to_fen().split_whitespace().nth(2).unwrap().to_string()
}

#[test]
fn default_config_is_fide_standard() {
    let game = Game::new(GameConfig::default());
    assert_eq!(game.to_fen(), STANDARD_FEN);
}

#[test]
fn explicit_fide_backranks_match_default() {
    let mut config = GameConfig::default();
    config.white_backrank = STANDARD_BACK_RANK;
    config.black_backrank = STANDARD_BACK_RANK;
    let game = Game::new(config);
    assert_eq!(game.to_fen(), STANDARD_FEN);
}

#[test]
fn mirrored_back_ranks_match() {
    let mut config = GameConfig::default();
    config.white_backrank = SP_ID_0;
    config.black_backrank = SP_ID_0;
    let game = Game::new(config);
    let placement = game.to_fen().split_whitespace().next().unwrap().to_string();
    let ranks: Vec<&str> = placement.split('/').collect();
    assert_eq!(ranks[0], ranks[7].to_lowercase());
}

#[test]
fn independent_back_ranks_differ() {
    let mut config = GameConfig::default();
    config.white_backrank = SP_ID_0;
    config.black_backrank = SP_ID_959;
    let game = Game::new(config);
    let placement = game.to_fen().split_whitespace().next().unwrap().to_string();
    let ranks: Vec<&str> = placement.split('/').collect();
    assert_ne!(ranks[0], ranks[7].to_lowercase());
}

#[test]
fn chess_960_sp_id_518_yields_standard_fen() {
    let mut config = GameConfig::default();
    config.white_backrank = SP_ID_518;
    config.black_backrank = SP_ID_518;
    let game = Game::new(config);
    assert_eq!(game.to_fen(), STANDARD_FEN);
}

#[test]
fn castling_policy_suppresses_white_kingside_right() {
    let mut config = GameConfig::default();
    config.castling_policy = CastlingPolicy {
        white_kingside: false,
        ..CastlingPolicy::default()
    };
    let game = Game::new(config);
    let castling = castling_field(&game);
    assert!(!castling.contains('K'));
    assert!(castling.contains('Q'));
    assert!(castling.contains('k'));
    assert!(castling.contains('q'));
}

#[test]
fn castling_policy_all_false_yields_no_castling_field() {
    let mut config = GameConfig::default();
    config.castling_policy = CastlingPolicy {
        white_kingside: false,
        white_queenside: false,
        black_kingside: false,
        black_queenside: false,
    };
    let game = Game::new(config);
    assert_eq!(castling_field(&game), "-");
}

#[test]
fn turn_is_white_after_new() {
    let game = Game::new(GameConfig::default());
    assert_eq!(game.turn(), Some(Color::White));
}

#[test]
fn chess_960_sp_id_0_yields_expected_fen() {
    let mut config = GameConfig::default();
    config.white_backrank = SP_ID_0;
    config.black_backrank = SP_ID_0;
    let game = Game::new(config);
    assert_eq!(
        game.to_fen(),
        "bbqnnrkr/pppppppp/8/8/8/8/PPPPPPPP/BBQNNRKR w HFhf - 0 1"
    );
}

#[test]
fn castling_rights_need_a_rook_beside_the_king() {
    let mut config = GameConfig::default();
    config.white_backrank = [King, Rook, Knight, Bishop, Bishop, Queen, Knight, Rook];
    config.black_backrank = [Rook, Knight, Bishop, Queen, Bishop, Knight, Rook, King];
    let game = Game::new(config);
    assert_eq!(castling_field(&game), "Ha");
}

#[test]
fn rook_file_castling_letters_read_back() {
    for fen in [
        "bbqnnrkr/pppppppp/8/8/8/8/PPPPPPPP/BBQNNRKR w HFhf - 0 1",
        "rkrnnqbb/pppppppp/8/8/8/8/PPPPPPPP/RKRNNQBB b Cca - 3 9",
        "1r2k2r/8/8/8/8/8/8/R3K1R1 w GQkb - 0 1",
    ] {
        let position = Position::from_fen(fen).unwrap();
        assert_eq!(position.to_fen(), fen);
    }
}

#[test]
fn rook_file_letters_name_the_side_of_the_king() {
    let position = Position::from_fen("rnbqkbnr/8/8/8/8/8/8/RNBQKBNR w HAha - 0 1").unwrap();
    let rights = position.castling_rights();
    assert!(rights.white_kingside && rights.white_queenside);
    assert!(rights.black_kingside && rights.black_queenside);
    assert_eq!(position.to_fen(), "rnbqkbnr/8/8/8/8/8/8/RNBQKBNR w KQkq - 0 1");
}

#[test]
fn rook_file_letters_need_a_king_beside_them() {
    for fen in [
        "8/8/8/8/8/8/8/R6R w H - 0 1",
        "4k3/8/8/8/8/8/8/R3K2R w E - 0 1",
        "4k3/8/8/8/8/8/8/R3K2R w HK - 0 1",
        "4k3/8/8/8/8/8/8/R3K2R w KQkqx - 0 1",
    ] {
        match Position::from_fen(fen) {
            Err(Error::InvalidFen(text)) => assert_eq!(text, "The castling rights are invalid."),
            _ => panic!("{fen} should be refused"),
        }
    }
}
