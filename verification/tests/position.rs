use reconchess_rs::{Piece, Position, Square};

fn sq(file: u8, rank: u8) -> Square {
    Square::from_coords(file, rank).unwrap()
}

#[test]
fn position_standard_position_round_trips_as_fen() {
    let position = Position::standard();
    assert_eq!(
        position.to_fen(),
        "rnbqkbnr/pppppppp/8/8/8/8/PPPPPPPP/RNBQKBNR w KQkq - 0 1"
    );
}

#[test]
fn position_preserves_en_passant_from_fen() {
    let position = Position::from_fen("4k3/8/8/8/4P3/8/8/4K3 b - e3 0 1").unwrap();
    assert_eq!(position.en_passant(), Some(sq(4, 2)));
}

#[test]
fn position_can_render_after_king_capture() {
    let mut position = Position::from_fen("4k3/8/8/8/8/8/8/4K3 w - - 0 1").unwrap();
    let removed: Option<Piece> = None;
    position.set_piece(sq(4, 7), removed);
    assert_eq!(position.to_fen(), "8/8/8/8/8/8/8/4K3 w - - 0 1");
}
