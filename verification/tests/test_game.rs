use rust_chess_core::board::{Board, PieceColor, PieceType};
use rust_chess_core::game::{Game, MoveError};
use rust_chess_core::moves::Move;
use rust_chess_core::movegen::PieceMovesIter;
use rust_chess_core::pos::Pos;

fn play(game: &mut Game, notation: &str) {
    let mv = Move::from_long_notation(notation);
    game.make_move(&mv).unwrap();
}

#[test]
fn fools_mate_sequence_concludes_with_black_winner() {
    let mut game = Game::new();
    play(&mut game, "f2f3");
    play(&mut game, "e7e5");
    play(&mut game, "g2g4");
    assert!(game.result().is_none());
    play(&mut game, "d8h4");

    assert!(game.is_check());
    let result = game.result().as_ref().expect("game must be concluded");
    assert_eq!(result.winner, Some(PieceColor::Black));
    assert_eq!(game.get_moves_from(4, 0).len(), 0);
}

#[test]
fn game_over_rejects_further_moves() {
    let mut game = Game::new();
    play(&mut game, "f2f3");
    play(&mut game, "e7e5");
    play(&mut game, "g2g4");
    play(&mut game, "d8h4");
    let mv = Move::from_long_notation("a2a3");
    assert_eq!(game.make_move(&mv), Err(MoveError::GameAlreadyOver));
}

#[test]
fn en_passant_capture_removes_the_captured_pawn() {
    let board = Board::from_string(
        "
        8  -- :: -- bK -- :: -- ::
        7  :: -- :: -- bp -- bp --
        6  -- :: -- :: -- :: -- ::
        5  :: -- :: -- :: wp :: --
        4  -- :: -- wp -- :: -- ::
        3  :: -- :: -- :: -- :: --
        2  -- :: -- :: wp :: -- ::
        1  :: -- :: wK :: -- :: --
            a  b  c  d  e  f  g  h
    ",
    )
    .unwrap();
    let mut game = Game::from_board(board, PieceColor::Black);
    play(&mut game, "e7e5");
    play(&mut game, "f5e6");

    // the pawn that advanced two squares to e5 is gone
    assert!(game.board().at(4, 4).is_empty());
    // the capturing pawn stands on e6 and left f5
    assert_eq!(
        game.board().at(4, 5).piece(),
        Some((PieceType::Pawn, PieceColor::White))
    );
    assert!(game.board().at(5, 4).is_empty());
}

#[test]
fn promotion_requires_and_honors_the_promotion_field() {
    let board = Board::from_string(
        "
        8  -- :: -- bK -- :: -- ::
        7  :: -- :: -- wp -- :: --
        6  -- :: -- :: -- :: -- ::
        5  :: -- :: -- :: -- :: --
        4  -- :: -- :: -- :: -- ::
        3  :: -- :: -- :: -- :: --
        2  -- :: -- :: -- :: -- ::
        1  :: -- :: -- wK -- :: --
            a  b  c  d  e  f  g  h
    ",
    )
    .unwrap();
    let mut game = Game::from_board(board, PieceColor::White);

    let without_promotion = Move::new(4, 6, 4, 7);
    assert!(game.validate_move(&without_promotion).is_err());

    let with_promotion = Move::with_promotion(4, 6, 4, 7, PieceType::Queen);
    game.make_move(&with_promotion).unwrap();
    assert_eq!(
        game.board().at(4, 7).piece(),
        Some((PieceType::Queen, PieceColor::White))
    );
}

#[test]
fn promotion_field_on_non_pawn_is_rejected() {
    let game = Game::new();
    let mv = Move::with_promotion(1, 0, 2, 2, PieceType::Queen);
    assert_eq!(game.validate_move(&mv), Err(MoveError::InvalidPromotion));
}

#[test]
fn validate_move_error_taxonomy() {
    let game = Game::new();

    let out_of_bounds = Move {
        from_col: -1,
        from_row: 0,
        to_col: 0,
        to_row: 0,
        promotion_to: None,
    };
    assert_eq!(game.validate_move(&out_of_bounds), Err(MoveError::OutOfBounds));

    let null_move = Move::new(4, 1, 4, 1);
    assert_eq!(game.validate_move(&null_move), Err(MoveError::NullMove));

    let empty_square = Move::new(4, 3, 4, 4);
    assert_eq!(game.validate_move(&empty_square), Err(MoveError::EmptySquare));

    let wrong_side = Move::new(4, 6, 4, 4);
    assert_eq!(game.validate_move(&wrong_side), Err(MoveError::WrongSideToMove));

    let own_piece = Move::new(0, 0, 0, 1);
    assert_eq!(game.validate_move(&own_piece), Err(MoveError::OwnPieceBlocked));

    let bad_geometry = Move::new(4, 1, 4, 4);
    assert_eq!(
        game.validate_move(&bad_geometry),
        Err(MoveError::InvalidPieceGeometry)
    );

    let legal = Move::new(4, 1, 4, 3);
    assert_eq!(game.validate_move(&legal), Ok(()));
}

#[test]
fn pinned_piece_cannot_move() {
    let board = Board::from_string(
        "
        8  -- :: -- :: bK :: -- ::
        7  :: -- :: -- bR -- :: --
        6  -- :: -- :: -- :: -- ::
        5  :: -- :: -- :: -- :: --
        4  -- :: -- :: -- :: -- ::
        3  :: -- :: -- :: -- :: --
        2  -- :: -- :: wR :: -- ::
        1  :: -- :: -- wK -- :: --
            a  b  c  d  e  f  g  h
    ",
    )
    .unwrap();
    let game = Game::from_board(board, PieceColor::White);

    let sideways = Move::new(4, 1, 0, 1);
    assert_eq!(
        game.validate_move(&sideways),
        Err(MoveError::WouldLeaveKingInCheck)
    );
    let along_the_pin = Move::new(4, 1, 4, 5);
    assert_eq!(game.validate_move(&along_the_pin), Ok(()));
}

#[test]
fn short_notation_parses_and_resolves() {
    let mut game = Game::new();
    let mv = game.parse_short_notation("e4").unwrap();
    assert_eq!(mv, Move::from_long_notation("e2e4"));
    game.make_move(&mv).unwrap();

    let mv = game.parse_short_notation("d5").unwrap();
    assert_eq!(mv, Move::from_long_notation("d7d5"));
    game.make_move(&mv).unwrap();

    let mv = game.parse_short_notation("exd5").unwrap();
    assert_eq!(mv, Move::from_long_notation("e4d5"));
    game.make_move(&mv).unwrap();

    let mv = game.parse_short_notation("Nf6").unwrap();
    assert_eq!(mv, Move::from_long_notation("g8f6"));
}

#[test]
fn short_notation_errors() {
    let game = Game::new();
    assert_eq!(
        game.parse_short_notation("???"),
        Err(MoveError::NotationParseError)
    );
    // no piece can reach e5 from the start position
    assert_eq!(
        game.parse_short_notation("Ne5"),
        Err(MoveError::NoLegalMoveFound)
    );

    let board = Board::from_string(
        "
        8  -- :: -- bK -- :: -- ::
        7  :: -- :: -- :: -- :: --
        6  -- :: -- :: -- :: -- ::
        5  :: -- :: -- :: -- :: --
        4  -- :: -- :: -- :: -- ::
        3  :: -- :: -- :: -- :: --
        2  -- :: -- :: -- :: -- ::
        1  :: wN :: -- wK wN :: --
            a  b  c  d  e  f  g  h
    ",
    )
    .unwrap();
    let game = Game::from_board(board, PieceColor::White);
    assert_eq!(
        game.parse_short_notation("Nd2"),
        Err(MoveError::AmbiguousNotation)
    );
    let disambiguated = game.parse_short_notation("Nbd2").unwrap();
    assert_eq!(disambiguated, Move::from_long_notation("b1d2"));
}

#[test]
fn short_notation_promotion_spellings() {
    let board_str = "
        8  -- :: -- bK -- :: -- ::
        7  :: -- :: -- wp -- :: --
        6  -- :: -- :: -- :: -- ::
        5  :: -- :: -- :: -- :: --
        4  -- :: -- :: -- :: -- ::
        3  :: -- :: -- :: -- :: --
        2  -- :: -- :: -- :: -- ::
        1  :: -- :: -- wK -- :: --
            a  b  c  d  e  f  g  h
    ";
    let expected = Move::with_promotion(4, 6, 4, 7, PieceType::Queen);
    for text in ["e8=Q", "e8/Q", "e8(Q)", "e8Q"] {
        let board = Board::from_string(board_str).unwrap();
        let game = Game::from_board(board, PieceColor::White);
        assert_eq!(game.parse_short_notation(text), Ok(expected), "spelling {}", text);
    }
    let board = Board::from_string(board_str).unwrap();
    let game = Game::from_board(board, PieceColor::White);
    let rook = game.parse_short_notation("e8=R").unwrap();
    assert_eq!(rook, Move::with_promotion(4, 6, 4, 7, PieceType::Rook));
}

#[test]
fn short_notation_castling_tokens() {
    let board_str = "
        8  bR :: -- :: bK :: -- bR
        7  :: -- :: -- :: -- bp --
        6  -- :: -- :: -- :: -- ::
        5  :: -- :: -- :: -- :: --
        4  -- :: wp :: -- :: -- ::
        3  :: -- :: -- wK -- :: --
        2  -- :: -- :: -- :: -- ::
        1  :: -- :: -- :: -- :: --
            a  b  c  d  e  f  g  h
    ";
    for (text, target) in [("O-O", "e8g8"), ("0-0", "e8g8"), ("o-o", "e8g8"), ("O-O-O", "e8c8"), ("0-0-0", "e8c8"), ("o-o-o", "e8c8")] {
        let board = Board::from_string(board_str).unwrap();
        let game = Game::from_board(board, PieceColor::Black);
        let mv = game.parse_short_notation(text).unwrap();
        assert_eq!(mv, Move::from_long_notation(target), "token {}", text);
    }
}

#[test]
fn castling_relocates_the_rook() {
    let board = Board::from_string(
        "
        8  bR :: -- :: bK :: -- bR
        7  :: -- :: -- :: -- bp --
        6  -- :: -- :: -- :: -- ::
        5  :: -- :: -- :: -- :: --
        4  -- :: wp :: -- :: -- ::
        3  :: -- :: -- wK -- :: --
        2  -- :: -- :: -- :: -- ::
        1  :: -- :: -- :: -- :: --
            a  b  c  d  e  f  g  h
    ",
    )
    .unwrap();
    let mut game = Game::from_board(board, PieceColor::Black);
    play(&mut game, "e8g8");

    assert_eq!(
        game.board().at(6, 7).piece(),
        Some((PieceType::King, PieceColor::Black))
    );
    assert_eq!(
        game.board().at(5, 7).piece(),
        Some((PieceType::Rook, PieceColor::Black))
    );
    assert!(game.board().at(4, 7).is_empty());
    assert!(game.board().at(7, 7).is_empty());
}

#[test]
fn long_notation_round_trips() {
    let plain = Move::new(4, 1, 4, 3);
    assert_eq!(plain.long_notation(), "e2e4");
    assert_eq!(Move::from_long_notation(&plain.long_notation()), plain);

    for piece in [
        PieceType::Queen,
        PieceType::Rook,
        PieceType::Bishop,
        PieceType::Knight,
    ] {
        let mv = Move::with_promotion(0, 6, 0, 7, piece);
        let text = mv.long_notation();
        assert_eq!(Move::from_long_notation(&text), mv, "notation {}", text);
    }
    assert_eq!(
        Move::with_promotion(0, 6, 0, 7, PieceType::Queen).long_notation(),
        "a7a8q"
    );
}

#[test]
fn get_moves_from_is_idempotent() {
    let game = Game::new();
    let first: Vec<Move> = game.get_moves_from(4, 1).to_vec();
    let second: Vec<Move> = game.get_moves_from(4, 1).to_vec();
    assert_eq!(first, second);
    assert_eq!(first.len(), 2);
}

#[test]
fn stalemate_concludes_as_a_draw() {
    let board = Board::from_string(
        "
        8  -- :: -- :: -- :: -- bK
        7  :: -- :: -- :: wQ :: --
        6  -- :: -- :: -- :: wK ::
        5  :: -- :: -- :: -- :: --
        4  -- :: -- :: -- :: -- ::
        3  :: -- :: -- :: -- :: --
        2  -- :: -- :: -- :: -- ::
        1  :: -- :: -- :: -- :: --
            a  b  c  d  e  f  g  h
    ",
    )
    .unwrap();
    let game = Game::from_board(board, PieceColor::Black);
    assert!(!game.is_check());
    let result = game.result().as_ref().expect("stalemate must conclude");
    assert_eq!(result.winner, None);
}

#[test]
fn pos_notation_parsing() {
    let pos = Pos::from_notation("e2").unwrap();
    assert_eq!(pos.tuple(), (4, 1));
    assert!(Pos::from_notation("e").is_err());
    assert!(Pos::from_notation("i2").is_err());
    assert!(Pos::from_notation("e9").is_err());
    assert!(Pos::new(3, 9).is_out_of_bounds());
    assert!(!Pos::new(0, 7).is_out_of_bounds());
}

#[test]
fn piece_moves_iter_yields_each_legal_move_once() {
    let game = Game::new();
    let mut iter = PieceMovesIter::new(&game, Some(PieceType::Knight), PieceColor::White, 1, 0);
    let mut yielded: Vec<Move> = Vec::new();
    while let Some(mv) = iter.next() {
        assert!(!yielded.contains(&mv), "duplicate {:?}", mv);
        yielded.push(mv);
    }
    let cached = game.get_moves_from(1, 0);
    assert_eq!(yielded.len(), cached.len());
    for mv in cached {
        assert!(yielded.contains(mv));
    }
    assert_eq!(yielded.len(), 2);

    let mut empty_iter = PieceMovesIter::new(&game, None, PieceColor::White, 1, 0);
    assert_eq!(empty_iter.next(), None);
}

#[test]
fn pos_offset_arithmetic() {
    let base = Pos::new(4, 1);
    let stepped = base.offset(&Pos::new(-1, 2));
    assert_eq!(stepped.tuple(), (3, 3));
    assert!(!stepped.is_out_of_bounds());
    assert!(base.offset(&Pos::new(4, 0)).is_out_of_bounds());
    assert!(Pos::invalid().is_out_of_bounds());
}
