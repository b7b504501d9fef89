use rust_chess_core::board::{Board, PieceColor, PieceType};
use rust_chess_core::boardtext::BoardParseError;

#[test]
fn parsing_board_str_works() {
    let board_parsed = Board::from_string(
        "
            -- :: -- bK -- :: -- ::
            :: -- :: -- bR -- :: --
            -- :: -- :: -- :: -- ::
            :: -- :: -- :: -- :: --
            -- :: -- :: -- :: -- ::
            :: -- :: -- :: -- :: --
            -- :: -- :: wp :: -- ::
            :: -- :: wK :: -- :: --
        ",
    )
    .expect("Failed to parse board string");

    let mut board_manual = Board::empty();
    board_manual.set(3, 0, PieceType::King, PieceColor::White);
    board_manual.set(4, 1, PieceType::Pawn, PieceColor::White);
    board_manual.set(4, 6, PieceType::Rook, PieceColor::Black);
    board_manual.set(3, 7, PieceType::King, PieceColor::Black);

    assert_eq!(board_parsed, board_manual);
}

#[test]
fn board_display_exact_start_position() {
    let board = Board::new_chess_game();
    let expected = "\n8  bR bN bB bQ bK bB bN bR\n7  bp bp bp bp bp bp bp bp\n6  -- :: -- :: -- :: -- ::\n5  :: -- :: -- :: -- :: --\n4  -- :: -- :: -- :: -- ::\n3  :: -- :: -- :: -- :: --\n2  wp wp wp wp wp wp wp wp\n1  wR wN wB wQ wK wB wN wR\n    a  b  c  d  e  f  g  h\n";
    assert_eq!(board.get_display_str(true), expected);
}

#[test]
fn board_diagram_round_trips() {
    let board = Board::new_chess_game();
    let text = board.get_display_str(true);
    let reparsed = Board::from_string(&text).unwrap();
    assert_eq!(reparsed, board);

    let bare = board.get_display_str(false);
    let reparsed_bare = Board::from_string(&bare).unwrap();
    assert_eq!(reparsed_bare, board);
}

#[test]
fn board_parse_too_many_lines() {
    let text = "--\n::\n--\n::\n--\n::\n--\n::\nanything\nextra";
    assert_eq!(Board::from_string(text), Err(BoardParseError::TooManyLines));
}

#[test]
fn board_parse_too_many_tokens() {
    let text = ":: -- :: -- :: -- :: -- :: --";
    assert_eq!(
        Board::from_string(text),
        Err(BoardParseError::TooManyTokens { row: 7 })
    );
}

#[test]
fn board_parse_shade_mismatch() {
    assert_eq!(
        Board::from_string("-- --"),
        Err(BoardParseError::InvalidLightSquare { col: 1, row: 7 })
    );
    assert_eq!(
        Board::from_string(":: --"),
        Err(BoardParseError::InvalidDarkSquare { col: 0, row: 7 })
    );
}

#[test]
fn board_parse_bad_piece_tokens() {
    assert_eq!(
        Board::from_string("-- :: xp"),
        Err(BoardParseError::InvalidPieceColor { col: 2, row: 7 })
    );
    assert_eq!(
        Board::from_string("-- :: wz"),
        Err(BoardParseError::InvalidPieceType { col: 2, row: 7 })
    );
    assert_eq!(
        Board::from_string("-- :: wKK"),
        Err(BoardParseError::InvalidToken { col: 2, row: 7 })
    );
}

#[test]
fn ninth_line_of_file_letters_is_ignored() {
    let with_footer = Board::from_string(
        "-- :: -- :: bK :: -- ::\n\
         :: -- :: -- :: -- :: --\n\
         -- :: -- :: -- :: -- ::\n\
         :: -- :: -- :: -- :: --\n\
         -- :: -- :: -- :: -- ::\n\
         :: -- :: -- :: -- :: --\n\
         -- :: -- :: -- :: -- ::\n\
         :: -- :: -- wK -- :: --\n\
         a  b  c  d  e  f  g  h",
    )
    .unwrap();
    let mut manual = Board::empty();
    manual.set(4, 7, PieceType::King, PieceColor::Black);
    manual.set(4, 0, PieceType::King, PieceColor::White);
    assert_eq!(with_footer, manual);
}
