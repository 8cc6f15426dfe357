use chessrw::error::MoveError;
use chessrw::fen::FENParserBuilder;
use chessrw::game::ChessGameImpl;
use chessrw::parser::ChessParserBuilder;
use chessrw::position::ChessPosition;
use chessrw::scanner::{contains, count_matches, is_match, ScanError};

fn games(text: &str) -> Vec<ChessGameImpl> {
    let p = ChessParserBuilder::new().build();
    let mut it = p.parse_string(text);
    let mut out = Vec::new();
    while let Some(g) = it.next_game() {
        out.push(g);
    }
    out
}

fn target_after(moves: &[&str]) -> ChessPosition {
    let mut p = ChessPosition::initial_position();
    for m in moves {
        assert_eq!(p.apply_move(m), None);
    }
    p
}

const ARCHIVE: &str = "1. e4 e5 2. Nf3 Nc6 *\n\n1. Nf3 Nc6 2. e4 e5 *\n\n1. d4 d5 *\n\n1. e4 e6 2. Qz9 *\n\n[FEN \"4k3/8/8/8/8/8/8/4K3 w - - 0 1\"]\n\n1. Kd2 *\n\n";

#[test]
fn contains_reports_matches_and_errors() {
    let gs = games(ARCHIVE);
    assert_eq!(gs.len(), 5);
    let target = target_after(&["e4", "e5", "Nf3", "Nc6"]);
    assert_eq!(contains(&gs[0], &target), Ok(true));
    assert_eq!(contains(&gs[1], &target), Ok(true));
    assert_eq!(contains(&gs[2], &target), Ok(false));
    assert_eq!(contains(&gs[3], &target), Err(ScanError::Move(2, MoveError::InvalidSquare)));
    assert_eq!(contains(&gs[4], &target), Ok(false));
    let start = FENParserBuilder::new().build().parse("4k3/8/8/8/8/8/3K4/8 b - - 1 1").unwrap();
    assert_eq!(contains(&gs[4], &start), Ok(true));
}

#[test]
fn counts_agree_however_split() {
    let target = Some(target_after(&["e4", "e5", "Nf3", "Nc6"]));
    let all = games(ARCHIVE);
    let whole = count_matches(&all, &target);
    assert_eq!(whole, 2);
    let mut first = games(ARCHIVE);
    let second = first.split_off(2);
    let mut third = Vec::new();
    third.push(first.pop().unwrap());
    assert_eq!(count_matches(&first, &target) + count_matches(&second, &target) + count_matches(&third, &target), whole);
    assert_eq!(count_matches(&all, &None), 5);
    assert!(is_match(&all[2], &None));
    assert!(!is_match(&all[3], &target));
}
