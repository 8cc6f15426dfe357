use chessrw::filter::TagsFilter;
use chessrw::game::ChessGameImpl;
use chessrw::parser::{ChessParserBuilder, ChessParserImpl, ChessParserIterator, result_from_pgn, GameResultReason};
use chessrw::writer::{format_game, ChessWriterConfig};

fn collect(mut it: ChessParserIterator) -> Vec<ChessGameImpl> {
    let mut result = Vec::new();
    while let Some(game) = it.next_game() {
        result.push(game);
    }
    result
}

fn parse_all(p: &ChessParserImpl, text: &str) -> Vec<ChessGameImpl> {
    collect(p.parse_string(text))
}

#[test]
fn parse_string() {
    let builder = ChessParserBuilder::new();
    let p = builder.build();

    let games: Vec<ChessGameImpl> = parse_all(&p, "1. d4 Nf6 2. c4 e6 3. Nc3 *");

    assert_eq!(5, games[0].get_moves().len());
}

#[test]
fn parse_one_game_with_tags() {
    let p = ChessParserBuilder::new().build();
    let games = parse_all(&p, "[Event \"Test\"]\n\n1. d4 Nf6 2. c4 e6 *\n\n");
    assert_eq!(games.len(), 1);
    let g = &games[0];
    assert_eq!(g.get_tags().len(), 1);
    assert_eq!(g.get_tags().get("Event"), Some("Test".to_string()));
    assert_eq!(g.get_moves(), &vec!["d4".to_string(), "Nf6".to_string(), "c4".to_string(), "e6".to_string()]);
    assert_eq!(g.get_game_result(), "*");
}

#[test]
fn comments_and_variations() {
    let p = ChessParserBuilder::new().build();
    let text = "1. e4 e5 2. Nf3 Nc6 3. Bb5 a6 4. Ba4 Nf6 5. Nc3 {c1} (5. Nf3 Qh4) {c2} 5... Be7 *\n\n";
    let games = parse_all(&p, text);
    let g = &games[0];
    // Nc3 is the move of index 8
    assert_eq!(g.get_moves()[8], "Nc3");
    assert_eq!(g.get_comment(8), Some("c1".to_string()));
    assert_eq!(g.get_variations(8), Some(vec!["5. Nf3 Qh4".to_string()]));
    assert_eq!(g.get_after_variation_comment(8, 0), Some("c2".to_string()));
    assert_eq!(g.get_moves()[9], "Be7");
    assert_eq!(g.get_comment(9), None);
}

#[test]
fn nested_variations_and_glyphs() {
    let p = ChessParserBuilder::new().build();
    let text = "{before} 1. e4 $1 $14 e5 (1... c5 (1... e6) 2. Nf3\n Nc6) 2. Nf3 1-0\n\n";
    let games = parse_all(&p, text);
    let g = &games[0];
    assert_eq!(g.get_before_moves_comment(), Some("before".to_string()));
    assert_eq!(g.get_nags(0), Some(vec!["1".to_string(), "14".to_string()]));
    assert_eq!(g.get_nags(1), None);
    assert_eq!(g.get_variations(1), Some(vec!["1... c5 (1... e6) 2. Nf3  Nc6".to_string()]));
    assert_eq!(g.get_moves(), &vec!["e4".to_string(), "e5".to_string(), "Nf3".to_string()]);
    assert_eq!(g.get_game_result(), "1-0");
}

#[test]
fn ignoring_comments_and_variations() {
    let mut b = ChessParserBuilder::new();
    b.ignore_comments();
    b.ignore_variations();
    let p = b.build();
    let games = parse_all(&p, "1. e4 {a comment} e5 (1... c5) {after} 2. Nf3 *\n\n");
    let g = &games[0];
    assert_eq!(g.get_moves().len(), 3);
    assert_eq!(g.get_comment(0), None);
    assert_eq!(g.get_variations(1), None);
    assert_eq!(g.get_after_variation_comment(1, 0), None);
}

#[test]
fn several_games_and_filter() {
    let text = "[White \"A\"]\n[Result \"1-0\"]\n\n1. e4 e5 1-0\n\n[White \"B\"]\n[Result \"0-1\"]\n\n1. d4 d5 0-1\n\n[White \"C\"]\n[Result \"1-0\"]\n\n1. c4 1-0\n";
    let all = parse_all(&ChessParserBuilder::new().build(), text);
    assert_eq!(all.len(), 3);
    assert_eq!(all[2].get_moves(), &vec!["c4".to_string()]);
    let mut b = ChessParserBuilder::new();
    b.tag_filter(TagsFilter::new(true, false, false, None, None));
    let wins = parse_all(&b.build(), text);
    assert_eq!(wins.len(), 2);
    assert_eq!(wins[0].get_tags().get("White"), Some("A".to_string()));
    assert_eq!(wins[1].get_tags().get("White"), Some("C".to_string()));
    assert_eq!(wins[1].get_tags().len(), 2);
}

#[test]
fn result_from_tag_when_moves_have_none() {
    let games = parse_all(&ChessParserBuilder::new().build(), "[Result \"1/2-1/2\"]\n\n1. e4 e5\n\n");
    assert_eq!(games[0].get_game_result(), "1/2-1/2");
    assert_eq!(games[0].get_moves().len(), 2);
}

#[test]
fn termination_values() {
    assert_eq!(result_from_pgn(&"normal".chars().collect()), GameResultReason::Normal);
    assert_eq!(result_from_pgn(&"rules infraction".chars().collect()), GameResultReason::RulesInfraction);
    assert_eq!(result_from_pgn(&"time forfeit".chars().collect()), GameResultReason::Unrecognized);
    // an unknown value does not stop the parse
    let games = parse_all(&ChessParserBuilder::new().build(), "[Termination \"whatever\"]\n\n1. e4 *\n\n");
    assert_eq!(games.len(), 1);
}

#[test]
fn empty_input() {
    assert_eq!(parse_all(&ChessParserBuilder::new().build(), "").len(), 0);
    assert_eq!(parse_all(&ChessParserBuilder::new().build(), "\n\n  \n").len(), 0);
}

#[test]
fn round_trip_through_text() {
    let p = ChessParserBuilder::new().build();
    let text = "[Event \"Round trip\"]\n[White \"A\"]\n\n1. e4 e5 2. Nf3 Nc6 3. Bb5 a6 4. Ba4 Nf6 5. O-O Be7 6. Re1 b5 1/2-1/2\n\n";
    let games = parse_all(&p, text);
    let out = format_game(&games[0], &ChessWriterConfig { notags: false }).unwrap();
    let again = parse_all(&p, &out);
    assert_eq!(again.len(), 1);
    assert_eq!(again[0].get_moves(), games[0].get_moves());
    assert_eq!(again[0].get_game_result(), games[0].get_game_result());
    assert_eq!(again[0].get_tags().len(), 2);
    assert_eq!(again[0].get_tags().get("Event"), Some("Round trip".to_string()));
    assert_eq!(again[0].get_tags().get("White"), Some("A".to_string()));
}

#[test]
fn game_text_layout() {
    let p = ChessParserBuilder::new().build();
    let games = parse_all(&p, "[Event \"E\"]\n\n1. e4 $1 {good} (1. d4) {also} e5 *\n\n");
    let out = format_game(&games[0], &ChessWriterConfig { notags: false }).unwrap();
    assert_eq!(out, "[Event \"E\"]\n\n1. e4 $1 {good} (1. d4) {also}e5 *\n\n");
    let bare = format_game(&games[0], &ChessWriterConfig { notags: true }).unwrap();
    assert_eq!(bare, "1. e4 $1 {good} (1. d4) {also}e5 *\n\n");
    let black = parse_all(&p, "[FEN \"4k3/8/8/8/8/8/8/4K3 b - - 0 12\"]\n\n12... Kd7 13. Kd2 *\n\n");
    let text = format_game(&black[0], &ChessWriterConfig { notags: true }).unwrap();
    assert_eq!(text, "12... Kd7 12. Kd2 *\n\n");
}

#[test]
fn comment_and_variation_text_is_trimmed() {
    let p = ChessParserBuilder::new().build();
    let games = parse_all(&p, "1. e4 { spaced\n out } ( 1. d4 ) *\n\n");
    assert_eq!(games[0].get_comment(0), Some("spaced  out".to_string()));
    assert_eq!(games[0].get_variations(0), Some(vec!["1. d4".to_string()]));
}

#[test]
fn nested_variation_kept_verbatim() {
    let p = ChessParserBuilder::new().build();
    let games = parse_all(&p, "1. e4 e5 (1... c5 (1... e6) 2. Nf3) {c} 2. Nf3 *\n\n");
    assert_eq!(games[0].get_variations(1), Some(vec!["1... c5 (1... e6) 2. Nf3".to_string()]));
    assert_eq!(games[0].get_after_variation_comment(1, 0), Some("c".to_string()));
    let mut b = ChessParserBuilder::new();
    b.ignore_variations();
    let ignored = parse_all(&b.build(), "1. e4 e5 (1... c5 (1... e6) 2. Nf3) {c} 2. Nf3 *\n\n");
    assert_eq!(ignored[0].get_variations(1), None);
    assert_eq!(ignored[0].get_after_variation_comment(1, 0), Some("c".to_string()));
    assert_eq!(ignored[0].get_comment(1), None);
}

#[test]
fn size_counts_games() {
    let p = ChessParserBuilder::new().build();
    let it = p.parse_string("1. e4 *\n\n1. d4 *\n\n1. c4 *\n");
    assert_eq!(it.size(), 3);
    assert_eq!(p.parse_string("").size(), 0);
}
