use chessrw::filter::{tags_filter_players, white_vs_black, TagsFilter};
use chessrw::game::Tags;

#[test]
fn filter_players() {
    let tags_filter = tags_filter_players("capablanca");

    let tags = white_vs_black("Capablanca, Jose Raul", "Corzo y Prinzipe, Juan", None);

    assert_eq!(tags_filter.filter_players(&tags), true);
}

#[test]
fn filter_players_wins() {
    let tags_filter = tags_filter_players("+capablanca");

    let tags = white_vs_black("Capablanca, Jose Raul", "Corzo y Prinzipe, Juan", Some("1-0"));

    assert_eq!(tags_filter.filter_players(&tags), true);
}

#[test]
fn filter_players_wins_fail() {
    let tags_filter = tags_filter_players("+capablanca");

    let tags = white_vs_black("Capablanca, Jose Raul", "Corzo y Prinzipe, Juan", Some("0-1"));

    assert_eq!(tags_filter.filter_players(&tags), false);
}

#[test]
fn filter_players_loose() {
    let tags_filter = tags_filter_players("-capablanca");

    let tags = white_vs_black("Capablanca, Jose Raul", "Corzo y Prinzipe, Juan", Some("0-1"));

    assert_eq!(tags_filter.filter_players(&tags), true);
}

#[test]
fn filter_players_between() {
    let tags_filter = tags_filter_players("*capablanca,corzo");

    let tags = white_vs_black("Capablanca, Jose Raul", "Corzo y Prinzipe, Juan", None);

    assert_eq!(tags_filter.filter_players(&tags), true);
}

#[test]
fn filter_players_between_wins() {
    let tags_filter = tags_filter_players("*+capablanca,corzo");

    let tags = white_vs_black("Capablanca, Jose Raul", "Corzo y Prinzipe, Juan", Some("1-0"));

    assert_eq!(tags_filter.filter_players(&tags), true);
}

#[test]
fn filter_players_between_wins_fail() {
    let tags_filter = tags_filter_players("*+capablanca,corzo");

    let tags = white_vs_black("Capablanca, Jose Raul", "Corzo y Prinzipe, Juan", Some("0-1"));

    assert_eq!(tags_filter.filter_players(&tags), false);
}

#[test]
fn filter_players_between_wins_impossible_fail() {
    let tags_filter = tags_filter_players("*+capablanca,+corzo");

    let tags = white_vs_black("Capablanca, Jose Raul", "Corzo y Prinzipe, Juan", Some("1-0"));

    assert_eq!(tags_filter.filter_players(&tags), false);
}

#[test]
fn filter_players_upper_case_list() {
    let tags_filter = tags_filter_players("CAPABLANCA");
    let tags = white_vs_black("Capablanca, Jose Raul", "Corzo y Prinzipe, Juan", None);
    assert!(tags_filter.filter_players(&tags));
    let other = tags_filter_players("lasker");
    assert!(!other.filter_players(&tags));
}

#[test]
fn filter_results_and_ply_count() {
    let mut tags = white_vs_black("A", "B", Some("1/2-1/2"));
    tags.insert("PlyCount".to_string(), "80".to_string());
    let draws = TagsFilter::new(false, false, true, None, None);
    assert!(draws.filter(&tags));
    let wins = TagsFilter::new(true, true, false, None, None);
    assert!(!wins.filter(&tags));
    let long = TagsFilter::new(false, false, false, Some(60), None);
    assert!(long.apply());
    assert!(long.filter(&tags));
    let longer = TagsFilter::new(false, false, false, Some(81), None);
    assert!(!longer.filter(&tags));
    let empty = Tags::new();
    assert!(!long.filter_ply_count(&empty));
    let none = TagsFilter::new(false, false, false, None, None);
    assert!(!none.apply());
    assert!(none.filter(&empty));
}
