use mine_with_friends::recompile::{event_name, game_action_paths, ContinuationPoint, RecompileEngine};
use mine_with_friends::simps::EventKey;

fn point(path: &str, filter: Option<&str>, accepts: bool) -> ContinuationPoint {
    ContinuationPoint { path: path.into(), filter: filter.map(|f| EventKey(f.into())), accepts }
}

#[test]
fn only_game_listeners_that_accept_hear_the_news() {
    let points = vec![
        point("a", Some("action_in_game"), true),
        point("b", Some("action_in_game"), false),
        point("c", Some("game_action_players_win"), true),
        point("d", None, true),
        point("e", Some("action_in_game"), true),
    ];
    assert_eq!(game_action_paths(&points), vec!["a".to_string(), "e".to_string()]);
}

#[test]
fn news_is_numbered_from_zero() {
    assert_eq!(event_name(0), "event-0");
    assert_eq!(event_name(1234), "event-1234");
    let mut e = RecompileEngine::new();
    assert_eq!(e.next_event_name(), "event-0");
    assert_eq!(e.next_event_name(), "event-1");
    assert_eq!(e.filed, 2);
}
