//! Tests of player-id resolution and decimal id parsing.

use tictactoe::players::{
    get_player, get_player_id_from_argument, is_ai_player, try_parse_i8, Strategy,
};

#[test]
fn player_ids_resolve_to_their_strategies() {
    assert_eq!(get_player(0), (Strategy::Mcts, "mcts", 0));
    assert_eq!(get_player(1), (Strategy::Random, "random", 1));
    assert_eq!(get_player(2), (Strategy::Minimax, "minimax", 2));
    assert_eq!(get_player(3), (Strategy::Simple, "simple", 3));
    assert_eq!(get_player(4), (Strategy::User, "user", 4));
}

#[test]
fn only_the_user_id_is_not_automated() {
    assert!(is_ai_player(0));
    assert!(is_ai_player(1));
    assert!(is_ai_player(2));
    assert!(is_ai_player(3));
    assert!(!is_ai_player(4));
}

#[test]
fn parsing_accepts_what_the_standard_parser_accepts() {
    assert_eq!(try_parse_i8("0"), Some(0));
    assert_eq!(try_parse_i8("4"), Some(4));
    assert_eq!(try_parse_i8("42"), Some(42));
    assert_eq!(try_parse_i8("127"), Some(127));
    assert_eq!(try_parse_i8("+7"), Some(7));
    assert_eq!(try_parse_i8("-12"), Some(-12));
    assert_eq!(try_parse_i8("-128"), Some(-128));
    assert_eq!(try_parse_i8("007"), Some(7));
}

#[test]
fn parsing_rejects_what_the_standard_parser_rejects() {
    assert_eq!(try_parse_i8(""), None);
    assert_eq!(try_parse_i8("-"), None);
    assert_eq!(try_parse_i8("+"), None);
    assert_eq!(try_parse_i8("abc"), None);
    assert_eq!(try_parse_i8("1a"), None);
    assert_eq!(try_parse_i8(" 1"), None);
    assert_eq!(try_parse_i8("128"), None);
    assert_eq!(try_parse_i8("-129"), None);
    assert_eq!(try_parse_i8("99999999999999999999"), None);
}

#[test]
fn parsing_agrees_with_the_standard_parser_on_samples() {
    let samples = [
        "0", "1", "9", "10", "99", "100", "126", "127", "128", "200", "-0", "-1", "-127", "-128",
        "-129", "+0", "+127", "", "-", "+", "x", "12x", "0127",
    ];
    for s in samples {
        assert_eq!(try_parse_i8(s), s.parse::<i8>().ok(), "input {s:?}");
    }
}

#[test]
fn argument_parsing_yields_the_player_id() {
    assert_eq!(get_player_id_from_argument(Some(String::from("3"))), 3);
    assert_eq!(get_player_id_from_argument(Some(String::from("0"))), 0);
}
