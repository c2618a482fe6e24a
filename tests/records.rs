use board_game_parser::game::{parse_games, Game, GameParseError};
use board_game_parser::grammar::{Grammar, Rule};

fn game_of(input: &str) -> Game {
    let pair = Grammar::parse(Rule::game, input).expect("a game");
    Game::from_pair(&pair, input)
}

fn block(name: &str, age: &str, time: &str, players: &str, price: &str) -> String {
    format!(
        "Name: {}\nAuthor: Someone\nAge: {}\nTime: {}\nPlayers: {}\nPrice: {} EUR\n",
        name, age, time, players, price
    )
}

#[test]
fn chess_record_from_pair() {
    let input = "Name: Chess\nAuthor: John Doe\nAge: 10\nTime: 30-60\nPlayers: 2-4\nPrice: 30 USD\n";
    let g = game_of(input);
    assert_eq!(g.name, "Chess");
    assert_eq!(g.author, "John Doe");
    assert_eq!(g.age, 10);
    assert_eq!(g.min_time, 30);
    assert_eq!(g.max_time, Some(60));
    assert_eq!(g.min_players, 2);
    assert_eq!(g.max_players, Some(4));
    assert_eq!(g.price, "30");
    assert_eq!(g.price.parse::<f64>().unwrap(), 30.0);
}

#[test]
fn time_without_upper_bound() {
    let g = game_of(&block("Go", "10", "60", "2", "5"));
    assert_eq!(g.min_time, 60);
    assert_eq!(g.max_time, None);
    assert_eq!(g.min_players, 2);
    assert_eq!(g.max_players, None);
    assert_eq!(matched_time("Time: 60\n"), 9);
}

fn matched_time(input: &str) -> usize {
    Grammar::parse(Rule::time, input).expect("a time line").end
}

#[test]
fn three_games_in_order() {
    let input = format!(
        "{}\n{}\n\n{}",
        block("First", "1", "1", "1", "1"),
        block("Second", "2", "2", "2", "2"),
        block("Third", "3", "3", "3", "3")
    );
    let games = parse_games(&input).expect("three games");
    assert_eq!(games.len(), 3);
    assert_eq!(games[0].name, "First");
    assert_eq!(games[1].name, "Second");
    assert_eq!(games[2].name, "Third");
    assert_eq!(games[2].age, 3);
}

#[test]
fn trailing_garbage_is_a_syntax_error() {
    let input = format!("{}\ngarbage", block("Chess", "10", "30-60", "2-4", "30"));
    let err = parse_games(&input).unwrap_err();
    assert_eq!(err.expected, Rule::games);
    assert_eq!(err.position, input.chars().count() - 7);
    assert!(Grammar::parse(Rule::games, &input).is_err());
}

#[test]
fn trailing_blank_lines_are_accepted() {
    let input = format!("\n\n{}\n  \n\t", block("Chess", "10", "30-60", "2-4", "30"));
    let games = parse_games(&input).expect("one game");
    assert_eq!(games.len(), 1);
}

#[test]
fn games_without_blank_line_between_fail() {
    let input = format!("{}{}", block("A", "1", "1", "1", "1"), block("B", "1", "1", "1", "1"));
    assert!(parse_games(&input).is_err());
}

#[test]
fn malformed_age_degrades_to_zero() {
    assert_eq!(game_of(&block("X", "300", "1", "1", "1")).age, 0);
    assert_eq!(game_of(&block("X", "-5", "1", "1", "1")).age, 0);
    assert_eq!(game_of(&block("X", "3.5", "1", "1", "1")).age, 0);
    assert_eq!(game_of(&block("X", "255", "1", "1", "1")).age, 255);
}

#[test]
fn malformed_upper_bound_is_dropped() {
    let g = game_of(&block("X", "8", "30-70000", "2-300", "1"));
    assert_eq!(g.min_time, 30);
    assert_eq!(g.max_time, None);
    assert_eq!(g.max_players, None);
    let g = game_of(&block("X", "8", "30 - 65535", "-2-4", "1"));
    assert_eq!(g.max_time, Some(65535));
    assert_eq!(g.min_players, 0);
    assert_eq!(g.max_players, Some(4));
}

#[test]
fn price_keeps_the_numeral() {
    let g = game_of(&block("X", "8", "1", "1", "-12.50"));
    assert_eq!(g.price, "-12.50");
}

#[test]
fn text_fields_are_trimmed() {
    let input = "Name:   Chess \u{a0}\nAuthor:\tJohn Doe  \nAge: 10\nTime: 30\nPlayers: 2\nPrice: 30   USD  \n";
    let g = game_of(input);
    assert_eq!(g.name, "Chess");
    assert_eq!(g.author, "John Doe");
}

#[test]
fn currency_rejects_other_codes() {
    for input in ["GBP", "usd", "US", "XYZ"] {
        assert!(Grammar::parse(Rule::currency, input).is_err(), "{}", input);
    }
    assert_eq!(Grammar::parse(Rule::currency, "EURO").unwrap().end, 3);
}

#[test]
fn number_takes_longest_numeral() {
    assert_eq!(Grammar::parse(Rule::number, "3.").unwrap().end, 1);
    assert_eq!(Grammar::parse(Rule::number, "12.5x").unwrap().end, 4);
    assert!(Grammar::parse(Rule::number, "-").is_err());
    assert!(Grammar::parse(Rule::number, ".5").is_err());
}

#[test]
fn missing_or_misplaced_fields_fail() {
    let no_price = "Name: Chess\nAuthor: John Doe\nAge: 10\nTime: 30-60\nPlayers: 2-4\n";
    assert!(Grammar::parse(Rule::game, no_price).is_err());
    let swapped = "Author: John Doe\nName: Chess\nAge: 10\nTime: 30-60\nPlayers: 2-4\nPrice: 30 USD\n";
    assert!(parse_games(swapped).is_err());
    let no_currency = "Price: 30\n";
    assert!(Grammar::parse(Rule::price, no_currency).is_err());
    let empty_name = "Name:\n";
    assert!(Grammar::parse(Rule::name, empty_name).is_err());
}

#[test]
fn empty_input_is_a_syntax_error() {
    let err = parse_games("").unwrap_err();
    assert_eq!(err.position, 0);
    let err = parse_games("\n\nhello").unwrap_err();
    assert_eq!(err.position, 2);
}

#[test]
fn strict_reading_reports_the_bad_count() {
    let input = block("X", "8", "30-70000", "2-4", "1");
    let pair = Grammar::parse(Rule::game, &input).unwrap();
    let err = Game::from_pair_strict(&pair, &input).unwrap_err();
    assert_eq!(err, GameParseError::InvalidNumberFormat("70000".to_string()));
    let input = block("X", "-8", "30-70000", "2-4", "1");
    let pair = Grammar::parse(Rule::game, &input).unwrap();
    let err = Game::from_pair_strict(&pair, &input).unwrap_err();
    assert_eq!(err, GameParseError::InvalidNumberFormat("-8".to_string()));
}

#[test]
fn strict_reading_agrees_on_good_counts() {
    let input = block("X", "8", "30-70", "2-4", "9.5");
    let pair = Grammar::parse(Rule::game, &input).unwrap();
    let strict = Game::from_pair_strict(&pair, &input).unwrap();
    assert_eq!(strict, Game::from_pair(&pair, &input));
    assert_eq!(strict.max_time, Some(70));
}
