use board_game_parser::grammar::{Grammar, Rule};

fn matched(rule: Rule, input: &str) -> String {
    let pair = Grammar::parse(rule, input).expect("the rule should match");
    pair.as_str(input).to_string()
}

fn chess() -> &'static str {
    "Name: Chess\nAuthor: John Doe\nAge: 10\nTime: 30-60\nPlayers: 2-4\nPrice: 30 USD\n"
}

#[test]
fn test_whitespace_parsing() {
    let input = "\t";
    assert_eq!(matched(Rule::WHITESPACE, input), input);
}

#[test]
fn test_space_parsing() {
    let input = " \t \t ";
    assert_eq!(matched(Rule::SPACE, input), input);
}

#[test]
fn test_number_parsing() {
    let inputs = vec!["42", "-42", "3.14", "-3.14"];
    for input in inputs {
        assert_eq!(matched(Rule::number, input), input, "Failed to parse number: {}", input);
    }
}

#[test]
fn test_currency_parsing() {
    let inputs = vec!["UAH", "EUR", "USD"];
    for input in inputs {
        assert_eq!(matched(Rule::currency, input), input, "Failed to parse currency: {}", input);
    }
}

#[test]
fn test_any_text_parsing() {
    let input = "This is a line of text\n";
    assert_eq!(matched(Rule::any_text, input), input);
}

#[test]
fn test_name_parsing() {
    let input = "Name: Chess\n";
    assert_eq!(matched(Rule::name, input), "Name: Chess\n");
}

#[test]
fn test_author_parsing() {
    let input = "Author: John Doe\n";
    assert_eq!(matched(Rule::author, input), "Author: John Doe\n");
}

#[test]
fn test_age_parsing() {
    let input = "Age: 10\n";
    assert_eq!(matched(Rule::age, input), "Age: 10\n");
}

#[test]
fn test_time_parsing() {
    let input = "Time: 30-60\n";
    assert_eq!(matched(Rule::time, input), "Time: 30-60\n");
}

#[test]
fn test_players_parsing() {
    let input = "Players: 2-4\n";
    assert_eq!(matched(Rule::players, input), "Players: 2-4\n");
}

#[test]
fn test_price_parsing() {
    let input = "Price: 30 USD\n";
    assert_eq!(matched(Rule::price, input), "Price: 30 USD\n");
}

#[test]
fn test_game_parsing() {
    let input = chess();
    assert_eq!(matched(Rule::game, input), input);
}

#[test]
fn test_games_parsing() {
    let input = "\
Name: Monopoly
Author: Charles Darrow
Age: 8
Time: 30-90
Players: 2-8
Price: 499.99 UAH

Name: Settlers of Catan
Author: Klaus Teuber
Age: 10
Time: 60
Players: 3-4
Price: 999.99 UAH

Name: Carcassonne
Author: Klaus-JÃ¼rgen Wrede
Age: 7
Time: 35
Players: 2-5
Price: 899.99 UAH

";
    assert_eq!(matched(Rule::games, input), input);
}
