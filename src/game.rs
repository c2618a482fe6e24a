//! Game records: what each field of a matched game block holds, and the
//! builder that reads those values out of the input.
use vstd::prelude::*;
use crate::grammar::{
    age_label, author_label, field_starts, is_digit, name_label, number_value, opt_span_text,
    players_label, price_label, span_ok, span_text, text_value, time_label, upper_value, GameSpans,
    chars_of, game_at, games_at, match_game, match_games, Pair, Rule, SyntaxError,
};

verus! {

/// Unicode `White_Space`, the characters that `str::trim` removes.
pub open spec fn is_white_space(c: char) -> bool {
    ('\u{9}' <= c && c <= '\u{d}') || c == ' ' || c == '\u{85}' || c == '\u{a0}' || c == '\u{1680}'
        || ('\u{2000}' <= c && c <= '\u{200a}') || c == '\u{2028}' || c == '\u{2029}' || c
        == '\u{202f}' || c == '\u{205f}' || c == '\u{3000}'
}

/// `t` without its leading and trailing white space.
pub open spec fn trim_white(t: Seq<char>) -> Seq<char>
    decreases t.len(),
{
    if t.len() > 0 && is_white_space(t[0]) {
        trim_white(t.drop_first())
    } else if t.len() > 0 && is_white_space(t.last()) {
        trim_white(t.drop_last())
    } else {
        t
    }
}

/// Relies on `str::trim`: removes leading and trailing Unicode white space.
#[verifier::external_body]
fn trim<'a>(s: &'a str) -> (r: &'a str)
    ensures
        r@ == trim_white(s@),
{
    s.trim()
}

pub open spec fn digit_value(c: char) -> nat {
    (c as int - '0' as int) as nat
}

/// The value of a string of decimal digits.
pub open spec fn decimal_value(t: Seq<char>) -> nat
    decreases t.len(),
{
    if t.len() == 0 {
        0
    } else {
        decimal_value(t.drop_last()) * 10 + digit_value(t.last())
    }
}

pub open spec fn all_digits(t: Seq<char>) -> bool {
    forall|k: int| 0 <= k < t.len() ==> is_digit(#[trigger] t[k])
}

/// The unsigned integer that `t` writes, if it is one or more decimal digits
/// and at most `max`.
pub open spec fn unsigned_of(t: Seq<char>, max: nat) -> Option<nat> {
    if t.len() > 0 && all_digits(t) && decimal_value(t) <= max {
        Some(decimal_value(t))
    } else {
        None
    }
}

pub proof fn lemma_decimal_value_prefix(t: Seq<char>, k: int)
    requires
        all_digits(t),
        0 <= k <= t.len(),
    ensures
        decimal_value(t.take(k)) <= decimal_value(t),
    decreases t.len(),
{
    if k < t.len() {
        assert(t.drop_last().take(k) =~= t.take(k));
        lemma_decimal_value_prefix(t.drop_last(), k);
    } else {
        assert(t.take(k) =~= t);
    }
}

pub open spec fn nat_of(r: Option<u32>) -> Option<nat> {
    match r {
        Some(v) => Some(v as nat),
        None => None,
    }
}

/// Reads the characters from `a` to `b` as an unsigned integer of at most `max`.
fn parse_unsigned(s: &Vec<char>, a: usize, b: usize, max: u32) -> (r: Option<u32>)
    requires
        a <= b <= s@.len(),
    ensures
        nat_of(r) == unsigned_of(s@.subrange(a as int, b as int), max as nat),
{
    let ghost t = s@.subrange(a as int, b as int);
    if a == b {
        return None;
    }
    let mut acc: u64 = 0;
    let mut j: usize = a;
    while j < b
        invariant
            a <= j <= b <= s@.len(),
            t == s@.subrange(a as int, b as int),
            all_digits(t.take(j - a)),
            acc == decimal_value(t.take(j - a)),
            acc <= max,
        decreases b - j,
    {
        let c = s[j];
        if !('0' <= c && c <= '9') {
            assert(t[j - a] == c);
            return None;
        }
        let d = (c as u32 - '0' as u32) as u64;
        let next = acc * 10 + d;
        proof {
            let p = t.take(j + 1 - a);
            assert(p.drop_last() =~= t.take(j - a));
            assert(p.last() == c);
            assert(all_digits(p));
        }
        if next > max as u64 {
            proof {
                if all_digits(t) {
                    lemma_decimal_value_prefix(t, j + 1 - a);
                }
            }
            return None;
        }
        acc = next;
        j = j + 1;
    }
    assert(t.take(b - a) =~= t);
    Some(acc as u32)
}

} // verus!

verus! {

/// One game of a catalog. The price is kept as the decimal numeral that the
/// catalog writes; the currency that follows it is not kept.
#[derive(Clone, Debug, PartialEq)]
pub struct Game {
    pub name: String,
    pub author: String,
    pub age: u8,
    pub min_time: u16,
    pub max_time: Option<u16>,
    pub min_players: u8,
    pub max_players: Option<u8>,
    pub price: String,
}

/// The mathematical value of a [`Game`].
pub struct GameModel {
    pub name: Seq<char>,
    pub author: Seq<char>,
    pub age: u8,
    pub min_time: u16,
    pub max_time: Option<u16>,
    pub min_players: u8,
    pub max_players: Option<u8>,
    pub price: Seq<char>,
}

impl View for Game {
    type V = GameModel;

    open spec fn view(&self) -> GameModel {
        GameModel {
            name: self.name@,
            author: self.author@,
            age: self.age,
            min_time: self.min_time,
            max_time: self.max_time,
            min_players: self.min_players,
            max_players: self.max_players,
            price: self.price@,
        }
    }
}

/// A count read from `t`, or 0 where `t` is no unsigned integer of at most `max`.
pub open spec fn count_or_zero(t: Seq<char>, max: nat) -> nat {
    match unsigned_of(t, max) {
        Some(v) => v,
        None => 0,
    }
}

/// An upper bound read from `t`: none where there is no text, or where the
/// text is no unsigned integer of at most `max`.
pub open spec fn upper_count(t: Option<Seq<char>>, max: nat) -> Option<nat> {
    match t {
        Some(u) => unsigned_of(u, max),
        None => None,
    }
}

pub open spec fn as_u16(o: Option<nat>) -> Option<u16> {
    match o {
        Some(v) => Some(v as u16),
        None => None,
    }
}

pub open spec fn as_u8(o: Option<nat>) -> Option<u8> {
    match o {
        Some(v) => Some(v as u8),
        None => None,
    }
}

/// The record that the game starting at position `i` of `s` stands for:
/// text fields trimmed, counts read as unsigned integers with 0 (or no upper
/// bound) where the numeral is no such integer, the price numeral as written.
pub open spec fn game_model(s: Seq<char>, i: int) -> GameModel {
    let p = field_starts(s, i)->0;
    GameModel {
        name: trim_white(text_value(s, p[0], name_label())),
        author: trim_white(text_value(s, p[1], author_label())),
        age: count_or_zero(number_value(s, p[2], age_label()), 255) as u8,
        min_time: count_or_zero(number_value(s, p[3], time_label()), 65535) as u16,
        max_time: as_u16(upper_count(upper_value(s, p[3], time_label()), 65535)),
        min_players: count_or_zero(number_value(s, p[4], players_label()), 255) as u8,
        max_players: as_u8(upper_count(upper_value(s, p[4], players_label()), 255)),
        price: number_value(s, p[5], price_label()),
    }
}

fn count_u8(s: &Vec<char>, p: (usize, usize)) -> (r: u8)
    requires
        span_ok(s@, p),
    ensures
        r as nat == count_or_zero(span_text(s@, p), 255),
{
    match parse_unsigned(s, p.0, p.1, 255) {
        Some(v) => v as u8,
        None => 0,
    }
}

fn count_u16(s: &Vec<char>, p: (usize, usize)) -> (r: u16)
    requires
        span_ok(s@, p),
    ensures
        r as nat == count_or_zero(span_text(s@, p), 65535),
{
    match parse_unsigned(s, p.0, p.1, 65535) {
        Some(v) => v as u16,
        None => 0,
    }
}

fn upper_u8(s: &Vec<char>, p: Option<(usize, usize)>) -> (r: Option<u8>)
    requires
        p matches Some(q) ==> span_ok(s@, q),
    ensures
        r == as_u8(upper_count(opt_span_text(s@, p), 255)),
{
    match p {
        Some(q) => match parse_unsigned(s, q.0, q.1, 255) {
            Some(v) => Some(v as u8),
            None => None,
        },
        None => None,
    }
}

fn upper_u16(s: &Vec<char>, p: Option<(usize, usize)>) -> (r: Option<u16>)
    requires
        p matches Some(q) ==> span_ok(s@, q),
    ensures
        r == as_u16(upper_count(opt_span_text(s@, p), 65535)),
{
    match p {
        Some(q) => match parse_unsigned(s, q.0, q.1, 65535) {
            Some(v) => Some(v as u16),
            None => None,
        },
        None => None,
    }
}

/// The text of `input` that span `p` covers, trimmed.
fn trimmed_text(input: &str, p: (usize, usize)) -> (r: String)
    requires
        span_ok(input@, p),
    ensures
        r@ == trim_white(span_text(input@, p)),
{
    trim(input.substring_char(p.0, p.1)).to_owned()
}

impl Game {
    /// Builds the record from the spans of a game matched in `s`, the
    /// characters of `input`.
    fn from_spans(input: &str, s: &Vec<char>, g: &GameSpans, Ghost(i): Ghost<int>) -> (r: Game)
        requires
            s@ == input@,
            g.describes(s@, i),
        ensures
            r@ == game_model(s@, i),
    {
        reveal(GameSpans::describes);
        Game {
            name: trimmed_text(input, g.name),
            author: trimmed_text(input, g.author),
            age: count_u8(s, g.age),
            min_time: count_u16(s, g.min_time),
            max_time: upper_u16(s, g.max_time),
            min_players: count_u8(s, g.min_players),
            max_players: upper_u8(s, g.max_players),
            price: input.substring_char(g.price.0, g.price.1).to_owned(),
        }
    }
}

} // verus!

verus! {

impl Game {
    /// Builds the record of the game that `pair` matched in `input`.
    pub fn from_pair(pair: &Pair, input: &str) -> (r: Game)
        requires
            pair.rule == Rule::game,
            pair.start <= input@.len(),
            game_at(input@, pair.start as int) is Some,
        ensures
            r@ == game_model(input@, pair.start as int),
    {
        let s = chars_of(input);
        match match_game(&s, pair.start) {
            Some(g) => Game::from_spans(input, &s, &g, Ghost(pair.start as int)),
            None => unreached(),
        }
    }
}

/// Parses a whole catalog into its games, in the order they stand in `input`.
pub fn parse_games(input: &str) -> (r: Result<Vec<Game>, SyntaxError>)
    ensures
        match (r, games_at(input@)) {
            (Ok(v), Ok(p)) => v@.len() == p.len() && forall|k: int|
                0 <= k < p.len() ==> (#[trigger] v@[k])@ == game_model(input@, p[k]),
            (Err(e), Err(x)) => e.position == x && e.expected == Rule::games,
            _ => false,
        },
{
    let s = chars_of(input);
    let spans = match match_games(&s) {
        Ok(v) => v,
        Err(x) => return Err(SyntaxError { position: x, expected: Rule::games }),
    };
    let ghost p = games_at(s@)->Ok_0;
    let mut games: Vec<Game> = Vec::new();
    for k in 0..spans.len()
        invariant
            s@ == input@,
            games_at(s@) == Ok::<Seq<int>, int>(p),
            spans@.len() == p.len(),
            forall|m: int| 0 <= m < p.len() ==> (#[trigger] spans@[m]).describes(s@, p[m]),
            games@.len() == k,
            forall|m: int| 0 <= m < k ==> (#[trigger] games@[m])@ == game_model(input@, p[m]),
    {
        let g = Game::from_spans(input, &s, &spans[k], Ghost(p[k as int]));
        games.push(g);
    }
    Ok(games)
}

} // verus!

verus! {

/// Why a strict reading of a game fails. The grammar already makes every
/// matched game hold all six fields and a decimal price, so the strict
/// builder reports only counts that do not fit their type.
#[derive(Clone, Debug, PartialEq)]
pub enum GameParseError {
    /// A numeral that is no unsigned integer of the field's type.
    InvalidNumberFormat(String),
    /// A field that is absent.
    MissingField(String),
    /// A price that is no decimal numeral.
    InvalidPriceFormat(String),
}

/// Whether the numeral `t` fails to be a count of at most `max`.
pub open spec fn bad_count(t: Seq<char>, max: nat) -> bool {
    unsigned_of(t, max) is None
}

/// Whether the optional upper bound `t` is present and fails to be a count.
pub open spec fn bad_upper(t: Option<Seq<char>>, max: nat) -> bool {
    t matches Some(u) && bad_count(u, max)
}

/// The first count of the game at `i` that does not fit its type, taking the
/// age, the times and the players in that order.
pub open spec fn first_bad_count(s: Seq<char>, i: int) -> Option<Seq<char>> {
    let p = field_starts(s, i)->0;
    let age = number_value(s, p[2], age_label());
    let min_time = number_value(s, p[3], time_label());
    let max_time = upper_value(s, p[3], time_label());
    let min_players = number_value(s, p[4], players_label());
    let max_players = upper_value(s, p[4], players_label());
    if bad_count(age, 255) {
        Some(age)
    } else if bad_count(min_time, 65535) {
        Some(min_time)
    } else if bad_upper(max_time, 65535) {
        max_time
    } else if bad_count(min_players, 255) {
        Some(min_players)
    } else if bad_upper(max_players, 255) {
        max_players
    } else {
        None
    }
}

/// Fails with the numeral of span `p` where it is no count of at most `max`.
fn check_count(input: &str, s: &Vec<char>, p: (usize, usize), max: u32) -> (r: Result<
    (),
    GameParseError,
>)
    requires
        s@ == input@,
        span_ok(s@, p),
    ensures
        r is Ok <==> !bad_count(span_text(s@, p), max as nat),
        r matches Err(GameParseError::InvalidNumberFormat(t)) ==> t@ == span_text(s@, p),
        r matches Err(e) ==> e is InvalidNumberFormat,
{
    match parse_unsigned(s, p.0, p.1, max) {
        Some(_) => Ok(()),
        None => Err(GameParseError::InvalidNumberFormat(input.substring_char(p.0, p.1).to_owned())),
    }
}

fn check_upper(input: &str, s: &Vec<char>, p: Option<(usize, usize)>, max: u32) -> (r: Result<
    (),
    GameParseError,
>)
    requires
        s@ == input@,
        p matches Some(q) ==> span_ok(s@, q),
    ensures
        r is Ok <==> !bad_upper(opt_span_text(s@, p), max as nat),
        r matches Err(GameParseError::InvalidNumberFormat(t)) ==> Some(t@) == opt_span_text(s@, p),
        r matches Err(e) ==> e is InvalidNumberFormat,
{
    match p {
        Some(q) => check_count(input, s, q, max),
        None => Ok(()),
    }
}

impl Game {
    /// Builds the record of the game that `pair` matched in `input`, failing
    /// where a count does not fit its type instead of reading it as 0 or as
    /// no upper bound.
    pub fn from_pair_strict(pair: &Pair, input: &str) -> (r: Result<Game, GameParseError>)
        requires
            pair.rule == Rule::game,
            pair.start <= input@.len(),
            game_at(input@, pair.start as int) is Some,
        ensures
            match r {
                Ok(g) => first_bad_count(input@, pair.start as int) is None && g@ == game_model(
                    input@,
                    pair.start as int,
                ),
                Err(GameParseError::InvalidNumberFormat(t)) => first_bad_count(
                    input@,
                    pair.start as int,
                ) == Some(t@),
                Err(_) => false,
            },
    {
        let s = chars_of(input);
        let g = match match_game(&s, pair.start) {
            Some(g) => g,
            None => unreached(),
        };
        proof {
            reveal(GameSpans::describes);
        }
        check_count(input, &s, g.age, 255)?;
        check_count(input, &s, g.min_time, 65535)?;
        check_upper(input, &s, g.max_time, 65535)?;
        check_count(input, &s, g.min_players, 255)?;
        check_upper(input, &s, g.max_players, 255)?;
        Ok(Game::from_spans(input, &s, &g, Ghost(pair.start as int)))
    }
}

} // verus!

verus! {

/// A range field without a `-max` part gives its minimum and no upper bound.
pub proof fn lemma_range_without_upper(s: Seq<char>, i: int)
    requires
        game_at(s, i) is Some,
    ensures
        ({
            let p = field_starts(s, i)->0;
            let g = game_model(s, i);
            &&& upper_value(s, p[3], time_label()) is None ==> g.max_time is None && g.min_time
                == count_or_zero(number_value(s, p[3], time_label()), 65535)
            &&& upper_value(s, p[4], players_label()) is None ==> g.max_players is None
                && g.min_players == count_or_zero(number_value(s, p[4], players_label()), 255)
        }),
{
    let p = field_starts(s, i)->0;
    assert(count_or_zero(number_value(s, p[3], time_label()), 65535) <= 65535);
    assert(count_or_zero(number_value(s, p[4], players_label()), 255) <= 255);
}

} // verus!
