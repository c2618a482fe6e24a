//! The catalog grammar: each rule is a spec function from an input and a start
//! position to the end of its match, and an executable matcher proved equal to it.
use vstd::prelude::*;

verus! {

/// The character classes that the lexical rules repeat.
#[derive(Clone, Copy, PartialEq, Eq, Debug)]
pub enum CharClass {
    /// `0` to `9`.
    Digit,
    /// A space or a tab.
    Space,
    /// A space, a tab, a line feed or a carriage return.
    White,
    /// Any character but a line feed.
    NotNewline,
}

pub open spec fn is_digit(c: char) -> bool {
    '0' <= c && c <= '9'
}

pub open spec fn in_class(c: char, k: CharClass) -> bool {
    match k {
        CharClass::Digit => is_digit(c),
        CharClass::Space => c == ' ' || c == '\t',
        CharClass::White => c == ' ' || c == '\t' || c == '\n' || c == '\r',
        CharClass::NotNewline => c != '\n',
    }
}

/// The first position at or after `i` whose character is not in class `k`.
pub open spec fn skip_class(s: Seq<char>, i: int, k: CharClass) -> int
    decreases s.len() - i,
{
    if 0 <= i < s.len() && in_class(s[i], k) {
        skip_class(s, i + 1, k)
    } else {
        i
    }
}

pub proof fn lemma_skip_class_bounds(s: Seq<char>, i: int, k: CharClass)
    requires
        0 <= i <= s.len(),
    ensures
        i <= skip_class(s, i, k) <= s.len(),
        forall|j: int| i <= j < skip_class(s, i, k) ==> in_class(#[trigger] s[j], k),
        skip_class(s, i, k) < s.len() ==> !in_class(s[skip_class(s, i, k)], k),
    decreases s.len() - i,
{
    if i < s.len() && in_class(s[i], k) {
        lemma_skip_class_bounds(s, i + 1, k);
    }
}

fn char_in_class(c: char, k: CharClass) -> (r: bool)
    ensures
        r == in_class(c, k),
{
    match k {
        CharClass::Digit => '0' <= c && c <= '9',
        CharClass::Space => c == ' ' || c == '\t',
        CharClass::White => c == ' ' || c == '\t' || c == '\n' || c == '\r',
        CharClass::NotNewline => c != '\n',
    }
}

/// Skips the characters of class `k` from position `i`.
pub fn skip(s: &Vec<char>, i: usize, k: CharClass) -> (r: usize)
    requires
        i <= s@.len(),
    ensures
        r == skip_class(s@, i as int, k),
        i <= r <= s@.len(),
{
    proof {
        lemma_skip_class_bounds(s@, i as int, k);
    }
    let mut j: usize = i;
    while j < s.len() && char_in_class(s[j], k)
        invariant
            i <= j <= s@.len(),
            skip_class(s@, i as int, k) == skip_class(s@, j as int, k),
        decreases s@.len() - j,
    {
        j = j + 1;
    }
    j
}

} // verus!

verus! {

/// Whether `lit` stands in `s` at position `i`.
pub open spec fn has_literal(s: Seq<char>, i: int, lit: Seq<char>) -> bool {
    0 <= i && i + lit.len() <= s.len() && s.subrange(i, i + lit.len()) == lit
}

fn literal_at(s: &Vec<char>, i: usize, lit: &[char]) -> (r: bool)
    requires
        i <= s@.len(),
    ensures
        r == has_literal(s@, i as int, lit@),
{
    if lit.len() > s.len() - i {
        return false;
    }
    let mut j: usize = 0;
    while j < lit.len()
        invariant
            i + lit@.len() <= s@.len() <= usize::MAX,
            j <= lit@.len(),
            forall|m: int| 0 <= m < j ==> s@[i + m] == lit@[m],
        decreases lit@.len() - j,
    {
        if s[i + j] != lit[j] {
            assert(s@.subrange(i as int, i + lit@.len())[j as int] != lit@[j as int]);
            return false;
        }
        j = j + 1;
    }
    assert(s@.subrange(i as int, i + lit@.len()) =~= lit@);
    true
}

} // verus!

verus! {

/// The end position of an executable match, as the spec rules give it.
pub open spec fn ends(r: Option<usize>) -> Option<int> {
    match r {
        Some(e) => Some(e as int),
        None => None,
    }
}

/// A nonempty run of class `k` starting at `i`.
pub open spec fn run_at(s: Seq<char>, i: int, k: CharClass) -> Option<int> {
    if i < skip_class(s, i, k) {
        Some(skip_class(s, i, k))
    } else {
        None
    }
}

/// `number`: an optional `-`, digits, then optionally `.` and digits.
pub open spec fn number_at(s: Seq<char>, i: int) -> Option<int> {
    let j = if 0 <= i < s.len() && s[i] == '-' { i + 1 } else { i };
    match run_at(s, j, CharClass::Digit) {
        None => None,
        Some(k) => if k < s.len() && s[k] == '.' && run_at(s, k + 1, CharClass::Digit) is Some {
            run_at(s, k + 1, CharClass::Digit)
        } else {
            Some(k)
        },
    }
}

pub open spec fn uah() -> Seq<char> {
    seq!['U', 'A', 'H']
}

pub open spec fn eur() -> Seq<char> {
    seq!['E', 'U', 'R']
}

pub open spec fn usd() -> Seq<char> {
    seq!['U', 'S', 'D']
}

/// `currency`: one of `UAH`, `EUR`, `USD`.
pub open spec fn currency_at(s: Seq<char>, i: int) -> Option<int> {
    if has_literal(s, i, uah()) || has_literal(s, i, eur()) || has_literal(s, i, usd()) {
        Some(i + 3)
    } else {
        None
    }
}

/// `any_text`: one or more characters other than a line feed, then a line feed.
pub open spec fn any_text_at(s: Seq<char>, i: int) -> Option<int> {
    let k = skip_class(s, i, CharClass::NotNewline);
    if i < k < s.len() {
        Some(k + 1)
    } else {
        None
    }
}

/// The end of a line: optional spaces or tabs, then a line feed.
pub open spec fn line_end_at(s: Seq<char>, i: int) -> Option<int> {
    let k = skip_class(s, i, CharClass::Space);
    if k < s.len() && s[k] == '\n' {
        Some(k + 1)
    } else {
        None
    }
}

pub proof fn lemma_run_at(s: Seq<char>, i: int, k: CharClass)
    requires
        0 <= i <= s.len(),
    ensures
        run_at(s, i, k) matches Some(e) ==> i < e <= s.len(),
{
    lemma_skip_class_bounds(s, i, k);
}

pub proof fn lemma_number_at(s: Seq<char>, i: int)
    requires
        0 <= i <= s.len(),
    ensures
        number_at(s, i) matches Some(e) ==> i < e <= s.len(),
{
    let j = if 0 <= i < s.len() && s[i] == '-' { i + 1 } else { i };
    lemma_run_at(s, j, CharClass::Digit);
    if let Some(k) = run_at(s, j, CharClass::Digit) {
        if k < s.len() {
            lemma_run_at(s, k + 1, CharClass::Digit);
        }
    }
}

/// Matches a nonempty run of class `k`.
pub fn match_run(s: &Vec<char>, i: usize, k: CharClass) -> (r: Option<usize>)
    requires
        i <= s@.len(),
    ensures
        ends(r) == run_at(s@, i as int, k),
        r matches Some(e) ==> i < e <= s@.len(),
{
    let e = skip(s, i, k);
    if i < e {
        Some(e)
    } else {
        None
    }
}

pub fn match_number(s: &Vec<char>, i: usize) -> (r: Option<usize>)
    requires
        i <= s@.len(),
    ensures
        ends(r) == number_at(s@, i as int),
        r matches Some(e) ==> i < e <= s@.len(),
{
    let j = if i < s.len() && s[i] == '-' {
        i + 1
    } else {
        i
    };
    match match_run(s, j, CharClass::Digit) {
        None => None,
        Some(k) => {
            if k < s.len() && s[k] == '.' {
                match match_run(s, k + 1, CharClass::Digit) {
                    Some(f) => Some(f),
                    None => Some(k),
                }
            } else {
                Some(k)
            }
        },
    }
}

pub fn match_currency(s: &Vec<char>, i: usize) -> (r: Option<usize>)
    requires
        i <= s@.len(),
    ensures
        ends(r) == currency_at(s@, i as int),
        r matches Some(e) ==> i < e <= s@.len(),
{
    let u: &[char] = &['U', 'A', 'H'];
    let e: &[char] = &['E', 'U', 'R'];
    let d: &[char] = &['U', 'S', 'D'];
    assert(u@ == uah() && e@ == eur() && d@ == usd());
    let found = literal_at(s, i, u) || literal_at(s, i, e) || literal_at(s, i, d);
    if found {
        let n = s.len();
        assert(i + 3 <= n);
        Some(i + 3)
    } else {
        None
    }
}

pub fn match_any_text(s: &Vec<char>, i: usize) -> (r: Option<usize>)
    requires
        i <= s@.len(),
    ensures
        ends(r) == any_text_at(s@, i as int),
        r matches Some(e) ==> i < e <= s@.len(),
{
    let k = skip(s, i, CharClass::NotNewline);
    if i < k && k < s.len() {
        Some(k + 1)
    } else {
        None
    }
}

pub fn match_line_end(s: &Vec<char>, i: usize) -> (r: Option<usize>)
    requires
        i <= s@.len(),
    ensures
        ends(r) == line_end_at(s@, i as int),
        r matches Some(e) ==> i < e <= s@.len(),
{
    let k = skip(s, i, CharClass::Space);
    if k < s.len() && s[k] == '\n' {
        Some(k + 1)
    } else {
        None
    }
}

} // verus!

verus! {

pub open spec fn name_label() -> Seq<char> {
    seq!['N', 'a', 'm', 'e', ':']
}

pub open spec fn author_label() -> Seq<char> {
    seq!['A', 'u', 't', 'h', 'o', 'r', ':']
}

pub open spec fn age_label() -> Seq<char> {
    seq!['A', 'g', 'e', ':']
}

pub open spec fn time_label() -> Seq<char> {
    seq!['T', 'i', 'm', 'e', ':']
}

pub open spec fn players_label() -> Seq<char> {
    seq!['P', 'l', 'a', 'y', 'e', 'r', 's', ':']
}

pub open spec fn price_label() -> Seq<char> {
    seq!['P', 'r', 'i', 'c', 'e', ':']
}

/// Where the value of a field starts: after its label and any spaces or tabs.
pub open spec fn value_start(s: Seq<char>, i: int, label: Seq<char>) -> int {
    skip_class(s, i + label.len(), CharClass::Space)
}

/// A free-text field: the label, then an `any_text` line.
pub open spec fn text_field_at(s: Seq<char>, i: int, label: Seq<char>) -> Option<int> {
    if has_literal(s, i, label) {
        any_text_at(s, i + label.len())
    } else {
        None
    }
}

/// A single-number field: the label, a `number`, then the end of the line.
pub open spec fn number_field_at(s: Seq<char>, i: int, label: Seq<char>) -> Option<int> {
    if has_literal(s, i, label) {
        match number_at(s, value_start(s, i, label)) {
            Some(e) => line_end_at(s, e),
            None => None,
        }
    } else {
        None
    }
}

/// Where the upper bound of a range starts, after the minimum that ends at `e`.
pub open spec fn upper_start(s: Seq<char>, e: int) -> int {
    skip_class(s, skip_class(s, e, CharClass::Space) + 1, CharClass::Space)
}

/// The `-max` part of a range, after the minimum that ends at `e`: optional
/// spaces or tabs, a `-`, optional spaces or tabs, a `number`.
pub open spec fn upper_at(s: Seq<char>, e: int) -> Option<int> {
    let d = skip_class(s, e, CharClass::Space);
    if 0 <= d < s.len() && s[d] == '-' {
        number_at(s, upper_start(s, e))
    } else {
        None
    }
}

/// A range field: the label, a `number`, an optional `-max` part, the end of the line.
pub open spec fn range_field_at(s: Seq<char>, i: int, label: Seq<char>) -> Option<int> {
    if has_literal(s, i, label) {
        match number_at(s, value_start(s, i, label)) {
            Some(e) => match upper_at(s, e) {
                Some(f) => line_end_at(s, f),
                None => line_end_at(s, e),
            },
            None => None,
        }
    } else {
        None
    }
}

/// `price`: the label, a `number`, spaces or tabs, a `currency`, the end of the line.
pub open spec fn price_at(s: Seq<char>, i: int) -> Option<int> {
    if has_literal(s, i, price_label()) {
        match number_at(s, value_start(s, i, price_label())) {
            Some(e) => match run_at(s, e, CharClass::Space) {
                Some(f) => match currency_at(s, f) {
                    Some(g) => line_end_at(s, g),
                    None => None,
                },
                None => None,
            },
            None => None,
        }
    } else {
        None
    }
}

pub open spec fn name_at(s: Seq<char>, i: int) -> Option<int> {
    text_field_at(s, i, name_label())
}

pub open spec fn author_at(s: Seq<char>, i: int) -> Option<int> {
    text_field_at(s, i, author_label())
}

pub open spec fn age_at(s: Seq<char>, i: int) -> Option<int> {
    number_field_at(s, i, age_label())
}

pub open spec fn time_at(s: Seq<char>, i: int) -> Option<int> {
    range_field_at(s, i, time_label())
}

pub open spec fn players_at(s: Seq<char>, i: int) -> Option<int> {
    range_field_at(s, i, players_label())
}

/// The start positions of the six field lines of a game at `i`
/// and the end of its last line.
#[verifier::opaque]
pub open spec fn field_starts(s: Seq<char>, i: int) -> Option<Seq<int>> {
    match name_at(s, i) {
        None => None,
        Some(a) => match author_at(s, a) {
            None => None,
            Some(b) => match age_at(s, b) {
                None => None,
                Some(c) => match time_at(s, c) {
                    None => None,
                    Some(d) => match players_at(s, d) {
                        None => None,
                        Some(e) => match price_at(s, e) {
                            None => None,
                            Some(f) => Some(seq![i, a, b, c, d, e, f]),
                        },
                    },
                },
            },
        },
    }
}

/// `game`: the six field lines in their fixed order.
pub open spec fn game_at(s: Seq<char>, i: int) -> Option<int> {
    match field_starts(s, i) {
        Some(p) => Some(p[6]),
        None => None,
    }
}

} // verus!

verus! {

fn name_label_exec() -> (r: &'static [char])
    ensures
        r@ == name_label(),
{
    &['N', 'a', 'm', 'e', ':']
}

fn author_label_exec() -> (r: &'static [char])
    ensures
        r@ == author_label(),
{
    &['A', 'u', 't', 'h', 'o', 'r', ':']
}

fn age_label_exec() -> (r: &'static [char])
    ensures
        r@ == age_label(),
{
    &['A', 'g', 'e', ':']
}

fn time_label_exec() -> (r: &'static [char])
    ensures
        r@ == time_label(),
{
    &['T', 'i', 'm', 'e', ':']
}

fn players_label_exec() -> (r: &'static [char])
    ensures
        r@ == players_label(),
{
    &['P', 'l', 'a', 'y', 'e', 'r', 's', ':']
}

fn price_label_exec() -> (r: &'static [char])
    ensures
        r@ == price_label(),
{
    &['P', 'r', 'i', 'c', 'e', ':']
}

/// Matches the label `label` at `i` and returns where the text after it starts.
fn match_label(s: &Vec<char>, i: usize, label: &[char]) -> (r: Option<usize>)
    requires
        i <= s@.len(),
    ensures
        r is Some <==> has_literal(s@, i as int, label@),
        r matches Some(e) ==> e == i + label@.len() && e <= s@.len(),
{
    if literal_at(s, i, label) {
        let n = s.len();
        assert(i + label@.len() <= n);
        Some(i + label.len())
    } else {
        None
    }
}

fn match_text_field(s: &Vec<char>, i: usize, label: &[char]) -> (r: Option<usize>)
    requires
        i <= s@.len(),
    ensures
        ends(r) == text_field_at(s@, i as int, label@),
        r matches Some(e) ==> i + label@.len() < e <= s@.len(),
{
    match match_label(s, i, label) {
        Some(v) => match_any_text(s, v),
        None => None,
    }
}

/// Returns the start and end of the number that a single-number field holds.
fn match_number_field(s: &Vec<char>, i: usize, label: &[char]) -> (r: Option<(usize, usize, usize)>)
    requires
        i <= s@.len(),
    ensures
        r is Some <==> number_field_at(s@, i as int, label@) is Some,
        r matches Some(t) ==> {
            &&& number_field_at(s@, i as int, label@) == Some(t.2 as int)
            &&& t.0 == value_start(s@, i as int, label@)
            &&& number_at(s@, t.0 as int) == Some(t.1 as int)
            &&& span_ok(s@, (t.0, t.1))
            &&& span_text(s@, (t.0, t.1)) == number_value(s@, i as int, label@)
            &&& i < t.2 <= s@.len()
        },
{
    match match_label(s, i, label) {
        Some(v) => {
            let a = skip(s, v, CharClass::Space);
            proof {
                lemma_number_at(s@, a as int);
            }
            match match_number(s, a) {
                Some(e) => match match_line_end(s, e) {
                    Some(f) => Some((a, e, f)),
                    None => None,
                },
                None => None,
            }
        },
        None => None,
    }
}

} // verus!

verus! {

/// Matches the `-max` part of a range after the minimum that ends at `e`,
/// and returns the start and end of the upper bound.
fn match_upper(s: &Vec<char>, e: usize) -> (r: Option<(usize, usize)>)
    requires
        e <= s@.len(),
    ensures
        r is Some <==> upper_at(s@, e as int) is Some,
        r matches Some(u) ==> {
            &&& u.0 == upper_start(s@, e as int)
            &&& upper_at(s@, e as int) == Some(u.1 as int)
            &&& e < u.0 <= u.1 <= s@.len()
        },
{
    let d = skip(s, e, CharClass::Space);
    proof {
        lemma_skip_class_bounds(s@, e as int, CharClass::Space);
    }
    if d < s.len() && s[d] == '-' {
        let a = skip(s, d + 1, CharClass::Space);
        proof {
            lemma_skip_class_bounds(s@, d + 1, CharClass::Space);
        }
        proof {
            lemma_number_at(s@, a as int);
        }
        match match_number(s, a) {
            Some(f) => Some((a, f)),
            None => None,
        }
    } else {
        None
    }
}

/// Returns the bounds of the minimum, those of the maximum if there is one,
/// and the end of a range field.
fn match_range_field(s: &Vec<char>, i: usize, label: &[char]) -> (r: Option<
    (usize, usize, Option<(usize, usize)>, usize),
>)
    requires
        i <= s@.len(),
    ensures
        r is Some <==> range_field_at(s@, i as int, label@) is Some,
        r matches Some(t) ==> {
            &&& range_field_at(s@, i as int, label@) == Some(t.3 as int)
            &&& t.0 == value_start(s@, i as int, label@)
            &&& number_at(s@, t.0 as int) == Some(t.1 as int)
            &&& match t.2 {
                Some(u) => u.0 == upper_start(s@, t.1 as int) && upper_at(s@, t.1 as int) == Some(
                    u.1 as int,
                ),
                None => upper_at(s@, t.1 as int) is None,
            }
            &&& span_ok(s@, (t.0, t.1))
            &&& span_text(s@, (t.0, t.1)) == number_value(s@, i as int, label@)
            &&& (t.2 matches Some(u) ==> span_ok(s@, u))
            &&& opt_span_text(s@, t.2) == upper_value(s@, i as int, label@)
            &&& i < t.3 <= s@.len()
        },
{
    match match_label(s, i, label) {
        Some(v) => {
            let a = skip(s, v, CharClass::Space);
            proof {
                lemma_number_at(s@, a as int);
            }
            match match_number(s, a) {
                Some(e) => {
                    let upper = match_upper(s, e);
                    let last = match upper {
                        Some(u) => u.1,
                        None => e,
                    };
                    match match_line_end(s, last) {
                        Some(f) => Some((a, e, upper, f)),
                        None => None,
                    }
                },
                None => None,
            }
        },
        None => None,
    }
}

/// Returns the start and end of the amount and the end of a price field.
fn match_price(s: &Vec<char>, i: usize) -> (r: Option<(usize, usize, usize)>)
    requires
        i <= s@.len(),
    ensures
        r is Some <==> price_at(s@, i as int) is Some,
        r matches Some(t) ==> {
            &&& price_at(s@, i as int) == Some(t.2 as int)
            &&& span_ok(s@, (t.0, t.1))
            &&& span_text(s@, (t.0, t.1)) == number_value(s@, i as int, price_label())
            &&& i < t.2 <= s@.len()
        },
{
    match match_label(s, i, price_label_exec()) {
        Some(v) => {
            let a = skip(s, v, CharClass::Space);
            proof {
                lemma_number_at(s@, a as int);
            }
            match match_number(s, a) {
                Some(e) => match match_run(s, e, CharClass::Space) {
                    Some(f) => match match_currency(s, f) {
                        Some(g) => match match_line_end(s, g) {
                            Some(h) => Some((a, e, h)),
                            None => None,
                        },
                        None => None,
                    },
                    None => None,
                },
                None => None,
            }
        },
        None => None,
    }
}

} // verus!

verus! {

/// The text of a free-text field at `i`, line feed included.
pub open spec fn text_value(s: Seq<char>, i: int, label: Seq<char>) -> Seq<char> {
    s.subrange(i + label.len(), text_field_at(s, i, label)->0)
}

/// The text of the (first) number of the field at `i`.
pub open spec fn number_value(s: Seq<char>, i: int, label: Seq<char>) -> Seq<char> {
    let a = value_start(s, i, label);
    s.subrange(a, number_at(s, a)->0)
}

/// The text of the upper bound of the range field at `i`, if it has one.
pub open spec fn upper_value(s: Seq<char>, i: int, label: Seq<char>) -> Option<Seq<char>> {
    let e = number_at(s, value_start(s, i, label))->0;
    match upper_at(s, e) {
        Some(f) => Some(s.subrange(upper_start(s, e), f)),
        None => None,
    }
}

/// Where the pieces of a matched game stand in the input: the value of each
/// field as a start and an end position, and the end of the game.
#[derive(Clone, Copy, PartialEq, Eq, Debug)]
pub struct GameSpans {
    pub name: (usize, usize),
    pub author: (usize, usize),
    pub age: (usize, usize),
    pub min_time: (usize, usize),
    pub max_time: Option<(usize, usize)>,
    pub min_players: (usize, usize),
    pub max_players: Option<(usize, usize)>,
    pub price: (usize, usize),
    pub end: usize,
}

pub open spec fn span_text(s: Seq<char>, p: (usize, usize)) -> Seq<char> {
    s.subrange(p.0 as int, p.1 as int)
}

pub open spec fn opt_span_text(s: Seq<char>, p: Option<(usize, usize)>) -> Option<Seq<char>> {
    match p {
        Some(q) => Some(span_text(s, q)),
        None => None,
    }
}

pub open spec fn span_ok(s: Seq<char>, p: (usize, usize)) -> bool {
    p.0 <= p.1 <= s.len()
}

impl GameSpans {
    /// The spans lie in `s` and hold the field values of the game that starts at `i`.
    #[verifier::opaque]
    pub open spec fn describes(&self, s: Seq<char>, i: int) -> bool {
        let p = field_starts(s, i)->0;
        &&& field_starts(s, i) is Some
        &&& self.end == p[6]
        &&& span_ok(s, self.name) && span_ok(s, self.author) && span_ok(s, self.age)
        &&& span_ok(s, self.min_time) && span_ok(s, self.min_players) && span_ok(s, self.price)
        &&& (self.max_time matches Some(q) ==> span_ok(s, q))
        &&& (self.max_players matches Some(q) ==> span_ok(s, q))
        &&& span_text(s, self.name) == text_value(s, p[0], name_label())
        &&& span_text(s, self.author) == text_value(s, p[1], author_label())
        &&& span_text(s, self.age) == number_value(s, p[2], age_label())
        &&& span_text(s, self.min_time) == number_value(s, p[3], time_label())
        &&& opt_span_text(s, self.max_time) == upper_value(s, p[3], time_label())
        &&& span_text(s, self.min_players) == number_value(s, p[4], players_label())
        &&& opt_span_text(s, self.max_players) == upper_value(s, p[4], players_label())
        &&& span_text(s, self.price) == number_value(s, p[5], price_label())
    }
}

/// Matches a game at `i` and returns where its values stand.
pub fn match_game(s: &Vec<char>, i: usize) -> (r: Option<GameSpans>)
    requires
        i <= s@.len(),
    ensures
        r is Some <==> game_at(s@, i as int) is Some,
        r matches Some(g) ==> g.describes(s@, i as int) && g.end == game_at(s@, i as int)->0,
        r matches Some(g) ==> i < g.end <= s@.len(),
{
    reveal(field_starts);
    let a = match match_text_field(s, i, name_label_exec()) {
        Some(a) => a,
        None => return None,
    };
    let b = match match_text_field(s, a, author_label_exec()) {
        Some(b) => b,
        None => return None,
    };
    let c = match match_number_field(s, b, age_label_exec()) {
        Some(c) => c,
        None => return None,
    };
    let d = match match_range_field(s, c.2, time_label_exec()) {
        Some(d) => d,
        None => return None,
    };
    let e = match match_range_field(s, d.3, players_label_exec()) {
        Some(e) => e,
        None => return None,
    };
    let f = match match_price(s, e.3) {
        Some(f) => f,
        None => return None,
    };
    assert(field_starts(s@, i as int) == Some(seq![i as int, a as int, b as int, c.2 as int, d.3 as int, e.3 as int, f.2 as int]));
    reveal(GameSpans::describes);
    Some(
        GameSpans {
            name: (i + 5, a),
            author: (a + 7, b),
            age: (c.0, c.1),
            min_time: (d.0, d.1),
            max_time: d.2,
            min_players: (e.0, e.1),
            max_players: e.2,
            price: (f.0, f.1),
            end: f.2,
        },
    )
}

} // verus!

verus! {

/// The position after the blank lines (spaces or tabs, then a line feed) from `i`.
pub open spec fn skip_blank_lines(s: Seq<char>, i: int) -> int
    decreases s.len() - i,
{
    let k = skip_class(s, i, CharClass::Space);
    if 0 <= i <= k < s.len() && s[k] == '\n' {
        skip_blank_lines(s, k + 1)
    } else {
        i
    }
}

/// Puts the game starts `p` before those of a later match.
pub open spec fn prepend_starts(p: Seq<int>, r: Result<Seq<int>, int>) -> Result<Seq<int>, int> {
    match r {
        Ok(w) => Ok(p + w),
        Err(x) => Err(x),
    }
}

/// The games from `i` to the end of the input: a game, then either one or
/// more blank lines and the next game, or only whitespace up to the end.
/// The result is the start of each game, or the position where the input
/// stops fitting the grammar.
pub open spec fn games_from(s: Seq<char>, i: int) -> Result<Seq<int>, int>
    decreases s.len() - i,
{
    match game_at(s, i) {
        None => Err(i),
        Some(e) => {
            let n = skip_blank_lines(s, e);
            if i < e < n <= s.len() && game_at(s, n) is Some {
                prepend_starts(seq![i], games_from(s, n))
            } else if skip_class(s, e, CharClass::White) == s.len() {
                Ok(seq![i])
            } else {
                Err(skip_class(s, e, CharClass::White))
            }
        },
    }
}

/// `games`: leading blank lines, then the games, up to the end of the input.
pub open spec fn games_at(s: Seq<char>) -> Result<Seq<int>, int> {
    games_from(s, skip_blank_lines(s, 0))
}

pub proof fn lemma_skip_blank_lines(s: Seq<char>, i: int)
    requires
        0 <= i <= s.len(),
    ensures
        i <= skip_blank_lines(s, i) <= s.len(),
    decreases s.len() - i,
{
    lemma_skip_class_bounds(s, i, CharClass::Space);
    let k = skip_class(s, i, CharClass::Space);
    if 0 <= i <= k < s.len() && s[k] == '\n' {
        lemma_skip_blank_lines(s, k + 1);
    }
}

fn skip_blank(s: &Vec<char>, i: usize) -> (r: usize)
    requires
        i <= s@.len(),
    ensures
        r == skip_blank_lines(s@, i as int),
        i <= r <= s@.len(),
{
    let mut j: usize = i;
    loop
        invariant
            i <= j <= s@.len(),
            skip_blank_lines(s@, i as int) == skip_blank_lines(s@, j as int),
        decreases s@.len() - j,
    {
        let k = skip(s, j, CharClass::Space);
        if k < s.len() && s[k] == '\n' {
            j = k + 1;
        } else {
            proof {
                lemma_skip_blank_lines(s@, j as int);
            }
            return j;
        }
    }
}

/// Matches a whole document and returns where the values of each game stand,
/// or the position where the input stops fitting the grammar.
pub fn match_games(s: &Vec<char>) -> (r: Result<Vec<GameSpans>, usize>)
    ensures
        match (r, games_at(s@)) {
            (Ok(v), Ok(p)) => v@.len() == p.len() && forall|k: int|
                0 <= k < p.len() ==> (#[trigger] v@[k]).describes(s@, p[k]),
            (Err(x), Err(y)) => x == y,
            _ => false,
        },
{
    let mut i = skip_blank(s, 0);
    let mut cur = match match_game(s, i) {
        Some(g) => g,
        None => return Err(i),
    };
    let mut v: Vec<GameSpans> = Vec::new();
    let ghost starts: Seq<int> = Seq::empty();
    loop
        invariant
            i <= s@.len(),
            game_at(s@, i as int) is Some,
            cur.describes(s@, i as int),
            game_at(s@, i as int) == Some(cur.end as int),
            i < cur.end <= s@.len(),
            games_at(s@) == prepend_starts(starts, games_from(s@, i as int)),
            v@.len() == starts.len(),
            forall|k: int| 0 <= k < starts.len() ==> (#[trigger] v@[k]).describes(s@, starts[k]),
        decreases s@.len() - i,
    {
        let e = cur.end;
        v.push(cur);
        let ghost before = starts;
        proof {
            starts = starts.push(i as int);
            lemma_skip_blank_lines(s@, e as int);
        }
        let n = skip_blank(s, e);
        if e < n {
            if let Some(h) = match_game(s, n) {
                assert(games_from(s@, i as int) == prepend_starts(seq![i as int], games_from(s@, n as int)));
                proof {
                    assert(before + seq![i as int] =~= starts);
                    if let Ok(w) = games_from(s@, n as int) {
                        assert(before + (seq![i as int] + w) =~= starts + w);
                    }
                }
                i = n;
                cur = h;
                continue;
            }
        }
        let w = skip(s, e, CharClass::White);
        if w == s.len() {
            assert(before + seq![i as int] =~= starts);
            return Ok(v);
        } else {
            return Err(w);
        }
    }
}

} // verus!

verus! {

/// The rules of the grammar, each of which can be matched on its own.
#[allow(non_camel_case_types)]
#[derive(Clone, Copy, PartialEq, Eq, Debug, Hash)]
pub enum Rule {
    WHITESPACE,
    SPACE,
    number,
    currency,
    any_text,
    name,
    author,
    age,
    time,
    players,
    price,
    game,
    games,
}

/// What matching `rule` at the start of `s` gives: the end of the match, or
/// the position where the input stops fitting the rule. Every rule but
/// `games` may leave input after its match; `games` must reach the end.
pub open spec fn rule_result(rule: Rule, s: Seq<char>) -> Result<int, int> {
    let m = match rule {
        Rule::WHITESPACE => run_at(s, 0, CharClass::White),
        Rule::SPACE => run_at(s, 0, CharClass::Space),
        Rule::number => number_at(s, 0),
        Rule::currency => currency_at(s, 0),
        Rule::any_text => any_text_at(s, 0),
        Rule::name => name_at(s, 0),
        Rule::author => author_at(s, 0),
        Rule::age => age_at(s, 0),
        Rule::time => time_at(s, 0),
        Rule::players => players_at(s, 0),
        Rule::price => price_at(s, 0),
        Rule::game => game_at(s, 0),
        Rule::games => None,
    };
    if rule == Rule::games {
        match games_at(s) {
            Ok(_) => Ok(s.len() as int),
            Err(x) => Err(x),
        }
    } else {
        match m {
            Some(e) => Ok(e),
            None => Err(0),
        }
    }
}

/// A match of a rule: the rule and the character positions it spans.
#[derive(Clone, Copy, PartialEq, Eq, Debug)]
pub struct Pair {
    pub rule: Rule,
    pub start: usize,
    pub end: usize,
}

/// The input does not fit the grammar: `position` is the character position
/// where it stops fitting, `expected` the rule that was being matched.
#[derive(Clone, Copy, PartialEq, Eq, Debug)]
pub struct SyntaxError {
    pub position: usize,
    pub expected: Rule,
}

/// The characters of `input`, in order.
pub fn chars_of(input: &str) -> (r: Vec<char>)
    ensures
        r@ == input@,
{
    let mut v: Vec<char> = Vec::new();
    for c in it: input.chars()
        invariant
            v@ == it.seq().take(it.index() as int),
    {
        v.push(c);
    }
    v
}

} // verus!

verus! {

/// The catalog grammar.
pub struct Grammar;

impl Grammar {
    /// Matches `rule` at the start of `input`.
    pub fn parse(rule: Rule, input: &str) -> (r: Result<Pair, SyntaxError>)
        ensures
            match r {
                Ok(p) => p.rule == rule && p.start == 0 && rule_result(rule, input@) == Ok::<
                    int,
                    int,
                >(p.end as int),
                Err(e) => e.expected == rule && rule_result(rule, input@) == Err::<int, int>(
                    e.position as int,
                ),
            },
    {
        let s = chars_of(input);
        let m = match rule {
            Rule::WHITESPACE => match_run(&s, 0, CharClass::White),
            Rule::SPACE => match_run(&s, 0, CharClass::Space),
            Rule::number => match_number(&s, 0),
            Rule::currency => match_currency(&s, 0),
            Rule::any_text => match_any_text(&s, 0),
            Rule::name => match_text_field(&s, 0, name_label_exec()),
            Rule::author => match_text_field(&s, 0, author_label_exec()),
            Rule::age => match match_number_field(&s, 0, age_label_exec()) {
                Some(t) => Some(t.2),
                None => None,
            },
            Rule::time => match match_range_field(&s, 0, time_label_exec()) {
                Some(t) => Some(t.3),
                None => None,
            },
            Rule::players => match match_range_field(&s, 0, players_label_exec()) {
                Some(t) => Some(t.3),
                None => None,
            },
            Rule::price => match match_price(&s, 0) {
                Some(t) => Some(t.2),
                None => None,
            },
            Rule::game => match match_game(&s, 0) {
                Some(g) => Some(g.end),
                None => None,
            },
            Rule::games => match match_games(&s) {
                Ok(_) => Some(s.len()),
                Err(x) => return Err(SyntaxError { position: x, expected: rule }),
            },
        };
        match m {
            Some(e) => Ok(Pair { rule, start: 0, end: e }),
            None => Err(SyntaxError { position: 0, expected: rule }),
        }
    }
}

impl Pair {
    /// The text of `input` that the match spans.
    pub fn as_str<'a>(&self, input: &'a str) -> (r: &'a str)
        requires
            self.start <= self.end <= input@.len(),
        ensures
            r@ == input@.subrange(self.start as int, self.end as int),
    {
        input.substring_char(self.start, self.end)
    }
}

} // verus!

verus! {

/// One or more decimal digits.
pub open spec fn is_digits(t: Seq<char>) -> bool {
    t.len() > 0 && forall|k: int| 0 <= k < t.len() ==> is_digit(#[trigger] t[k])
}

/// Digits, optionally followed by `.` and digits.
pub open spec fn is_unsigned_numeral(t: Seq<char>) -> bool {
    is_digits(t) || exists|k: int|
        0 < k < t.len() && #[trigger] t[k] == '.' && is_digits(t.take(k)) && is_digits(t.skip(k + 1))
}

/// What the `number` rule describes: an optional `-`, then an unsigned numeral.
pub open spec fn is_numeral(t: Seq<char>) -> bool {
    is_unsigned_numeral(t) || (t.len() > 0 && t[0] == '-' && is_unsigned_numeral(t.skip(1)))
}

proof fn lemma_skip_to(s: Seq<char>, j: int, m: int, k: CharClass)
    requires
        0 <= j <= m <= s.len(),
        forall|x: int| j <= x < m ==> in_class(#[trigger] s[x], k),
        m == s.len() || !in_class(s[m], k),
    ensures
        skip_class(s, j, k) == m,
    decreases m - j,
{
    if j < m {
        lemma_skip_to(s, j + 1, m, k);
    }
}

/// The `number` rule, matched on a numeral, takes the whole of it.
pub proof fn lemma_number_takes_numeral(t: Seq<char>)
    requires
        is_numeral(t),
    ensures
        number_at(t, 0) == Some(t.len() as int),
{
    let j: int = if t[0] == '-' { 1 } else { 0 };
    let u = t.skip(j);
    assert(is_unsigned_numeral(u)) by {
        if t[0] == '-' {
            if is_digits(t) {
                assert(is_digit(t[0]));
            }
            if !is_digits(t) && is_unsigned_numeral(t) {
                let k = choose|k: int|
                    0 < k < t.len() && #[trigger] t[k] == '.' && is_digits(t.take(k)) && is_digits(
                        t.skip(k + 1),
                    );
                assert(is_digit(t.take(k)[0]));
            }
        } else {
            assert(u =~= t);
        }
    }
    if is_digits(u) {
        assert forall|x: int| j <= x < t.len() implies in_class(#[trigger] t[x], CharClass::Digit) by {
            assert(u[x - j] == t[x]);
        }
        lemma_skip_to(t, j, t.len() as int, CharClass::Digit);
    } else {
        let k = choose|k: int|
            0 < k < u.len() && #[trigger] u[k] == '.' && is_digits(u.take(k)) && is_digits(
                u.skip(k + 1),
            );
        assert forall|x: int| j <= x < j + k implies in_class(#[trigger] t[x], CharClass::Digit) by {
            assert(u.take(k)[x - j] == t[x]);
        }
        lemma_skip_to(t, j, j + k, CharClass::Digit);
        assert forall|x: int| j + k + 1 <= x < t.len() implies in_class(
            #[trigger] t[x],
            CharClass::Digit,
        ) by {
            assert(u.skip(k + 1)[x - j - k - 1] == t[x]);
        }
        lemma_skip_to(t, j + k + 1, t.len() as int, CharClass::Digit);
    }
}

/// The `currency` rule matches the three letters of `UAH`, `EUR` or `USD`,
/// and nothing that does not start with one of them.
pub proof fn lemma_currency_codes(t: Seq<char>)
    ensures
        (t == uah() || t == eur() || t == usd()) ==> currency_at(t, 0) == Some(3int),
        currency_at(t, 0) is Some <==> (t.len() >= 3 && (t.take(3) == uah() || t.take(3) == eur()
            || t.take(3) == usd())),
        currency_at(t, 0) matches Some(e) ==> e == 3,
{
    if t == uah() || t == eur() || t == usd() {
        assert(t.subrange(0, 3) =~= t);
    }
}

/// A document that fits the grammar is consumed to its end: after the last
/// game only white space remains.
pub proof fn lemma_games_reach_end(s: Seq<char>, i: int)
    requires
        games_from(s, i) is Ok,
    ensures
        games_from(s, i)->Ok_0.len() > 0,
        ({
            let p = games_from(s, i)->Ok_0;
            let e = game_at(s, p.last())->0;
            game_at(s, p.last()) is Some && 0 <= e <= s.len() && forall|x: int|
                e <= x < s.len() ==> in_class(#[trigger] s[x], CharClass::White)
        }),
    decreases s.len() - i,
{
    let e = game_at(s, i)->0;
    let n = skip_blank_lines(s, e);
    if i < e < n <= s.len() && game_at(s, n) is Some {
        lemma_games_reach_end(s, n);
        let w = games_from(s, n)->Ok_0;
        assert((seq![i] + w).last() == w.last());
    } else {
        assert(skip_class(s, e, CharClass::White) == s.len());
        assert(0 <= e) by {
            reveal(field_starts);
        }
        if e <= s.len() {
            lemma_skip_class_bounds(s, e, CharClass::White);
        }
    }
}

} // verus!

verus! {

/// The games of a document come in the order they stand in the input: their
/// start positions strictly increase, from the first position tried on.
pub proof fn lemma_games_in_source_order(s: Seq<char>, i: int)
    requires
        games_from(s, i) is Ok,
    ensures
        ({
            let p = games_from(s, i)->Ok_0;
            &&& p.len() > 0 && p[0] == i
            &&& forall|k: int, m: int| 0 <= k < m < p.len() ==> p[k] < p[m]
        }),
    decreases s.len() - i,
{
    let e = game_at(s, i)->0;
    let n = skip_blank_lines(s, e);
    if i < e < n <= s.len() && game_at(s, n) is Some {
        lemma_games_in_source_order(s, n);
        let w = games_from(s, n)->Ok_0;
        let p = seq![i] + w;
        assert forall|k: int, m: int| 0 <= k < m < p.len() implies p[k] < p[m] by {
            if k > 0 {
                assert(p[k] == w[k - 1] && p[m] == w[m - 1]);
            } else {
                assert(p[m] == w[m - 1]);
                assert(w[0] <= w[m - 1]);
            }
        }
    }
}

} // verus!
