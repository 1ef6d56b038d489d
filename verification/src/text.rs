//! Cards, hands and actions as text.
//!
//! A text is cut into words at white space. A hand is written as its cards,
//! one word each, and an action as its name, which an amount may follow.

use vstd::prelude::*;
use crate::card::Card;
use crate::equity::{compute_single_equity, matchup, Equity};
use crate::evaluator::{
    best_score, evaluate_7_cards, get_hand_rank_name, hand_rank_name, LookupTables, WORST_SCORE,
};
use crate::builder::build_error;
use crate::session::{action_word, tree_of, SolverError, SolverSession};
use crate::types::{ActionType, GameConfig};

verus! {

/// Whether a character is white space: one of the characters that Unicode
/// gives the property `White_Space`.
pub open spec fn is_space(c: char) -> bool {
    let code = c as u32;
    (0x09 <= code <= 0x0D) || code == 0x20 || code == 0x85 || code == 0xA0 || code == 0x1680 || (
    0x2000 <= code <= 0x200A) || code == 0x2028 || code == 0x2029 || code == 0x202F || code
        == 0x205F || code == 0x3000
}

/// Whether a character is white space.
pub fn is_whitespace(c: char) -> (b: bool)
    ensures
        b == is_space(c),
{
    let code: u32 = c as u32;
    (0x09 <= code && code <= 0x0D) || code == 0x20 || code == 0x85 || code == 0xA0 || code
        == 0x1680 || (0x2000 <= code && code <= 0x200A) || code == 0x2028 || code == 0x2029
        || code == 0x202F || code == 0x205F || code == 0x3000
}

/// The first place at or behind `i` that holds no white space, or the
/// length of the text.
pub open spec fn word_start(s: Seq<char>, i: int) -> int
    decreases s.len() - i,
{
    if i < 0 || i >= s.len() || !is_space(s[i]) {
        i
    } else {
        word_start(s, i + 1)
    }
}

/// The first place at or behind `i` that holds white space, or the length
/// of the text.
pub open spec fn word_end(s: Seq<char>, i: int) -> int
    decreases s.len() - i,
{
    if i < 0 || i >= s.len() || is_space(s[i]) {
        i
    } else {
        word_end(s, i + 1)
    }
}

/// A word starts no earlier than where the search for it starts, and
/// inside the text it starts on a character that is no white space.
pub proof fn lemma_word_start(s: Seq<char>, i: int)
    requires
        0 <= i <= s.len(),
    ensures
        i <= word_start(s, i) <= s.len(),
        word_start(s, i) < s.len() ==> !is_space(s[word_start(s, i)]),
    decreases s.len() - i,
{
    if i < s.len() && is_space(s[i]) {
        lemma_word_start(s, i + 1);
    }
}

/// A word that starts inside the text has at least one character.
pub proof fn lemma_word_end(s: Seq<char>, i: int)
    requires
        0 <= i <= s.len(),
    ensures
        i <= word_end(s, i) <= s.len(),
        i < s.len() && !is_space(s[i]) ==> i < word_end(s, i),
    decreases s.len() - i,
{
    if i < s.len() && !is_space(s[i]) {
        lemma_word_end(s, i + 1);
    }
}

/// The words of the text from the place `i` on.
pub open spec fn words_from(s: Seq<char>, i: int) -> Seq<Seq<char>>
    decreases s.len() - i,
{
    if i < 0 || i > s.len() {
        Seq::empty()
    } else {
        let a = word_start(s, i);
        if a >= s.len() {
            Seq::empty()
        } else {
            let b = word_end(s, a);
            proof {
                lemma_word_start(s, i);
                lemma_word_end(s, a);
            }
            seq![s.subrange(a, b)] + words_from(s, b)
        }
    }
}

/// The words of a text: its longest runs of characters that are no white
/// space, in their order.
pub open spec fn words_of(s: Seq<char>) -> Seq<Seq<char>> {
    words_from(s, 0)
}

/// The texts of a list of strings.
pub open spec fn texts(words: Seq<String>) -> Seq<Seq<char>> {
    words.map_values(|w: String| w@)
}

/// Cuts a text into its words.
pub fn split_words(s: &str) -> (words: Vec<String>)
    ensures
        texts(words@) == words_of(s@),
{
    let n: usize = s.unicode_len();
    let mut words: Vec<String> = Vec::new();
    let mut i: usize = 0;
    assert(texts(words@) =~= Seq::<Seq<char>>::empty());
    loop
        invariant
            n == s@.len(),
            0 <= i <= n,
            texts(words@) + words_from(s@, i as int) == words_of(s@),
        ensures
            texts(words@) == words_of(s@),
        decreases n - i,
    {
        let ghost from = i as int;
        while i < n && is_whitespace(s.get_char(i))
            invariant
                n == s@.len(),
                from <= i <= n,
                word_start(s@, from) == word_start(s@, i as int),
            decreases n - i,
        {
            i = i + 1;
        }
        if i >= n {
            assert(words_from(s@, from) =~= Seq::<Seq<char>>::empty());
            assert(words_from(s@, i as int) =~= Seq::<Seq<char>>::empty());
            assert(texts(words@) + Seq::<Seq<char>>::empty() =~= texts(words@));
            break;
        }
        let start: usize = i;
        while i < n && !is_whitespace(s.get_char(i))
            invariant
                n == s@.len(),
                start <= i <= n,
                word_end(s@, start as int) == word_end(s@, i as int),
            decreases n - i,
        {
            i = i + 1;
        }
        proof {
            lemma_word_end(s@, start as int);
        }
        let word: String = s.substring_char(start, i).to_owned();
        let ghost before = words@;
        words.push(word);
        proof {
            assert(texts(words@) =~= texts(before) + seq![s@.subrange(start as int, i as int)]);
            assert(words_from(s@, from) == seq![s@.subrange(start as int, i as int)] + words_from(
                s@,
                i as int,
            ));
            assert(texts(words@) + words_from(s@, i as int) =~= texts(before) + words_from(s@, from));
        }
    }
    words
}

/// The cards among the words: each word that is a card, in order.
pub open spec fn cards_among(words: Seq<Seq<char>>) -> Seq<Card>
    decreases words.len(),
{
    if words.len() == 0 {
        Seq::empty()
    } else {
        match Card::parse(words.last()) {
            Some(card) => cards_among(words.drop_last()).push(card),
            None => cards_among(words.drop_last()),
        }
    }
}

/// Whether `at` is the first word that is no card.
pub open spec fn first_bad_word(words: Seq<Seq<char>>, at: int) -> bool {
    &&& 0 <= at < words.len()
    &&& Card::parse(words[at]) is None
    &&& forall|i: int| 0 <= i < at ==> Card::parse(#[trigger] words[i]) is Some
}

/// Whether every word is a card.
pub open spec fn all_words_are_cards(words: Seq<Seq<char>>) -> bool {
    forall|i: int| 0 <= i < words.len() ==> Card::parse(#[trigger] words[i]) is Some
}

/// Reads the cards of a text and passes over the words that are no card.
pub fn parse_cards(s: &str) -> (cards: Vec<Card>)
    ensures
        cards@ == cards_among(words_of(s@)),
{
    let words = split_words(s);
    let mut cards: Vec<Card> = Vec::new();
    let mut i: usize = 0;
    while i < words.len()
        invariant
            0 <= i <= words.len(),
            texts(words@) == words_of(s@),
            cards@ == cards_among(words_of(s@).take(i as int)),
        decreases words.len() - i,
    {
        let ghost all = words_of(s@);
        proof {
            assert(all.take(i + 1).drop_last() =~= all.take(i as int));
            assert(all.take(i + 1).last() == all[i as int]);
            assert(texts(words@)[i as int] == words@[i as int]@);
        }
        match Card::from_str(words[i].as_str()) {
            Some(card) => {
                cards.push(card);
            },
            None => {},
        }
        i = i + 1;
    }
    assert(words_of(s@).take(words.len() as int) =~= words_of(s@));
    cards
}

/// Reads a hand: every word of the text has to be a card.
///
/// It fails on the first word that is no card and names its place.
pub fn parse_hand(s: &str) -> (res: Result<Vec<Card>, SolverError>)
    ensures
        match res {
            Ok(cards) => all_words_are_cards(words_of(s@)) && cards@ == cards_among(words_of(s@))
                && cards@.len() == words_of(s@).len(),
            Err(e) => exists|at: usize|
                e == (SolverError::InvalidCard { word: at }) && first_bad_word(
                    words_of(s@),
                    at as int,
                ),
        },
{
    let words = split_words(s);
    let mut cards: Vec<Card> = Vec::new();
    let mut i: usize = 0;
    while i < words.len()
        invariant
            0 <= i <= words.len(),
            texts(words@) == words_of(s@),
            cards@ == cards_among(words_of(s@).take(i as int)),
            cards@.len() == i,
            forall|k: int| 0 <= k < i ==> Card::parse(#[trigger] words_of(s@)[k]) is Some,
        decreases words.len() - i,
    {
        let ghost all = words_of(s@);
        proof {
            assert(all.take(i + 1).drop_last() =~= all.take(i as int));
            assert(all.take(i + 1).last() == all[i as int]);
            assert(texts(words@)[i as int] == words@[i as int]@);
        }
        match Card::from_str(words[i].as_str()) {
            Some(card) => {
                cards.push(card);
            },
            None => {
                assert(first_bad_word(all, i as int));
                return Err(SolverError::InvalidCard { word: i });
            },
        }
        i = i + 1;
    }
    assert(words_of(s@).take(words.len() as int) =~= words_of(s@));
    Ok(cards)
}

/// Scores the cards written in a text: the best hand of five among them,
/// and the weakest score where there are fewer than five. Words that are
/// no card are passed over.
pub fn test_evaluation(tables: &LookupTables, cards_str: &str) -> (score: u16)
    ensures
        score == best_score(cards_among(words_of(cards_str@))),
        1 <= score <= WORST_SCORE,
{
    let cards = parse_cards(cards_str);
    evaluate_7_cards(tables, cards.as_slice())
}

/// The name of the hand with the given score, as a string of its own.
pub fn get_hand_name(score: u16) -> (name: String)
    ensures
        name@ == hand_rank_name(score),
{
    get_hand_rank_name(score).to_owned()
}

/// The equity of the first hand against the second on the board, all three
/// written as text; nothing when the matchup is blocked. Words that are no
/// card are passed over.
pub fn evaluate_matchup(
    tables: &LookupTables,
    board_str: &str,
    hand1_str: &str,
    hand2_str: &str,
) -> (equity: Option<Equity>)
    ensures
        equity == matchup(
            cards_among(words_of(board_str@)),
            cards_among(words_of(hand1_str@)),
            cards_among(words_of(hand2_str@)),
        ),
{
    let board = parse_cards(board_str);
    let hand1 = parse_cards(hand1_str);
    let hand2 = parse_cards(hand2_str);
    compute_single_equity(tables, board.as_slice(), hand1.as_slice(), hand2.as_slice())
}

/// The action a word names, in lower case.
pub open spec fn action_of_word(word: Seq<char>) -> Option<ActionType> {
    if word == action_word(ActionType::Fold) {
        Some(ActionType::Fold)
    } else if word == action_word(ActionType::Check) {
        Some(ActionType::Check)
    } else if word == action_word(ActionType::Call) {
        Some(ActionType::Call)
    } else if word == action_word(ActionType::Bet) {
        Some(ActionType::Bet)
    } else if word == action_word(ActionType::Raise) {
        Some(ActionType::Raise)
    } else {
        None
    }
}

/// An action as it is written: its kind, and the text of the amount
/// behind it where there is one.
#[derive(Debug)]
pub struct ActionText {
    pub kind: ActionType,
    pub amount: Option<String>,
}

/// Whether two texts are the same.
fn same_text(a: &str, b: &str) -> (same: bool)
    ensures
        same == (a@ == b@),
{
    let n: usize = a.unicode_len();
    if n != b.unicode_len() {
        return false;
    }
    let mut i: usize = 0;
    while i < n
        invariant
            0 <= i <= n,
            n == a@.len(),
            n == b@.len(),
            forall|k: int| 0 <= k < i ==> a@[k] == b@[k],
        decreases n - i,
    {
        if a.get_char(i) != b.get_char(i) {
            return false;
        }
        i = i + 1;
    }
    assert(a@ =~= b@);
    true
}

/// The action a word names.
pub fn action_from_word(word: &str) -> (kind: Option<ActionType>)
    ensures
        kind == action_of_word(word@),
{
    if same_text(word, "fold") {
        Some(ActionType::Fold)
    } else if same_text(word, "check") {
        Some(ActionType::Check)
    } else if same_text(word, "call") {
        Some(ActionType::Call)
    } else if same_text(word, "bet") {
        Some(ActionType::Bet)
    } else if same_text(word, "raise") {
        Some(ActionType::Raise)
    } else {
        None
    }
}

/// Reads an action such as `check` or `bet 75`: the first word names the
/// action, the second, where there is one, is its amount.
///
/// It fails where the text has no word or its first word names no action.
pub fn parse_action_string(action_str: &str) -> (res: Result<ActionText, SolverError>)
    ensures
        match res {
            Ok(action) => {
                let words = words_of(action_str@);
                &&& words.len() >= 1
                &&& action_of_word(words[0]) == Some(action.kind)
                &&& match action.amount {
                    Some(text) => words.len() >= 2 && text@ == words[1],
                    None => words.len() == 1,
                }
            },
            Err(e) => e == SolverError::UnknownAction && (words_of(action_str@).len() == 0
                || action_of_word(words_of(action_str@)[0]) is None),
        },
{
    let mut words = split_words(action_str);
    proof {
        assert(forall|i: int|
            0 <= i < words@.len() ==> (#[trigger] texts(words@)[i]) == words@[i]@);
    }
    if words.len() == 0 {
        return Err(SolverError::UnknownAction);
    }
    let kind: ActionType = match action_from_word(words[0].as_str()) {
        Some(kind) => kind,
        None => {
            return Err(SolverError::UnknownAction);
        },
    };
    let amount: Option<String> = if words.len() > 1 {
        Some(words[1].clone())
    } else {
        None
    };
    Ok(ActionText { kind, amount })
}

/// The first comma at or behind `i`, or the length of the text.
pub open spec fn piece_end(s: Seq<char>, i: int) -> int
    decreases s.len() - i,
{
    if i < 0 || i >= s.len() || s[i] == ',' {
        i
    } else {
        piece_end(s, i + 1)
    }
}

/// A piece ends inside the text, at a comma or at the end.
pub proof fn lemma_piece_end(s: Seq<char>, i: int)
    requires
        0 <= i <= s.len(),
    ensures
        i <= piece_end(s, i) <= s.len(),
        piece_end(s, i) < s.len() ==> s[piece_end(s, i)] == ',',
    decreases s.len() - i,
{
    if i < s.len() && s[i] != ',' {
        lemma_piece_end(s, i + 1);
    }
}

/// The place of the first word that is no card.
pub open spec fn first_bad(words: Seq<Seq<char>>) -> int {
    choose|at: int| first_bad_word(words, at)
}

/// There is only one first word that is no card.
pub proof fn lemma_first_bad(words: Seq<Seq<char>>, at: int)
    requires
        first_bad_word(words, at),
    ensures
        first_bad(words) == at,
        !all_words_are_cards(words),
{
    let other = first_bad(words);
    assert(first_bad_word(words, other));
    if other < at {
        assert(Card::parse(words[other]) is Some);
    }
    if at < other {
        assert(Card::parse(words[at]) is Some);
    }
}

/// Why the words between two commas are no hand, if they are none: a word
/// is no card, or else there are words, but not two. No word at all is no
/// hand and no fault.
pub open spec fn piece_error(words: Seq<Seq<char>>) -> Option<SolverError> {
    if !all_words_are_cards(words) {
        Some(SolverError::InvalidCard { word: first_bad(words) as usize })
    } else if words.len() != 0 && words.len() != 2 {
        Some(SolverError::HandSize)
    } else {
        None
    }
}

/// The hands written from the place `i` on, one between each two commas,
/// or the fault of the first piece that has one.
pub open spec fn hands_from(s: Seq<char>, i: int) -> Result<Seq<Seq<Card>>, SolverError>
    decreases s.len() - i,
{
    if i < 0 || i > s.len() {
        Ok(Seq::empty())
    } else {
        let e = piece_end(s, i);
        let words = words_of(s.subrange(i, e));
        match piece_error(words) {
            Some(error) => Err(error),
            None => {
                let rest = if e < s.len() {
                    proof {
                        lemma_piece_end(s, i);
                    }
                    hands_from(s, e + 1)
                } else {
                    Ok(Seq::empty())
                };
                match rest {
                    Err(error) => Err(error),
                    Ok(hands) => if words.len() == 0 {
                        Ok(hands)
                    } else {
                        Ok(seq![cards_among(words)] + hands)
                    },
                }
            },
        }
    }
}

/// The hands of a range written as text, hand by hand with commas between.
pub open spec fn hands_of(s: Seq<char>) -> Result<Seq<Seq<Card>>, SolverError> {
    hands_from(s, 0)
}

/// The cards of each hand of a range.
pub open spec fn hands(range: Seq<Vec<Card>>) -> Seq<Seq<Card>> {
    range.map_values(|hand: Vec<Card>| hand@)
}

/// What is left to read of a range, behind the hands read so far.
pub open spec fn behind(read: Seq<Seq<Card>>, rest: Result<Seq<Seq<Card>>, SolverError>) -> Result<
    Seq<Seq<Card>>,
    SolverError,
> {
    match rest {
        Ok(more) => Ok(read + more),
        Err(error) => Err(error),
    }
}

/// Reads a range: hands of two cards each, with commas between them.
/// Nothing between two commas is passed over.
///
/// It fails on the first piece that holds a word that is no card, or that
/// holds cards, but not two.
pub fn parse_range(s: &str) -> (res: Result<Vec<Vec<Card>>, SolverError>)
    ensures
        match res {
            Ok(range) => hands_of(s@) == Ok::<Seq<Seq<Card>>, SolverError>(hands(range@))
                && forall|i: int| 0 <= i < range.len() ==> (#[trigger] range[i])@.len() == 2,
            Err(e) => hands_of(s@) == Err::<Seq<Seq<Card>>, SolverError>(e),
        },
{
    let n: usize = s.unicode_len();
    let mut range: Vec<Vec<Card>> = Vec::new();
    let mut i: usize = 0;
    assert(hands(range@) =~= Seq::<Seq<Card>>::empty());
    assert(behind(hands(range@), hands_from(s@, 0)) == hands_of(s@)) by {
        match hands_from(s@, 0) {
            Ok(more) => {
                assert(Seq::<Seq<Card>>::empty() + more =~= more);
            },
            Err(_) => {},
        }
    }
    loop
        invariant_except_break
            behind(hands(range@), hands_from(s@, i as int)) == hands_of(s@),
        invariant
            n == s@.len(),
            0 <= i <= n,
            forall|k: int| 0 <= k < range.len() ==> (#[trigger] range[k])@.len() == 2,
        ensures
            hands_of(s@) == Ok::<Seq<Seq<Card>>, SolverError>(hands(range@)),
            forall|k: int| 0 <= k < range.len() ==> (#[trigger] range[k])@.len() == 2,
        decreases n - i,
    {
        let start: usize = i;
        let mut end: usize = i;
        while end < n && s.get_char(end) != ','
            invariant
                n == s@.len(),
                start <= end <= n,
                piece_end(s@, start as int) == piece_end(s@, end as int),
            decreases n - end,
        {
            end = end + 1;
        }
        let ghost words = words_of(s@.subrange(start as int, end as int));
        let ghost read = hands(range@);
        let cards: Vec<Card> = match parse_hand(s.substring_char(start, end)) {
            Ok(cards) => cards,
            Err(e) => {
                proof {
                    let at = choose|at: usize|
                        e == (SolverError::InvalidCard { word: at }) && first_bad_word(
                            words,
                            at as int,
                        );
                    lemma_first_bad(words, at as int);
                }
                return Err(e);
            },
        };
        if cards.len() != 0 {
            if cards.len() != 2 {
                return Err(SolverError::HandSize);
            }
            range.push(cards);
            proof {
                assert(hands(range@) =~= read + seq![cards_among(words)]);
            }
        }
        proof {
            let rest = if end < n {
                hands_from(s@, end + 1)
            } else {
                Ok(Seq::empty())
            };
            match rest {
                Ok(more) => {
                    if words.len() == 0 {
                        assert(hands(range@) + more =~= read + more);
                    } else {
                        assert(hands(range@) + more =~= read + (seq![cards_among(words)] + more));
                    }
                },
                Err(_) => {},
            }
            assert(behind(hands(range@), rest) == hands_of(s@));
            if end >= n {
                assert(hands(range@) + Seq::<Seq<Card>>::empty() =~= hands(range@));
            }
        }
        if end >= n {
            break;
        }
        i = end + 1;
    }
    Ok(range)
}

/// Why no session can be made of a configuration and of a board and two
/// ranges written as text, if none can: a word of the board is no card, or
/// else the board does not have five cards, or else the first range or
/// else the second is at fault, or else a range is empty, or else the tree
/// cannot be built.
pub open spec fn session_text_error(
    config: &GameConfig,
    board: Seq<char>,
    range0: Seq<char>,
    range1: Seq<char>,
) -> Option<SolverError> {
    if !all_words_are_cards(words_of(board)) {
        Some(SolverError::InvalidCard { word: first_bad(words_of(board)) as usize })
    } else if words_of(board).len() != 5 {
        Some(SolverError::BoardSize)
    } else if hands_of(range0) is Err {
        Some(hands_of(range0)->Err_0)
    } else if hands_of(range1) is Err {
        Some(hands_of(range1)->Err_0)
    } else if hands_of(range0)->Ok_0.len() == 0 || hands_of(range1)->Ok_0.len() == 0 {
        Some(SolverError::EmptyRange)
    } else {
        match build_error(config) {
            Some(error) => Some(SolverError::Config(error)),
            None => None,
        }
    }
}

/// Makes a session of a configuration and of a board and two ranges
/// written as text.
///
/// It fails exactly where [`session_text_error`] names an error, and with
/// that error.
pub fn session_from_text(
    tables: &LookupTables,
    config: &GameConfig,
    board_str: &str,
    range0_str: &str,
    range1_str: &str,
) -> (res: Result<SolverSession, SolverError>)
    ensures
        match res {
            Ok(session) => {
                &&& session_text_error(config, board_str@, range0_str@, range1_str@) is None
                &&& session.valid()
                &&& session.board_cards() == cards_among(words_of(board_str@))
                &&& hands_of(range0_str@) == Ok::<Seq<Seq<Card>>, SolverError>(
                    hands(session.range_of(0)),
                )
                &&& hands_of(range1_str@) == Ok::<Seq<Seq<Card>>, SolverError>(
                    hands(session.range_of(1)),
                )
                &&& tree_of(session.nodes(), session.infosets(), config)
            },
            Err(e) => session_text_error(config, board_str@, range0_str@, range1_str@) == Some(e),
        },
{
    let board: Vec<Card> = match parse_hand(board_str) {
        Ok(cards) => cards,
        Err(e) => {
            proof {
                let at = choose|at: usize|
                    e == (SolverError::InvalidCard { word: at }) && first_bad_word(
                        words_of(board_str@),
                        at as int,
                    );
                lemma_first_bad(words_of(board_str@), at as int);
            }
            return Err(e);
        },
    };
    if board.len() != 5 {
        return Err(SolverError::BoardSize);
    }
    let range0: Vec<Vec<Card>> = match parse_range(range0_str) {
        Ok(range) => range,
        Err(e) => {
            return Err(e);
        },
    };
    let range1: Vec<Vec<Card>> = match parse_range(range1_str) {
        Ok(range) => range,
        Err(e) => {
            return Err(e);
        },
    };
    proof {
        assert(hands(range0@).len() == range0@.len());
        assert(hands(range1@).len() == range1@.len());
    }
    SolverSession::new(tables, config, board, range0, range1)
}

/// The greeting for a name.
pub open spec fn greeting(name: Seq<char>) -> Seq<char> {
    "Hello, "@ + name + "! Poker Solver Rust Core is ready."@
}

/// A greeting, to see that the library is there.
pub fn greet(name: &str) -> (text: String)
    ensures
        text@ == greeting(name@),
{
    let mut text: String = "Hello, ".to_owned();
    text.append(name);
    text.append("! Poker Solver Rust Core is ready.");
    text
}

} // verus!
