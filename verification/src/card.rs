//! Playing cards.
//!
//! A card is one byte, `rank * 4 + suit`, with ranks 0..13 running from the
//! deuce to the ace and suits 0..4 standing for clubs, diamonds, hearts and
//! spades. Its text form is two characters, rank then suit, as in `As`.

use vstd::prelude::*;
use vstd::arithmetic::power2::pow2;

verus! {

pub const RANK_2: u8 = 0;
pub const RANK_3: u8 = 1;
pub const RANK_4: u8 = 2;
pub const RANK_5: u8 = 3;
pub const RANK_6: u8 = 4;
pub const RANK_7: u8 = 5;
pub const RANK_8: u8 = 6;
pub const RANK_9: u8 = 7;
pub const RANK_T: u8 = 8;
pub const RANK_J: u8 = 9;
pub const RANK_Q: u8 = 10;
pub const RANK_K: u8 = 11;
pub const RANK_A: u8 = 12;

pub const SUIT_CLUBS: u8 = 0;
pub const SUIT_DIAMONDS: u8 = 1;
pub const SUIT_HEARTS: u8 = 2;
pub const SUIT_SPADES: u8 = 3;

/// Index returned by [`parse_card`], and rank or suit returned by
/// [`card_rank`] and [`card_suit`], when the input names no card.
pub const INVALID: u8 = 255;

/// `String::push` appends one character to the string.
pub assume_specification[ String::push ](s: &mut String, ch: char)
    ensures
        final(s)@ == old(s)@.push(ch),
;

/// The character that prints a rank.
pub open spec fn rank_char(rank: u8) -> char {
    if rank == 0 {
        '2'
    } else if rank == 1 {
        '3'
    } else if rank == 2 {
        '4'
    } else if rank == 3 {
        '5'
    } else if rank == 4 {
        '6'
    } else if rank == 5 {
        '7'
    } else if rank == 6 {
        '8'
    } else if rank == 7 {
        '9'
    } else if rank == 8 {
        'T'
    } else if rank == 9 {
        'J'
    } else if rank == 10 {
        'Q'
    } else if rank == 11 {
        'K'
    } else {
        'A'
    }
}

/// The character that prints a suit.
pub open spec fn suit_char(suit: u8) -> char {
    if suit == 0 {
        'c'
    } else if suit == 1 {
        'd'
    } else if suit == 2 {
        'h'
    } else {
        's'
    }
}

/// The rank a character stands for, in either letter case.
pub open spec fn char_rank(c: char) -> Option<u8> {
    if c == '2' {
        Some(0u8)
    } else if c == '3' {
        Some(1u8)
    } else if c == '4' {
        Some(2u8)
    } else if c == '5' {
        Some(3u8)
    } else if c == '6' {
        Some(4u8)
    } else if c == '7' {
        Some(5u8)
    } else if c == '8' {
        Some(6u8)
    } else if c == '9' {
        Some(7u8)
    } else if c == 'T' || c == 't' {
        Some(8u8)
    } else if c == 'J' || c == 'j' {
        Some(9u8)
    } else if c == 'Q' || c == 'q' {
        Some(10u8)
    } else if c == 'K' || c == 'k' {
        Some(11u8)
    } else if c == 'A' || c == 'a' {
        Some(12u8)
    } else {
        None
    }
}

/// The suit a character stands for, in either letter case.
pub open spec fn char_suit(c: char) -> Option<u8> {
    if c == 'c' || c == 'C' {
        Some(0u8)
    } else if c == 'd' || c == 'D' {
        Some(1u8)
    } else if c == 'h' || c == 'H' {
        Some(2u8)
    } else if c == 's' || c == 'S' {
        Some(3u8)
    } else {
        None
    }
}

/// One of the 52 cards, held as its index `rank * 4 + suit`.
#[derive(Copy, Clone, Debug, PartialEq, Eq, Hash, Structural)]
pub struct Card(pub(crate) u8);

impl Card {
    /// Every card value names one of the 52 cards.
    #[verifier::type_invariant]
    pub open(crate) spec fn wf(&self) -> bool {
        self.0 < 52
    }

    /// The card with the given index, as a ghost value.
    pub open(crate) spec fn of(index: u8) -> Card {
        Card(index)
    }

    pub open(crate) spec fn spec_index(&self) -> u8 {
        self.0
    }

    pub open spec fn spec_rank(&self) -> u8 {
        self.index() / 4
    }

    pub open spec fn spec_suit(&self) -> u8 {
        self.index() % 4
    }

    pub open spec fn spec_bitmask(&self) -> u64 {
        1u64 << self.index()
    }

    /// What a string parses to: a card when it is exactly a rank character
    /// followed by a suit character, nothing otherwise.
    pub open spec fn parse(s: Seq<char>) -> Option<Card> {
        if s.len() == 2 && char_rank(s[0]) is Some && char_suit(s[1]) is Some {
            Some(Card::of((char_rank(s[0])->0 * 4 + char_suit(s[1])->0) as u8))
        } else {
            None
        }
    }

    /// The two characters that print a card.
    pub open spec fn format(&self) -> Seq<char> {
        seq![rank_char(self.rank()), suit_char(self.suit())]
    }

    /// The card of the given rank (0..13, deuce to ace) and suit (0..4).
    pub fn new(rank: u8, suit: u8) -> (c: Card)
        requires
            rank < 13,
            suit < 4,
        ensures
            c == Card::of((rank * 4 + suit) as u8),
            c.wf(),
            c.rank() == rank,
            c.suit() == suit,
    {
        Card(rank * 4 + suit)
    }

    /// The card with the given index (0..52).
    pub fn from_index(index: u8) -> (c: Card)
        requires
            index < 52,
        ensures
            c == Card::of(index),
            c.wf(),
            c.index() == index,
    {
        Card(index)
    }

    #[verifier::when_used_as_spec(spec_index)]
    pub fn index(&self) -> (i: u8)
        ensures
            i == self.spec_index(),
            i < 52,
    {
        proof {
            use_type_invariant(self);
        }
        self.0
    }

    #[verifier::when_used_as_spec(spec_rank)]
    pub fn rank(&self) -> (r: u8)
        ensures
            r == self.spec_rank(),
            r < 13,
    {
        proof {
            use_type_invariant(self);
        }
        self.0 / 4
    }

    #[verifier::when_used_as_spec(spec_suit)]
    pub fn suit(&self) -> (s: u8)
        ensures
            s == self.spec_suit(),
            s < 4,
    {
        self.0 % 4
    }

    /// The card as a one-bit set: bit `index` of a 64-bit word.
    #[verifier::when_used_as_spec(spec_bitmask)]
    pub fn bitmask(&self) -> (m: u64)
        ensures
            m == self.spec_bitmask(),
    {
        proof {
            use_type_invariant(self);
        }
        1u64 << self.0
    }

    /// Parses a card from text such as `As`, `Th` or `2c`; the letter case of
    /// either character does not matter.
    pub fn from_str(s: &str) -> (r: Option<Card>)
        ensures
            r == Card::parse(s@),
            r is Some ==> r->0.wf(),
    {
        if s.unicode_len() != 2 {
            return None;
        }
        let rank: u8 = match rank_from_char(s.get_char(0)) {
            Some(rank) => rank,
            None => {
                return None;
            },
        };
        let suit: u8 = match suit_from_char(s.get_char(1)) {
            Some(suit) => suit,
            None => {
                return None;
            },
        };
        Some(Card::new(rank, suit))
    }

    /// Prints the card as two characters such as `As`.
    pub fn to_string(&self) -> (s: String)
        ensures
            s@ == self.format(),
    {
        let mut s = String::new();
        s.push(rank_to_char(self.rank()));
        s.push(suit_to_char(self.suit()));
        assert(s@ =~= self.format());
        s
    }

    /// Two well-formed cards with the same index are the same card.
    pub proof fn lemma_index_determines(a: Card, b: Card)
        ensures
            a.index() == b.index() <==> a == b,
            a.wf() ==> a.rank() < 13 && a.suit() < 4 && a.index() == a.rank() * 4 + a.suit(),
            a.wf() && b.wf() && a.rank() == b.rank() && a.suit() == b.suit() ==> a == b,
    {
    }

    /// A card's mask is the power of two `2^index`, between 1 and `1 << 51`,
    /// and the masks of two different cards have no bit in common.
    pub proof fn lemma_bitmask_unique(a: Card, b: Card)
        requires
            a.wf(),
            b.wf(),
        ensures
            a.bitmask() == pow2(a.index() as nat),
            1 <= a.bitmask() <= (1u64 << 51),
            a != b ==> a.bitmask() & b.bitmask() == 0,
            a != b ==> a.bitmask() != b.bitmask(),
    {
        let i: u8 = a.index();
        let j: u8 = b.index();
        vstd::bits::lemma_u64_pow2_no_overflow(i as nat);
        vstd::bits::lemma_u64_shl_is_mul(1, i as u64);
        assert(1 <= (1u64 << i) <= (1u64 << 51)) by (bit_vector)
            requires
                i < 52,
        ;
        assert(i != j ==> (1u64 << i) & (1u64 << j) == 0) by (bit_vector)
            requires
                i < 52,
                j < 52,
        ;
        assert((1u64 << i) & (1u64 << i) != 0) by (bit_vector)
            requires
                i < 52,
        ;
    }

    /// Parsing what [`Card::to_string`] prints gives the card back.
    pub proof fn lemma_parse_format(c: Card)
        requires
            c.wf(),
        ensures
            Card::parse(c.format()) == Some(c),
    {
        let r: u8 = c.rank();
        let s: u8 = c.suit();
        assert(char_rank(rank_char(r)) == Some(r));
        assert(char_suit(suit_char(s)) == Some(s));
    }
}

/// The union of the masks of the cards with index below `n`.
pub open spec fn deck_mask(n: nat) -> u64
    decreases n,
{
    if n == 0 {
        0
    } else {
        deck_mask((n - 1) as nat) | Card::of((n - 1) as u8).bitmask()
    }
}

/// The masks of the first `n` cards fill exactly the low `n` bits.
pub proof fn lemma_deck_mask_prefix(n: nat)
    requires
        n <= 52,
    ensures
        deck_mask(n) == ((1u64 << (n as u64)) - 1) as u64,
    decreases n,
{
    if n == 0 {
        assert((1u64 << 0u64) - 1 == 0) by (bit_vector);
    } else {
        lemma_deck_mask_prefix((n - 1) as nat);
        let k: u64 = (n - 1) as u64;
        let i: u8 = (n - 1) as u8;
        assert(Card::of(i).bitmask() == 1u64 << k) by (bit_vector)
            requires
                i == k,
                Card::of(i).bitmask() == 1u64 << i,
        ;
        assert((((1u64 << k) - 1) as u64) | (1u64 << k) == ((1u64 << ((k + 1) as u64)) - 1) as u64)
            by (bit_vector)
            requires
                k < 52,
        ;
    }
}

/// The masks of all 52 cards together are the low 52 bits, `(1 << 52) - 1`.
pub proof fn lemma_deck_mask_full()
    ensures
        deck_mask(52) == ((1u64 << 52) - 1) as u64,
{
    lemma_deck_mask_prefix(52);
}

fn rank_from_char(c: char) -> (r: Option<u8>)
    ensures
        r == char_rank(c),
        r is Some ==> r->0 < 13,
{
    match c {
        '2' => Some(RANK_2),
        '3' => Some(RANK_3),
        '4' => Some(RANK_4),
        '5' => Some(RANK_5),
        '6' => Some(RANK_6),
        '7' => Some(RANK_7),
        '8' => Some(RANK_8),
        '9' => Some(RANK_9),
        'T' | 't' => Some(RANK_T),
        'J' | 'j' => Some(RANK_J),
        'Q' | 'q' => Some(RANK_Q),
        'K' | 'k' => Some(RANK_K),
        'A' | 'a' => Some(RANK_A),
        _ => None,
    }
}

fn suit_from_char(c: char) -> (r: Option<u8>)
    ensures
        r == char_suit(c),
        r is Some ==> r->0 < 4,
{
    match c {
        'c' | 'C' => Some(SUIT_CLUBS),
        'd' | 'D' => Some(SUIT_DIAMONDS),
        'h' | 'H' => Some(SUIT_HEARTS),
        's' | 'S' => Some(SUIT_SPADES),
        _ => None,
    }
}

fn rank_to_char(rank: u8) -> (c: char)
    requires
        rank < 13,
    ensures
        c == rank_char(rank),
{
    match rank {
        0 => '2',
        1 => '3',
        2 => '4',
        3 => '5',
        4 => '6',
        5 => '7',
        6 => '8',
        7 => '9',
        8 => 'T',
        9 => 'J',
        10 => 'Q',
        11 => 'K',
        _ => 'A',
    }
}

fn suit_to_char(suit: u8) -> (c: char)
    requires
        suit < 4,
    ensures
        c == suit_char(suit),
{
    match suit {
        0 => 'c',
        1 => 'd',
        2 => 'h',
        _ => 's',
    }
}

/// The index of the card that `s` names, or [`INVALID`] when it names none.
pub fn parse_card(s: &str) -> (i: u8)
    ensures
        i == match Card::parse(s@) {
            Some(c) => c.index(),
            None => INVALID,
        },
{
    match Card::from_str(s) {
        Some(c) => c.index(),
        None => INVALID,
    }
}

/// The text of the card with index `c`, or `??` when `c` is no card.
pub fn card_to_string(c: u8) -> (s: String)
    ensures
        s@ == if c < 52 {
            Card::of(c).format()
        } else {
            "??"@
        },
{
    if c >= 52 {
        return "??".to_owned();
    }
    Card::from_index(c).to_string()
}

/// The mask of the card with index `c`, or 0 when `c` is no card.
pub fn card_bitmask(c: u8) -> (m: u64)
    ensures
        m == if c < 52 {
            Card::of(c).bitmask()
        } else {
            0
        },
{
    if c >= 52 {
        return 0;
    }
    Card::from_index(c).bitmask()
}

/// The rank of the card with index `c`, or [`INVALID`] when `c` is no card.
pub fn card_rank(c: u8) -> (r: u8)
    ensures
        r == if c < 52 {
            c / 4
        } else {
            INVALID
        },
{
    if c >= 52 {
        return INVALID;
    }
    Card::from_index(c).rank()
}

/// The suit of the card with index `c`, or [`INVALID`] when `c` is no card.
pub fn card_suit(c: u8) -> (s: u8)
    ensures
        s == if c < 52 {
            c % 4
        } else {
            INVALID
        },
{
    if c >= 52 {
        return INVALID;
    }
    Card::from_index(c).suit()
}

} // verus!
