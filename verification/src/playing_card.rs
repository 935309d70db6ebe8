//! Standard playing cards: a small concrete item type for the deck,
//! with constructors from integers or characters and round-trip text
//! parsing and formatting.
//!
//! A card is a suit plus a number. Jokers are their own suit and are told
//! apart by number (0 and 1).

use vstd::prelude::*;

verus! {

use crate::deck::BuilderModel;
use crate::deck::Deck;
use crate::deck::DeckBuilder;

broadcast use vstd::string::group_string_axioms;

/// The suit of a playing card; jokers count as a suit of their own.
#[derive(Debug, Clone, Copy, PartialEq, Eq, Structural)]
pub enum Suit {
    Spades,
    Clubs,
    Hearts,
    Diamonds,
    Joker,
}

/// The suit a small integer stands for: 0 to 4 in the declaration order
/// of [`Suit`], anything else none.
pub open spec fn spec_suit_from_usize(u: int) -> Option<Suit> {
    if u == 0 {
        Some(Suit::Spades)
    } else if u == 1 {
        Some(Suit::Clubs)
    } else if u == 2 {
        Some(Suit::Hearts)
    } else if u == 3 {
        Some(Suit::Diamonds)
    } else if u == 4 {
        Some(Suit::Joker)
    } else {
        None
    }
}

/// The suit a character stands for: the suit's initial, in either case;
/// anything else none.
pub open spec fn spec_suit_from_char(c: char) -> Option<Suit> {
    if c == 's' || c == 'S' {
        Some(Suit::Spades)
    } else if c == 'c' || c == 'C' {
        Some(Suit::Clubs)
    } else if c == 'h' || c == 'H' {
        Some(Suit::Hearts)
    } else if c == 'd' || c == 'D' {
        Some(Suit::Diamonds)
    } else if c == 'j' || c == 'J' {
        Some(Suit::Joker)
    } else {
        None
    }
}

/// The upper-case initial that stands for a suit.
pub open spec fn spec_suit_char(s: Suit) -> char {
    match s {
        Suit::Spades => 'S',
        Suit::Hearts => 'H',
        Suit::Clubs => 'C',
        Suit::Diamonds => 'D',
        Suit::Joker => 'J',
    }
}

impl Suit {
    /// The suit a small integer stands for, 0 to 4; `None` otherwise.
    pub fn from_usize(u: usize) -> (r: Option<Suit>)
        ensures
            r == spec_suit_from_usize(u as int),
    {
        match u {
            0 => Some(Suit::Spades),
            1 => Some(Suit::Clubs),
            2 => Some(Suit::Hearts),
            3 => Some(Suit::Diamonds),
            4 => Some(Suit::Joker),
            _ => None,
        }
    }

    /// The suit a character stands for, either case; `None` otherwise.
    pub fn from_char(c: char) -> (r: Option<Suit>)
        ensures
            r == spec_suit_from_char(c),
    {
        if c == 's' || c == 'S' {
            Some(Suit::Spades)
        } else if c == 'c' || c == 'C' {
            Some(Suit::Clubs)
        } else if c == 'h' || c == 'H' {
            Some(Suit::Hearts)
        } else if c == 'd' || c == 'D' {
            Some(Suit::Diamonds)
        } else if c == 'j' || c == 'J' {
            Some(Suit::Joker)
        } else {
            None
        }
    }

    /// The upper-case initial of this suit.
    pub fn as_char(&self) -> (r: char)
        ensures
            r == spec_suit_char(*self),
    {
        match self {
            Suit::Spades => 'S',
            Suit::Hearts => 'H',
            Suit::Clubs => 'C',
            Suit::Diamonds => 'D',
            Suit::Joker => 'J',
        }
    }
}

/// What a value stands for as a card number, so that the short card
/// constructors take either a number or a character.
pub trait ToCVal: Sized {
    /// The card number this value stands for.
    spec fn spec_card_val(self) -> u8;

    /// Returns the card number this value stands for.
    fn to_card_val(self) -> (r: u8)
        ensures
            r == self.spec_card_val(),
    ;
}

impl ToCVal for u8 {
    open spec fn spec_card_val(self) -> u8 {
        self
    }

    fn to_card_val(self) -> (r: u8) {
        self
    }
}

impl ToCVal for char {
    open spec fn spec_card_val(self) -> u8 {
        if self == 'a' || self == 'A' {
            1
        } else if self == 't' || self == 'T' {
            10
        } else if self == 'j' || self == 'J' {
            11
        } else if self == 'q' || self == 'Q' {
            12
        } else if self == 'k' || self == 'K' {
            13
        } else if 49 <= self as u32 <= 57 {
            (self as u32 - 48) as u8
        } else {
            0
        }
    }

    fn to_card_val(self) -> (r: u8) {
        if self == 'a' || self == 'A' {
            1
        } else if self == 't' || self == 'T' {
            10
        } else if self == 'j' || self == 'J' {
            11
        } else if self == 'q' || self == 'Q' {
            12
        } else if self == 'k' || self == 'K' {
            13
        } else {
            let u = self as u32;
            if 49 <= u && u <= 57 {
                (u - 48) as u8
            } else {
                0
            }
        }
    }
}

/// A playing card: a suit and a number. Numbers 1 (ace) to 13 (king) are
/// the ranks; jokers use 0 and 1.
#[derive(Debug, Clone, Copy, PartialEq, Eq, Structural)]
pub struct PCard {
    /// The card's suit.
    pub suit: Suit,
    /// The card's number: 1 (ace) to 13 (king), or 0 and 1 for jokers.
    pub num: u8,
}

impl PCard {
    /// A card of the given suit; the number may be given as an integer or
    /// as a character (see [`ToCVal`]).
    pub fn new<CV: ToCVal>(suit: Suit, v: CV) -> (r: PCard)
        ensures
            r.suit == suit,
            r.num == v.spec_card_val(),
    {
        PCard { suit, num: v.to_card_val() }
    }

    /// A spade of the given number.
    pub fn s<CV: ToCVal>(v: CV) -> (r: PCard)
        ensures
            r.suit == Suit::Spades,
            r.num == v.spec_card_val(),
    {
        PCard::new(Suit::Spades, v)
    }

    /// A club of the given number.
    pub fn c<CV: ToCVal>(v: CV) -> (r: PCard)
        ensures
            r.suit == Suit::Clubs,
            r.num == v.spec_card_val(),
    {
        PCard::new(Suit::Clubs, v)
    }

    /// A heart of the given number.
    pub fn h<CV: ToCVal>(v: CV) -> (r: PCard)
        ensures
            r.suit == Suit::Hearts,
            r.num == v.spec_card_val(),
    {
        PCard::new(Suit::Hearts, v)
    }

    /// A diamond of the given number.
    pub fn d<CV: ToCVal>(v: CV) -> (r: PCard)
        ensures
            r.suit == Suit::Diamonds,
            r.num == v.spec_card_val(),
    {
        PCard::new(Suit::Diamonds, v)
    }

    /// A joker; the number (0 or 1) tells the two jokers apart.
    pub fn jk(v: u8) -> (r: PCard)
        ensures
            r.suit == Suit::Joker,
            r.num == v,
    {
        PCard::new(Suit::Joker, v)
    }
}

/// Why a card could not be read from text.
#[derive(Debug, Clone, Copy, PartialEq, Eq, Structural)]
pub enum ParseErr {
    /// The text does not name a card.
    BadParse,
    /// The text ended before the card did.
    TooShort,
}

/// What parsing a card from text yields. The first character is the
/// number (see [`ToCVal`] for characters), the second the suit; "10" is
/// the one two-character number, and "Jk" is the joker. Characters past
/// the card are ignored.
pub open spec fn spec_parse(s: Seq<char>) -> Result<PCard, ParseErr> {
    if s.len() < 2 {
        Err(ParseErr::TooShort)
    } else if s[0] == '1' && s[1] == '0' {
        if s.len() < 3 {
            Err(ParseErr::TooShort)
        } else {
            match spec_suit_from_char(s[2]) {
                Some(st) => Ok(PCard { suit: st, num: 10 }),
                None => Err(ParseErr::BadParse),
            }
        }
    } else if s[0] == 'J' && s[1] == 'k' {
        Ok(PCard { suit: Suit::Joker, num: 1 })
    } else {
        match spec_suit_from_char(s[1]) {
            Some(st) => Ok(PCard { suit: st, num: s[0].spec_card_val() }),
            None => Err(ParseErr::BadParse),
        }
    }
}

/// The text for a card number: 'A' for the ace, the digit itself for 2
/// to 9, "10", and 'J', 'Q', 'K' for the court cards; 'E' marks a number
/// no card uses.
pub open spec fn spec_rank_chars(num: u8) -> Seq<char> {
    if num == 1 {
        seq!['A']
    } else if num == 2 {
        seq!['2']
    } else if num == 3 {
        seq!['3']
    } else if num == 4 {
        seq!['4']
    } else if num == 5 {
        seq!['5']
    } else if num == 6 {
        seq!['6']
    } else if num == 7 {
        seq!['7']
    } else if num == 8 {
        seq!['8']
    } else if num == 9 {
        seq!['9']
    } else if num == 10 {
        seq!['1', '0']
    } else if num == 11 {
        seq!['J']
    } else if num == 12 {
        seq!['Q']
    } else if num == 13 {
        seq!['K']
    } else {
        seq!['E']
    }
}

/// The text for a card: "Jk" for any joker, otherwise the number's text
/// followed by the suit's initial.
pub open spec fn spec_text(c: PCard) -> Seq<char> {
    if c.suit == Suit::Joker {
        seq!['J', 'k']
    } else {
        spec_rank_chars(c.num).push(spec_suit_char(c.suit))
    }
}

impl PCard {
    /// Reads a card from text; see [`spec_parse`]. Fails with `TooShort`
    /// when the text ends before the card does, and with `BadParse` when
    /// the suit character names no suit.
    pub fn from_str(s: &str) -> (r: Result<PCard, ParseErr>)
        ensures
            r == spec_parse(s@),
    {
        let n = s.unicode_len();
        if n < 2 {
            return Err(ParseErr::TooShort);
        }
        let c = s.get_char(0);
        let num = c.to_card_val();
        if c == '1' && s.get_char(1) == '0' {
            if n < 3 {
                return Err(ParseErr::TooShort);
            }
            return match Suit::from_char(s.get_char(2)) {
                Some(st) => Ok(PCard { suit: st, num: 10 }),
                None => Err(ParseErr::BadParse),
            };
        }
        if c == 'J' && s.get_char(1) == 'k' {
            return Ok(PCard { suit: Suit::Joker, num: 1 });
        }
        match Suit::from_char(s.get_char(1)) {
            Some(st) => Ok(PCard { suit: st, num }),
            None => Err(ParseErr::BadParse),
        }
    }

    /// Writes the card as text; see [`spec_text`], and
    /// [`lemma_text_round_trip`] for how it reads back.
    pub fn to_text(&self) -> (r: String)
        ensures
            r@ == spec_text(*self),
    {
        let mut r = String::new();
        if self.suit == Suit::Joker {
            r.append("Jk");
            proof {
                reveal_strlit("Jk");
                assert(r@ =~= spec_text(*self));
            }
            return r;
        }
        let rank: &str = if self.num == 1 {
            "A"
        } else if self.num == 2 {
            "2"
        } else if self.num == 3 {
            "3"
        } else if self.num == 4 {
            "4"
        } else if self.num == 5 {
            "5"
        } else if self.num == 6 {
            "6"
        } else if self.num == 7 {
            "7"
        } else if self.num == 8 {
            "8"
        } else if self.num == 9 {
            "9"
        } else if self.num == 10 {
            "10"
        } else if self.num == 11 {
            "J"
        } else if self.num == 12 {
            "Q"
        } else if self.num == 13 {
            "K"
        } else {
            "E"
        };
        proof {
            reveal_strlit("A");
            reveal_strlit("2");
            reveal_strlit("3");
            reveal_strlit("4");
            reveal_strlit("5");
            reveal_strlit("6");
            reveal_strlit("7");
            reveal_strlit("8");
            reveal_strlit("9");
            reveal_strlit("10");
            reveal_strlit("J");
            reveal_strlit("Q");
            reveal_strlit("K");
            reveal_strlit("E");
            assert(rank@ =~= spec_rank_chars(self.num));
        }
        r.append(rank);
        let initial: &str = match self.suit {
            Suit::Spades => "S",
            Suit::Hearts => "H",
            Suit::Clubs => "C",
            Suit::Diamonds => "D",
            Suit::Joker => "J",
        };
        proof {
            reveal_strlit("S");
            reveal_strlit("H");
            reveal_strlit("C");
            reveal_strlit("D");
            reveal_strlit("J");
            assert(initial@ =~= seq![spec_suit_char(self.suit)]);
        }
        r.append(initial);
        proof {
            assert(r@ =~= spec_text(*self));
        }
        r
    }
}

/// Round trip of text and card: a card whose number is a rank an actual
/// deck holds (1 to 13) reads back from its own text as itself; a joker's
/// text reads back as the joker with number 1, the two jokers' texts
/// being the same.
pub proof fn lemma_text_round_trip(c: PCard)
    requires
        c.suit == Suit::Joker || 1 <= c.num <= 13,
    ensures
        c.suit == Suit::Joker ==> spec_parse(spec_text(c)) == Ok::<PCard, ParseErr>(
            PCard { suit: Suit::Joker, num: 1 },
        ),
        c.suit != Suit::Joker ==> spec_parse(spec_text(c)) == Ok::<PCard, ParseErr>(c),
{
    let s = spec_text(c);
    if c.suit == Suit::Joker {
        assert(s[0] == 'J' && s[1] == 'k' && s.len() == 2);
    } else if c.num == 10 {
        assert(s.len() == 3 && s[0] == '1' && s[1] == '0' && s[2] == spec_suit_char(c.suit));
    } else {
        assert(s.len() == 2 && s[0] == spec_rank_chars(c.num)[0] && s[1] == spec_suit_char(
            c.suit,
        ));
        assert(s[0].spec_card_val() == c.num);
        assert(!(s[0] == '1' && s[1] == '0'));
        assert(!(s[0] == 'J' && s[1] == 'k'));
        assert(spec_suit_from_char(s[1]) == Some(c.suit));
    }
}

/// The card at position `i` of an unshuffled standard 52-card pile:
/// thirteen spades first (ace to king), then clubs, hearts and diamonds.
pub open spec fn spec_standard_card(i: int) -> PCard {
    if i < 13 {
        PCard { suit: Suit::Spades, num: (i + 1) as u8 }
    } else if i < 26 {
        PCard { suit: Suit::Clubs, num: (i - 12) as u8 }
    } else if i < 39 {
        PCard { suit: Suit::Hearts, num: (i - 25) as u8 }
    } else {
        PCard { suit: Suit::Diamonds, num: (i - 38) as u8 }
    }
}

/// A standard pile in order: 52 cards, plus the two jokers at the end
/// when asked for.
pub open spec fn spec_standard_deck(jokers: bool) -> Seq<PCard> {
    let base = Seq::new(52, |i: int| spec_standard_card(i));
    if jokers {
        base.push(PCard { suit: Suit::Joker, num: 0 }).push(PCard { suit: Suit::Joker, num: 1 })
    } else {
        base
    }
}

/// A deck builder already holding a standard pile of playing cards (with
/// the two jokers when asked for), every flag at its default; further
/// options can still be set before `done`.
pub fn pcard_deck_builder(jokers: bool) -> (b: DeckBuilder<PCard>)
    ensures
        b@ == (BuilderModel {
            draw: Some(spec_standard_deck(jokers)),
            discard: None,
            pre_shuffle: true,
            shuffle_discards: true,
            stop_on_discards: false,
        }),
{
    let mut rvec: Vec<PCard> = Vec::new();
    let mut suit: usize = 0;
    while suit < 4
        invariant
            suit <= 4,
            rvec@.len() == suit * 13,
            forall|j: int| 0 <= j < rvec@.len() ==> rvec@[j] == spec_standard_card(j),
        decreases 4 - suit,
    {
        let s = match Suit::from_usize(suit) {
            Some(s) => s,
            None => Suit::Spades,
        };
        let mut val: u8 = 1;
        while val < 14
            invariant
                suit < 4,
                1 <= val <= 14,
                Some(s) == spec_suit_from_usize(suit as int),
                rvec@.len() == suit * 13 + (val - 1),
                forall|j: int| 0 <= j < rvec@.len() ==> rvec@[j] == spec_standard_card(j),
            decreases 14 - val,
        {
            let ghost i = rvec@.len() as int;
            rvec.push(PCard::new(s, val));
            proof {
                assert(rvec@[i] == spec_standard_card(i));
            }
            val = val + 1;
        }
        suit = suit + 1;
    }
    if jokers {
        rvec.push(PCard::new(Suit::Joker, 0u8));
        rvec.push(PCard::new(Suit::Joker, 1u8));
    }
    proof {
        assert(rvec@ =~= spec_standard_deck(jokers));
    }
    DeckBuilder::new().draw_pile(rvec)
}

/// A ready deck of standard playing cards, shuffled at construction (the
/// builder's defaults).
pub fn pcard_deck(jokers: bool) -> (r: Deck<PCard>)
    ensures
        r@.discard == Seq::<PCard>::empty(),
        r@.shuffle_discards == true,
        r@.stop_on_discards == false,
        r@.draw.len() == spec_standard_deck(jokers).len(),
        r@.draw.to_multiset() == spec_standard_deck(jokers).to_multiset(),
{
    let d = pcard_deck_builder(jokers).done();
    proof {
        assert(d@.discard =~= Seq::<PCard>::empty());
    }
    d
}

} // verus!
