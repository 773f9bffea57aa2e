use vstd::prelude::*;

verus! {

/// A playing card packed into six bits: bits 5 to 2 hold the rank (0 to 12),
/// bits 1 and 0 the suit (0 to 3). Every card is a number below 52.
#[derive(Clone, Copy, PartialEq, Eq, PartialOrd, Ord, Hash, Debug, Structural)]
pub struct Card(u8);

#[derive(Clone, Copy, PartialEq, Eq, PartialOrd, Ord, Hash, Debug, Structural)]
pub enum Rank {
    Two,
    Three,
    Four,
    Five,
    Six,
    Seven,
    Eight,
    Nine,
    Ten,
    Jack,
    Queen,
    King,
    Ace,
}

#[derive(Clone, Copy, PartialEq, Eq, Hash, Debug, Structural)]
pub enum Suit {
    Clubs,
    Diamonds,
    Hearts,
    Spades,
}

impl Rank {
    /// Position of the rank from the deuce (0) up to the ace (12).
    pub open spec fn value(self) -> int {
        match self {
            Rank::Two => 0,
            Rank::Three => 1,
            Rank::Four => 2,
            Rank::Five => 3,
            Rank::Six => 4,
            Rank::Seven => 5,
            Rank::Eight => 6,
            Rank::Nine => 7,
            Rank::Ten => 8,
            Rank::Jack => 9,
            Rank::Queen => 10,
            Rank::King => 11,
            Rank::Ace => 12,
        }
    }

    /// The rank at position `v`; positions above 12 count as the ace.
    pub open spec fn at(v: int) -> Rank {
        if v == 0 {
            Rank::Two
        } else if v == 1 {
            Rank::Three
        } else if v == 2 {
            Rank::Four
        } else if v == 3 {
            Rank::Five
        } else if v == 4 {
            Rank::Six
        } else if v == 5 {
            Rank::Seven
        } else if v == 6 {
            Rank::Eight
        } else if v == 7 {
            Rank::Nine
        } else if v == 8 {
            Rank::Ten
        } else if v == 9 {
            Rank::Jack
        } else if v == 10 {
            Rank::Queen
        } else if v == 11 {
            Rank::King
        } else {
            Rank::Ace
        }
    }

    /// Position of the rank from the deuce (0) up to the ace (12).
    pub fn to_u8(self) -> (r: u8)
        ensures
            r == self.value(),
    {
        match self {
            Rank::Two => 0,
            Rank::Three => 1,
            Rank::Four => 2,
            Rank::Five => 3,
            Rank::Six => 4,
            Rank::Seven => 5,
            Rank::Eight => 6,
            Rank::Nine => 7,
            Rank::Ten => 8,
            Rank::Jack => 9,
            Rank::Queen => 10,
            Rank::King => 11,
            Rank::Ace => 12,
        }
    }

    fn from_u8(v: u8) -> (r: Rank)
        ensures
            r == Rank::at(v as int),
    {
        match v {
            0 => Rank::Two,
            1 => Rank::Three,
            2 => Rank::Four,
            3 => Rank::Five,
            4 => Rank::Six,
            5 => Rank::Seven,
            6 => Rank::Eight,
            7 => Rank::Nine,
            8 => Rank::Ten,
            9 => Rank::Jack,
            10 => Rank::Queen,
            11 => Rank::King,
            _ => Rank::Ace,
        }
    }

    /// The letter that stands for the rank in text.
    pub open spec fn letter(self) -> char {
        match self {
            Rank::Two => '2',
            Rank::Three => '3',
            Rank::Four => '4',
            Rank::Five => '5',
            Rank::Six => '6',
            Rank::Seven => '7',
            Rank::Eight => '8',
            Rank::Nine => '9',
            Rank::Ten => 'T',
            Rank::Jack => 'J',
            Rank::Queen => 'Q',
            Rank::King => 'K',
            Rank::Ace => 'A',
        }
    }
}

impl Suit {
    /// Position of the suit: clubs 0, diamonds 1, hearts 2, spades 3.
    pub open spec fn value(self) -> int {
        match self {
            Suit::Clubs => 0,
            Suit::Diamonds => 1,
            Suit::Hearts => 2,
            Suit::Spades => 3,
        }
    }

    /// The suit at position `v`; positions above 3 count as spades.
    pub open spec fn at(v: int) -> Suit {
        if v == 0 {
            Suit::Clubs
        } else if v == 1 {
            Suit::Diamonds
        } else if v == 2 {
            Suit::Hearts
        } else {
            Suit::Spades
        }
    }

    fn to_u8(self) -> (r: u8)
        ensures
            r == self.value(),
    {
        match self {
            Suit::Clubs => 0,
            Suit::Diamonds => 1,
            Suit::Hearts => 2,
            Suit::Spades => 3,
        }
    }

    fn from_u8(v: u8) -> (r: Suit)
        ensures
            r == Suit::at(v as int),
    {
        match v {
            0 => Suit::Clubs,
            1 => Suit::Diamonds,
            2 => Suit::Hearts,
            _ => Suit::Spades,
        }
    }

    /// The letter that stands for the suit in text.
    pub open spec fn letter(self) -> char {
        match self {
            Suit::Clubs => 'c',
            Suit::Diamonds => 'd',
            Suit::Hearts => 'h',
            Suit::Spades => 's',
        }
    }
}

impl Card {
    #[verifier::type_invariant]
    spec fn in_range(self) -> bool {
        self.0 < 52
    }

    /// The card's number: four times its rank's position plus its suit's.
    pub closed spec fn id(self) -> int {
        self.0 as int
    }

    /// The rank that the card's number stands for.
    pub open spec fn spec_rank(self) -> Rank {
        Rank::at(self.id() / 4)
    }

    /// The suit that the card's number stands for.
    pub open spec fn spec_suit(self) -> Suit {
        Suit::at(self.id() % 4)
    }

    /// The two letters that name the card: rank, then suit.
    pub open spec fn text(self) -> Seq<char> {
        seq![self.spec_rank().letter(), self.spec_suit().letter()]
    }

    /// The card with number `id`.
    pub closed spec fn numbered(id: int) -> Card {
        Card(id as u8)
    }

    pub fn new(rank: Rank, suit: Suit) -> (card: Card)
        ensures
            card.id() == 4 * rank.value() + suit.value(),
            card == Card::numbered(4 * rank.value() + suit.value()),
            card.spec_rank() == rank,
            card.spec_suit() == suit,
    {
        let r: u8 = rank.to_u8();
        let s: u8 = suit.to_u8();
        assert((r << 2 | s) == 4 * r + s && (r << 2 | s) < 52) by (bit_vector)
            requires
                r <= 12,
                s <= 3,
        ;
        Card(r << 2 | s)
    }

    /// The card with the given number, if the number is that of a card.
    pub fn from_index(index: u8) -> (card: Option<Card>)
        ensures
            card is Some <==> index < 52,
            card matches Some(c) ==> c.id() == index && c == Card::numbered(index as int),
    {
        if index < 52 {
            Some(Card(index))
        } else {
            None
        }
    }

    pub fn rank(self) -> (rank: Rank)
        ensures
            rank == self.spec_rank(),
    {
        proof {
            use_type_invariant(self);
        }
        let v: u8 = self.0;
        assert(v >> 2 == v / 4) by (bit_vector);
        Rank::from_u8(v >> 2)
    }

    pub fn suit(self) -> (suit: Suit)
        ensures
            suit == self.spec_suit(),
    {
        let v: u8 = self.0;
        assert(v & 0b11 == v % 4) by (bit_vector);
        Suit::from_u8(v & 0b11)
    }

    /// Index 0 to 51, stable for lookup tables.
    pub fn index(self) -> (i: usize)
        ensures
            i == self.id(),
            i < 52,
    {
        proof {
            use_type_invariant(self);
        }
        self.0 as usize
    }

    /// Bit-mask position in a 64-bit hand mask.
    pub fn mask(self) -> (m: u64)
        ensures
            m == 1u64 << (self.id() as u64),
    {
        proof {
            use_type_invariant(self);
        }
        1u64 << (self.0 as u64)
    }

    /// The card in text: rank letter, then suit letter.
    pub fn to_text(self) -> (s: String)
        ensures
            s@ == self.text(),
    {
        let mut s = String::new();
        s.append(rank_text(self.rank()));
        s.append(suit_text(self.suit()));
        assert(s@ =~= self.text());
        s
    }
}

fn rank_text(r: Rank) -> (s: &'static str)
    ensures
        s@ == seq![r.letter()],
{
    proof {
        reveal_strlit("2");
        reveal_strlit("3");
        reveal_strlit("4");
        reveal_strlit("5");
        reveal_strlit("6");
        reveal_strlit("7");
        reveal_strlit("8");
        reveal_strlit("9");
        reveal_strlit("T");
        reveal_strlit("J");
        reveal_strlit("Q");
        reveal_strlit("K");
        reveal_strlit("A");
    }
    match r {
        Rank::Two => "2",
        Rank::Three => "3",
        Rank::Four => "4",
        Rank::Five => "5",
        Rank::Six => "6",
        Rank::Seven => "7",
        Rank::Eight => "8",
        Rank::Nine => "9",
        Rank::Ten => "T",
        Rank::Jack => "J",
        Rank::Queen => "Q",
        Rank::King => "K",
        Rank::Ace => "A",
    }
}

fn suit_text(s: Suit) -> (t: &'static str)
    ensures
        t@ == seq![s.letter()],
{
    proof {
        reveal_strlit("c");
        reveal_strlit("d");
        reveal_strlit("h");
        reveal_strlit("s");
    }
    match s {
        Suit::Clubs => "c",
        Suit::Diamonds => "d",
        Suit::Hearts => "h",
        Suit::Spades => "s",
    }
}

/// Two cards with the same number are the same card.
pub proof fn card_is_its_number(a: Card, b: Card)
    requires
        a.id() == b.id(),
    ensures
        a == b,
{
}

/// The card numbered `id` has that number.
pub proof fn numbered_has_id(id: int)
    requires
        0 <= id < 52,
    ensures
        Card::numbered(id).id() == id,
{
}

/// A rank and a suit fix a card, and the card gives both back: building a card
/// and reading its rank and suit are inverse to one another.
pub proof fn rank_and_suit_round_trip(rank: Rank, suit: Suit)
    ensures
        ({
            let card = Card::numbered(4 * rank.value() + suit.value());
            &&& card.spec_rank() == rank
            &&& card.spec_suit() == suit
        }),
{
    numbered_has_id(4 * rank.value() + suit.value());
}

/// The masks of two different cards share no bit.
pub proof fn masks_do_not_overlap(a: Card, b: Card)
    requires
        0 <= a.id() < 52,
        0 <= b.id() < 52,
        a != b,
    ensures
        (1u64 << (a.id() as u64)) & (1u64 << (b.id() as u64)) == 0,
{
    let i: u64 = a.id() as u64;
    let j: u64 = b.id() as u64;
    assert(i < 52 && j < 52 && i != j);
    assert((1u64 << i) & (1u64 << j) == 0) by (bit_vector)
        requires
            i < 52,
            j < 52,
            i != j,
    ;
}

/// The masks of the first `n` cards, taken together.
pub open spec fn masks_together(n: int) -> u64
    decreases n,
{
    if n <= 0 {
        0
    } else {
        masks_together(n - 1) | (1u64 << (Card::numbered(n - 1).id() as u64))
    }
}

proof fn masks_fill_up(n: int)
    requires
        0 <= n <= 52,
    ensures
        masks_together(n) == (1u64 << (n as u64)) - 1,
    decreases n,
{
    if n == 0 {
        assert(1u64 << 0u64 == 1) by (bit_vector);
    } else {
        masks_fill_up(n - 1);
        numbered_has_id(n - 1);
        let m: u64 = (n - 1) as u64;
        let below: u64 = masks_together(n - 1);
        assert(1u64 << m >= 1 && (below | (1u64 << m)) == (1u64 << ((m + 1) as u64)) - 1)
            by (bit_vector)
            requires
                m < 52,
                below == (1u64 << m) - 1,
        ;
    }
}

/// The masks of all cards together fill the lowest 52 bits.
pub proof fn masks_cover_the_deck()
    ensures
        masks_together(52) == 0xf_ffff_ffff_ffff,
{
    masks_fill_up(52);
    assert((1u64 << 52u64) - 1 == 0xf_ffff_ffff_ffff) by (bit_vector);
}

} // verus!
