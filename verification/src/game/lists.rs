//! Short lists kept inline by the `smallvec` crate: seats, board cards and pots.

use smallvec::SmallVec;
use vstd::prelude::*;

use crate::cards::Card;
use crate::game::state::SidePot;

verus! {

/// A list of seats, inline up to six.
#[verifier::external_body]
#[derive(Debug, PartialEq, Eq)]
pub struct SeatList {
    seats: SmallVec<[usize; 6]>,
}

/// The seats that the list holds, in order.
pub uninterp spec fn seats_in(list: SeatList) -> Seq<usize>;

impl View for SeatList {
    type V = Seq<usize>;

    open spec fn view(&self) -> Seq<usize> {
        seats_in(*self)
    }
}

impl SeatList {
    /// `SmallVec::new`: an empty list.
    #[verifier::external_body]
    pub(crate) fn new() -> (list: SeatList)
        ensures
            seats_in(list) == Seq::<usize>::empty(),
    {
        SeatList { seats: SmallVec::new() }
    }

    /// `SmallVec::push`: appends one seat.
    #[verifier::external_body]
    pub(crate) fn push(&mut self, seat: usize)
        ensures
            seats_in(*final(self)) == seats_in(*old(self)).push(seat),
    {
        self.seats.push(seat);
    }

    /// `SmallVec::len`: how many seats the list holds.
    #[verifier::external_body]
    pub(crate) fn len(&self) -> (n: usize)
        ensures
            n == seats_in(*self).len(),
    {
        self.seats.len()
    }

    /// Indexing of `SmallVec`: the seat at position `i`.
    #[verifier::external_body]
    pub(crate) fn get(&self, i: usize) -> (seat: usize)
        requires
            i < seats_in(*self).len(),
        ensures
            seat == seats_in(*self)[i as int],
    {
        self.seats[i]
    }

    /// The list with the seats of `v`.
    pub fn from_vec(v: &Vec<usize>) -> (list: SeatList)
        ensures
            list@ == v@,
    {
        let mut list = SeatList::new();
        let mut i: usize = 0;
        while i < v.len()
            invariant
                i <= v@.len(),
                list@ == v@.take(i as int),
            decreases v@.len() - i,
        {
            list.push(v[i]);
            assert(v@.take(i + 1) =~= v@.take(i as int).push(v@[i as int]));
            i = i + 1;
        }
        assert(v@.take(i as int) =~= v@);
        list
    }

    /// The seats as a vector.
    pub fn to_vec(&self) -> (v: Vec<usize>)
        ensures
            v@ == self@,
    {
        let mut v: Vec<usize> = Vec::new();
        let n: usize = self.len();
        let mut i: usize = 0;
        while i < n
            invariant
                i <= n == self@.len(),
                v@ == self@.take(i as int),
            decreases n - i,
        {
            v.push(self.get(i));
            assert(self@.take(i + 1) =~= self@.take(i as int).push(self@[i as int]));
            i = i + 1;
        }
        assert(self@.take(n as int) =~= self@);
        v
    }
}

impl Clone for SeatList {
    fn clone(&self) -> (list: SeatList)
        ensures
            list@ == self@,
    {
        SeatList::from_vec(&self.to_vec())
    }
}

/// The community cards, inline up to five.
#[verifier::external_body]
#[derive(Debug, PartialEq, Eq)]
pub struct Board {
    cards: SmallVec<[Card; 5]>,
}

/// The cards that the board holds, in the order in which they were dealt.
pub uninterp spec fn cards_on(board: Board) -> Seq<Card>;

impl View for Board {
    type V = Seq<Card>;

    open spec fn view(&self) -> Seq<Card> {
        cards_on(*self)
    }
}

impl Board {
    /// `SmallVec::new`: an empty board.
    #[verifier::external_body]
    pub(crate) fn new() -> (board: Board)
        ensures
            cards_on(board) == Seq::<Card>::empty(),
    {
        Board { cards: SmallVec::new() }
    }

    /// `SmallVec::push`: appends one card.
    #[verifier::external_body]
    pub(crate) fn push(&mut self, card: Card)
        ensures
            cards_on(*final(self)) == cards_on(*old(self)).push(card),
    {
        self.cards.push(card);
    }

    /// `SmallVec::as_slice`: the cards, borrowed.
    #[verifier::external_body]
    pub(crate) fn as_slice(&self) -> (cards: &[Card])
        ensures
            cards@ == cards_on(*self),
    {
        self.cards.as_slice()
    }

    /// How many cards are on the board.
    pub fn len(&self) -> (n: usize)
        ensures
            n == self@.len(),
    {
        self.as_slice().len()
    }

    /// The board with the cards of `v`.
    pub fn from_vec(v: &Vec<Card>) -> (board: Board)
        ensures
            board@ == v@,
    {
        let mut board = Board::new();
        board.extend(v);
        assert(board@ =~= v@);
        board
    }

    /// Appends the cards of `v`.
    pub(crate) fn extend(&mut self, v: &Vec<Card>)
        ensures
            final(self)@ == old(self)@ + v@,
    {
        let mut i: usize = 0;
        while i < v.len()
            invariant
                i <= v@.len(),
                self@ == old(self)@ + v@.take(i as int),
            decreases v@.len() - i,
        {
            self.push(v[i]);
            assert(old(self)@ + v@.take(i + 1) =~= (old(self)@ + v@.take(i as int)).push(
                v@[i as int],
            ));
            i = i + 1;
        }
        assert(v@.take(i as int) =~= v@);
    }

    /// The cards as a vector.
    pub fn to_vec(&self) -> (v: Vec<Card>)
        ensures
            v@ == self@,
    {
        let cards = self.as_slice();
        let mut v: Vec<Card> = Vec::new();
        let mut i: usize = 0;
        while i < cards.len()
            invariant
                i <= cards@.len(),
                cards@ == self@,
                v@ == self@.take(i as int),
            decreases cards@.len() - i,
        {
            v.push(cards[i]);
            assert(self@.take(i + 1) =~= self@.take(i as int).push(self@[i as int]));
            i = i + 1;
        }
        assert(self@.take(i as int) =~= self@);
        v
    }
}

impl Clone for Board {
    fn clone(&self) -> (board: Board)
        ensures
            board@ == self@,
    {
        Board::from_vec(&self.to_vec())
    }
}

/// The pots of a showdown, inline up to five, each with the seats that can win it.
#[verifier::external_body]
#[derive(Debug)]
pub struct PotList {
    pots: SmallVec<[(u32, SeatList); 5]>,
}

/// Amount and eligible seats of each pot, in order.
pub uninterp spec fn pots_in(list: PotList) -> Seq<(u32, Seq<usize>)>;

impl View for PotList {
    type V = Seq<(u32, Seq<usize>)>;

    open spec fn view(&self) -> Seq<(u32, Seq<usize>)> {
        pots_in(*self)
    }
}

impl PotList {
    /// `SmallVec::new`: no pots.
    #[verifier::external_body]
    pub(crate) fn new() -> (list: PotList)
        ensures
            pots_in(list) == Seq::<(u32, Seq<usize>)>::empty(),
    {
        PotList { pots: SmallVec::new() }
    }

    /// `SmallVec::push`: appends one pot.
    #[verifier::external_body]
    pub(crate) fn push(&mut self, amount: u32, eligible: SeatList)
        ensures
            pots_in(*final(self)) == pots_in(*old(self)).push((amount, seats_in(eligible))),
    {
        self.pots.push((amount, eligible));
    }

    /// `SmallVec::len`: how many pots there are.
    #[verifier::external_body]
    pub(crate) fn len(&self) -> (n: usize)
        ensures
            n == pots_in(*self).len(),
    {
        self.pots.len()
    }

    /// Indexing of `SmallVec`: the pot at position `i`, borrowed.
    #[verifier::external_body]
    pub(crate) fn get(&self, i: usize) -> (pot: (u32, &SeatList))
        requires
            i < pots_in(*self).len(),
        ensures
            (pot.0, seats_in(*pot.1)) == pots_in(*self)[i as int],
    {
        (self.pots[i].0, &self.pots[i].1)
    }

    /// Mutable indexing of `SmallVec`: sets the amount of the pot at position `i`.
    #[verifier::external_body]
    pub(crate) fn set_amount(&mut self, i: usize, amount: u32)
        requires
            i < pots_in(*old(self)).len(),
        ensures
            pots_in(*final(self)) == pots_in(*old(self)).update(
                i as int,
                (amount, pots_in(*old(self))[i as int].1),
            ),
    {
        self.pots[i].0 = amount;
    }

    /// Amount and eligible seats of each pot.
    pub fn to_vec(&self) -> (v: Vec<(u32, Vec<usize>)>)
        ensures
            v@.len() == self@.len(),
            forall|i: int|
                0 <= i < v@.len() ==> ((#[trigger] v@[i]).0, v@[i].1@) == self@[i],
    {
        let mut v: Vec<(u32, Vec<usize>)> = Vec::new();
        let n: usize = self.len();
        let mut i: usize = 0;
        while i < n
            invariant
                i <= n == self@.len(),
                v@.len() == i,
                forall|k: int| 0 <= k < i ==> ((#[trigger] v@[k]).0, v@[k].1@) == self@[k],
            decreases n - i,
        {
            let (amount, eligible) = self.get(i);
            v.push((amount, eligible.to_vec()));
            i = i + 1;
        }
        v
    }
}

/// The side pots of a hand in progress, inline up to four.
#[verifier::external_body]
#[derive(Debug)]
pub struct SidePots {
    pots: SmallVec<[SidePot; 4]>,
}

/// Amount and eligible seats of each side pot, in order.
pub uninterp spec fn side_pots_in(list: SidePots) -> Seq<(u32, Seq<usize>)>;

impl View for SidePots {
    type V = Seq<(u32, Seq<usize>)>;

    open spec fn view(&self) -> Seq<(u32, Seq<usize>)> {
        side_pots_in(*self)
    }
}

impl SidePots {
    /// `SmallVec::new`: no side pots.
    #[verifier::external_body]
    pub(crate) fn new() -> (list: SidePots)
        ensures
            side_pots_in(list) == Seq::<(u32, Seq<usize>)>::empty(),
    {
        SidePots { pots: SmallVec::new() }
    }

    /// `SmallVec::push`: appends one side pot.
    #[verifier::external_body]
    pub(crate) fn push(&mut self, pot: SidePot)
        ensures
            side_pots_in(*final(self)) == side_pots_in(*old(self)).push(
                (pot.amount, seats_in(pot.eligible_seats)),
            ),
    {
        self.pots.push(pot);
    }

    /// `SmallVec::as_slice`: the side pots, borrowed.
    #[verifier::external_body]
    pub(crate) fn as_slice(&self) -> (pots: &[SidePot])
        ensures
            pots@.len() == side_pots_in(*self).len(),
            forall|i: int|
                0 <= i < pots@.len() ==> ((#[trigger] pots@[i]).amount, seats_in(
                    pots@[i].eligible_seats,
                )) == side_pots_in(*self)[i],
    {
        self.pots.as_slice()
    }

    /// The list with the side pots of `v`.
    pub fn from_vec(v: Vec<SidePot>) -> (list: SidePots)
        ensures
            list@ == Seq::new(
                v@.len(),
                |i: int| (v@[i].amount, v@[i].eligible_seats@),
            ),
    {
        let mut list = SidePots::new();
        let mut i: usize = 0;
        while i < v.len()
            invariant
                i <= v@.len(),
                list@ == Seq::new(i as nat, |k: int| (v@[k].amount, v@[k].eligible_seats@)),
            decreases v@.len() - i,
        {
            list.push(v[i].clone());
            i = i + 1;
            assert(list@ =~= Seq::new(i as nat, |k: int| (v@[k].amount, v@[k].eligible_seats@)));
        }
        list
    }
}

impl Clone for SidePots {
    fn clone(&self) -> (list: SidePots)
        ensures
            list@ == self@,
    {
        let pots = self.as_slice();
        let mut list = SidePots::new();
        let mut i: usize = 0;
        while i < pots.len()
            invariant
                i <= pots@.len() == self@.len(),
                forall|k: int|
                    0 <= k < pots@.len() ==> ((#[trigger] pots@[k]).amount, seats_in(
                        pots@[k].eligible_seats,
                    )) == self@[k],
                list@ == self@.take(i as int),
            decreases pots@.len() - i,
        {
            list.push(pots[i].clone());
            assert(self@.take(i + 1) =~= self@.take(i as int).push(self@[i as int]));
            i = i + 1;
        }
        assert(self@.take(i as int) =~= self@);
        list
    }
}

} // verus!
