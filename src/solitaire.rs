use crate::card::{Card, Suit};
use crate::zones::{
    full_deck, keys, lemma_deal_keys, lemma_keys_concat, lemma_keys_empty, lemma_keys_permutation,
    lemma_keys_reverse, lemma_keys_top_shown, lemma_moved_keys, lemma_two_zones,
    lemma_zone_counts, lemma_zone_of_count, moved, put_run, show_top, take_front, take_run,
    top_shown, total_keys,
};
use rand::seq::SliceRandom;
use vstd::multiset::Multiset;
use vstd::prelude::*;

verus! {

/// A zone armed as the source of a move, or named as its target.
#[derive(Debug, Clone, Copy, PartialEq, Eq, Structural)]
pub enum Selection {
    /// A pile, and how many cards are taken from its top (1 for the top
    /// card alone, 0 for the empty space of the pile).
    Pile(usize, usize),
    Foundation(usize),
    Waste,
}

impl Selection {
    /// The zone it names exists: one of seven piles or of four foundations.
    pub open spec fn wf(self) -> bool {
        match self {
            Selection::Pile(p, _) => p < 7,
            Selection::Foundation(f) => f < 4,
            Selection::Waste => true,
        }
    }

    /// The position of the named zone in `Solitaire::zones`.
    pub open spec fn zone_index(self) -> int {
        match self {
            Selection::Pile(p, _) => p as int,
            Selection::Foundation(f) => 7 + f,
            Selection::Waste => 12,
        }
    }
}

/// A run may be laid on a pile: an empty pile takes a King; otherwise the
/// run's last card is one rank below the pile's top and of the other colour.
pub open spec fn fits_on_pile(run: Seq<Card>, dest: Seq<Card>) -> bool {
    run.len() > 0 && if dest.len() == 0 {
        run.last().value == 13
    } else {
        run.last().value + 1 == dest.last().value && run.last().red() != dest.last().red()
    }
}

/// A run may be laid on a foundation: an empty foundation takes an Ace;
/// otherwise the run's last card is one rank above the top, of its suit.
pub open spec fn fits_on_foundation(run: Seq<Card>, dest: Seq<Card>) -> bool {
    run.len() > 0 && if dest.len() == 0 {
        run.last().value == 1
    } else {
        run.last().value - 1 == dest.last().value && run.last().suit == dest.last().suit
    }
}

/// The number of cards dealt to the piles before pile `k`.
pub open spec fn dealt_before(k: int) -> int {
    k * (k + 1) / 2
}

/// Relies on rand's `SliceRandom::shuffle`, with `thread_rng`: it only
/// swaps elements, so the same cards come back in some order. (`thread_rng`
/// panics where the system's random source cannot be opened at all.)
#[verifier::external_body]
fn shuffle(cards: &mut Vec<Card>)
    ensures
        final(cards)@.to_multiset() == old(cards)@.to_multiset(),
{
    cards.shuffle(&mut rand::thread_rng());
}

/// The state of one game: the seven piles of the tableau, the four
/// foundations, the deck that is drawn from, the waste it is drawn onto,
/// and the zone armed as the source of the next move, if any.
#[derive(Debug)]
pub struct Solitaire {
    pub deck: Vec<Card>,
    pub waste: Vec<Card>,
    pub piles: [Vec<Card>; 7],
    pub foundations: [Vec<Card>; 4],
    pub selected: Option<Selection>,
}

impl Solitaire {
    /// Every zone in a fixed order: piles 0 to 6, foundations 0 to 3, the
    /// deck, the waste.
    pub open spec fn zones(self) -> Seq<Seq<Card>> {
        seq![
            self.piles[0]@,
            self.piles[1]@,
            self.piles[2]@,
            self.piles[3]@,
            self.piles[4]@,
            self.piles[5]@,
            self.piles[6]@,
            self.foundations[0]@,
            self.foundations[1]@,
            self.foundations[2]@,
            self.foundations[3]@,
            self.deck@,
            self.waste@,
        ]
    }

    /// The suits and ranks of every card in the game, counted.
    pub open spec fn card_keys(self) -> Multiset<(Suit, u8)> {
        total_keys(self.zones())
    }

    /// The top card of every pile that has cards lies face up.
    pub open spec fn pile_tops_face_up(self) -> bool {
        forall|k: int| 0 <= k < 7 && #[trigger] self.piles[k]@.len() > 0 ==> self.piles[k]@.last().face_up()
    }

    /// The armed selection, if any, names a zone that exists.
    pub open spec fn wf(self) -> bool {
        self.selected matches Some(s) ==> s.wf()
    }

    /// How many cards a move from `src` to `dst` carries, or `None` where
    /// the move is not legal.
    pub open spec fn move_size(self, src: Selection, dst: Selection) -> Option<usize> {
        match (src, dst) {
            (Selection::Pile(p, d), Selection::Pile(q, _)) => {
                let from = self.piles[p as int]@;
                if d <= from.len() && fits_on_pile(from.skip(from.len() - d), self.piles[q as int]@) {
                    Some(d)
                } else {
                    None
                }
            },
            (Selection::Pile(p, _), Selection::Foundation(f)) => {
                if fits_on_foundation(self.piles[p as int]@, self.foundations[f as int]@) {
                    Some(1usize)
                } else {
                    None
                }
            },
            (Selection::Foundation(f), Selection::Pile(q, _)) => {
                if fits_on_pile(self.foundations[f as int]@, self.piles[q as int]@) {
                    Some(1usize)
                } else {
                    None
                }
            },
            (Selection::Waste, Selection::Pile(q, _)) => {
                if fits_on_pile(self.waste@, self.piles[q as int]@) {
                    Some(1usize)
                } else {
                    None
                }
            },
            (Selection::Waste, Selection::Foundation(f)) => {
                if fits_on_foundation(self.waste@, self.foundations[f as int]@) {
                    Some(1usize)
                } else {
                    None
                }
            },
            _ => None,
        }
    }

    /// Whether `from`, whose last card leads, may be laid on the pile `to`.
    pub fn is_valid_move_to_pile(from: &[Card], to: &[Card]) -> (r: bool)
        ensures
            r == fits_on_pile(from@, to@),
    {
        if from.len() == 0 {
            return false;
        }
        let f = &from[from.len() - 1];
        if to.len() == 0 {
            return f.value == 13;
        }
        let t = &to[to.len() - 1];
        (f.value as u16) + 1 == (t.value as u16) && f.is_red() != t.is_red()
    }

    /// Whether `from`, whose last card leads, may be laid on the foundation `to`.
    pub fn is_valid_move_to_foundation(from: &[Card], to: &[Card]) -> (r: bool)
        ensures
            r == fits_on_foundation(from@, to@),
    {
        if from.len() == 0 {
            return false;
        }
        let f = &from[from.len() - 1];
        if to.len() == 0 {
            return f.value == 1;
        }
        let t = &to[to.len() - 1];
        (f.value as u16) == (t.value as u16) + 1 && f.suit == t.suit
    }

    /// Deals `cards` in the order given: the first card to pile 0, the next
    /// two to pile 1, and so on up to seven cards for pile 6, with the top
    /// card of each pile face up; the other cards form the deck.
    pub fn deal(cards: Vec<Card>) -> (r: Solitaire)
        requires
            cards@.len() >= 28,
        ensures
            forall|k: int|
                0 <= k < 7 ==> #[trigger] r.piles[k]@ == top_shown(
                    cards@.subrange(dealt_before(k), dealt_before(k + 1)),
                ),
            r.deck@ == cards@.skip(28),
            r.waste@.len() == 0,
            forall|f: int| 0 <= f < 4 ==> #[trigger] r.foundations[f]@.len() == 0,
            r.selected is None,
            r.card_keys() == keys(cards@),
    {
        let ghost c = cards@;
        let mut rest = cards;
        let mut p0 = take_front(&mut rest, 1);
        let ghost r0 = rest@;
        let mut p1 = take_front(&mut rest, 2);
        let ghost r1 = rest@;
        let mut p2 = take_front(&mut rest, 3);
        let ghost r2 = rest@;
        let mut p3 = take_front(&mut rest, 4);
        let ghost r3 = rest@;
        let mut p4 = take_front(&mut rest, 5);
        let ghost r4 = rest@;
        let mut p5 = take_front(&mut rest, 6);
        let ghost r5 = rest@;
        let mut p6 = take_front(&mut rest, 7);
        let ghost q = seq![p0@, p1@, p2@, p3@, p4@, p5@, p6@];
        proof {
            assert(p0@ =~= c.subrange(0, 1));
            assert(r0 =~= c.skip(1));
            assert(p1@ =~= c.subrange(1, 3));
            assert(r1 =~= c.skip(3));
            assert(p2@ =~= c.subrange(3, 6));
            assert(r2 =~= c.skip(6));
            assert(p3@ =~= c.subrange(6, 10));
            assert(r3 =~= c.skip(10));
            assert(p4@ =~= c.subrange(10, 15));
            assert(r4 =~= c.skip(15));
            assert(p5@ =~= c.subrange(15, 21));
            assert(r5 =~= c.skip(21));
            assert(p6@ =~= c.subrange(21, 28));
            assert(rest@ =~= c.skip(28));
            assert(c =~= p0@ + (p1@ + (p2@ + (p3@ + (p4@ + (p5@ + (p6@ + rest@)))))));
        }
        show_top(&mut p0);
        show_top(&mut p1);
        show_top(&mut p2);
        show_top(&mut p3);
        show_top(&mut p4);
        show_top(&mut p5);
        show_top(&mut p6);
        let r = Solitaire {
            deck: rest,
            waste: Vec::new(),
            piles: [p0, p1, p2, p3, p4, p5, p6],
            foundations: [Vec::new(), Vec::new(), Vec::new(), Vec::new()],
            selected: None,
        };
        proof {
            assert forall|k: int|
                0 <= k < 7 implies #[trigger] r.piles[k]@ == top_shown(
                c.subrange(dealt_before(k), dealt_before(k + 1)),
            ) by {
                if k == 0 {
                    assert(dealt_before(0) == 0 && dealt_before(1) == 1);
                } else if k == 1 {
                    assert(dealt_before(1) == 1 && dealt_before(2) == 3);
                } else if k == 2 {
                    assert(dealt_before(2) == 3 && dealt_before(3) == 6);
                } else if k == 3 {
                    assert(dealt_before(3) == 6 && dealt_before(4) == 10);
                } else if k == 4 {
                    assert(dealt_before(4) == 10 && dealt_before(5) == 15);
                } else if k == 5 {
                    assert(dealt_before(5) == 15 && dealt_before(6) == 21);
                } else {
                    assert(dealt_before(6) == 21 && dealt_before(7) == 28);
                }
            }
            lemma_deal_keys(q, rest@, r.zones(), c);
        }
        r
    }

    /// Shuffles `cards` and deals them (see `deal`).
    pub fn new(cards: Vec<Card>) -> (r: Solitaire)
        requires
            cards@.len() >= 28,
        ensures
            r.wf(),
            forall|k: int|
                0 <= k < 7 ==> #[trigger] r.piles[k]@.len() == k + 1 && r.piles[k]@.last().face_up(),
            r.deck@.len() == cards@.len() - 28,
            r.waste@.len() == 0,
            forall|f: int| 0 <= f < 4 ==> #[trigger] r.foundations[f]@.len() == 0,
            r.selected is None,
            r.card_keys() == keys(cards@),
            r.pile_tops_face_up(),
    {
        let ghost c = cards@;
        let mut cards = cards;
        shuffle(&mut cards);
        proof {
            broadcast use vstd::seq_lib::group_to_multiset_ensures;

            lemma_keys_permutation(cards@, c);
            cards@.to_multiset_ensures();
            c.to_multiset_ensures();
            assert(cards@.len() == c.len());
        }
        let r = Self::deal(cards);
        proof {
            broadcast use Card::lemma_turned_up;

            assert forall|k: int|
                0 <= k < 7 implies #[trigger] r.piles[k]@.len() == k + 1 && r.piles[k]@.last().face_up() by {
                assert(dealt_before(k + 1) - dealt_before(k) == k + 1) by (nonlinear_arith);
            }
        }
        r
    }

    /// How many cards a move from `src` to `dst` carries, if it is legal.
    fn legal_move_size(&self, src: Selection, dst: Selection) -> (r: Option<usize>)
        requires
            src.wf(),
            dst.wf(),
        ensures
            r == self.move_size(src, dst),
    {
        match (src, dst) {
            (Selection::Pile(p, d), Selection::Pile(q, _)) => {
                let from = &self.piles[p];
                let ghost run = from@.skip(from@.len() - d);
                if d >= 1 && d <= from.len() {
                    assert(run.last() == from@.last());
                    if Self::is_valid_move_to_pile(from.as_slice(), self.piles[q].as_slice()) {
                        return Some(d);
                    }
                }
                None
            },
            (Selection::Pile(p, _), Selection::Foundation(f)) => {
                if Self::is_valid_move_to_foundation(
                    self.piles[p].as_slice(),
                    self.foundations[f].as_slice(),
                ) {
                    Some(1)
                } else {
                    None
                }
            },
            (Selection::Foundation(f), Selection::Pile(q, _)) => {
                if Self::is_valid_move_to_pile(
                    self.foundations[f].as_slice(),
                    self.piles[q].as_slice(),
                ) {
                    Some(1)
                } else {
                    None
                }
            },
            (Selection::Waste, Selection::Pile(q, _)) => {
                if Self::is_valid_move_to_pile(self.waste.as_slice(), self.piles[q].as_slice()) {
                    Some(1)
                } else {
                    None
                }
            },
            (Selection::Waste, Selection::Foundation(f)) => {
                if Self::is_valid_move_to_foundation(
                    self.waste.as_slice(),
                    self.foundations[f].as_slice(),
                ) {
                    Some(1)
                } else {
                    None
                }
            },
            _ => None,
        }
    }

    /// A legal move never lands on the zone it leaves.
    proof fn lemma_legal_move_leaves(self, src: Selection, dst: Selection)
        requires
            src.wf(),
            dst.wf(),
            self.move_size(src, dst) is Some,
        ensures
            src.zone_index() != dst.zone_index(),
            self.move_size(src, dst).unwrap() <= self.zones()[src.zone_index()].len(),
    {
        if let (Selection::Pile(p, d), Selection::Pile(q, _)) = (src, dst) {
            let from = self.piles[p as int]@;
            assert(from.skip(from.len() - d).last() == from.last());
        }
    }

    /// Moves the top `n` cards of zone `from` onto zone `to`.
    fn transfer(&mut self, from: Selection, to: Selection, n: usize)
        requires
            from.wf(),
            to.wf(),
            from.zone_index() != to.zone_index(),
            n <= old(self).zones()[from.zone_index()].len(),
        ensures
            final(self).zones() == moved(
                old(self).zones(),
                from.zone_index(),
                to.zone_index(),
                n as int,
            ),
            final(self).selected == old(self).selected,
    {
        let ghost zs = self.zones();
        let run = match from {
            Selection::Pile(p, _) => take_run(&mut self.piles[p], n),
            Selection::Foundation(f) => take_run(&mut self.foundations[f], n),
            Selection::Waste => take_run(&mut self.waste, n),
        };
        let ghost mid = self.zones();
        assert(mid =~= zs.update(
            from.zone_index(),
            top_shown(zs[from.zone_index()].take(zs[from.zone_index()].len() - n)),
        ));
        match to {
            Selection::Pile(q, _) => put_run(&mut self.piles[q], run),
            Selection::Foundation(f) => put_run(&mut self.foundations[f], run),
            Selection::Waste => put_run(&mut self.waste, run),
        }
        assert(self.zones() =~= moved(zs, from.zone_index(), to.zone_index(), n as int));
    }

    /// One click of the two-click move protocol. With nothing armed, `s`
    /// is armed. Otherwise the move from the armed zone to `s` is made if
    /// it is legal, and the selection is disarmed either way.
    pub fn play(&mut self, s: Selection)
        requires
            old(self).wf(),
            s.wf(),
        ensures
            final(self).wf(),
            old(self).selected is None ==> {
                &&& final(self).selected == Some(s)
                &&& final(self).zones() == old(self).zones()
            },
            old(self).selected matches Some(src) ==> {
                &&& final(self).selected is None
                &&& final(self).zones() == match old(self).move_size(src, s) {
                    Some(n) => moved(old(self).zones(), src.zone_index(), s.zone_index(), n as int),
                    None => old(self).zones(),
                }
            },
            final(self).card_keys() == old(self).card_keys(),
            old(self).pile_tops_face_up() ==> final(self).pile_tops_face_up(),
    {
        let ghost zs = self.zones();
        match self.selected {
            None => {
                self.selected = Some(s);
            },
            Some(src) => {
                if let Some(n) = self.legal_move_size(src, s) {
                    proof {
                        self.lemma_legal_move_leaves(src, s);
                        lemma_moved_keys(self.zones(), src.zone_index(), s.zone_index(), n as int);
                    }
                    self.transfer(src, s, n);
                    proof {
                        broadcast use Card::lemma_turned_up;

                        assert forall|k: int| 0 <= k < 7 && #[trigger] self.piles[k]@.len() > 0 && old(self).pile_tops_face_up()
                            implies self.piles[k]@.last().face_up() by {
                            assert(self.piles[k]@ == self.zones()[k]);
                            assert(old(self).piles[k]@ == zs[k]);
                        }
                    }
                }
                self.selected = None;
            },
        }
    }

    /// Disarms the selection.
    pub fn clear_selection(&mut self)
        ensures
            final(self).selected is None,
            final(self).zones() == old(self).zones(),
    {
        self.selected = None;
    }

    /// Draws the top card of the deck face up onto the waste; with the deck
    /// empty, turns the waste over to form the deck again.
    pub fn draw(&mut self)
        ensures
            old(self).deck@.len() > 0 ==> {
                &&& final(self).deck@ == old(self).deck@.drop_last()
                &&& final(self).waste@ == old(self).waste@.push(old(self).deck@.last().turned_up())
            },
            old(self).deck@.len() == 0 ==> {
                &&& final(self).deck@ == old(self).waste@.reverse()
                &&& final(self).waste@ == Seq::<Card>::empty()
            },
            final(self).piles == old(self).piles,
            final(self).foundations == old(self).foundations,
            final(self).selected == old(self).selected,
            final(self).card_keys() == old(self).card_keys(),
            old(self).pile_tops_face_up() ==> final(self).pile_tops_face_up(),
    {
        let ghost zs = self.zones();
        match self.deck.pop() {
            Some(card) => {
                let ghost d = zs[11];
                let mut card = card;
                card.flip();
                self.waste.push(card);
                proof {
                    broadcast use vstd::multiset::group_multiset_axioms;

                    assert(self.deck@ == d.drop_last());
                    assert(self.waste@ == zs[12] + seq![card]);
                    lemma_keys_concat(d.drop_last(), seq![d.last()]);
                    lemma_keys_concat(zs[12], seq![card]);
                    lemma_keys_top_shown(seq![d.last()]);
                    assert(top_shown(seq![d.last()]) =~= seq![card]);
                    assert(d.drop_last() + seq![d.last()] =~= d);
                    assert(keys(self.deck@).add(keys(self.waste@)) =~= keys(d).add(keys(zs[12])));
                    lemma_two_zones(zs, 11, 12, self.deck@, self.waste@);
                    assert(self.zones() =~= zs.update(11, self.deck@).update(12, self.waste@));
                }
            },
            None => {
                let ghost w = self.waste@;
                let ghost rest = *self;
                assert(w.reverse() =~= self.deck@ + self.waste@.reverse());
                while self.waste.len() > 0
                    invariant
                        w.reverse() == self.deck@ + self.waste@.reverse(),
                        self.piles == rest.piles,
                        self.foundations == rest.foundations,
                        self.selected == rest.selected,
                    decreases self.waste@.len(),
                {
                    let ghost before = self.waste@;
                    let card = self.waste.pop().unwrap();
                    assert(before.reverse() =~= seq![card] + self.waste@.reverse());
                    self.deck.push(card);
                    assert(w.reverse() =~= self.deck@ + self.waste@.reverse());
                }
                assert(self.deck@ =~= w.reverse());
                proof {
                    lemma_keys_reverse(w);
                    lemma_keys_empty(self.waste@);
                    lemma_keys_empty(zs[11]);
                    lemma_two_zones(zs, 11, 12, self.deck@, self.waste@);
                    assert(self.zones() =~= zs.update(11, self.deck@).update(12, self.waste@));
                }
            },
        }
    }
}

/// In a game that holds a full deck, each suit and rank lies in exactly
/// one zone, and only once there.
pub proof fn lemma_each_card_once(g: Solitaire, x: (Suit, u8))
    requires
        full_deck(g.card_keys()),
        1 <= x.1 <= 13,
    ensures
        exists|i: int|
            0 <= i < 13 && #[trigger] keys(g.zones()[i]).count(x) == 1 && forall|j: int|
                0 <= j < 13 && j != i ==> #[trigger] keys(g.zones()[j]).count(x) == 0,
{
    let zs = g.zones();
    assert(g.card_keys().count(x) == 1);
    lemma_zone_of_count(zs, x);
    let i = choose|i: int| 0 <= i < zs.len() && #[trigger] keys(zs[i]).count(x) > 0;
    lemma_zone_counts(zs, x, i, i);
    assert forall|j: int| 0 <= j < 13 && j != i implies #[trigger] keys(zs[j]).count(x) == 0 by {
        lemma_zone_counts(zs, x, i, j);
    }
}

} // verus!
