use crate::card::{Card, Suit};
use vstd::multiset::Multiset;
use vstd::prelude::*;

verus! {

/// The cards of a zone with its top card turned face up.
pub open spec fn top_shown(s: Seq<Card>) -> Seq<Card> {
    if s.len() == 0 {
        s
    } else {
        s.update(s.len() - 1, s.last().turned_up())
    }
}

/// The suits and ranks of a sequence of cards, counted.
pub open spec fn keys(s: Seq<Card>) -> Multiset<(Suit, u8)> {
    s.map_values(|c: Card| c.key()).to_multiset()
}

/// The suits and ranks of all the cards of a list of zones, counted.
pub open spec fn total_keys(zs: Seq<Seq<Card>>) -> Multiset<(Suit, u8)>
    decreases zs.len(),
{
    if zs.len() == 0 {
        Multiset::empty()
    } else {
        total_keys(zs.drop_last()).add(keys(zs.last()))
    }
}

/// A standard deck: each of the 52 suit and rank pairs once, nothing else.
pub open spec fn full_deck(m: Multiset<(Suit, u8)>) -> bool {
    forall|k: (Suit, u8)| #[trigger] m.count(k) == (if 1 <= k.1 <= 13 { 1nat } else { 0nat })
}

/// The zones after the top `n` cards of zone `from` are laid, in their
/// order, on zone `to`, and the new top cards of both are turned up.
pub open spec fn moved(zs: Seq<Seq<Card>>, from: int, to: int, n: int) -> Seq<Seq<Card>> {
    let src = zs[from];
    let keep = src.len() - n;
    zs.update(from, top_shown(src.take(keep))).update(to, top_shown(zs[to] + src.skip(keep)))
}

/// Turning the top card up changes no card's suit or rank.
pub(crate) proof fn lemma_keys_top_shown(s: Seq<Card>)
    ensures
        keys(top_shown(s)) == keys(s),
{
    broadcast use Card::lemma_turned_up;

    assert(top_shown(s).map_values(|c: Card| c.key()) =~= s.map_values(|c: Card| c.key()));
}

/// The cards of two sequences laid end to end are those of both.
pub(crate) proof fn lemma_keys_concat(a: Seq<Card>, b: Seq<Card>)
    ensures
        keys(a + b) == keys(a).add(keys(b)),
{
    assert((a + b).map_values(|c: Card| c.key()) =~= a.map_values(|c: Card| c.key()) + b.map_values(
        |c: Card| c.key(),
    ));
    vstd::seq_lib::lemma_multiset_commutative(
        a.map_values(|c: Card| c.key()),
        b.map_values(|c: Card| c.key()),
    );
}

/// Replacing one zone changes the total by what that zone held.
pub(crate) proof fn lemma_total_update(zs: Seq<Seq<Card>>, a: int, v: Seq<Card>)
    requires
        0 <= a < zs.len(),
    ensures
        total_keys(zs.update(a, v)).add(keys(zs[a])) =~= total_keys(zs).add(keys(v)),
    decreases zs.len(),
{
    broadcast use vstd::multiset::group_multiset_axioms;

    let zu = zs.update(a, v);
    assert(total_keys(zu) == total_keys(zu.drop_last()).add(keys(zu.last())));
    assert(total_keys(zs) == total_keys(zs.drop_last()).add(keys(zs.last())));
    if a == zs.len() - 1 {
        assert(zu.drop_last() =~= zs.drop_last());
        assert(zu.last() == v);
    } else {
        assert(zu.drop_last() =~= zs.drop_last().update(a, v));
        assert(zu.last() == zs.last());
        lemma_total_update(zs.drop_last(), a, v);
    }
    assert forall|x: (Suit, u8)|
        #[trigger] total_keys(zu).add(keys(zs[a])).count(x) == total_keys(zs).add(
            keys(v),
        ).count(x) by {
        if a != zs.len() - 1 {
            assert(total_keys(zu.drop_last()).add(keys(zs[a])).count(x) == total_keys(
                zs.drop_last(),
            ).add(keys(v)).count(x));
        }
    }
}

/// Replacing two zones by two that hold the same cards between them keeps
/// the cards of the game.
pub(crate) proof fn lemma_two_zones(zs: Seq<Seq<Card>>, a: int, b: int, va: Seq<Card>, vb: Seq<Card>)
    requires
        0 <= a < zs.len(),
        0 <= b < zs.len(),
        a != b,
        keys(va).add(keys(vb)) =~= keys(zs[a]).add(keys(zs[b])),
    ensures
        total_keys(zs.update(a, va).update(b, vb)) =~= total_keys(zs),
{
    broadcast use vstd::multiset::group_multiset_axioms;

    let z1 = zs.update(a, va);
    lemma_total_update(zs, a, va);
    lemma_total_update(z1, b, vb);
    assert(z1[b] == zs[b]);
    assert forall|x: (Suit, u8)|
        #[trigger] total_keys(z1.update(b, vb)).count(x) == total_keys(zs).count(x) by {
        assert(total_keys(z1.update(b, vb)).add(keys(z1[b])).count(x) == total_keys(z1).add(
            keys(vb),
        ).count(x));
        assert(total_keys(z1).add(keys(zs[a])).count(x) == total_keys(zs).add(keys(va)).count(
            x,
        ));
        assert(keys(va).add(keys(vb)).count(x) == keys(zs[a]).add(keys(zs[b])).count(x));
    }
}

/// A move keeps every card in the game, once each.
pub(crate) proof fn lemma_moved_keys(zs: Seq<Seq<Card>>, from: int, to: int, n: int)
    requires
        0 <= from < zs.len(),
        0 <= to < zs.len(),
        from != to,
        0 <= n <= zs[from].len(),
    ensures
        total_keys(moved(zs, from, to, n)) =~= total_keys(zs),
{
    broadcast use vstd::multiset::group_multiset_axioms;

    let src = zs[from];
    let keep = src.len() - n;
    let a = top_shown(src.take(keep));
    let b = top_shown(zs[to] + src.skip(keep));
    lemma_keys_top_shown(src.take(keep));
    lemma_keys_top_shown(zs[to] + src.skip(keep));
    lemma_keys_concat(zs[to], src.skip(keep));
    lemma_keys_concat(src.take(keep), src.skip(keep));
    assert(src.take(keep) + src.skip(keep) =~= src);
    lemma_two_zones(zs, from, to, a, b);
}

/// Two sequences that hold the same cards hold the same suits and ranks.
pub(crate) proof fn lemma_keys_permutation(s1: Seq<Card>, s2: Seq<Card>)
    requires
        s1.to_multiset() == s2.to_multiset(),
    ensures
        keys(s1) == keys(s2),
    decreases s1.len(),
{
    broadcast use vstd::seq_lib::group_to_multiset_ensures;
    broadcast use vstd::multiset::group_multiset_axioms;

    s1.to_multiset_ensures();
    s2.to_multiset_ensures();
    if s1.len() == 0 {
        assert(s2.len() == 0);
        assert(s1.map_values(|c: Card| c.key()) =~= s2.map_values(|c: Card| c.key()));
    } else {
        let x = s1.last();
        let a = s1.drop_last();
        assert(s1 =~= a.push(x));
        assert(s1.contains(x));
        assert(s1.to_multiset().count(x) > 0);
        assert(s2.to_multiset().count(x) > 0);
        assert(s2.contains(x));
        let i = choose|i: int| 0 <= i < s2.len() && s2[i] == x;
        let b = s2.remove(i);
        assert(a.to_multiset() =~= b.to_multiset());
        lemma_keys_permutation(a, b);
        let m2 = s2.map_values(|c: Card| c.key());
        assert(m2.remove(i) =~= b.map_values(|c: Card| c.key()));
        assert(m2[i] == x.key());
        assert(m2.contains(x.key()));
        assert(s1.map_values(|c: Card| c.key()) =~= a.map_values(|c: Card| c.key()).push(x.key()));
        assert(keys(s1) =~= keys(s2));
    }
}

/// Turns the top card of a zone, if any, face up.
pub(crate) fn show_top(zone: &mut Vec<Card>)
    ensures
        final(zone)@ == top_shown(old(zone)@),
{
    let n = zone.len();
    if n > 0 {
        zone[n - 1].flip();
    }
}

/// Takes the top `n` cards off a zone, in their order, and turns up the
/// card they leave on top.
pub(crate) fn take_run(zone: &mut Vec<Card>, n: usize) -> (run: Vec<Card>)
    requires
        n <= old(zone)@.len(),
    ensures
        run@ == old(zone)@.skip(old(zone)@.len() - n),
        final(zone)@ == top_shown(old(zone)@.take(old(zone)@.len() - n)),
{
    let keep = zone.len() - n;
    let run = zone.split_off(keep);
    show_top(zone);
    run
}

/// Lays a run on a zone, in its order, with its top card face up.
pub(crate) fn put_run(zone: &mut Vec<Card>, run: Vec<Card>)
    ensures
        final(zone)@ == top_shown(old(zone)@ + run@),
{
    let mut run = run;
    zone.append(&mut run);
    show_top(zone);
}

/// Takes the first `n` cards of a sequence off it.
pub(crate) fn take_front(cards: &mut Vec<Card>, n: usize) -> (front: Vec<Card>)
    requires
        n <= old(cards)@.len(),
    ensures
        front@ == old(cards)@.take(n as int),
        final(cards)@ == old(cards)@.skip(n as int),
{
    let mut front = cards.split_off(n);
    std::mem::swap(cards, &mut front);
    front
}

/// An empty zone holds no cards.
pub(crate) proof fn lemma_keys_empty(s: Seq<Card>)
    requires
        s.len() == 0,
    ensures
        keys(s) =~= Multiset::empty(),
{
    broadcast use vstd::seq_lib::group_to_multiset_ensures;
    broadcast use vstd::multiset::lemma_multiset_empty_len;

    assert(s.map_values(|c: Card| c.key()).len() == 0);
}

/// The first `k + 1` zones hold the cards of the first `k` and of zone `k`.
pub(crate) proof fn lemma_total_take(zs: Seq<Seq<Card>>, k: int)
    requires
        0 <= k < zs.len(),
    ensures
        total_keys(zs.take(k + 1)) == total_keys(zs.take(k)).add(keys(zs[k])),
{
    assert(zs.take(k + 1).drop_last() =~= zs.take(k));
}

/// The cards of freshly dealt zones are those of the sequence dealt.
pub(crate) proof fn lemma_deal_keys(q: Seq<Seq<Card>>, rest: Seq<Card>, zs: Seq<Seq<Card>>, c: Seq<Card>)
    requires
        q.len() == 7,
        c == q[0] + (q[1] + (q[2] + (q[3] + (q[4] + (q[5] + (q[6] + rest)))))),
        zs.len() == 13,
        forall|k: int| 0 <= k < 7 ==> #[trigger] zs[k] == top_shown(q[k]),
        forall|k: int| 7 <= k < 11 ==> #[trigger] zs[k].len() == 0,
        zs[11] == rest,
        zs[12].len() == 0,
    ensures
        total_keys(zs) == keys(c),
{
    broadcast use vstd::multiset::group_multiset_axioms;

    assert(zs.take(0) =~= Seq::<Seq<Card>>::empty());
    assert(zs.take(13) =~= zs);
    lemma_total_take(zs, 0);
    lemma_total_take(zs, 1);
    lemma_total_take(zs, 2);
    lemma_total_take(zs, 3);
    lemma_total_take(zs, 4);
    lemma_total_take(zs, 5);
    lemma_total_take(zs, 6);
    lemma_total_take(zs, 7);
    lemma_total_take(zs, 8);
    lemma_total_take(zs, 9);
    lemma_total_take(zs, 10);
    lemma_total_take(zs, 11);
    lemma_total_take(zs, 12);
    lemma_keys_top_shown(q[0]);
    lemma_keys_top_shown(q[1]);
    lemma_keys_top_shown(q[2]);
    lemma_keys_top_shown(q[3]);
    lemma_keys_top_shown(q[4]);
    lemma_keys_top_shown(q[5]);
    lemma_keys_top_shown(q[6]);
    lemma_keys_empty(zs[7]);
    lemma_keys_empty(zs[8]);
    lemma_keys_empty(zs[9]);
    lemma_keys_empty(zs[10]);
    lemma_keys_empty(zs[12]);
    lemma_keys_concat(q[6], rest);
    lemma_keys_concat(q[5], q[6] + rest);
    lemma_keys_concat(q[4], q[5] + (q[6] + rest));
    lemma_keys_concat(q[3], q[4] + (q[5] + (q[6] + rest)));
    lemma_keys_concat(q[2], q[3] + (q[4] + (q[5] + (q[6] + rest))));
    lemma_keys_concat(q[1], q[2] + (q[3] + (q[4] + (q[5] + (q[6] + rest)))));
    lemma_keys_concat(q[0], q[1] + (q[2] + (q[3] + (q[4] + (q[5] + (q[6] + rest))))));
    assert(total_keys(zs.take(0)) =~= Multiset::empty());
    assert(total_keys(zs) =~= keys(c));
}

/// Turning a sequence of cards over keeps its cards.
pub(crate) proof fn lemma_keys_reverse(s: Seq<Card>)
    ensures
        keys(s.reverse()) == keys(s),
{
    let m = s.map_values(|c: Card| c.key());
    assert(s.reverse().map_values(|c: Card| c.key()) =~= m.reverse());
    m.lemma_reverse_to_multiset();
}

/// Each count in the total of the zones is at least that of one zone, and
/// at least the sum of those of two zones.
pub(crate) proof fn lemma_zone_counts(zs: Seq<Seq<Card>>, x: (Suit, u8), i: int, j: int)
    requires
        0 <= i < zs.len(),
        0 <= j < zs.len(),
    ensures
        keys(zs[i]).count(x) <= total_keys(zs).count(x),
        i != j ==> keys(zs[i]).count(x) + keys(zs[j]).count(x) <= total_keys(zs).count(x),
    decreases zs.len(),
{
    broadcast use vstd::multiset::group_multiset_axioms;

    let l = zs.len() - 1;
    let d = zs.drop_last();
    if i < l && j < l {
        lemma_zone_counts(d, x, i, j);
    } else if i < l {
        lemma_zone_counts(d, x, i, i);
    } else if j < l {
        lemma_zone_counts(d, x, j, j);
    }
}

/// A card counted in the total lies in some zone.
pub(crate) proof fn lemma_zone_of_count(zs: Seq<Seq<Card>>, x: (Suit, u8))
    requires
        total_keys(zs).count(x) > 0,
    ensures
        exists|i: int| 0 <= i < zs.len() && #[trigger] keys(zs[i]).count(x) > 0,
    decreases zs.len(),
{
    broadcast use vstd::multiset::group_multiset_axioms;

    if zs.len() > 0 && keys(zs.last()).count(x) == 0 {
        let d = zs.drop_last();
        lemma_zone_of_count(d, x);
        let i = choose|i: int| 0 <= i < d.len() && #[trigger] keys(d[i]).count(x) > 0;
        assert(zs[i] == d[i]);
    } else if zs.len() > 0 {
        assert(keys(zs[zs.len() - 1]).count(x) > 0);
    }
}

/// The suits and ranks of a sequence of cards, in order.
pub open spec fn key_seq(s: Seq<Card>) -> Seq<(Suit, u8)> {
    s.map_values(|c: Card| c.key())
}

/// A move of `n` cards takes exactly `n` cards off its source and lays
/// exactly those, in their order, on its target, and every card of the
/// game stays in it once.
pub proof fn lemma_move_of_run(zs: Seq<Seq<Card>>, from: int, to: int, n: int)
    requires
        0 <= from < zs.len(),
        0 <= to < zs.len(),
        from != to,
        0 <= n <= zs[from].len(),
    ensures
        moved(zs, from, to, n)[from].len() == zs[from].len() - n,
        moved(zs, from, to, n)[to].len() == zs[to].len() + n,
        key_seq(moved(zs, from, to, n)[to]) == key_seq(zs[to]) + key_seq(
            zs[from].skip(zs[from].len() - n),
        ),
        key_seq(moved(zs, from, to, n)[from]) == key_seq(zs[from].take(zs[from].len() - n)),
        forall|i: int|
            0 <= i < zs.len() && i != from && i != to ==> #[trigger] moved(zs, from, to, n)[i]
                == zs[i],
        total_keys(moved(zs, from, to, n)) == total_keys(zs),
{
    broadcast use Card::lemma_turned_up;

    let src = zs[from];
    let keep = src.len() - n;
    lemma_moved_keys(zs, from, to, n);
    assert(key_seq(top_shown(zs[to] + src.skip(keep))) =~= key_seq(zs[to]) + key_seq(
        src.skip(keep),
    ));
    assert(key_seq(top_shown(src.take(keep))) =~= key_seq(src.take(keep)));
}

} // verus!
