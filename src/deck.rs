use crate::card::{chars_of, names_card, read_from, Card};
use vstd::prelude::*;

verus! {

/// `s` ends with `t`.
pub open spec fn ends_with(s: Seq<char>, t: Seq<char>) -> bool {
    t.len() <= s.len() && s.skip(s.len() - t.len()) == t
}

/// A file of the card images that shows a card: a PNG image that is not
/// the joker.
pub open spec fn is_card_image_name(name: Seq<char>) -> bool {
    ends_with(name, ".png"@) && !ends_with(name, "joker.png"@)
}

/// The names of `names` that show a card, in their order.
pub open spec fn card_image_names(names: Seq<Seq<char>>) -> Seq<Seq<char>>
    decreases names.len(),
{
    if names.len() == 0 {
        names
    } else if is_card_image_name(names.last()) {
        card_image_names(names.drop_last()).push(names.last())
    } else {
        card_image_names(names.drop_last())
    }
}

fn has_suffix(s: &Vec<char>, t: &str) -> (r: bool)
    ensures
        r == ends_with(s@, t@),
{
    let n = t.unicode_len();
    if n > s.len() {
        return false;
    }
    let start = s.len() - n;
    let mut k: usize = 0;
    while k < n
        invariant
            n == t@.len(),
            start + n == s.len(),
            k <= n,
            forall|j: int| 0 <= j < k ==> s@[start + j] == t@[j],
        decreases n - k,
    {
        if s[start + k] != t.get_char(k) {
            assert(s@.skip(start as int)[k as int] != t@[k as int]);
            return false;
        }
        k += 1;
    }
    assert(s@.skip(start as int) =~= t@);
    true
}

/// Whether a file of the card images shows a card.
pub fn is_card_image(name: &str) -> (r: bool)
    ensures
        r == is_card_image_name(name@),
{
    let chars = chars_of(name);
    has_suffix(&chars, ".png") && !has_suffix(&chars, "joker.png")
}

/// Reads the cards of a listing of image files, in the listing's order,
/// skipping the files that show no card; `None` when one of the others
/// spells no card.
pub fn read_cards(names: &Vec<String>) -> (r: Option<Vec<Card>>)
    ensures
        r is Some <==> forall|k: int|
            0 <= k < names@.len() && is_card_image_name(#[trigger] names@[k]@) ==> names_card(
                names@[k]@,
            ),
        r matches Some(cards) ==> {
            let kept = card_image_names(names@.map_values(|n: String| n@));
            &&& cards@.len() == kept.len()
            &&& forall|k: int| 0 <= k < kept.len() ==> read_from(#[trigger] cards@[k], kept[k])
        },
{
    let ghost v = names@.map_values(|n: String| n@);
    let mut cards: Vec<Card> = Vec::new();
    let mut i: usize = 0;
    assert(v.take(0) =~= Seq::<Seq<char>>::empty());
    while i < names.len()
        invariant
            i <= names@.len(),
            v == names@.map_values(|n: String| n@),
            cards@.len() == card_image_names(v.take(i as int)).len(),
            forall|k: int|
                0 <= k < cards@.len() ==> read_from(
                    #[trigger] cards@[k],
                    card_image_names(v.take(i as int))[k],
                ),
            forall|k: int|
                0 <= k < i && is_card_image_name(#[trigger] names@[k]@) ==> names_card(names@[k]@),
        decreases names@.len() - i,
    {
        assert(v.take(i + 1).drop_last() =~= v.take(i as int));
        assert(v.take(i + 1).last() == names@[i as int]@);
        let name = &names[i];
        if is_card_image(name.as_str()) {
            match Card::parse(name.clone()) {
                Some(card) => {
                    cards.push(card);
                },
                None => {
                    return None;
                },
            }
        }
        i += 1;
    }
    assert(v.take(i as int) =~= v);
    Some(cards)
}

} // verus!
