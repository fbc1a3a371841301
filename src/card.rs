use vstd::prelude::*;

verus! {

/// One of the four suits of a standard deck.
#[derive(Debug, Clone, Copy, PartialEq, Eq, Structural, Hash)]
pub enum Suit {
    Spades,
    Hearts,
    Diamonds,
    Clubs,
}

/// A playing card: its suit and rank, the image it is drawn with, and
/// whether it lies face up.
#[derive(Debug, Clone, PartialEq, Eq, Hash)]
pub struct Card {
    pub suit: Suit,
    /// 1 for an Ace, 11 to 13 for Jack, Queen and King.
    pub value: u8,
    /// The name of the card's image, as it was read.
    pub filename: String,
    pub faceup: bool,
}

/// Hearts and Diamonds are red; Spades and Clubs are black.
pub open spec fn suit_is_red(s: Suit) -> bool {
    s is Hearts || s is Diamonds
}

/// The name with every `of_` taken out, matched from left to right
/// without overlap.
pub open spec fn without_of(s: Seq<char>) -> Seq<char>
    decreases s.len(),
{
    if s.len() < 3 {
        s
    } else if s[0] == 'o' && s[1] == 'f' && s[2] == '_' {
        without_of(s.skip(3))
    } else {
        seq![s[0]] + without_of(s.skip(1))
    }
}

/// What comes before the first `sep` of `s`, or all of `s` if it has none.
pub open spec fn before_first(s: Seq<char>, sep: char) -> Seq<char>
    decreases s.len(),
{
    if s.len() == 0 {
        s
    } else if s[0] == sep {
        Seq::empty()
    } else {
        seq![s[0]] + before_first(s.skip(1), sep)
    }
}

/// What comes after the last `sep` of `s`, or all of `s` if it has none.
pub open spec fn after_last(s: Seq<char>, sep: char) -> Seq<char>
    decreases s.len(),
{
    if s.len() == 0 {
        s
    } else if s.last() == sep {
        Seq::empty()
    } else {
        after_last(s.drop_last(), sep).push(s.last())
    }
}

/// The image name without `of_` and without its extension.
pub open spec fn card_stem(name: Seq<char>) -> Seq<char> {
    before_first(without_of(name), '.')
}

/// The first `_`-separated token of the stem names the rank.
pub open spec fn rank_token(name: Seq<char>) -> Seq<char> {
    before_first(card_stem(name), '_')
}

/// The last `_`-separated token of the stem names the suit.
pub open spec fn suit_token(name: Seq<char>) -> Seq<char> {
    after_last(card_stem(name), '_')
}

pub open spec fn rank_of_token(t: Seq<char>) -> Option<u8> {
    if t == "ace"@ {
        Some(1u8)
    } else if t == "2"@ {
        Some(2u8)
    } else if t == "3"@ {
        Some(3u8)
    } else if t == "4"@ {
        Some(4u8)
    } else if t == "5"@ {
        Some(5u8)
    } else if t == "6"@ {
        Some(6u8)
    } else if t == "7"@ {
        Some(7u8)
    } else if t == "8"@ {
        Some(8u8)
    } else if t == "9"@ {
        Some(9u8)
    } else if t == "10"@ {
        Some(10u8)
    } else if t == "jack"@ {
        Some(11u8)
    } else if t == "queen"@ {
        Some(12u8)
    } else if t == "king"@ {
        Some(13u8)
    } else {
        None
    }
}

pub open spec fn suit_of_token(t: Seq<char>) -> Option<Suit> {
    if t == "spades"@ {
        Some(Suit::Spades)
    } else if t == "hearts"@ {
        Some(Suit::Hearts)
    } else if t == "diamonds"@ {
        Some(Suit::Diamonds)
    } else if t == "clubs"@ {
        Some(Suit::Clubs)
    } else {
        None
    }
}

/// `c` is the face-down card read from the image name `name`.
pub open spec fn read_from(c: Card, name: Seq<char>) -> bool {
    &&& c.suit == suit_of_token(suit_token(name)).unwrap()
    &&& c.value == rank_of_token(rank_token(name)).unwrap()
    &&& c.asset() == name
    &&& !c.face_up()
}

/// The image name spells a rank and a suit, as in `queen_of_hearts.png`.
pub open spec fn names_card(name: Seq<char>) -> bool {
    rank_of_token(rank_token(name)) is Some && suit_of_token(suit_token(name)) is Some
}

pub(crate) fn chars_of(s: &str) -> (r: Vec<char>)
    ensures
        r@ == s@,
{
    let n = s.unicode_len();
    let mut r: Vec<char> = Vec::new();
    let mut i: usize = 0;
    while i < n
        invariant
            n == s@.len(),
            i <= n,
            r@ == s@.take(i as int),
        decreases n - i,
    {
        let c = s.get_char(i);
        r.push(c);
        i += 1;
        assert(r@ =~= s@.take(i as int));
    }
    assert(r@ =~= s@);
    r
}

fn remove_of(s: &Vec<char>) -> (r: Vec<char>)
    ensures
        r@ == without_of(s@),
{
    let mut r: Vec<char> = Vec::new();
    let mut i: usize = 0;
    assert(s@.skip(0) =~= s@);
    assert(r@ + without_of(s@) =~= without_of(s@));
    while i < s.len()
        invariant
            i <= s@.len(),
            without_of(s@) == r@ + without_of(s@.skip(i as int)),
        decreases s@.len() - i,
    {
        let ghost rest = s@.skip(i as int);
        if s.len() - i >= 3 && s[i] == 'o' && s[i + 1] == 'f' && s[i + 2] == '_' {
            assert(rest.skip(3) =~= s@.skip(i + 3));
            i += 3;
        } else {
            let c = s[i];
            proof {
                if rest.len() < 3 {
                    assert(rest =~= seq![c] + s@.skip(i + 1));
                } else {
                    assert(rest.skip(1) =~= s@.skip(i + 1));
                }
            }
            r.push(c);
            i += 1;
            assert(without_of(s@) =~= r@ + without_of(s@.skip(i as int)));
        }
    }
    assert(s@.skip(i as int) =~= Seq::<char>::empty());
    assert(r@ + Seq::<char>::empty() =~= r@);
    r
}

fn head_before(s: &Vec<char>, sep: char) -> (r: Vec<char>)
    ensures
        r@ == before_first(s@, sep),
{
    let mut r: Vec<char> = Vec::new();
    let mut i: usize = 0;
    assert(s@.skip(0) =~= s@);
    assert(r@ + before_first(s@, sep) =~= before_first(s@, sep));
    while i < s.len() && s[i] != sep
        invariant
            i <= s@.len(),
            before_first(s@, sep) == r@ + before_first(s@.skip(i as int), sep),
        decreases s@.len() - i,
    {
        let c = s[i];
        assert(s@.skip(i as int).skip(1) =~= s@.skip(i + 1));
        r.push(c);
        i += 1;
        assert(before_first(s@, sep) =~= r@ + before_first(s@.skip(i as int), sep));
    }
    assert(before_first(s@.skip(i as int), sep) =~= Seq::<char>::empty());
    assert(r@ + Seq::<char>::empty() =~= r@);
    r
}

fn tail_after(s: &Vec<char>, sep: char) -> (r: Vec<char>)
    ensures
        r@ == after_last(s@, sep),
{
    let n = s.len();
    let mut j: usize = n;
    assert(s@.take(n as int) =~= s@);
    assert(s@ =~= s@ + s@.subrange(n as int, n as int));
    while j > 0 && s[j - 1] != sep
        invariant
            j <= n,
            n == s@.len(),
            after_last(s@, sep) == after_last(s@.take(j as int), sep) + s@.subrange(j as int, n as int),
        decreases j,
    {
        let ghost t = s@.take(j as int);
        assert(t.drop_last() =~= s@.take(j - 1));
        assert(t.last() == s@[j - 1]);
        assert(after_last(t, sep).push(s@[j - 1]) + s@.subrange(j as int, n as int)
            =~= after_last(t, sep) + s@.subrange(j - 1, n as int)) by {
            assert(after_last(t, sep) == after_last(s@.take(j - 1), sep).push(s@[j - 1]));
        }
        assert(after_last(s@.take(j - 1), sep).push(s@[j - 1]) + s@.subrange(j as int, n as int)
            =~= after_last(s@.take(j - 1), sep) + s@.subrange(j - 1, n as int));
        j -= 1;
    }
    assert(after_last(s@.take(j as int), sep) =~= Seq::<char>::empty());
    let mut r: Vec<char> = Vec::new();
    let mut k: usize = j;
    while k < n
        invariant
            j <= k <= n,
            n == s@.len(),
            r@ == s@.subrange(j as int, k as int),
        decreases n - k,
    {
        r.push(s[k]);
        k += 1;
        assert(r@ =~= s@.subrange(j as int, k as int));
    }
    assert(Seq::<char>::empty() + r@ =~= r@);
    r
}

fn is_word(t: &Vec<char>, w: &str) -> (r: bool)
    ensures
        r == (t@ == w@),
{
    let n = w.unicode_len();
    if t.len() != n {
        return false;
    }
    let mut i: usize = 0;
    while i < n
        invariant
            n == w@.len(),
            t@.len() == n,
            i <= n,
            forall|k: int| 0 <= k < i ==> t@[k] == w@[k],
        decreases n - i,
    {
        if t[i] != w.get_char(i) {
            return false;
        }
        i += 1;
    }
    assert(t@ =~= w@);
    true
}

fn rank_from(t: &Vec<char>) -> (r: Option<u8>)
    ensures
        r == rank_of_token(t@),
{
    if is_word(t, "ace") {
        Some(1)
    } else if is_word(t, "2") {
        Some(2)
    } else if is_word(t, "3") {
        Some(3)
    } else if is_word(t, "4") {
        Some(4)
    } else if is_word(t, "5") {
        Some(5)
    } else if is_word(t, "6") {
        Some(6)
    } else if is_word(t, "7") {
        Some(7)
    } else if is_word(t, "8") {
        Some(8)
    } else if is_word(t, "9") {
        Some(9)
    } else if is_word(t, "10") {
        Some(10)
    } else if is_word(t, "jack") {
        Some(11)
    } else if is_word(t, "queen") {
        Some(12)
    } else if is_word(t, "king") {
        Some(13)
    } else {
        None
    }
}

fn suit_from(t: &Vec<char>) -> (r: Option<Suit>)
    ensures
        r == suit_of_token(t@),
{
    if is_word(t, "spades") {
        Some(Suit::Spades)
    } else if is_word(t, "hearts") {
        Some(Suit::Hearts)
    } else if is_word(t, "diamonds") {
        Some(Suit::Diamonds)
    } else if is_word(t, "clubs") {
        Some(Suit::Clubs)
    } else {
        None
    }
}

/// The rank and the suit that an image name spells, if it spells both.
fn read_name(name: &str) -> (r: (Option<u8>, Option<Suit>))
    ensures
        r.0 == rank_of_token(rank_token(name@)),
        r.1 == suit_of_token(suit_token(name@)),
{
    let chars = chars_of(name);
    let cleaned = remove_of(&chars);
    let stem = head_before(&cleaned, '.');
    let rank = head_before(&stem, '_');
    let suit = tail_after(&stem, '_');
    (rank_from(&rank), suit_from(&suit))
}

impl Card {
    /// The image name this card was read from.
    pub open spec fn asset(self) -> Seq<char> {
        self.filename@
    }

    /// Whether the card lies face up.
    pub open spec fn face_up(self) -> bool {
        self.faceup
    }

    /// The same card, turned face up.
    pub open spec fn turned_up(self) -> Card {
        Card { faceup: true, ..self }
    }

    /// The identity of the card in a deck: its suit and its rank.
    pub open spec fn key(self) -> (Suit, u8) {
        (self.suit, self.value)
    }

    pub open spec fn red(self) -> bool {
        suit_is_red(self.suit)
    }

    /// Turning a card up keeps what it is and where it is drawn from.
    pub broadcast proof fn lemma_turned_up(c: Card)
        ensures
            #[trigger] c.turned_up().suit == c.suit,
            c.turned_up().value == c.value,
            c.turned_up().asset() == c.asset(),
            c.turned_up().face_up(),
            c.face_up() ==> c.turned_up() == c,
    {
    }

    /// Reads a card from the name of its image, such as `10_of_hearts.png`;
    /// `None` when the name spells no rank or no suit.
    pub fn parse(filename: String) -> (r: Option<Card>)
        ensures
            r is Some <==> names_card(filename@),
            r matches Some(c) ==> read_from(c, filename@),
    {
        let (value, suit) = read_name(filename.as_str());
        match (value, suit) {
            (Some(value), Some(suit)) => Some(Card { suit, value, filename, faceup: false }),
            _ => None,
        }
    }

    /// The card whose image carries this name, face down.
    pub fn new(filename: String) -> (r: Card)
        requires
            names_card(filename@),
        ensures
            read_from(r, filename@),
    {
        let (value, suit) = read_name(filename.as_str());
        Card { suit: suit.unwrap(), value: value.unwrap(), filename, faceup: false }
    }

    /// `"black"` for Spades and Clubs, `"red"` for Hearts and Diamonds.
    pub fn color(&self) -> (r: &'static str)
        ensures
            r@ == (if self.red() { "red"@ } else { "black"@ }),
    {
        match self.suit {
            Suit::Spades | Suit::Clubs => "black",
            Suit::Hearts | Suit::Diamonds => "red",
        }
    }

    pub fn is_red(&self) -> (r: bool)
        ensures
            r == self.red(),
    {
        match self.suit {
            Suit::Spades | Suit::Clubs => false,
            Suit::Hearts | Suit::Diamonds => true,
        }
    }

    pub fn is_face_up(&self) -> (r: bool)
        ensures
            r == self.face_up(),
    {
        self.faceup
    }

    /// Turns the card face up.
    pub fn flip(&mut self)
        ensures
            *final(self) == old(self).turned_up(),
    {
        self.faceup = true;
    }

    /// The name this card is drawn by: its image name and whether it is
    /// face up, as in `ace_of_spades.png-true`.
    pub fn id(&self) -> (r: String)
        ensures
            r@ == self.asset() + "-"@ + (if self.face_up() { "true"@ } else { "false"@ }),
    {
        let mut r = self.filename.clone();
        r.append("-");
        if self.faceup {
            r.append("true");
        } else {
            r.append("false");
        }
        r
    }
}

} // verus!
