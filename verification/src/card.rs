//! The card model: suits, ranks, the canonical index encoding, and the
//! trump-aware ordering used to sort hands.

use vstd::prelude::*;

verus! {

use vstd::multiset::Multiset;

/// One of the four French suits.
#[derive(PartialEq, Eq, Structural, Copy, Clone, Debug)]
pub enum Suit {
    Spades,
    Diamonds,
    Hearts,
    Clubs,
}

/// A card rank.  Only Six through Ace take part in the 36-card game;
/// Ace is the highest rank.
#[derive(PartialEq, Eq, Structural, Copy, Clone, Debug)]
pub enum Rank {
    Six,
    Seven,
    Eight,
    Nine,
    Ten,
    Jack,
    Queen,
    King,
    Ace,
}

/// A single card.
#[derive(PartialEq, Eq, Structural, Copy, Clone, Debug)]
pub struct Card {
    /// The card's rank.
    pub rank: Rank,
    /// The card's suit.
    pub suit: Suit,
}

/// The ordinal of a suit in the canonical card encoding.
pub open spec fn suit_ordinal(s: Suit) -> int {
    match s {
        Suit::Spades => 0,
        Suit::Diamonds => 1,
        Suit::Hearts => 2,
        Suit::Clubs => 3,
    }
}

/// The ordinal of a rank: 1 for Six up to 9 for Ace, so that a strictly
/// larger ordinal means a strictly stronger rank.
pub open spec fn rank_ordinal(r: Rank) -> int {
    match r {
        Rank::Six => 1,
        Rank::Seven => 2,
        Rank::Eight => 3,
        Rank::Nine => 4,
        Rank::Ten => 5,
        Rank::Jack => 6,
        Rank::Queen => 7,
        Rank::King => 8,
        Rank::Ace => 9,
    }
}

/// The canonical integer encoding of a card, in `[0, 36)`.
pub open spec fn card_ordinal(c: Card) -> int {
    rank_ordinal(c.rank) - 1 + suit_ordinal(c.suit) * 9
}

/// The card encoded by a canonical index in `[0, 36)`.
pub open spec fn card_of_ordinal(i: int) -> Card {
    Card { rank: rank_of_ordinal(i % 9 + 1), suit: suit_of_ordinal(i / 9) }
}

/// The suit with the given ordinal (meaningful for `0 <= i < 4`).
pub open spec fn suit_of_ordinal(i: int) -> Suit {
    if i == 0 {
        Suit::Spades
    } else if i == 1 {
        Suit::Diamonds
    } else if i == 2 {
        Suit::Hearts
    } else {
        Suit::Clubs
    }
}

/// The rank with the given ordinal (meaningful for `1 <= i <= 9`).
pub open spec fn rank_of_ordinal(i: int) -> Rank {
    if i == 1 {
        Rank::Six
    } else if i == 2 {
        Rank::Seven
    } else if i == 3 {
        Rank::Eight
    } else if i == 4 {
        Rank::Nine
    } else if i == 5 {
        Rank::Ten
    } else if i == 6 {
        Rank::Jack
    } else if i == 7 {
        Rank::Queen
    } else if i == 8 {
        Rank::King
    } else {
        Rank::Ace
    }
}

impl Suit {
    /// The suit encoded by `value`, or `None` for `value >= 4`.
    pub fn from_ordinal(value: usize) -> (r: Option<Suit>)
        ensures
            value < 4 ==> r == Some(suit_of_ordinal(value as int)),
            value >= 4 ==> r is None,
    {
        match value {
            0 => Some(Suit::Spades),
            1 => Some(Suit::Diamonds),
            2 => Some(Suit::Hearts),
            3 => Some(Suit::Clubs),
            _ => None,
        }
    }

    /// This suit's canonical ordinal.
    pub fn ordinal(&self) -> (r: usize)
        ensures
            r == suit_ordinal(*self),
    {
        match self {
            Suit::Spades => 0,
            Suit::Diamonds => 1,
            Suit::Hearts => 2,
            Suit::Clubs => 3,
        }
    }
}

impl Rank {
    /// The rank encoded by `value`, or `None` outside `[1, 9]`.
    pub fn from_ordinal(value: usize) -> (r: Option<Rank>)
        ensures
            1 <= value <= 9 ==> r == Some(rank_of_ordinal(value as int)),
            (value == 0 || value > 9) ==> r is None,
    {
        match value {
            1 => Some(Rank::Six),
            2 => Some(Rank::Seven),
            3 => Some(Rank::Eight),
            4 => Some(Rank::Nine),
            5 => Some(Rank::Ten),
            6 => Some(Rank::Jack),
            7 => Some(Rank::Queen),
            8 => Some(Rank::King),
            9 => Some(Rank::Ace),
            _ => None,
        }
    }

    /// This rank's canonical ordinal.
    pub fn ordinal(&self) -> (r: usize)
        ensures
            r == rank_ordinal(*self),
    {
        match self {
            Rank::Six => 1,
            Rank::Seven => 2,
            Rank::Eight => 3,
            Rank::Nine => 4,
            Rank::Ten => 5,
            Rank::Jack => 6,
            Rank::Queen => 7,
            Rank::King => 8,
            Rank::Ace => 9,
        }
    }
}

impl Card {
    /// The card encoded by a canonical index, or `None` for `value >= 36`.
    pub fn from_ordinal(value: usize) -> (r: Option<Card>)
        ensures
            value < 36 ==> r == Some(card_of_ordinal(value as int)),
            value >= 36 ==> r is None,
    {
        if value < 36 {
            let rank_val = value % 9 + 1;
            let suit_val = value / 9;
            let rank = Rank::from_ordinal(rank_val);
            let suit = Suit::from_ordinal(suit_val);
            match (rank, suit) {
                (Some(rank), Some(suit)) => Some(Card { rank, suit }),
                _ => None,
            }
        } else {
            None
        }
    }

    /// This card's canonical index, in `[0, 36)`.
    pub fn ordinal(&self) -> (r: usize)
        ensures
            r == card_ordinal(*self),
            r < 36,
    {
        self.rank.ordinal() - 1 + self.suit.ordinal() * 9
    }
}

/// Canonical indices and cards round-trip exactly: decoding any index in
/// `[0, 36)` and re-encoding gives the index back, and any card survives
/// encoding followed by decoding.
pub proof fn lemma_card_ordinal_roundtrip()
    ensures
        forall|i: int| 0 <= i < 36 ==> card_ordinal(#[trigger] card_of_ordinal(i)) == i,
        forall|c: Card| card_of_ordinal(#[trigger] card_ordinal(c)) == c,
{
    assert forall|i: int| 0 <= i < 36 implies card_ordinal(#[trigger] card_of_ordinal(i)) == i by {
        assert(i == 9 * (i / 9) + i % 9) by {
            vstd::arithmetic::div_mod::lemma_fundamental_div_mod(i, 9);
        }
    }
}

/// The canonical encoding never maps two distinct cards to one index.
pub proof fn lemma_card_ordinal_injective(a: Card, b: Card)
    requires
        card_ordinal(a) == card_ordinal(b),
    ensures
        a == b,
{
    lemma_card_ordinal_roundtrip();
    assert(card_of_ordinal(card_ordinal(a)) == a);
    assert(card_of_ordinal(card_ordinal(b)) == b);
}

/// The glyph a suit is rendered as.
pub open spec fn suit_char(s: Suit) -> char {
    match s {
        Suit::Spades => '\u{2660}',
        Suit::Diamonds => '\u{2666}',
        Suit::Hearts => '\u{2665}',
        Suit::Clubs => '\u{2663}',
    }
}

/// The characters a rank is rendered as ("10" for Ten, one character
/// otherwise).
pub open spec fn rank_chars(r: Rank) -> Seq<char> {
    match r {
        Rank::Six => seq!['6'],
        Rank::Seven => seq!['7'],
        Rank::Eight => seq!['8'],
        Rank::Nine => seq!['9'],
        Rank::Ten => seq!['1', '0'],
        Rank::Jack => seq!['J'],
        Rank::Queen => seq!['Q'],
        Rank::King => seq!['K'],
        Rank::Ace => seq!['A'],
    }
}

/// The characters a card is rendered as: its rank followed by its suit glyph.
pub open spec fn card_chars(c: Card) -> Seq<char> {
    rank_chars(c.rank).push(suit_char(c.suit))
}

/// A card's rendering padded with spaces on the left to a width of four
/// characters.
pub open spec fn padded_card_chars(c: Card) -> Seq<char> {
    if c.rank is Ten {
        seq![' '] + card_chars(c)
    } else {
        seq![' ', ' '] + card_chars(c)
    }
}

/// The rendering of a whole hand: each card padded to four characters, in
/// hand order.
pub open spec fn hand_chars(s: Seq<Card>) -> Seq<char>
    decreases s.len(),
{
    if s.len() == 0 {
        Seq::empty()
    } else {
        hand_chars(s.drop_last()) + padded_card_chars(s.last())
    }
}

impl Rank {
    /// The text this rank is rendered as.
    pub fn label(&self) -> (r: &'static str)
        ensures
            r@ == rank_chars(*self),
    {
        proof {
            reveal_strlit("6");
            reveal_strlit("7");
            reveal_strlit("8");
            reveal_strlit("9");
            reveal_strlit("10");
            reveal_strlit("J");
            reveal_strlit("Q");
            reveal_strlit("K");
            reveal_strlit("A");
        }
        match self {
            Rank::Six => "6",
            Rank::Seven => "7",
            Rank::Eight => "8",
            Rank::Nine => "9",
            Rank::Ten => "10",
            Rank::Jack => "J",
            Rank::Queen => "Q",
            Rank::King => "K",
            Rank::Ace => "A",
        }
    }
}

impl Suit {
    /// The glyph this suit is rendered as.
    pub fn label(&self) -> (r: &'static str)
        ensures
            r@ == seq![suit_char(*self)],
    {
        proof {
            reveal_strlit("\u{2660}");
            reveal_strlit("\u{2666}");
            reveal_strlit("\u{2665}");
            reveal_strlit("\u{2663}");
        }
        match self {
            Suit::Spades => "\u{2660}",
            Suit::Diamonds => "\u{2666}",
            Suit::Hearts => "\u{2665}",
            Suit::Clubs => "\u{2663}",
        }
    }
}

/// Creates a text representation of a hand of cards: every card right-aligned
/// in a four-character column.
pub fn hand_fmt(hand: &[Card]) -> (r: String)
    ensures
        r@ == hand_chars(hand@),
{
    let mut s = String::new();
    let mut i: usize = 0;
    while i < hand.len()
        invariant
            i <= hand@.len(),
            s@ == hand_chars(hand@.take(i as int)),
        decreases hand@.len() - i,
    {
        let c = hand[i];
        proof {
            reveal_strlit(" ");
            reveal_strlit("  ");
        }
        if c.rank == Rank::Ten {
            s.append(" ");
        } else {
            s.append("  ");
        }
        s.append(c.rank.label());
        s.append(c.suit.label());
        proof {
            let t = hand@.take(i + 1);
            assert(t.drop_last() =~= hand@.take(i as int));
            assert(t.last() == hand@[i as int]);
            assert(s@ =~= hand_chars(hand@.take(i + 1)));
        }
        i += 1;
    }
    proof {
        assert(hand@.take(hand@.len() as int) =~= hand@);
    }
    s
}

/// The key a hand is sorted by: the canonical index, pushed past every
/// non-trump card by an offset of 100 when the card is of the trump suit.
pub open spec fn trump_key(c: Card, trump: Suit) -> int {
    card_ordinal(c) + if c.suit == trump {
        100int
    } else {
        0int
    }
}

/// Whether a sequence of cards is ordered by the trump-aware key.
pub open spec fn sorted_by_trump(s: Seq<Card>, trump: Suit) -> bool {
    forall|i: int, j: int|
        0 <= i < j < s.len() ==> trump_key(s[i], trump) <= trump_key(s[j], trump)
}

impl Card {
    /// This card's trump-aware sort key.
    pub fn sort_key(&self, trump: Suit) -> (r: usize)
        ensures
            r == trump_key(*self, trump),
    {
        let v = self.ordinal();
        if self.suit == trump {
            v + 100
        } else {
            v
        }
    }
}

/// Whether `card` occurs in `cards`.
pub fn hand_contains(cards: &Vec<Card>, card: &Card) -> (r: bool)
    ensures
        r == cards@.contains(*card),
{
    let mut ind: usize = 0;
    while ind < cards.len()
        invariant
            ind <= cards@.len(),
            forall|j: int| 0 <= j < ind ==> cards@[j] != *card,
        decreases cards@.len() - ind,
    {
        if cards[ind] == *card {
            return true;
        }
        ind += 1;
    }
    false
}

/// Inserting an element anywhere in a sequence adds exactly that element to
/// the sequence's multiset.
proof fn lemma_insert_to_multiset(s: Seq<Card>, i: int, e: Card)
    requires
        0 <= i <= s.len(),
    ensures
        s.insert(i, e).to_multiset() == s.to_multiset().insert(e),
{
    broadcast use vstd::seq_lib::lemma_multiset_commutative;
    broadcast use vstd::seq_lib::group_to_multiset_ensures;

    let left = s.subrange(0, i);
    let right = s.subrange(i, s.len() as int);
    assert(s =~= left + right);
    assert(s.insert(i, e) =~= left + (right.insert(0, e)));
    assert(right.insert(0, e) =~= Seq::empty().push(e) + right);
    assert(Seq::<Card>::empty().push(e).to_multiset() =~= Multiset::empty().insert(e)) by {
        assert(Seq::<Card>::empty().to_multiset().len() == 0);
        assert(Seq::<Card>::empty().to_multiset() =~= Multiset::<Card>::empty());
    }
    assert(s.insert(i, e).to_multiset() =~= s.to_multiset().insert(e));
}

/// Moves the first occurrence of `card` (if any) out of `v_from` and onto the
/// end of `v_to`; when `card` is absent both vectors are left untouched.
/// Together the two vectors keep exactly the cards they held before.
pub fn transfer_card(v_from: &mut Vec<Card>, v_to: &mut Vec<Card>, card: &Card)
    ensures
        old(v_from)@.contains(*card) ==> exists|i: int|
            {
                &&& 0 <= i < old(v_from)@.len()
                &&& old(v_from)@[i] == *card
                &&& (forall|j: int| 0 <= j < i ==> old(v_from)@[j] != *card)
                &&& final(v_from)@ == old(v_from)@.remove(i)
            },
        old(v_from)@.contains(*card) ==> final(v_to)@ == old(v_to)@.push(*card),
        !old(v_from)@.contains(*card) ==> final(v_from)@ == old(v_from)@ && final(v_to)@ == old(
            v_to,
        )@,
        final(v_from)@.to_multiset().add(final(v_to)@.to_multiset()) == old(
            v_from,
        )@.to_multiset().add(old(v_to)@.to_multiset()),
        final(v_from)@.len() + final(v_to)@.len() == old(v_from)@.len() + old(v_to)@.len(),
{
    broadcast use vstd::seq_lib::group_to_multiset_ensures;

    let ghost orig_from = v_from@;
    let ghost orig_to = v_to@;
    let mut ind: usize = 0;
    while ind < v_from.len() && v_from[ind] != *card
        invariant
            ind <= v_from@.len(),
            v_from@ == orig_from,
            forall|j: int| 0 <= j < ind ==> v_from@[j] != *card,
        decreases v_from@.len() - ind,
    {
        ind += 1;
    }
    if ind < v_from.len() {
        let moved = v_from.remove(ind);
        v_to.push(moved);
        proof {
            assert(orig_from[ind as int] == *card);
            assert(orig_from.contains(*card));
            assert(v_from@.to_multiset() =~= orig_from.to_multiset().remove(*card));
            assert(v_to@.to_multiset() =~= orig_to.to_multiset().insert(*card));
            assert(orig_from.to_multiset().count(*card) > 0);
            assert(v_from@.to_multiset().add(v_to@.to_multiset()) =~= orig_from.to_multiset().add(
                orig_to.to_multiset(),
            ));
        }
    } else {
        proof {
            assert(!orig_from.contains(*card)) by {
                if orig_from.contains(*card) {
                    let w = choose|w: int|
                        0 <= w < orig_from.len() && orig_from[w] == *card;
                    assert(orig_from[w] != *card);
                }
            }
        }
    }
}

/// Sorts a hand by the trump-aware key, keeping exactly the same cards.
pub fn sort_cards(cards: &mut Vec<Card>, trump: Suit)
    ensures
        sorted_by_trump(final(cards)@, trump),
        final(cards)@.to_multiset() == old(cards)@.to_multiset(),
        final(cards)@.len() == old(cards)@.len(),
{
    broadcast use vstd::seq_lib::group_to_multiset_ensures;

    let ghost orig = cards@;
    let mut out: Vec<Card> = Vec::new();
    let mut k: usize = 0;
    while k < cards.len()
        invariant
            cards@ == orig,
            k <= orig.len(),
            sorted_by_trump(out@, trump),
            out@.to_multiset() == orig.take(k as int).to_multiset(),
            out@.len() == k,
        decreases orig.len() - k,
    {
        let c = cards[k];
        let mut pos: usize = 0;
        while pos < out.len() && out[pos].sort_key(trump) <= c.sort_key(trump)
            invariant
                pos <= out@.len(),
                forall|t: int| 0 <= t < pos ==> trump_key(out@[t], trump) <= trump_key(c, trump),
        decreases out@.len() - pos,
        {
            pos += 1;
        }
        let ghost before = out@;
        out.insert(pos, c);
        proof {
            broadcast use vstd::seq_lib::group_to_multiset_ensures;

            lemma_insert_to_multiset(before, pos as int, c);
            assert(orig.take(k as int).push(c).to_multiset() =~= orig.take(
                k as int,
            ).to_multiset().insert(c));
            assert(c == orig[k as int]);
            assert(orig.take(k + 1) =~= orig.take(k as int).push(c));
            assert(out@.to_multiset() =~= orig.take(k + 1).to_multiset());
            let left = before.subrange(0, pos as int);
            let right = before.subrange(pos as int, before.len() as int);
            assert(out@ == left.push(c) + right);
            assert(forall|t: int| 0 <= t < pos ==> out@[t] == before[t]);
            assert(out@[pos as int] == c);
            assert(forall|t: int| pos < t < out@.len() ==> out@[t] == before[t - 1]);
            assert forall|i: int, j: int| 0 <= i < j < out@.len() implies trump_key(
                out@[i],
                trump,
            ) <= trump_key(out@[j], trump) by {
                if i == pos && j > pos {
                    assert(trump_key(c, trump) < trump_key(before[pos as int], trump));
                    assert(trump_key(before[pos as int], trump) <= trump_key(
                        before[j - 1],
                        trump,
                    ));
                }
            }
        }
        k += 1;
    }
    proof {
        assert(orig.take(orig.len() as int) =~= orig);
    }
    *cards = out;
}

} // verus!
