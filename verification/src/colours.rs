//! The five-colour set of a card, packed into the low five bits of a byte.
//!
//! A card lists its colours as letters (`W`, `U`, `B`, `R`, `G`). The packed
//! form keeps one bit per letter, so that two lists with the same letters give
//! the same value whatever their order. Written back out, the letters always
//! come in the order G, R, B, U, W: from the lowest bit to the highest.

use std::cmp::Ordering;
use vstd::prelude::*;
use vstd::std_specs::cmp::PartialOrdSpecImpl;
use vstd::std_specs::convert::FromSpecImpl;

verus! {

/// Bit of green.
pub const GREEN: u8 = 0x01;

/// Bit of red.
pub const RED: u8 = 0x02;

/// Bit of black.
pub const BLACK: u8 = 0x04;

/// Bit of blue.
pub const BLUE: u8 = 0x08;

/// Bit of white.
pub const WHITE: u8 = 0x10;

/// The bit that stands for a colour letter; zero for any other character.
pub open spec fn letter_mask(letter: char) -> u8 {
    if letter == 'G' {
        GREEN
    } else if letter == 'R' {
        RED
    } else if letter == 'B' {
        BLACK
    } else if letter == 'U' {
        BLUE
    } else if letter == 'W' {
        WHITE
    } else {
        0u8
    }
}

/// Whether a character is one of the five colour letters.
pub open spec fn is_colour_letter(letter: char) -> bool {
    letter == 'G' || letter == 'R' || letter == 'B' || letter == 'U' || letter == 'W'
}

/// The colour letters that occur in a list of characters.
pub open spec fn colours_in(letters: Seq<char>) -> Set<char> {
    Set::new(|letter: char| is_colour_letter(letter) && letters.contains(letter))
}

/// The bit of `letter` if the list holds it, else zero.
pub open spec fn mask_if_listed(letters: Seq<char>, letter: char) -> u8 {
    if letters.contains(letter) {
        letter_mask(letter)
    } else {
        0u8
    }
}

/// The one letter if the set holds it, else nothing.
pub open spec fn letter_if_present(set: Set<char>, letter: char) -> Seq<char> {
    if set.contains(letter) {
        seq![letter]
    } else {
        Seq::empty()
    }
}

/// A set of Magic colours, one bit per colour: `000WUBRG`.
#[derive(Debug, Clone, Copy, PartialEq, Eq, Structural)]
pub struct Colours(pub u8);

impl View for Colours {
    type V = Set<char>;

    /// The letters of the colours whose bit is set.
    open spec fn view(&self) -> Set<char> {
        Set::new(|letter: char| is_colour_letter(letter) && self.0 & letter_mask(letter) != 0)
    }
}

impl Colours {
    /// Only the five colour bits may be set.
    pub open spec fn wf(&self) -> bool {
        self.0 < 32
    }

    /// The colour set that a list of letters stands for: each colour letter in
    /// the list sets its bit, however often and wherever it occurs; other
    /// characters set nothing.
    pub open spec fn spec_deserialize(letters: Seq<char>) -> Colours {
        Colours(
            mask_if_listed(letters, 'G') | mask_if_listed(letters, 'R') | mask_if_listed(
                letters,
                'B',
            ) | mask_if_listed(letters, 'U') | mask_if_listed(letters, 'W'),
        )
    }

    /// The letters of the set in the order in which they are written out:
    /// G, R, B, U, W.
    pub open spec fn spec_serialize(&self) -> Seq<char> {
        letter_if_present(self@, 'G') + letter_if_present(self@, 'R') + letter_if_present(
            self@,
            'B',
        ) + letter_if_present(self@, 'U') + letter_if_present(self@, 'W')
    }

    /// Whether no colour bit is set.
    pub fn is_colourless(&self) -> (b: bool)
        ensures
            b == (self.0 == 0),
            self.wf() ==> b == (self@ == Set::<char>::empty()),
    {
        proof {
            lemma_bits_and_letters(self.0);
            if self.0 != 0 && self.wf() {
                assert(self@.contains('G') || self@.contains('R') || self@.contains('B')
                    || self@.contains('U') || self@.contains('W'));
            }
        }
        self.0 == 0
    }

    /// The letters of the set, in the order G, R, B, U, W. The empty set gives
    /// an empty list.
    pub fn serialize(&self) -> (letters: Vec<char>)
        ensures
            letters@ == self.spec_serialize(),
    {
        let mut letters: Vec<char> = Vec::new();
        if self.0 & GREEN != 0 {
            letters.push('G');
        }
        if self.0 & RED != 0 {
            letters.push('R');
        }
        if self.0 & BLACK != 0 {
            letters.push('B');
        }
        if self.0 & BLUE != 0 {
            letters.push('U');
        }
        if self.0 & WHITE != 0 {
            letters.push('W');
        }
        letters
    }

    /// Reads a list of colour letters: see [`ColoursVisitor::visit_seq`].
    pub fn deserialize(letters: Vec<char>) -> (colours: Colours)
        ensures
            colours == Colours::spec_deserialize(letters@),
            colours.wf(),
            colours@ == colours_in(letters@),
    {
        ColoursVisitor::new().visit_seq(letters)
    }
}

impl From<u8> for Colours {
    /// Takes the byte as it is. The result is well formed only if the byte is
    /// below 32.
    fn from(value: u8) -> (colours: Colours) {
        Colours(value)
    }
}

impl FromSpecImpl<u8> for Colours {
    open spec fn obeys_from_spec() -> bool {
        true
    }

    open spec fn from_spec(value: u8) -> Colours {
        Colours(value)
    }
}

impl Default for Colours {
    /// The colourless set.
    fn default() -> (colours: Colours)
        ensures
            colours == Colours(0),
    {
        Colours(0)
    }
}

impl PartialOrd for Colours {
    /// Colour sets are ordered as their packed bytes are.
    fn partial_cmp(&self, other: &Colours) -> (r: Option<Ordering>) {
        if self.0 < other.0 {
            Some(Ordering::Less)
        } else if self.0 == other.0 {
            Some(Ordering::Equal)
        } else {
            Some(Ordering::Greater)
        }
    }
}

impl PartialOrdSpecImpl for Colours {
    open spec fn obeys_partial_cmp_spec() -> bool {
        true
    }

    open spec fn partial_cmp_spec(&self, other: &Colours) -> Option<Ordering> {
        if self.0 < other.0 {
            Some(Ordering::Less)
        } else if self.0 == other.0 {
            Some(Ordering::Equal)
        } else {
            Some(Ordering::Greater)
        }
    }
}

/// Reads a colour set from the list of letters that a card record holds.
pub struct ColoursVisitor;

impl ColoursVisitor {
    pub fn new() -> (visitor: ColoursVisitor) {
        ColoursVisitor
    }

    /// What the visitor expects to be given.
    pub fn expecting(&self) -> (message: &'static str)
        ensures
            message@ == "a list of mtg colours"@,
    {
        "a list of mtg colours"
    }

    /// Folds the letters into a colour set. A letter that names no colour is
    /// passed over, a repeated letter counts once, and the order of the
    /// letters does not matter.
    pub fn visit_seq(self, letters: Vec<char>) -> (colours: Colours)
        ensures
            colours == Colours::spec_deserialize(letters@),
            colours.wf(),
            colours@ == colours_in(letters@),
    {
        let mut c: u8 = 0;
        let mut i: usize = 0;
        assert(Colours::spec_deserialize(letters@.take(0)).0 == 0) by {
            assert(0u8 | 0u8 | 0u8 | 0u8 | 0u8 == 0u8) by (bit_vector);
        }
        while i < letters.len()
            invariant
                i <= letters.len(),
                c == Colours::spec_deserialize(letters@.take(i as int)).0,
            decreases letters.len() - i,
        {
            let letter = letters[i];
            proof {
                lemma_deserialize_push(letters@.take(i as int), letter);
                assert(letters@.take(i as int + 1) =~= letters@.take(i as int).push(letter));
            }
            c = match letter {
                'W' => c | WHITE,
                'U' => c | BLUE,
                'B' => c | BLACK,
                'R' => c | RED,
                'G' => c | GREEN,
                _ => c,
            };
            i += 1;
        }
        proof {
            assert(letters@.take(i as int) =~= letters@);
            lemma_deserialize_view(letters@);
        }
        Colours(c)
    }
}

/// How the five colour bits of a byte read, bit by bit.
proof fn lemma_bits_and_letters(bits: u8)
    ensures
        Colours(bits)@.contains('G') <==> bits & 0x01 != 0,
        Colours(bits)@.contains('R') <==> bits & 0x02 != 0,
        Colours(bits)@.contains('B') <==> bits & 0x04 != 0,
        Colours(bits)@.contains('U') <==> bits & 0x08 != 0,
        Colours(bits)@.contains('W') <==> bits & 0x10 != 0,
        bits < 32 && bits != 0 ==> bits & 0x01 != 0 || bits & 0x02 != 0 || bits & 0x04 != 0 || bits
            & 0x08 != 0 || bits & 0x10 != 0,
        bits == 0 ==> Colours(bits)@ == Set::<char>::empty(),
{
    assert(bits < 32 && bits != 0 ==> bits & 0x01 != 0 || bits & 0x02 != 0 || bits & 0x04 != 0
        || bits & 0x08 != 0 || bits & 0x10 != 0) by (bit_vector);
    assert(bits == 0 ==> bits & 0x01 == 0 && bits & 0x02 == 0 && bits & 0x04 == 0 && bits & 0x08
        == 0 && bits & 0x10 == 0) by (bit_vector);
}

/// Five masks, each either zero or its own bit, can be told apart in their union.
proof fn lemma_union_of_masks(g: u8, r: u8, b: u8, u: u8, w: u8)
    by (bit_vector)
    requires
        g == 0 || g == 0x01,
        r == 0 || r == 0x02,
        b == 0 || b == 0x04,
        u == 0 || u == 0x08,
        w == 0 || w == 0x10,
    ensures
        (g | r | b | u | w) < 32,
        (g | r | b | u | w) & 0x01 != 0 <==> g != 0,
        (g | r | b | u | w) & 0x02 != 0 <==> r != 0,
        (g | r | b | u | w) & 0x04 != 0 <==> b != 0,
        (g | r | b | u | w) & 0x08 != 0 <==> u != 0,
        (g | r | b | u | w) & 0x10 != 0 <==> w != 0,
        (g | 0x01 | r | b | u | w) == (g | r | b | u | w) | 0x01,
        (g | (r | 0x02) | b | u | w) == (g | r | b | u | w) | 0x02,
        (g | r | (b | 0x04) | u | w) == (g | r | b | u | w) | 0x04,
        (g | r | b | (u | 0x08) | w) == (g | r | b | u | w) | 0x08,
        (g | r | b | u | (w | 0x10)) == (g | r | b | u | w) | 0x10,
        g | 0x01 == 0x01,
        r | 0x02 == 0x02,
        b | 0x04 == 0x04,
        u | 0x08 == 0x08,
        w | 0x10 == 0x10,
{
}

/// One more letter at the end of the list adds its bit, and no other.
proof fn lemma_deserialize_push(letters: Seq<char>, letter: char)
    ensures
        Colours::spec_deserialize(letters.push(letter)).0 == Colours::spec_deserialize(letters).0
            | letter_mask(letter),
        !is_colour_letter(letter) ==> Colours::spec_deserialize(letters.push(letter))
            == Colours::spec_deserialize(letters),
{
    let longer = letters.push(letter);
    assert forall|other: char| longer.contains(other) <==> (letters.contains(other) || other
        == letter) by {
        if letters.contains(other) {
            let k = choose|k: int| 0 <= k < letters.len() && letters[k] == other;
            assert(longer[k] == other);
        }
        if other == letter {
            assert(longer[letters.len() as int] == other);
        }
    }
    let g = mask_if_listed(letters, 'G');
    let r = mask_if_listed(letters, 'R');
    let b = mask_if_listed(letters, 'B');
    let u = mask_if_listed(letters, 'U');
    let w = mask_if_listed(letters, 'W');
    lemma_union_of_masks(g, r, b, u, w);
    let all = g | r | b | u | w;
    assert(all | 0u8 == all) by (bit_vector);
}

/// The set that a list of letters stands for holds just the colour letters of
/// the list, and is well formed.
pub proof fn lemma_deserialize_view(letters: Seq<char>)
    ensures
        Colours::spec_deserialize(letters).wf(),
        Colours::spec_deserialize(letters)@ == colours_in(letters),
{
    let g = mask_if_listed(letters, 'G');
    let r = mask_if_listed(letters, 'R');
    let b = mask_if_listed(letters, 'B');
    let u = mask_if_listed(letters, 'U');
    let w = mask_if_listed(letters, 'W');
    lemma_union_of_masks(g, r, b, u, w);
}

/// A well-formed colour set is known by its letters: two such sets with the
/// same letters are the same value.
pub proof fn lemma_colours_known_by_letters(a: Colours, b: Colours)
    requires
        a.wf(),
        b.wf(),
        a@ == b@,
    ensures
        a == b,
{
    lemma_bits_and_letters(a.0);
    lemma_bits_and_letters(b.0);
    let x = a.0;
    let y = b.0;
    assert(x == y) by (bit_vector)
        requires
            x < 32,
            y < 32,
            x & 0x01 != 0 <==> y & 0x01 != 0,
            x & 0x02 != 0 <==> y & 0x02 != 0,
            x & 0x04 != 0 <==> y & 0x04 != 0,
            x & 0x08 != 0 <==> y & 0x08 != 0,
            x & 0x10 != 0 <==> y & 0x10 != 0,
    ;
}

/// The letters written out for a set are the letters of the set, each once.
pub proof fn lemma_serialize_letters(colours: Colours)
    ensures
        forall|letter: char|
            colours.spec_serialize().contains(letter) <==> colours@.contains(letter),
        colours.spec_serialize().no_duplicates(),
        colours.spec_serialize().len() <= 5,
{
    let s = colours.spec_serialize();
    assert forall|letter: char| s.contains(letter) <==> colours@.contains(letter) by {
        if colours@.contains(letter) {
            lemma_letter_written(colours, letter);
        }
    }
}

/// A letter of the set has its place in what is written out.
proof fn lemma_letter_written(colours: Colours, letter: char)
    requires
        colours@.contains(letter),
    ensures
        colours.spec_serialize().contains(letter),
{
    let g = letter_if_present(colours@, 'G');
    let r = letter_if_present(colours@, 'R');
    let b = letter_if_present(colours@, 'B');
    let u = letter_if_present(colours@, 'U');
    let s = colours.spec_serialize();
    if letter == 'G' {
        assert(s[0] == letter);
    } else if letter == 'R' {
        assert(s[g.len() as int] == letter);
    } else if letter == 'B' {
        assert(s[(g.len() + r.len()) as int] == letter);
    } else if letter == 'U' {
        assert(s[(g.len() + r.len() + b.len()) as int] == letter);
    } else {
        assert(s[(g.len() + r.len() + b.len() + u.len()) as int] == letter);
    }
}

/// Writing a well-formed colour set out and reading the letters back gives the
/// same set.
pub proof fn law_serialize_round_trip(colours: Colours)
    requires
        colours.wf(),
    ensures
        Colours::spec_deserialize(colours.spec_serialize()) == colours,
{
    let back = Colours::spec_deserialize(colours.spec_serialize());
    lemma_deserialize_view(colours.spec_serialize());
    lemma_serialize_letters(colours);
    assert(back@ =~= colours@);
    lemma_colours_known_by_letters(back, colours);
}

/// Reading does not depend on the order of the letters, nor on how often one
/// occurs: two lists that hold the same letters stand for the same set.
pub proof fn law_deserialize_ignores_order(first: Seq<char>, second: Seq<char>)
    requires
        forall|letter: char| first.contains(letter) <==> second.contains(letter),
    ensures
        Colours::spec_deserialize(first) == Colours::spec_deserialize(second),
{
}

/// A list and any rearrangement of it stand for the same set.
pub proof fn law_deserialize_of_permutation(first: Seq<char>, second: Seq<char>)
    requires
        first.to_multiset() == second.to_multiset(),
    ensures
        Colours::spec_deserialize(first) == Colours::spec_deserialize(second),
{
    first.to_multiset_ensures();
    second.to_multiset_ensures();
    assert forall|letter: char| first.contains(letter) <==> second.contains(letter) by {
        assert(first.contains(letter) <==> first.to_multiset().count(letter) > 0);
    }
    law_deserialize_ignores_order(first, second);
}

} // verus!
