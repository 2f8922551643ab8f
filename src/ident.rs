use rand::seq::SliceRandom;
use rand::Rng;
use vstd::prelude::*;
use vstd::multiset::Multiset;

verus! {

broadcast use vstd::seq_lib::group_to_multiset_ensures;

const DIGIT_0: u8 = 48;
const LOWER_A: u8 = 97;
const UPPER_A: u8 = 65;

pub open spec fn is_digit(c: char) -> bool {
    '0' <= c && c <= '9'
}

pub open spec fn is_letter(c: char) -> bool {
    ('a' <= c && c <= 'z') || ('A' <= c && c <= 'Z')
}

/// Three characters: one letter, at some position, and two decimal digits.
pub open spec fn id_shape(s: Seq<char>) -> bool {
    &&& s.len() == 3
    &&& exists|p: int|
        0 <= p < 3 && #[trigger] is_letter(s[p]) && forall|i: int| 0 <= i < 3 && i != p ==> #[trigger] is_digit(s[i])
}

pub open spec fn digit_char(d: u8) -> char {
    ((48 + d) as u8) as char
}

/// The letter `offset` places after `a`, or after `A` where `lower` is false.
pub open spec fn letter_char(lower: bool, offset: u8) -> char {
    if lower {
        ((97 + offset) as u8) as char
    } else {
        ((65 + offset) as u8) as char
    }
}

/// Relies on Rng::gen_range over an inclusive range, on the thread's
/// generator: a value between the bounds. The range is never empty.
#[verifier::external_body]
fn random_between(lo: u8, hi: u8) -> (r: u8)
    requires
        lo <= hi,
    ensures
        lo <= r <= hi,
{
    rand::thread_rng().gen_range(lo..=hi)
}

/// Relies on Rng::gen for `bool`, on the thread's generator: a fair coin.
#[verifier::external_body]
fn coin_flip() -> (r: bool) {
    rand::thread_rng().gen::<bool>()
}

/// Relies on SliceRandom::shuffle: the same characters, in a random order.
#[verifier::external_body]
fn shuffle_chars(v: &mut Vec<char>)
    ensures
        final(v)@.to_multiset() == old(v)@.to_multiset(),
{
    v.shuffle(&mut rand::thread_rng());
}

/// Relies on String's FromIterator<&char>: the characters in order.
#[verifier::external_body]
fn string_of_chars(v: &Vec<char>) -> (r: String)
    ensures
        r@ == v@,
{
    v.iter().collect()
}

/// The characters of an identifier before they are put in random order:
/// the digits `d1` and `d2`, then a letter, lower case where `lower` holds.
pub fn id_chars(d1: u8, d2: u8, lower: bool, offset: u8) -> (r: Vec<char>)
    requires
        d1 < 10,
        d2 < 10,
        offset < 26,
    ensures
        r@ == seq![digit_char(d1), digit_char(d2), letter_char(lower, offset)],
        id_shape(r@),
{
    let letter: u8 = if lower { LOWER_A + offset } else { UPPER_A + offset };
    let r = vec![(DIGIT_0 + d1) as char, (DIGIT_0 + d2) as char, letter as char];
    assert(is_letter(r@[2]));
    r
}

proof fn lemma_count_in_three(a: char, b: char, c: char, x: char)
    ensures
        seq![a, b, c].to_multiset().count(x) == (if a == x { 1int } else { 0int }) + (if b == x { 1int } else { 0int }) + (if c == x { 1int } else { 0int }),
{
    let s0 = Seq::<char>::empty();
    assert(seq![a] == s0.push(a));
    assert(seq![a, b] == seq![a].push(b));
    assert(seq![a, b, c] == seq![a, b].push(c));
    assert(s0.to_multiset() =~= Multiset::empty()) by {
        assert(s0.to_multiset().len() == 0);
    }
}

/// A reordering keeps the shape of an identifier.
proof fn lemma_permuted_shape(v: Seq<char>, w: Seq<char>)
    requires
        id_shape(v),
        w.to_multiset() == v.to_multiset(),
    ensures
        id_shape(w),
{
    v.to_multiset_ensures();
    w.to_multiset_ensures();
    assert(w.len() == 3);
    let p = choose|p: int|
        0 <= p < 3 && #[trigger] is_letter(v[p]) && forall|i: int| 0 <= i < 3 && i != p ==> #[trigger] is_digit(v[i]);
    let l = v[p];
    assert(v =~= seq![v[0], v[1], v[2]]);
    assert(w =~= seq![w[0], w[1], w[2]]);
    lemma_count_in_three(v[0], v[1], v[2], l);
    assert(v.to_multiset().count(l) == 1) by {
        assert forall|i: int| 0 <= i < 3 && i != p implies v[i] != l by {
            assert(is_digit(v[i]));
        }
    }
    lemma_count_in_three(w[0], w[1], w[2], l);
    assert forall|i: int| 0 <= i < 3 implies #[trigger] v.contains(w[i]) by {
        assert(w.contains(w[i]));
        assert(w.to_multiset().count(w[i]) > 0);
    }
    assert forall|i: int| 0 <= i < 3 && w[i] != l implies #[trigger] is_digit(w[i]) by {
        assert(v.contains(w[i]));
        let j = choose|j: int| 0 <= j < v.len() && v[j] == w[i];
        assert(j != p);
    }
    let q = if w[0] == l { 0int } else if w[1] == l { 1int } else { 2int };
    assert(w[q] == l);
    assert(is_letter(w[q]));
    assert forall|i: int| 0 <= i < 3 && i != q implies #[trigger] is_digit(w[i]) by {
        assert(w[i] != l);
    }
}

/// A fresh identifier: two random decimal digits and one random letter,
/// lower or upper case by a fair coin, shuffled into a random order.
/// Nothing keeps it apart from identifiers already in use.
pub fn generate_id() -> (r: String)
    ensures
        id_shape(r@),
{
    let d1 = random_between(0, 9);
    let d2 = random_between(0, 9);
    let lower = coin_flip();
    let offset = random_between(0, 25);
    let mut chars = id_chars(d1, d2, lower, offset);
    let ghost before = chars@;
    shuffle_chars(&mut chars);
    proof { lemma_permuted_shape(before, chars@); }
    string_of_chars(&chars)
}

} // verus!
