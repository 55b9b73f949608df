use vstd::prelude::*;

use crate::text;

verus! {

/// The characters with the Unicode property `White_Space`.
pub open spec fn is_white_space(c: char) -> bool {
    ||| '\u{9}' <= c <= '\u{d}'
    ||| c == '\u{20}'
    ||| c == '\u{85}'
    ||| c == '\u{a0}'
    ||| c == '\u{1680}'
    ||| '\u{2000}' <= c <= '\u{200a}'
    ||| c == '\u{2028}'
    ||| c == '\u{2029}'
    ||| c == '\u{202f}'
    ||| c == '\u{205f}'
    ||| c == '\u{3000}'
}

/// `char::is_whitespace` tells whether a character has the Unicode property `White_Space`.
pub assume_specification[ char::is_whitespace ](c: char) -> (white: bool)
    ensures
        white == is_white_space(c),
;

/// `String::push` appends one character.
pub assume_specification[ String::push ](s: &mut String, c: char)
    ensures
        final(s)@ == old(s)@.push(c),
;

/// The least number of characters that have to be inserted, removed or replaced to turn one
/// sequence into the other: the Levenshtein distance.
pub open spec fn edit_distance(a: Seq<char>, b: Seq<char>) -> nat
    decreases a.len() + b.len(),
{
    if a.len() == 0 {
        b.len()
    } else if b.len() == 0 {
        a.len()
    } else {
        let removed = edit_distance(a.drop_last(), b) + 1;
        let inserted = edit_distance(a, b.drop_last()) + 1;
        let kept = edit_distance(a.drop_last(), b.drop_last());
        let replaced = if a.last() == b.last() {
            kept
        } else {
            kept + 1
        };
        if removed <= inserted && removed <= replaced {
            removed
        } else if inserted <= replaced {
            inserted
        } else {
            replaced
        }
    }
}

/// `levenshtein::levenshtein` computes the Levenshtein distance of two strings, counted in
/// characters.
#[verifier::external_body]
pub(crate) fn distance(a: &str, b: &str) -> (d: usize)
    ensures
        d == edit_distance(a@, b@),
{
    levenshtein::levenshtein(a, b)
}

/// `itertools::join` writes the items of an iterator one behind the other, with a separator
/// between each two of them. The separator is one character here: a longer one, times the
/// number of items, could exceed what can be allocated.
#[verifier::external_body]
pub(crate) fn join_items(parts: &Vec<String>, sep: &str) -> (s: String)
    requires
        sep@.len() == 1,
    ensures
        s@ == text::joined(parts.deep_view(), sep@),
{
    itertools::join(parts.iter(), sep)
}

/// `items` without each one that equals the one before it.
pub open spec fn without_repeats(items: Seq<Seq<char>>) -> Seq<Seq<char>>
    decreases items.len(),
{
    if items.len() <= 1 {
        items
    } else {
        let before = without_repeats(items.drop_last());
        if items.last() == items[items.len() - 2] {
            before
        } else {
            before.push(items.last())
        }
    }
}

/// `itertools::Itertools::dedup` leaves out each item that equals the one before it, and keeps
/// the others in their order.
#[verifier::external_body]
pub(crate) fn drop_repeats(items: Vec<String>) -> (kept: Vec<String>)
    ensures
        kept.deep_view() == without_repeats(items.deep_view()),
{
    itertools::Itertools::dedup(items.into_iter()).collect()
}

/// The distance of two texts that end in `x` and `y` is the least of what it takes to remove `x`,
/// to insert `y`, or to make one of them of the other; from nothing each character is inserted.
pub proof fn law_distance_is_the_least(a: Seq<char>, x: char, b: Seq<char>, y: char)
    ensures
        edit_distance(a, Seq::empty()) == a.len(),
        edit_distance(Seq::empty(), b) == b.len(),
        ({
            let d = edit_distance(a.push(x), b.push(y));
            let removed = edit_distance(a, b.push(y)) + 1;
            let inserted = edit_distance(a.push(x), b) + 1;
            let made = edit_distance(a, b) + (if x == y {
                0nat
            } else {
                1nat
            });
            &&& d <= removed && d <= inserted && d <= made
            &&& d == removed || d == inserted || d == made
        }),
{
    assert(a.push(x).drop_last() =~= a);
    assert(b.push(y).drop_last() =~= b);
}

/// An item that equals the one before it is left out, any other is kept.
pub proof fn law_repeats_are_left_out(items: Seq<Seq<char>>, x: Seq<char>, y: Seq<char>)
    ensures
        without_repeats(Seq::<Seq<char>>::empty()) == Seq::<Seq<char>>::empty(),
        without_repeats(seq![x]) == seq![x],
        without_repeats(items.push(x).push(y)) == (if x == y {
            without_repeats(items.push(x))
        } else {
            without_repeats(items.push(x)).push(y)
        }),
{
    assert(items.push(x).push(y).drop_last() =~= items.push(x));
}

} // verus!
