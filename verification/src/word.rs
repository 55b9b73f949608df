use vstd::prelude::*;
use vstd::utf8::*;

use crate::foreign;
use crate::text;

verus! {

/// How many words begin behind white space among the characters up to `i`.
pub open spec fn word_starts(s: Seq<char>, i: int) -> nat
    decreases i,
{
    if i <= 0 {
        0
    } else if foreign::is_white_space(s[i - 1]) && !foreign::is_white_space(s[i]) {
        word_starts(s, i - 1) + 1
    } else {
        word_starts(s, i - 1)
    }
}

/// The first place from `i` on up to which `n` words have begun behind white space, or the
/// length of `s`.
pub open spec fn word_place_from(s: Seq<char>, n: nat, i: int) -> int
    decreases s.len() - i,
{
    if i >= s.len() {
        s.len() as int
    } else if word_starts(s, i) == n {
        i
    } else {
        word_place_from(s, n, i + 1)
    }
}

/// The place of word number `n`, where the text before the first white space is word number 0.
pub open spec fn word_place(s: Seq<char>, n: nat) -> Option<int> {
    let at = word_place_from(s, n, 0);
    if at < s.len() {
        Some(at)
    } else {
        None
    }
}

/// What `word_place` finds: the first place up to which `n` words have begun.
pub proof fn lemma_word_place(s: Seq<char>, n: nat)
    ensures
        match word_place(s, n) {
            Some(at) => 0 <= at < s.len() && word_starts(s, at) == n && forall|i: int|
                0 <= i < at ==> word_starts(s, i) != n,
            None => forall|i: int| 0 <= i < s.len() ==> word_starts(s, i) != n,
        },
{
    lemma_word_place_from(s, n, 0);
}

proof fn lemma_word_place_from(s: Seq<char>, n: nat, i: int)
    requires
        0 <= i,
    ensures
        ({
            let at = word_place_from(s, n, i);
            &&& i <= at || at == s.len()
            &&& 0 <= at <= s.len()
            &&& at < s.len() ==> word_starts(s, at) == n
            &&& forall|j: int| i <= j < at ==> word_starts(s, j) != n
        }),
    decreases s.len() - i,
{
    if i < s.len() && word_starts(s, i) != n {
        lemma_word_place_from(s, n, i + 1);
    }
}

/// Encoding takes a concatenation apart.
proof fn lemma_encode_concat(a: Seq<char>, b: Seq<char>)
    ensures
        encode_utf8(a + b) == encode_utf8(a) + encode_utf8(b),
    decreases a.len(),
{
    if a.len() == 0 {
        assert(a + b =~= b);
        assert(encode_utf8(a) + encode_utf8(b) =~= encode_utf8(b));
    } else {
        lemma_encode_concat(a.drop_first(), b);
        assert((a + b).drop_first() =~= a.drop_first() + b);
        assert(encode_utf8(a + b) =~= encode_utf8(a) + encode_utf8(b));
    }
}

/// The encoding of a prefix of `s` ends at a character of the encoding of `s`, and what stands
/// behind it is the encoding of the rest.
proof fn lemma_encode_prefix(s: Seq<char>, k: int)
    requires
        0 <= k <= s.len(),
    ensures
        encode_utf8(s) == encode_utf8(s.take(k)) + encode_utf8(s.skip(k)),
        is_char_boundary(encode_utf8(s), encode_utf8(s.take(k)).len() as int),
    decreases k,
{
    assert(s.take(k) + s.skip(k) =~= s);
    lemma_encode_concat(s.take(k), s.skip(k));
    encode_utf8_valid_utf8(s);
    if k > 0 {
        let bytes = encode_utf8(s);
        let rest = s.drop_first();
        lemma_encode_prefix(rest, k - 1);
        encode_utf8_first_scalar(s);
        assert(pop_first_scalar(bytes) =~= encode_utf8(rest));
        assert(s.take(k).drop_first() =~= rest.take(k - 1));
        assert(s.take(k)[0] == s[0]);
    } else {
        assert(s.take(0).len() == 0);
    }
}

fn width(c: char) -> (n: usize)
    ensures
        n == encode_scalar(c as u32).len(),
{
    let v: u32 = c as u32;
    if v < 0x80 {
        1
    } else if v < 0x800 {
        2
    } else if v < 0x10000 {
        3
    } else {
        4
    }
}

/// Get the byte index of the nth word. Used in completing "/sudo p /subcmd"
#[verifier::loop_isolation(false)]
pub fn nth_word(line: &str, n: usize) -> (at: Option<usize>)
    ensures
        match at {
            Some(index) => word_place(line@, n as nat) is Some && index == encode_utf8(
                line@.take(word_place(line@, n as nat)->0),
            ).len(),
            None => word_place(line@, n as nat) is None,
        },
{
    let x = text::chars_of(line);
    // No byte index lies behind the last byte
    let _index_bound: usize = line.as_bytes().len();
    let mut is_space: bool = false;
    let mut j: usize = 0;
    let mut index: usize = 0;
    assert(line@.take(0) =~= Seq::empty());
    for i in 0..x.len()
        invariant
            is_space == (i > 0 && foreign::is_white_space(x@[i - 1])),
            i == 0 ==> j == 0,
            i > 0 ==> j == word_starts(line@, i - 1),
            j <= i,
            index == encode_utf8(line@.take(i as int)).len(),
            word_place_from(line@, n as nat, 0) == word_place_from(line@, n as nat, i as int),
    {
        let c: char = x[i];
        let white: bool = c.is_whitespace();
        match (is_space, white) {
            (true, true) => {},
            (true, false) => {
                is_space = false;
                j = j + 1;
            },
            (false, true) => {
                is_space = true;
            },
            (false, false) => {},
        }
        assert(j == word_starts(line@, i as int));
        if j == n {
            return Some(index);
        }
        proof {
            lemma_encode_prefix(line@, i as int);
            lemma_encode_prefix(line@, i + 1);
            assert(line@.take(i + 1) =~= line@.take(i as int) + seq![c]);
            lemma_encode_concat(line@.take(i as int), seq![c]);
            assert(seq![c].drop_first() =~= Seq::empty());
            assert(encode_utf8(seq![c]) =~= encode_scalar(c as u32)) by {
                reveal_with_fuel(encode_utf8, 2);
            }
            assert(index + encode_scalar(c as u32).len() <= _index_bound);
        }
        index = index + width(c);
    }
    None
}

/// What stands in `line` from word number `n` on.
pub fn from_nth_word<'a>(line: &'a str, n: usize) -> (rest: Option<&'a str>)
    ensures
        match rest {
            Some(rest) => word_place(line@, n as nat) is Some && rest@ == line@.skip(
                word_place(line@, n as nat)->0,
            ),
            None => word_place(line@, n as nat) is None,
        },
{
    match nth_word(line, n) {
        Some(index) => {
            let ghost k = word_place(line@, n as nat)->0;
            proof {
                lemma_word_place(line@, n as nat);
                lemma_encode_prefix(line@, k);
            }
            let (_, rest) = line.split_at(index);
            proof {
                assert(encode_utf8(rest@) =~= encode_utf8(line@.skip(k)));
                encode_utf8_decode_utf8(rest@);
                encode_utf8_decode_utf8(line@.skip(k));
            }
            Some(rest)
        },
        None => None,
    }
}

/// Word number `n`, other than the first, begins behind white space.
pub proof fn law_word_begins_behind_white_space(s: Seq<char>, n: nat)
    requires
        n > 0,
    ensures
        word_place(s, n) matches Some(at) ==> 0 < at < s.len() && foreign::is_white_space(
            s[at - 1],
        ) && !foreign::is_white_space(s[at]),
{
    lemma_word_place(s, n);
    if let Some(at) = word_place(s, n) {
        if at > 0 {
            lemma_starts_grow(s, at - 1);
            lemma_first_place(s, n, at);
        }
    }
}

proof fn lemma_starts_grow(s: Seq<char>, i: int)
    ensures
        word_starts(s, i) <= word_starts(s, i + 1) <= word_starts(s, i) + 1,
{
}

proof fn lemma_first_place(s: Seq<char>, n: nat, at: int)
    requires
        0 < at < s.len(),
        word_starts(s, at) == n,
        forall|i: int| 0 <= i < at ==> word_starts(s, i) != n,
    ensures
        word_starts(s, at - 1) + 1 == n,
{
    assert(word_starts(s, at - 1) != n);
}

/// How many words there are up to a place: those that begin behind white space, and the one at
/// the very start, if there is one.
proof fn lemma_words_up_to(s: Seq<char>, i: int)
    requires
        0 <= i < s.len(),
    ensures
        text::words(s.take(i + 1)).len() == word_starts(s, i) + (if foreign::is_white_space(
            s[0],
        ) {
            0nat
        } else {
            1nat
        }),
    decreases i,
{
    let now = s.take(i + 1);
    let before = s.take(i);
    assert(now.drop_last() =~= before);
    assert(now.last() == s[i]);
    if i > 0 {
        lemma_words_up_to(s, i - 1);
        assert(now[now.len() - 2] == s[i - 1]);
        if !foreign::is_white_space(s[i]) && !foreign::is_white_space(s[i - 1]) {
            assert(before.last() == s[i - 1]);
            text::lemma_words_end(before);
        }
    } else {
        assert(before =~= Seq::empty());
        assert(text::words(before).len() == 0);
    }
}

proof fn lemma_starts_ordered(s: Seq<char>, i: int, j: int)
    requires
        i <= j,
    ensures
        word_starts(s, i) <= word_starts(s, j),
    decreases j - i,
{
    if i < j {
        lemma_starts_ordered(s, i, j - 1);
    }
}

/// The place of a word is where a text is to be cut for that word to come first: of a text that
/// does not begin with white space, the words from number `n` on are left there, and there is
/// such a place exactly if there are so many words.
pub proof fn law_words_from_a_place(s: Seq<char>, n: nat)
    requires
        s.len() > 0,
        !foreign::is_white_space(s[0]),
    ensures
        word_place(s, n) is Some <==> n < text::words(s).len(),
        word_place(s, n) matches Some(at) ==> 0 <= at < s.len() && !foreign::is_white_space(s[at])
            && text::words(s.skip(at)) == text::words(s).skip(n as int),
{
    lemma_word_place(s, n);
    let last = s.len() - 1;
    lemma_words_up_to(s, last);
    assert(s.take(last + 1) =~= s);
    match word_place(s, n) {
        Some(at) => {
            lemma_starts_ordered(s, at, last);
            if n == 0 {
                assert(word_starts(s, 0) == 0);
                assert(at == 0);
                assert(s.skip(0) =~= s);
                assert(text::words(s).skip(0) =~= text::words(s));
            } else {
                law_word_begins_behind_white_space(s, n);
                let front = s.take(at);
                let tail = s.skip(at);
                lemma_words_up_to(s, at - 1);
                lemma_first_place(s, n, at);
                assert(front =~= s.take(at - 1) + seq![s[at - 1]]);
                assert(s =~= s.take(at - 1) + seq![s[at - 1]] + tail);
                text::law_white_space_parts_the_words(s.take(at - 1), s[at - 1], tail);
                assert(front.drop_last() =~= s.take(at - 1));
                assert(text::words(front) == text::words(s.take(at - 1)));
                assert((text::words(front) + text::words(tail)).skip(n as int) =~= text::words(
                    tail,
                ));
            }
        },
        None => {
            if n < text::words(s).len() {
                lemma_every_number_is_met(s, n, last);
            }
        },
    }
}

proof fn lemma_every_number_is_met(s: Seq<char>, n: nat, i: int)
    requires
        0 <= i,
        n <= word_starts(s, i),
    ensures
        exists|j: int| 0 <= j <= i && #[trigger] word_starts(s, j) == n,
    decreases i,
{
    if n == word_starts(s, i) {
    } else {
        lemma_starts_grow(s, i - 1);
        if i > 0 {
            lemma_every_number_is_met(s, n, i - 1);
            let j = choose|j: int| 0 <= j <= i - 1 && #[trigger] word_starts(s, j) == n;
            assert(0 <= j <= i && word_starts(s, j) == n);
        }
    }
}

/// A word that white space sets off from so many words before it has that number: it is found at
/// its place.
pub proof fn law_word_is_found_at_its_place(a: Seq<char>, c: char, b: Seq<char>)
    requires
        a.len() > 0,
        !foreign::is_white_space(a[0]),
        foreign::is_white_space(c),
        b.len() > 0,
        !foreign::is_white_space(b[0]),
    ensures
        word_place(a + seq![c] + b, text::words(a).len()) == Some(a.len() as int + 1),
{
    let s = a + seq![c] + b;
    let p = a.len() as int + 1;
    let n = text::words(a).len();
    assert(s[0] == a[0]);
    assert(s[p - 1] == c);
    assert(s[p] == b[0]);
    lemma_words_up_to(s, p - 1);
    assert(s.take(p) =~= a + seq![c]);
    assert((a + seq![c]).drop_last() =~= a);
    assert(text::words(a + seq![c]) == text::words(a));
    assert(word_starts(s, p - 1) + 1 == n);
    assert(word_starts(s, p) == n);
    lemma_word_place(s, n);
    assert forall|q: int| 0 <= q < p implies word_starts(s, q) != n by {
        lemma_starts_ordered(s, q, p - 1);
    }
    match word_place(s, n) {
        Some(at) => {
            if at > p {
                assert(word_starts(s, p) != n);
            }
        },
        None => {
            assert(word_starts(s, p) != n);
        },
    }
}

/// Of a text that begins with white space, word number 0 is what stands before it, and the words
/// from number `n` on are left at the place of word `n`, counted from 1.
pub proof fn law_words_from_a_place_behind_white_space(s: Seq<char>, n: nat)
    requires
        s.len() > 0,
        foreign::is_white_space(s[0]),
    ensures
        word_place(s, 0) == Some(0int),
        n > 0 ==> (word_place(s, n) is Some <==> n <= text::words(s).len()),
        n > 0 ==> (word_place(s, n) matches Some(at) ==> 0 < at < s.len()
            && !foreign::is_white_space(s[at]) && text::words(s.skip(at)) == text::words(s).skip(
            n - 1,
        )),
{
    assert(word_starts(s, 0) == 0);
    if n > 0 {
        lemma_word_place(s, n);
        let last = s.len() - 1;
        lemma_words_up_to(s, last);
        assert(s.take(last + 1) =~= s);
        match word_place(s, n) {
            Some(at) => {
                lemma_starts_ordered(s, at, last);
                law_word_begins_behind_white_space(s, n);
                let front = s.take(at - 1);
                let tail = s.skip(at);
                lemma_words_up_to(s, at - 1);
                lemma_first_place(s, n, at);
                assert(s.take(at) =~= front + seq![s[at - 1]]);
                assert(s =~= front + seq![s[at - 1]] + tail);
                text::law_white_space_parts_the_words(front, s[at - 1], tail);
                assert(s.take(at).drop_last() =~= front);
                assert(text::words(s.take(at)) == text::words(front));
                assert((text::words(front) + text::words(tail)).skip(n - 1) =~= text::words(tail));
            },
            None => {
                if n <= text::words(s).len() {
                    lemma_every_number_is_met(s, n, last);
                }
            },
        }
    }
}

} // verus!
