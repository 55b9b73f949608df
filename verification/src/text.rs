use vstd::prelude::*;

use crate::foreign;

verus! {

/// The characters of a string.
pub fn chars_of(s: &str) -> (chars: Vec<char>)
    ensures
        chars@ == s@,
{
    let mut chars: Vec<char> = Vec::new();
    for c in it: s.chars()
        invariant
            it.seq() == s@,
            chars@ == s@.take(it.index() as int),
    {
        chars.push(c);
    }
    chars
}

/// The string of a range of characters.
pub fn string_of(chars: &Vec<char>, from: usize, to: usize) -> (s: String)
    requires
        from <= to <= chars@.len(),
    ensures
        s@ == chars@.subrange(from as int, to as int),
{
    let mut s: String = String::new();
    for i in from..to
        invariant
            from <= to <= chars@.len(),
            s@ == chars@.subrange(from as int, i as int),
    {
        s.push(chars[i]);
    }
    s
}

/// Tells whether two strings hold the same characters.
#[verifier::loop_isolation(false)]
pub fn same_text(a: &str, b: &str) -> (same: bool)
    ensures
        same == (a@ == b@),
{
    let x = chars_of(a);
    let y = chars_of(b);
    if x.len() != y.len() {
        return false;
    }
    for i in 0..x.len()
        invariant
            forall|j: int| 0 <= j < i ==> x@[j] == y@[j],
    {
        if x[i] != y[i] {
            assert(a@[i as int] != b@[i as int]);
            return false;
        }
    }
    assert(a@ =~= b@);
    true
}

/// Tells whether a string begins with another one.
#[verifier::loop_isolation(false)]
pub fn starts_with(s: &str, prefix: &str) -> (yes: bool)
    ensures
        yes == prefix@.is_prefix_of(s@),
{
    let x = chars_of(s);
    let y = chars_of(prefix);
    if y.len() > x.len() {
        return false;
    }
    for i in 0..y.len()
        invariant
            forall|j: int| 0 <= j < i ==> x@[j] == y@[j],
    {
        if x[i] != y[i] {
            assert(s@.subrange(0, prefix@.len() as int)[i as int] != prefix@[i as int]);
            return false;
        }
    }
    assert(prefix@ =~= s@.subrange(0, prefix@.len() as int));
    true
}

/// What is left of `s` behind `prefix`, where `s` begins with it.
pub open spec fn stripped(s: Seq<char>, prefix: Seq<char>) -> Option<Seq<char>> {
    if prefix.is_prefix_of(s) {
        Some(s.skip(prefix.len() as int))
    } else {
        None
    }
}

/// Takes a prefix off a string, where the string begins with it.
pub fn strip_prefix(s: &str, prefix: &str) -> (rest: Option<String>)
    ensures
        rest.deep_view() == stripped(s@, prefix@),
{
    if starts_with(s, prefix) {
        let x = chars_of(s);
        let y = chars_of(prefix);
        let rest = string_of(&x, y.len(), x.len());
        assert(rest@ =~= s@.skip(prefix@.len() as int));
        Some(rest)
    } else {
        None
    }
}

/// Tells whether a string begins with a character.
pub fn starts_with_char(s: &str, c: char) -> (yes: bool)
    ensures
        yes == (s@.len() > 0 && s@[0] == c),
{
    let x = chars_of(s);
    x.len() > 0 && x[0] == c
}

/// Tells whether a character occurs in a string.
#[verifier::loop_isolation(false)]
pub fn has_char(s: &str, c: char) -> (yes: bool)
    ensures
        yes == s@.contains(c),
{
    let x = chars_of(s);
    for i in 0..x.len()
        invariant
            forall|j: int| 0 <= j < i ==> x@[j] != c,
    {
        if x[i] == c {
            assert(s@[i as int] == c);
            return true;
        }
    }
    false
}

/// `s` without the `c`s at its start.
pub open spec fn trimmed_start(s: Seq<char>, c: char) -> Seq<char>
    decreases s.len(),
{
    if s.len() > 0 && s[0] == c {
        trimmed_start(s.drop_first(), c)
    } else {
        s
    }
}

/// Takes every `c` off the start of a string.
#[verifier::loop_isolation(false)]
pub fn trim_start(s: &str, c: char) -> (rest: String)
    ensures
        rest@ == trimmed_start(s@, c),
{
    let x = chars_of(s);
    let mut i: usize = 0;
    assert(s@.skip(0) =~= s@);
    while i < x.len() && x[i] == c
        invariant
            i <= x@.len(),
            trimmed_start(s@.skip(i as int), c) == trimmed_start(s@, c),
        decreases x@.len() - i,
    {
        assert(s@.skip(i as int).drop_first() =~= s@.skip(i + 1));
        i = i + 1;
    }
    let rest = string_of(&x, i, x.len());
    assert(rest@ =~= s@.skip(i as int));
    rest
}

/// The first place at which `c` stands in `s`, or the length of `s` where there is none.
pub open spec fn place_of<A>(s: Seq<A>, c: A) -> nat
    decreases s.len(),
{
    if s.len() == 0 || s[0] == c {
        0
    } else {
        1 + place_of(s.drop_first(), c)
    }
}

/// What `place_of` finds.
pub proof fn lemma_place_of<A>(s: Seq<A>, c: A)
    ensures
        place_of(s, c) <= s.len(),
        place_of(s, c) < s.len() ==> s[place_of(s, c) as int] == c,
        forall|i: int| 0 <= i < place_of(s, c) ==> s[i] != c,
    decreases s.len(),
{
    if s.len() > 0 && s[0] != c {
        let rest = s.drop_first();
        lemma_place_of(rest, c);
        assert forall|i: int| 0 <= i < place_of(s, c) implies s[i] != c by {
            if i > 0 {
                assert(rest[i - 1] != c);
            }
        }
    }
}

/// The two sides of the first `c` in `s`.
pub open spec fn halves(s: Seq<char>, c: char) -> Option<(Seq<char>, Seq<char>)> {
    let at = place_of(s, c) as int;
    if at < s.len() {
        Some((s.take(at), s.skip(at + 1)))
    } else {
        None
    }
}

/// Splits a string at the first `c`.
#[verifier::loop_isolation(false)]
pub fn split_once(s: &str, c: char) -> (parts: Option<(String, String)>)
    ensures
        parts.deep_view() == halves(s@, c),
{
    let x = chars_of(s);
    let mut i: usize = 0;
    assert(s@.skip(0) =~= s@);
    while i < x.len() && x[i] != c
        invariant
            i <= x@.len(),
            place_of(s@, c) == i + place_of(s@.skip(i as int), c),
        decreases x@.len() - i,
    {
        assert(s@.skip(i as int).drop_first() =~= s@.skip(i + 1));
        i = i + 1;
    }
    if i < x.len() {
        let before = string_of(&x, 0, i);
        let after = string_of(&x, i + 1, x.len());
        assert(before@ =~= s@.take(i as int));
        assert(after@ =~= s@.skip(i + 1));
        Some((before, after))
    } else {
        None
    }
}

/// The pieces of `s` between its `sep`s: one more than there are `sep`s.
pub open spec fn pieces(s: Seq<char>, sep: char) -> Seq<Seq<char>>
    decreases s.len(),
{
    if s.len() == 0 {
        seq![Seq::empty()]
    } else {
        let before = pieces(s.drop_last(), sep);
        if s.last() == sep {
            before.push(Seq::empty())
        } else {
            before.drop_last().push(before.last().push(s.last()))
        }
    }
}

proof fn lemma_pieces_nonempty(s: Seq<char>, sep: char)
    ensures
        pieces(s, sep).len() > 0,
    decreases s.len(),
{
    if s.len() > 0 {
        lemma_pieces_nonempty(s.drop_last(), sep);
    }
}

/// Splits a string at every `sep`.
#[verifier::loop_isolation(false)]
pub fn split_at_char(s: &str, sep: char) -> (parts: Vec<String>)
    ensures
        parts.deep_view() == pieces(s@, sep),
        parts@.len() > 0,
{
    let x = chars_of(s);
    let mut parts: Vec<String> = Vec::new();
    let mut current: String = String::new();
    assert(parts.deep_view().push(current@) =~= pieces(s@.take(0), sep));
    for i in 0..x.len()
        invariant
            parts.deep_view().push(current@) == pieces(s@.take(i as int), sep),
    {
        let ghost before = parts.deep_view().push(current@);
        let ghost done = parts.deep_view();
        let ghost word = current@;
        proof {
            assert(s@.take(i + 1).drop_last() =~= s@.take(i as int));
            assert(s@.take(i + 1).last() == x@[i as int]);
            lemma_pieces_nonempty(s@.take(i as int), sep);
            assert(before.drop_last() =~= done);
            assert(before.last() == word);
        }
        if x[i] == sep {
            parts.push(current);
            current = String::new();
            assert(parts.deep_view() =~= before);
            assert(current@ =~= Seq::empty());
        } else {
            current.push(x[i]);
        }
    }
    assert(s@.take(s@.len() as int) =~= s@);
    let ghost whole = parts.deep_view().push(current@);
    parts.push(current);
    assert(parts.deep_view() =~= whole);
    parts
}

/// The words of `s`: what stands between its white space.
pub open spec fn words(s: Seq<char>) -> Seq<Seq<char>>
    decreases s.len(),
{
    if s.len() == 0 {
        Seq::empty()
    } else {
        let before = words(s.drop_last());
        if foreign::is_white_space(s.last()) {
            before
        } else if s.len() == 1 || foreign::is_white_space(s[s.len() - 2]) {
            before.push(seq![s.last()])
        } else {
            before.drop_last().push(before.last().push(s.last()))
        }
    }
}

/// A string that ends in a word has a word.
pub proof fn lemma_words_end(s: Seq<char>)
    requires
        s.len() > 0,
        !foreign::is_white_space(s.last()),
    ensures
        words(s).len() > 0,
        words(s).last().len() > 0,
    decreases s.len(),
{
    if s.len() > 1 && !foreign::is_white_space(s[s.len() - 2]) {
        lemma_words_end(s.drop_last());
    }
}

/// Splits a string at its white space.
#[verifier::loop_isolation(false)]
pub fn split_words(s: &str) -> (parts: Vec<String>)
    ensures
        parts.deep_view() == words(s@),
{
    let x = chars_of(s);
    let mut parts: Vec<String> = Vec::new();
    let mut current: String = String::new();
    let mut inside: bool = false;
    assert(parts.deep_view() =~= words(s@.take(0)));
    for i in 0..x.len()
        invariant
            inside == (i > 0 && !foreign::is_white_space(x@[i - 1])),
            inside ==> parts.deep_view().push(current@) == words(s@.take(i as int)),
            !inside ==> parts.deep_view() == words(s@.take(i as int)),
            !inside ==> current@.len() == 0,
    {
        let ghost done = parts.deep_view();
        let ghost word = current@;
        let ghost now = s@.take(i + 1);
        proof {
            assert(now.drop_last() =~= s@.take(i as int));
            assert(now.last() == x@[i as int]);
            assert(done.push(word).drop_last() =~= done);
            if i > 0 {
                assert(now[now.len() - 2] == x@[i - 1]);
            }
        }
        if x[i].is_whitespace() {
            if inside {
                parts.push(current);
                current = String::new();
                assert(parts.deep_view() =~= done.push(word));
            }
            inside = false;
        } else {
            current.push(x[i]);
            if !inside {
                assert(current@ =~= seq![x@[i as int]]);
            }
            inside = true;
        }
    }
    assert(s@.take(s@.len() as int) =~= s@);
    if inside {
        let ghost whole = parts.deep_view().push(current@);
        parts.push(current);
        assert(parts.deep_view() =~= whole);
    }
    parts
}

/// The word that is being typed at the end of `s`: nothing behind white space.
pub open spec fn last_word(s: Seq<char>) -> Seq<char> {
    if s.len() == 0 || foreign::is_white_space(s.last()) {
        Seq::empty()
    } else {
        words(s).last()
    }
}

/// `parts`, one behind the other, with `sep` between each two of them.
pub open spec fn joined(parts: Seq<Seq<char>>, sep: Seq<char>) -> Seq<char>
    decreases parts.len(),
{
    if parts.len() == 0 {
        Seq::empty()
    } else if parts.len() == 1 {
        parts[0]
    } else {
        joined(parts.drop_last(), sep) + sep + parts.last()
    }
}

/// Joins strings with `sep` between each two of them.
#[verifier::loop_isolation(false)]
pub fn join(parts: &Vec<String>, sep: &str) -> (s: String)
    ensures
        s@ == joined(parts.deep_view(), sep@),
{
    let mut s: String = String::new();
    let ghost texts = parts.deep_view();
    for i in 0..parts.len()
        invariant
            s@ == joined(texts.take(i as int), sep@),
    {
        proof {
            assert(texts.take(i + 1).drop_last() =~= texts.take(i as int));
            assert(texts.take(i + 1).last() == parts@[i as int]@);
        }
        if i > 0 {
            s.append(sep);
        }
        s.append(parts[i].as_str());
        if i == 0 {
            assert(s@ =~= parts@[0]@);
        }
    }
    assert(texts.take(texts.len() as int) =~= texts);
    s
}

/// `texts`, one behind the other.
pub open spec fn concatenated(texts: Seq<Seq<char>>) -> Seq<char>
    decreases texts.len(),
{
    if texts.len() == 0 {
        Seq::empty()
    } else {
        concatenated(texts.drop_last()) + texts.last()
    }
}

/// One text more at the end of a concatenation.
pub proof fn lemma_concatenated_push(texts: Seq<Seq<char>>, text: Seq<char>)
    ensures
        concatenated(texts.push(text)) == concatenated(texts) + text,
{
    assert(texts.push(text).drop_last() =~= texts);
}

/// Those of `texts` that begin with `part`.
pub open spec fn with_prefix(texts: Seq<Seq<char>>, part: Seq<char>) -> Seq<Seq<char>> {
    texts.filter(|text: Seq<char>| part.is_prefix_of(text))
}

/// Keeps the strings that begin with `part`.
#[verifier::loop_isolation(false)]
pub fn keep_with_prefix(texts: &Vec<String>, part: &str) -> (kept: Vec<String>)
    ensures
        kept.deep_view() == with_prefix(texts.deep_view(), part@),
{
    let mut kept: Vec<String> = Vec::new();
    let ghost all = texts.deep_view();
    let ghost wanted = |text: Seq<char>| part@.is_prefix_of(text);
    assert(kept.deep_view() =~= all.take(0).filter(wanted)) by {
        reveal(Seq::filter);
    }
    for i in 0..texts.len()
        invariant
            kept.deep_view() == all.take(i as int).filter(wanted),
    {
        proof {
            reveal(Seq::filter);
            assert(all.take(i + 1).drop_last() =~= all.take(i as int));
            assert(all.take(i + 1).last() == texts@[i as int]@);
        }
        if starts_with(texts[i].as_str(), part) {
            let ghost before = kept.deep_view();
            kept.push(texts[i].clone());
            assert(kept.deep_view() =~= before.push(texts@[i as int]@));
        }
    }
    assert(all.take(all.len() as int) =~= all);
    kept
}

/// `texts` with `prefix` before each.
pub open spec fn prefixed(texts: Seq<Seq<char>>, prefix: Seq<char>) -> Seq<Seq<char>> {
    texts.map_values(|text: Seq<char>| prefix + text)
}

/// Puts `prefix` before each string.
#[verifier::loop_isolation(false)]
pub fn prefix_all(texts: &Vec<String>, prefix: &str) -> (out: Vec<String>)
    ensures
        out.deep_view() == prefixed(texts.deep_view(), prefix@),
{
    let mut out: Vec<String> = Vec::new();
    for i in 0..texts.len()
        invariant
            out@.len() == i,
            forall|j: int| 0 <= j < i ==> (#[trigger] out@[j])@ == prefix@ + texts@[j]@,
    {
        let mut s: String = prefix.to_owned();
        s.append(texts[i].as_str());
        out.push(s);
    }
    assert(out.deep_view() =~= prefixed(texts.deep_view(), prefix@));
    out
}

/// The string of one character.
pub fn char_string(c: char) -> (s: String)
    ensures
        s@ == seq![c],
{
    let mut s: String = String::new();
    s.push(c);
    assert(s@ =~= seq![c]);
    s
}

/// What is left of a sequence by a condition: those of its items that meet it.
pub proof fn lemma_filter<A>(items: Seq<A>, wanted: spec_fn(A) -> bool, item: A)
    ensures
        items.filter(wanted).contains(item) <==> items.contains(item) && wanted(item),
    decreases items.len(),
{
    reveal(Seq::filter);
    if items.len() > 0 {
        let before = items.drop_last();
        let last = items.last();
        lemma_filter(before, wanted, item);
        if before.contains(item) {
            let i = before.index_of(item);
            assert(items[i] == item);
        }
        if items.contains(item) && item != last {
            let i = items.index_of(item);
            assert(before[i] == item);
        }
        let kept = before.filter(wanted);
        if wanted(last) {
            assert(kept.push(last)[kept.len() as int] == last);
            assert(items[items.len() - 1] == last);
            if kept.contains(item) {
                let i = kept.index_of(item);
                assert(kept.push(last)[i] == item);
            }
            if kept.push(last).contains(item) && item != last {
                let i = kept.push(last).index_of(item);
                assert(kept[i] == item);
            }
        }
    }
}

/// The texts that begin with `part` are kept, and no others.
pub proof fn law_with_prefix(texts: Seq<Seq<char>>, part: Seq<char>, text: Seq<char>)
    ensures
        with_prefix(texts, part).contains(text) <==> texts.contains(text) && part.is_prefix_of(
            text,
        ),
{
    lemma_filter(texts, |text: Seq<char>| part.is_prefix_of(text), text);
}

/// The pieces of a text, joined by what separated them, are the text.
pub proof fn law_pieces_join_up(s: Seq<char>, sep: char)
    ensures
        joined(pieces(s, sep), seq![sep]) == s,
    decreases s.len(),
{
    if s.len() == 0 {
        assert(s =~= Seq::empty());
        assert(pieces(s, sep) =~= seq![s]);
    } else {
        let init = s.drop_last();
        let before = pieces(init, sep);
        law_pieces_join_up(init, sep);
        lemma_pieces_nonempty(init, sep);
        if s.last() == sep {
            let now = before.push(Seq::empty());
            assert(now.drop_last() =~= before);
            assert(joined(now, seq![sep]) =~= s);
        } else {
            let longer = before.last().push(s.last());
            let now = before.drop_last().push(longer);
            assert(now.drop_last() =~= before.drop_last());
            if before.len() > 1 {
                assert(joined(now, seq![sep]) =~= joined(before, seq![sep]).push(s.last()));
            } else {
                assert(before =~= seq![before.last()]);
                assert(now =~= seq![longer]);
            }
            assert(init.push(s.last()) =~= s);
        }
    }
}

/// A text without white space is one word.
pub proof fn lemma_one_word(s: Seq<char>)
    requires
        s.len() > 0,
        forall|i: int| 0 <= i < s.len() ==> !foreign::is_white_space(#[trigger] s[i]),
    ensures
        words(s) == seq![s],
    decreases s.len(),
{
    let init = s.drop_last();
    if init.len() > 0 {
        assert forall|i: int| 0 <= i < init.len() implies !foreign::is_white_space(
            #[trigger] init[i],
        ) by {
            assert(init[i] == s[i]);
        }
        lemma_one_word(init);
        assert(seq![init].drop_last() =~= Seq::empty());
        assert(init.push(s.last()) =~= s);
        assert(words(s) =~= seq![s]);
    } else {
        assert(words(init) =~= Seq::empty());
        assert(seq![s.last()] =~= s);
        assert(words(s) =~= seq![s]);
    }
}

/// The word at the end of a text is the word at the end of what stands behind any white space
/// in it.
pub proof fn lemma_last_word_behind(s: Seq<char>, at: int)
    requires
        0 < at < s.len(),
        foreign::is_white_space(s[at - 1]),
    ensures
        last_word(s.skip(at)) == last_word(s),
{
    if !foreign::is_white_space(s.last()) {
        lemma_words_behind(s, at);
        lemma_words_end(s);
        lemma_words_end(s.skip(at));
    }
}

proof fn lemma_words_behind(s: Seq<char>, at: int)
    requires
        0 < at < s.len(),
        foreign::is_white_space(s[at - 1]),
    ensures
        words(s) == words(s.take(at)) + words(s.skip(at)),
    decreases s.len(),
{
    let front = words(s.take(at));
    let tail = s.skip(at);
    let init = s.drop_last();
    if at < init.len() {
        lemma_words_behind(init, at);
        assert(init.take(at) =~= s.take(at));
        assert(init.skip(at) =~= tail.drop_last());
        assert(tail.len() >= 2);
        assert(tail[tail.len() - 2] == s[s.len() - 2]);
        let before = words(tail.drop_last());
        if !foreign::is_white_space(s.last()) && !foreign::is_white_space(s[s.len() - 2]) {
            lemma_words_end(tail.drop_last());
            assert((front + before).drop_last() =~= front + before.drop_last());
        }
        assert(words(s) =~= front + words(tail));
    } else {
        assert(init =~= s.take(at));
        assert(tail =~= seq![s.last()]);
        assert(tail.drop_last() =~= Seq::empty());
        assert(words(tail.drop_last()) =~= Seq::empty());
        assert(s[s.len() - 2] == s[at - 1]);
        assert(words(s) =~= front + words(tail));
    }
}

/// A prefix is taken off exactly the texts that are made of it and what is left.
pub proof fn law_strip_takes_the_prefix_off(s: Seq<char>, prefix: Seq<char>, rest: Seq<char>)
    ensures
        stripped(s, prefix) == Some(rest) <==> s == prefix + rest,
{
    if s == prefix + rest {
        assert(prefix =~= s.subrange(0, prefix.len() as int));
        assert(s.skip(prefix.len() as int) =~= rest);
    }
    if prefix.is_prefix_of(s) {
        assert(s =~= prefix + s.skip(prefix.len() as int));
    }
}

/// However many `c`s stand before a text that does not begin with one, that text is left.
pub proof fn law_trim_leaves_the_rest(c: char, n: nat, rest: Seq<char>)
    requires
        rest.len() == 0 || rest[0] != c,
    ensures
        trimmed_start(Seq::new(n, |i: int| c) + rest, c) == rest,
    decreases n,
{
    let s = Seq::new(n, |i: int| c) + rest;
    if n > 0 {
        law_trim_leaves_the_rest(c, (n - 1) as nat, rest);
        assert(s.drop_first() =~= Seq::new((n - 1) as nat, |i: int| c) + rest);
    } else {
        assert(s =~= rest);
    }
}

/// A text falls into two halves exactly where it is made of them with the first `c` between
/// them, and into none where no `c` is in it.
pub proof fn law_halves_lie_around_the_first(
    s: Seq<char>,
    c: char,
    before: Seq<char>,
    after: Seq<char>,
)
    ensures
        halves(s, c) == Some((before, after)) <==> s == before + seq![c] + after
            && !before.contains(c),
        halves(s, c) is None <==> !s.contains(c),
{
    lemma_place_of(s, c);
    let at = place_of(s, c) as int;
    if s == before + seq![c] + after && !before.contains(c) {
        let n = before.len() as int;
        assert(s[n] == c);
        assert(at <= n);
        if at < n {
            assert(before[at] == c);
        }
        assert(s.take(n) =~= before);
        assert(s.skip(n + 1) =~= after);
    }
    if at < s.len() {
        assert(s =~= s.take(at) + seq![c] + s.skip(at + 1));
        assert forall|i: int| 0 <= i < at implies s.take(at)[i] != c by {
            assert(s.take(at)[i] == s[i]);
        }
    }
}

/// A separator parts the pieces on its two sides, and a text without one is one piece.
pub proof fn law_separator_parts_the_pieces(a: Seq<char>, sep: char, b: Seq<char>)
    ensures
        pieces(a + seq![sep] + b, sep) == pieces(a, sep) + pieces(b, sep),
        !a.contains(sep) ==> pieces(a, sep) == seq![a],
    decreases a.len() + b.len(),
{
    let s = a + seq![sep] + b;
    if b.len() == 0 {
        assert(s.drop_last() =~= a);
        assert(pieces(b, sep) =~= seq![Seq::empty()]);
        assert(pieces(s, sep) =~= pieces(a, sep) + pieces(b, sep));
        if !a.contains(sep) && a.len() > 0 {
            let init = a.drop_last();
            assert(!init.contains(sep)) by {
                if init.contains(sep) {
                    assert(a[init.index_of(sep)] == sep);
                }
            }
            assert(a[a.len() - 1] != sep);
            law_separator_parts_the_pieces(init, sep, b);
            assert(init.push(a.last()) =~= a);
            assert(pieces(a, sep) =~= seq![a]);
        } else if a.len() == 0 {
            assert(a =~= Seq::empty());
            assert(pieces(a, sep) =~= seq![a]);
        }
    } else {
        let init = b.drop_last();
        law_separator_parts_the_pieces(a, sep, init);
        assert(s.drop_last() =~= a + seq![sep] + init);
        lemma_pieces_nonempty(init, sep);
        let before = pieces(a, sep) + pieces(init, sep);
        assert(before.drop_last() =~= pieces(a, sep) + pieces(init, sep).drop_last());
        assert(pieces(s, sep) =~= pieces(a, sep) + pieces(b, sep));
    }
}

/// No piece holds a separator, and there is one piece at least.
pub proof fn law_pieces_hold_no_separator(s: Seq<char>, sep: char, i: int)
    requires
        0 <= i < pieces(s, sep).len(),
    ensures
        !pieces(s, sep)[i].contains(sep),
    decreases s.len(),
{
    if s.len() > 0 {
        let before = pieces(s.drop_last(), sep);
        lemma_pieces_nonempty(s.drop_last(), sep);
        if s.last() == sep {
            if i < before.len() {
                law_pieces_hold_no_separator(s.drop_last(), sep, i);
            }
        } else {
            law_pieces_hold_no_separator(s.drop_last(), sep, i);
            if i == before.len() - 1 {
                let longer = before.last().push(s.last());
                assert(pieces(s, sep)[i] == longer);
                if longer.contains(sep) {
                    let j = longer.index_of(sep);
                    assert(before.last()[j] == sep);
                }
            }
        }
    }
}

/// What is joined stands one behind the other, with the separator between two of them and
/// nothing else.
pub proof fn law_joined_in_order(a: Seq<Seq<char>>, b: Seq<Seq<char>>, sep: Seq<char>, x: Seq<char>)
    ensures
        joined(Seq::<Seq<char>>::empty(), sep) == Seq::<char>::empty(),
        joined(seq![x], sep) == x,
        a.len() > 0 && b.len() > 0 ==> joined(a + b, sep) == joined(a, sep) + sep + joined(b, sep),
    decreases b.len(),
{
    if a.len() > 0 && b.len() > 0 {
        assert((a + b).drop_last() =~= a + b.drop_last());
        assert((a + b).last() == b.last());
        if b.len() == 1 {
            assert(a + b.drop_last() =~= a);
        } else {
            law_joined_in_order(a, b.drop_last(), sep, x);
        }
        assert(joined(a + b, sep) =~= joined(a, sep) + sep + joined(b, sep));
    }
}

/// Joining texts that hold no separator and taking the result apart gives them back.
pub proof fn law_joined_pieces_come_back(parts: Seq<Seq<char>>, sep: char)
    requires
        parts.len() > 0,
        forall|i: int| 0 <= i < parts.len() ==> !(#[trigger] parts[i]).contains(sep),
    ensures
        pieces(joined(parts, seq![sep]), sep) == parts,
    decreases parts.len(),
{
    if parts.len() == 1 {
        assert(!parts[0].contains(sep));
        law_separator_parts_the_pieces(parts[0], sep, Seq::empty());
        assert(parts =~= seq![parts[0]]);
    } else {
        let init = parts.drop_last();
        assert forall|i: int| 0 <= i < init.len() implies !(#[trigger] init[i]).contains(sep) by {
            assert(!parts[i].contains(sep));
        }
        law_joined_pieces_come_back(init, sep);
        assert(!parts[parts.len() - 1].contains(sep));
        law_separator_parts_the_pieces(joined(init, seq![sep]), sep, parts.last());
        law_separator_parts_the_pieces(parts.last(), sep, Seq::empty());
        assert(init + seq![parts.last()] =~= parts);
    }
}

/// White space parts the words on its two sides, and a text without any is one word.
pub proof fn law_white_space_parts_the_words(a: Seq<char>, c: char, b: Seq<char>)
    requires
        foreign::is_white_space(c),
    ensures
        words(a + seq![c] + b) == words(a) + words(b),
        words(Seq::<char>::empty()) == Seq::<Seq<char>>::empty(),
        a.len() > 0 && (forall|i: int|
            0 <= i < a.len() ==> !foreign::is_white_space(#[trigger] a[i])) ==> words(a)
            == seq![a],
{
    let s = a + seq![c] + b;
    let n = a.len() as int;
    let front = a + seq![c];
    assert(front.drop_last() =~= a);
    assert(words(front) == words(a));
    if b.len() > 0 {
        assert(s[n] == c);
        lemma_words_behind(s, n + 1);
        assert(s.take(n + 1) =~= front);
        assert(s.skip(n + 1) =~= b);
    } else {
        assert(s =~= front);
        assert(b =~= Seq::empty());
        assert(words(a) + words(b) =~= words(a));
    }
    if a.len() > 0 && (forall|i: int|
        0 <= i < a.len() ==> !foreign::is_white_space(#[trigger] a[i])) {
        lemma_one_word(a);
    }
}

/// The word that is being typed is what stands behind the last white space.
pub proof fn law_last_word_stands_behind_white_space(a: Seq<char>, c: char, w: Seq<char>)
    requires
        foreign::is_white_space(c),
        forall|i: int| 0 <= i < w.len() ==> !foreign::is_white_space(#[trigger] w[i]),
    ensures
        last_word(w) == w,
        last_word(a + seq![c] + w) == w,
{
    let s = a + seq![c] + w;
    law_white_space_parts_the_words(a, c, w);
    if w.len() > 0 {
        assert(!foreign::is_white_space(w[w.len() - 1]));
        assert(s.last() == w.last());
        lemma_one_word(w);
        assert((words(a) + seq![w]).last() == w);
    } else {
        assert(s.last() == c);
        assert(w =~= Seq::empty());
    }
}

/// Texts are put one behind the other and nothing comes between them.
pub proof fn law_concatenated_in_order(a: Seq<Seq<char>>, b: Seq<Seq<char>>, x: Seq<char>)
    ensures
        concatenated(Seq::<Seq<char>>::empty()) == Seq::<char>::empty(),
        concatenated(seq![x]) == x,
        concatenated(a + b) == concatenated(a) + concatenated(b),
    decreases b.len(),
{
    assert(seq![x].drop_last() =~= Seq::empty());
    assert(concatenated(seq![x].drop_last()) =~= Seq::empty());
    assert(concatenated(seq![x]) =~= x);
    if b.len() > 0 {
        law_concatenated_in_order(a, b.drop_last(), x);
        assert((a + b).drop_last() =~= a + b.drop_last());
        assert(concatenated(a + b) =~= concatenated(a) + concatenated(b));
    } else {
        assert(a + b =~= a);
        assert(concatenated(a + b) =~= concatenated(a) + concatenated(b));
    }
}

/// What is kept stays in its order, as often as it occurs.
pub proof fn law_with_prefix_in_order(
    a: Seq<Seq<char>>,
    b: Seq<Seq<char>>,
    part: Seq<char>,
    x: Seq<char>,
)
    ensures
        with_prefix(a + b, part) == with_prefix(a, part) + with_prefix(b, part),
        part.is_prefix_of(x) ==> with_prefix(seq![x], part) == seq![x],
        !part.is_prefix_of(x) ==> with_prefix(seq![x], part) == Seq::<Seq<char>>::empty(),
        with_prefix(Seq::<Seq<char>>::empty(), part) == Seq::<Seq<char>>::empty(),
{
    let wanted = |text: Seq<char>| part.is_prefix_of(text);
    Seq::filter_distributes_over_add(a, b, wanted);
    lemma_filter_one(x, wanted);
}

/// What a condition leaves of nothing and of one item.
pub proof fn lemma_filter_one<A>(x: A, wanted: spec_fn(A) -> bool)
    ensures
        Seq::<A>::empty().filter(wanted) == Seq::<A>::empty(),
        seq![x].filter(wanted) == (if wanted(x) {
            seq![x]
        } else {
            Seq::<A>::empty()
        }),
{
    reveal(Seq::filter);
    assert(seq![x].drop_last() =~= Seq::<A>::empty());
    assert(Seq::<A>::empty().filter(wanted) =~= Seq::<A>::empty());
    assert(Seq::<A>::empty().push(x) =~= seq![x]);
}

/// The prefix comes directly before each text.
pub proof fn law_prefix_comes_first(texts: Seq<Seq<char>>, prefix: Seq<char>, i: int)
    ensures
        prefixed(texts, prefix).len() == texts.len(),
        0 <= i < texts.len() ==> prefixed(texts, prefix)[i] == prefix + texts[i],
{
}

} // verus!
