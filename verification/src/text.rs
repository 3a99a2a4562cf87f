//! Characters, whitespace and whitespace-separated words.
//!
//! Chat text is modelled as `Seq<char>`. A word is a maximal run of
//! characters that are not whitespace; [`split_whitespace`] lists the words of
//! a text from left to right and [`join_spaced`] writes words back with single
//! spaces between them.

use vstd::prelude::*;
use vstd::std_specs::iter::IteratorSpec;

verus! {

/// Whether `c` carries the Unicode property `White_Space`.
pub open spec fn is_whitespace(c: char) -> bool {
    let n = c as u32;
    ||| 0x09 <= n <= 0x0d
    ||| n == 0x20
    ||| n == 0x85
    ||| n == 0xa0
    ||| n == 0x1680
    ||| 0x2000 <= n <= 0x200a
    ||| n == 0x2028
    ||| n == 0x2029
    ||| n == 0x202f
    ||| n == 0x205f
    ||| n == 0x3000
}

/// A word: at least one character, none of them whitespace.
pub open spec fn is_word(w: Seq<char>) -> bool {
    &&& w.len() > 0
    &&& forall|i: int| 0 <= i < w.len() ==> !is_whitespace(#[trigger] w[i])
}

/// The words of `s`, left to right.
///
/// Read character by character: whitespace contributes nothing, a character
/// that follows another word character extends the last word, and any other
/// character opens a new word.
pub open spec fn split_whitespace(s: Seq<char>) -> Seq<Seq<char>>
    decreases s.len(),
{
    if s.len() == 0 {
        Seq::empty()
    } else {
        let before = split_whitespace(s.drop_last());
        if is_whitespace(s.last()) {
            before
        } else if s.len() >= 2 && !is_whitespace(s[s.len() - 2]) {
            before.drop_last().push(before.last().push(s.last()))
        } else {
            before.push(seq![s.last()])
        }
    }
}

/// `words` written one after another, neighbours separated by one space.
pub open spec fn join_spaced(words: Seq<Seq<char>>) -> Seq<char>
    decreases words.len(),
{
    if words.len() == 0 {
        Seq::empty()
    } else if words.len() == 1 {
        words[0]
    } else {
        join_spaced(words.drop_last()) + seq![' '] + words.last()
    }
}

/// The texts held by a sequence of strings.
pub open spec fn texts(strings: Seq<String>) -> Seq<Seq<char>> {
    Seq::new(strings.len(), |i: int| strings[i]@)
}

/// Decides [`is_whitespace`].
pub fn char_is_whitespace(c: char) -> (b: bool)
    ensures
        b == is_whitespace(c),
{
    let n: u32 = c as u32;
    (0x09 <= n && n <= 0x0d) || n == 0x20 || n == 0x85 || n == 0xa0 || n == 0x1680 || (0x2000 <= n
        && n <= 0x200a) || n == 0x2028 || n == 0x2029 || n == 0x202f || n == 0x205f || n == 0x3000
}

/// The characters of `text`, in order.
pub fn to_chars(text: &str) -> (chars: Vec<char>)
    ensures
        chars@ == text@,
{
    let mut chars: Vec<char> = Vec::new();
    for c in it: text.chars()
        invariant
            chars@ == it.seq().take(it.index() as int),
            it.seq() == text@,
    {
        chars.push(c);
    }
    chars
}

/// Whether two string slices hold the same text.
pub fn same_text(a: &str, b: &str) -> (same: bool)
    ensures
        same == (a@ == b@),
{
    let x = to_chars(a);
    let y = to_chars(b);
    if x.len() != y.len() {
        return false;
    }
    let mut i: usize = 0;
    while i < x.len()
        invariant
            i <= x.len(),
            x.len() == y.len(),
            x@ == a@,
            y@ == b@,
            x@.take(i as int) == y@.take(i as int),
        decreases x.len() - i,
    {
        if x[i] != y[i] {
            return false;
        }
        assert(x@.take(i + 1) == x@.take(i as int).push(x@[i as int]));
        assert(y@.take(i + 1) == y@.take(i as int).push(y@[i as int]));
        i += 1;
    }
    assert(x@ == x@.take(i as int));
    assert(y@ == y@.take(i as int));
    true
}

/// Splits `text` into its words.
pub fn words(text: &str) -> (found: Vec<String>)
    ensures
        texts(found@) == split_whitespace(text@),
{
    let chars = to_chars(text);
    let n = chars.len();
    let mut found: Vec<String> = Vec::new();
    let mut start: usize = 0;
    let mut inside = false;
    let mut i: usize = 0;
    assert(text@.take(0) == Seq::<char>::empty());
    assert(texts(found@) == Seq::<Seq<char>>::empty());
    while i < n
        invariant
            i <= n,
            n == chars.len(),
            chars@ == text@,
            inside ==> start < i && !is_whitespace(chars[i - 1]),
            !inside ==> i == 0 || is_whitespace(chars[i - 1]),
            split_whitespace(text@.take(i as int)) == if inside {
                texts(found@).push(text@.subrange(start as int, i as int))
            } else {
                texts(found@)
            },
        decreases n - i,
    {
        let c = chars[i];
        let ghost prefix = text@.take(i + 1);
        let ghost before = texts(found@);
        assert(prefix.drop_last() == text@.take(i as int));
        assert(prefix.last() == c);
        if char_is_whitespace(c) {
            if inside {
                let word = text.substring_char(start, i).to_owned();
                found.push(word);
                inside = false;
                assert(texts(found@) == before.push(text@.subrange(start as int, i as int)));
            }
        } else if !inside {
            start = i;
            inside = true;
            assert(text@.subrange(i as int, i + 1) == seq![c]);
        } else {
            let ghost open = text@.subrange(start as int, i as int);
            assert(prefix[prefix.len() - 2] == chars[i - 1]);
            assert(before.push(open).drop_last() == before);
            assert(open.push(c) == text@.subrange(start as int, i + 1));
        }
        i += 1;
    }
    assert(text@.take(n as int) == text@);
    if inside {
        let ghost before = texts(found@);
        let word = text.substring_char(start, n).to_owned();
        found.push(word);
        assert(texts(found@) == before.push(text@.subrange(start as int, n as int)));
    }
    found
}

/// Writes `words` one after another with single spaces between them.
pub fn join(words: &[String]) -> (joined: String)
    ensures
        joined@ == join_spaced(texts(words@)),
{
    let mut joined = String::new();
    let mut i: usize = 0;
    let ghost all = texts(words@);
    assert(all.take(0) == Seq::<Seq<char>>::empty());
    while i < words.len()
        invariant
            i <= words.len(),
            all == texts(words@),
            joined@ == join_spaced(all.take(i as int)),
        decreases words.len() - i,
    {
        let ghost next = all.take(i + 1);
        assert(next.drop_last() == all.take(i as int));
        assert(next.last() == words[i as int]@);
        if i > 0 {
            proof {
                reveal_strlit(" ");
            }
            joined.append(" ");
            assert(" "@ == seq![' ']);
        }
        joined.append(words[i].as_str());
        i += 1;
    }
    assert(all.take(words.len() as int) == all);
    joined
}

/// Every item that [`split_whitespace`] yields is a word, and a text that
/// ends in a character of a word has at least one.
pub proof fn law_split_yields_words(s: Seq<char>)
    ensures
        forall|k: int| 0 <= k < split_whitespace(s).len() ==> is_word(#[trigger] split_whitespace(s)[k]),
        s.len() > 0 && !is_whitespace(s.last()) ==> split_whitespace(s).len() > 0,
    decreases s.len(),
{
    if s.len() > 0 {
        law_split_yields_words(s.drop_last());
        let before = split_whitespace(s.drop_last());
        if !is_whitespace(s.last()) && s.len() >= 2 && !is_whitespace(s[s.len() - 2]) {
            assert(s.drop_last().last() == s[s.len() - 2]);
            assert(is_word(before.last()));
        }
    }
}

/// A word on its own splits into itself.
pub proof fn lemma_split_single_word(w: Seq<char>)
    requires
        is_word(w),
    ensures
        split_whitespace(w) == seq![w],
    decreases w.len(),
{
    let init = w.drop_last();
    let last = w[w.len() - 1];
    assert(!is_whitespace(last));
    assert(w.last() == last);
    if w.len() >= 2 {
        assert forall|i: int| 0 <= i < init.len() implies !is_whitespace(#[trigger] init[i]) by {
            assert(init[i] == w[i]);
        }
        lemma_split_single_word(init);
        assert(!is_whitespace(w[w.len() - 2]));
        let before = split_whitespace(init);
        assert(before == seq![init]);
        assert(before.drop_last() =~= Seq::<Seq<char>>::empty());
        assert(before.last() == init);
        assert(init.push(last) =~= w);
        assert(Seq::<Seq<char>>::empty().push(w) =~= seq![w]);
    } else {
        assert(init =~= Seq::<char>::empty());
        assert(split_whitespace(init) =~= Seq::<Seq<char>>::empty());
        assert(seq![last] =~= w);
        assert(Seq::<Seq<char>>::empty().push(w) =~= seq![w]);
    }
}

/// A word written behind a text that is empty or ends in whitespace is one
/// more word.
pub proof fn lemma_split_appended_word(t: Seq<char>, w: Seq<char>)
    requires
        is_word(w),
        t.len() == 0 || is_whitespace(t.last()),
    ensures
        split_whitespace(t + w) == split_whitespace(t).push(w),
    decreases w.len(),
{
    let s = t + w;
    let init = w.drop_last();
    let last = w[w.len() - 1];
    assert(!is_whitespace(last));
    assert(s.last() == last);
    assert(s.drop_last() =~= t + init);
    if init.len() == 0 {
        assert(t + init =~= t);
        if s.len() >= 2 {
            assert(s[s.len() - 2] == t.last());
        }
        assert(seq![last] =~= w);
    } else {
        assert forall|i: int| 0 <= i < init.len() implies !is_whitespace(#[trigger] init[i]) by {
            assert(init[i] == w[i]);
        }
        lemma_split_appended_word(t, init);
        assert(s[s.len() - 2] == w[w.len() - 2]);
        assert(!is_whitespace(w[w.len() - 2]));
        let before = split_whitespace(t).push(init);
        assert(before.drop_last() =~= split_whitespace(t));
        assert(before.last() == init);
        assert(init.push(last) =~= w);
    }
}

/// Splitting undoes joining: words that were written out with single spaces
/// between them split back into the same words.
pub proof fn law_split_inverts_join(words: Seq<Seq<char>>)
    requires
        forall|k: int| 0 <= k < words.len() ==> is_word(#[trigger] words[k]),
    ensures
        split_whitespace(join_spaced(words)) == words,
    decreases words.len(),
{
    if words.len() == 0 {
    } else if words.len() == 1 {
        lemma_split_single_word(words[0]);
        assert(seq![words[0]] =~= words);
    } else {
        let init = words.drop_last();
        let last = words[words.len() - 1];
        assert forall|k: int| 0 <= k < init.len() implies is_word(#[trigger] init[k]) by {
            assert(init[k] == words[k]);
        }
        law_split_inverts_join(init);
        let spaced = join_spaced(init) + seq![' '];
        assert(spaced.drop_last() =~= join_spaced(init));
        assert(is_whitespace(spaced.last()));
        assert(split_whitespace(spaced) == init);
        lemma_split_appended_word(spaced, last);
        assert(init.push(last) =~= words);
    }
}

} // verus!
