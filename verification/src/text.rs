//! Text as sequences of characters: splitting, joining, searching, replacing.
use vstd::prelude::*;
use vstd::slice::slice_subrange;

verus! {

/// `String::push` of std: appends one character to the end of the string.
pub assume_specification[ String::push ](s: &mut String, c: char)
    ensures
        final(s)@ == old(s)@.push(c),
;

/// The pieces of `s` between the occurrences of `sep`, in order.
/// There is always one piece more than there are separators.
pub open spec fn split(s: Seq<char>, sep: char) -> Seq<Seq<char>>
    decreases s.len(),
{
    if s.len() == 0 {
        seq![Seq::empty()]
    } else {
        let before = split(s.drop_last(), sep);
        if s.last() == sep {
            before.push(Seq::empty())
        } else {
            before.drop_last().push(before.last().push(s.last()))
        }
    }
}

/// The texts of `parts` in order, with `sep` between each two neighbours.
pub open spec fn join(parts: Seq<Seq<char>>, sep: Seq<char>) -> Seq<char>
    decreases parts.len(),
{
    if parts.len() == 0 {
        Seq::empty()
    } else if parts.len() == 1 {
        parts[0]
    } else {
        join(parts.drop_last(), sep) + sep + parts.last()
    }
}

/// The place of the longest of the words that `s` begins with; the first such
/// place where a word comes more than once. Empty words do not count.
pub open spec fn lead(s: Seq<char>, words: Seq<Seq<char>>) -> Option<int>
    decreases words.len(),
{
    if words.len() == 0 {
        None
    } else {
        let word = words.last();
        let place = words.len() - 1;
        match lead(s, words.drop_last()) {
            Some(k) => if word.is_prefix_of(s) && word.len() > words[k].len() {
                Some(place)
            } else {
                Some(k)
            },
            None => if word.is_prefix_of(s) && word.len() > 0 {
                Some(place)
            } else {
                None
            },
        }
    }
}

/// `s` with every word replaced by the text at the same place in `to`. Words are
/// found in one pass from the left and do not overlap; of several that begin at
/// one place the longest counts. The text put in is not searched again.
pub open spec fn replace_words(s: Seq<char>, words: Seq<Seq<char>>, to: Seq<Seq<char>>) -> Seq<char>
    decreases s.len(),
{
    if s.len() == 0 {
        s
    } else {
        match lead(s, words) {
            Some(k) => {
                proof {
                    lead_is_longest(s, words);
                }
                to[k] + replace_words(s.skip(words[k].len() as int), words, to)
            },
            None => seq![s[0]] + replace_words(s.skip(1), words, to),
        }
    }
}

/// Whether `needle` stands somewhere in `s`.
pub open spec fn occurs_in(needle: Seq<char>, s: Seq<char>) -> bool {
    exists|i: int|
        0 <= i && i + needle.len() <= s.len() && #[trigger] s.subrange(i, i + needle.len())
            == needle
}

proof fn lemma_split_nonempty(s: Seq<char>, sep: char)
    ensures
        split(s, sep).len() >= 1,
    decreases s.len(),
{
    if s.len() > 0 {
        lemma_split_nonempty(s.drop_last(), sep);
    }
}

/// No piece of a split text holds the separator, there is always a piece, and
/// joining the pieces with the separator gives the text back.
pub proof fn split_then_join(s: Seq<char>, sep: char)
    ensures
        split(s, sep).len() >= 1,
        forall|i: int| 0 <= i < split(s, sep).len() ==> !(#[trigger] split(s, sep)[i]).contains(sep),
        join(split(s, sep), seq![sep]) == s,
    decreases s.len(),
{
    if s.len() == 0 {
        assert(join(split(s, sep), seq![sep]) =~= s);
    } else {
        let front = s.drop_last();
        let before = split(front, sep);
        let after = split(s, sep);
        split_then_join(front, sep);
        assert(s =~= front.push(s.last()));
        if s.last() == sep {
            assert(after.drop_last() =~= before);
            assert(join(after, seq![sep]) =~= s);
        } else {
            assert(after.drop_last() =~= before.drop_last());
            assert(before.last() == before[before.len() - 1]);
            assert forall|i: int| 0 <= i < after.len() implies !(#[trigger] after[i]).contains(
                sep,
            ) by {
                if i < after.len() - 1 {
                    assert(after[i] == before[i]);
                } else {
                    let piece = before.last().push(s.last());
                    assert(after[i] == piece);
                    if piece.contains(sep) {
                        let k = choose|k: int| 0 <= k < piece.len() && piece[k] == sep;
                        assert(before.last()[k] == sep);
                        assert(before.last().contains(sep));
                    }
                }
            }
            assert(join(after, seq![sep]) =~= join(before, seq![sep]).push(s.last()));
        }
    }
}

proof fn lemma_split_push(s: Seq<char>, sep: char, c: char)
    ensures
        split(s.push(c), sep) == if c == sep {
            split(s, sep).push(Seq::empty())
        } else {
            split(s, sep).drop_last().push(split(s, sep).last().push(c))
        },
{
    assert(s.push(c).drop_last() =~= s);
}

proof fn lemma_split_plain_tail(s: Seq<char>, sep: char, tail: Seq<char>)
    requires
        !tail.contains(sep),
    ensures
        split(s + tail, sep) == split(s, sep).drop_last().push(split(s, sep).last() + tail),
    decreases tail.len(),
{
    lemma_split_nonempty(s, sep);
    if tail.len() == 0 {
        assert(s + tail =~= s);
        assert(split(s, sep).last() + tail =~= split(s, sep).last());
        assert(split(s, sep).drop_last().push(split(s, sep).last()) =~= split(s, sep));
    } else {
        let shorter = tail.drop_last();
        assert forall|k: int| 0 <= k < shorter.len() implies shorter[k] != sep by {
            assert(tail[k] == shorter[k]);
        }
        lemma_split_plain_tail(s, sep, shorter);
        assert(s + tail =~= (s + shorter).push(tail.last()));
        assert(tail[tail.len() - 1] == tail.last());
        lemma_split_push(s + shorter, sep, tail.last());
        assert(split(s, sep).last() + tail =~= (split(s, sep).last() + shorter).push(tail.last()));
        assert(split(s + tail, sep) =~= split(s, sep).drop_last().push(
            split(s, sep).last() + tail,
        ));
    }
}

/// What follows the last separator of a text is the last of its pieces; the
/// others are those of what comes before.
pub proof fn last_piece(head: Seq<char>, sep: char, tail: Seq<char>)
    requires
        !tail.contains(sep),
    ensures
        split(head + seq![sep] + tail, sep) == split(head, sep).push(tail),
        split(head + seq![sep] + tail, sep).last() == tail,
{
    assert(head + seq![sep] =~= head.push(sep));
    lemma_split_push(head, sep, sep);
    lemma_split_plain_tail(head.push(sep), sep, tail);
    assert(Seq::<char>::empty() + tail =~= tail);
}

/// Splitting a text that was joined from pieces without the separator gives
/// those pieces back.
pub proof fn join_then_split(parts: Seq<Seq<char>>, sep: char)
    requires
        parts.len() >= 1,
        forall|i: int| 0 <= i < parts.len() ==> !(#[trigger] parts[i]).contains(sep),
    ensures
        split(join(parts, seq![sep]), sep) == parts,
    decreases parts.len(),
{
    let last = parts.last();
    assert(last == parts[parts.len() - 1]);
    if parts.len() == 1 {
        lemma_split_plain_tail(Seq::empty(), sep, last);
        assert(Seq::<char>::empty() + last =~= last);
        assert(split(Seq::empty(), sep).last() =~= Seq::<char>::empty());
        assert(split(last, sep) =~= parts);
    } else {
        let front = parts.drop_last();
        assert forall|i: int| 0 <= i < front.len() implies !(#[trigger] front[i]).contains(sep) by {
            assert(front[i] == parts[i]);
        }
        join_then_split(front, sep);
        let head = join(front, seq![sep]);
        assert(head + seq![sep] =~= head.push(sep));
        lemma_split_push(head, sep, sep);
        lemma_split_plain_tail(head.push(sep), sep, last);
        assert(Seq::<char>::empty() + last =~= last);
        assert(split(join(parts, seq![sep]), sep) =~= parts);
    }
}

/// Where a text begins with a word that is not empty, `lead` gives such a word,
/// and the text begins with no longer one.
pub proof fn lead_is_longest(s: Seq<char>, words: Seq<Seq<char>>)
    ensures
        match lead(s, words) {
            Some(k) => {
                &&& 0 <= k < words.len()
                &&& 0 < words[k].len() <= s.len()
                &&& words[k].is_prefix_of(s)
                &&& forall|m: int|
                    0 <= m < words.len() && (#[trigger] words[m]).is_prefix_of(s)
                        ==> words[m].len() <= words[k].len()
            },
            None => forall|m: int|
                0 <= m < words.len() && (#[trigger] words[m]).len() > 0 ==> !words[m].is_prefix_of(
                    s,
                ),
        },
    decreases words.len(),
{
    if words.len() > 0 {
        let front = words.drop_last();
        lead_is_longest(s, front);
        assert forall|m: int| 0 <= m < front.len() implies #[trigger] words[m] == front[m] by {}
        assert(words.last() == words[words.len() - 1]);
    }
}

/// Where no word begins in `head`, a replacement leaves `head` as it is.
proof fn lemma_replace_behind(
    head: Seq<char>,
    tail: Seq<char>,
    words: Seq<Seq<char>>,
    to: Seq<Seq<char>>,
)
    requires
        forall|i: int, k: int|
            0 <= i < head.len() && 0 <= k < words.len() && words[k].len() > 0
                ==> !(#[trigger] words[k]).is_prefix_of(#[trigger] (head + tail).skip(i)),
    ensures
        replace_words(head + tail, words, to) == head + replace_words(tail, words, to),
    decreases head.len(),
{
    let s = head + tail;
    if head.len() == 0 {
        assert(s =~= tail);
        assert(head + replace_words(tail, words, to) =~= replace_words(tail, words, to));
    } else {
        lead_is_longest(s, words);
        assert(s.skip(0) =~= s);
        if let Some(k) = lead(s, words) {
            assert(!words[k].is_prefix_of(s.skip(0)));
        }
        let rest = head.skip(1);
        assert(s.skip(1) =~= rest + tail);
        assert forall|i: int, k: int|
            0 <= i < rest.len() && 0 <= k < words.len() && words[k].len()
                > 0 implies !(#[trigger] words[k]).is_prefix_of(
            #[trigger] (rest + tail).skip(i),
        ) by {
            assert(s.skip(i + 1) =~= (rest + tail).skip(i));
        }
        lemma_replace_behind(rest, tail, words, to);
        assert(seq![s[0]] + (rest + replace_words(tail, words, to)) =~= head + replace_words(
            tail,
            words,
            to,
        ));
    }
}

/// A text in which none of the words occurs is left as it is by a replacement.
pub proof fn replace_absent(s: Seq<char>, words: Seq<Seq<char>>, to: Seq<Seq<char>>)
    requires
        forall|k: int| 0 <= k < words.len() ==> !occurs_in(#[trigger] words[k], s),
    ensures
        replace_words(s, words, to) == s,
{
    let none = Seq::<char>::empty();
    assert(s + none =~= s);
    assert forall|i: int, k: int|
        0 <= i < s.len() && 0 <= k < words.len() && words[k].len()
            > 0 implies !(#[trigger] words[k]).is_prefix_of(#[trigger] (s + none).skip(i)) by {
        let word = words[k];
        if word.is_prefix_of((s + none).skip(i)) {
            assert(s.subrange(i, i + word.len()) =~= (s + none).skip(i).subrange(
                0,
                word.len() as int,
            ));
        }
    }
    lemma_replace_behind(s, none, words, to);
}

/// The pieces, with a word between each two neighbours: behind piece `i` stands
/// the word at place `marks[i]`.
pub open spec fn woven(pieces: Seq<Seq<char>>, marks: Seq<int>, words: Seq<Seq<char>>) -> Seq<char>
    decreases marks.len(),
{
    if marks.len() == 0 {
        pieces[0]
    } else {
        pieces[0] + (words[marks[0]] + woven(pieces.skip(1), marks.skip(1), words))
    }
}

/// Whether `word` can be told apart from the text around it: it stands in no
/// piece, and the pieces meet the words in characters that it does not have.
/// Only the first and the last piece can be empty.
pub open spec fn set_apart(word: Seq<char>, pieces: Seq<Seq<char>>) -> bool {
    &&& forall|i: int| 0 <= i < pieces.len() ==> !occurs_in(word, #[trigger] pieces[i])
    &&& forall|i: int|
        0 < i < pieces.len() - 1 ==> (#[trigger] pieces[i]).len() > 0
    &&& forall|i: int|
        0 < i < pieces.len() && (#[trigger] pieces[i]).len() > 0 ==> !word.contains(pieces[i][0])
    &&& forall|i: int|
        0 <= i < pieces.len() - 1 && (#[trigger] pieces[i]).len() > 0 ==> !word.contains(
            pieces[i].last(),
        )
}

/// Where `word` stands neither in `head` nor across its end, it begins nowhere in
/// `head`.
proof fn lemma_none_begins(head: Seq<char>, tail: Seq<char>, word: Seq<char>)
    requires
        !occurs_in(word, head),
        head.len() > 0 && !word.contains(head.last()),
    ensures
        forall|i: int|
            0 <= i < head.len() ==> !word.is_prefix_of(#[trigger] (head + tail).skip(i)),
{
    let s = head + tail;
    let n = head.len() as int;
    assert forall|i: int| 0 <= i < head.len() implies !word.is_prefix_of(
        #[trigger] (head + tail).skip(i),
    ) by {
        let here = s.skip(i);
        if word.is_prefix_of(here) {
            assert(here.subrange(0, word.len() as int) =~= word);
            if i + word.len() <= n {
                assert(head.subrange(i, i + word.len()) =~= word);
            } else {
                assert(word[n - 1 - i] == head.last());
            }
        }
    }
}

/// Replacing the words of a woven text changes every word, once, and nothing
/// else, where the words are set apart.
pub proof fn woven_words_replaced(
    pieces: Seq<Seq<char>>,
    marks: Seq<int>,
    words: Seq<Seq<char>>,
    to: Seq<Seq<char>>,
)
    requires
        pieces.len() == marks.len() + 1,
        to.len() == words.len(),
        forall|i: int| 0 <= i < marks.len() ==> 0 <= #[trigger] marks[i] < words.len(),
        forall|k: int| 0 <= k < words.len() ==> (#[trigger] words[k]).len() > 0,
        forall|k: int| 0 <= k < words.len() ==> set_apart(#[trigger] words[k], pieces),
        forall|k: int, m: int|
            0 <= k < words.len() && 0 <= m < words.len() && #[trigger] words[k]
                == #[trigger] words[m] ==> to[k] == to[m],
    ensures
        replace_words(woven(pieces, marks, words), words, to) == woven(pieces, marks, to),
    decreases marks.len(),
{
    if marks.len() == 0 {
        assert forall|k: int| 0 <= k < words.len() implies !occurs_in(
            #[trigger] words[k],
            pieces[0],
        ) by {
            assert(set_apart(words[k], pieces));
        }
        replace_absent(pieces[0], words, to);
    } else {
        let word = words[marks[0]];
        let later = pieces.skip(1);
        let rest = woven(later, marks.skip(1), words);
        assert forall|k: int| 0 <= k < words.len() implies set_apart(#[trigger] words[k], later) by {
            assert(set_apart(words[k], pieces));
            assert forall|i: int| 0 <= i < later.len() implies #[trigger] later[i] == pieces[i
                + 1] by {}
        }
        woven_words_replaced(later, marks.skip(1), words, to);
        assert forall|i: int, k: int|
            0 <= i < pieces[0].len() && 0 <= k < words.len() && words[k].len()
                > 0 implies !(#[trigger] words[k]).is_prefix_of(
            #[trigger] (pieces[0] + (word + rest)).skip(i),
        ) by {
            assert(set_apart(words[k], pieces));
            assert(!occurs_in(words[k], pieces[0]));
            assert(pieces[0].len() > 0);
            lemma_none_begins(pieces[0], word + rest, words[k]);
        }
        lemma_replace_behind(pieces[0], word + rest, words, to);
        assert(later[0] == pieces[1]);
        assert(set_apart(word, pieces));
        assert(rest.len() > 0 ==> rest[0] == pieces[1][0] && pieces[1].len() > 0) by {
            if pieces[1].len() == 0 {
                assert(pieces.len() == 2);
                assert(rest =~= pieces[1]);
            }
        }
        let here = word + rest;
        lead_is_longest(here, words);
        assert(word.is_prefix_of(here)) by {
            assert(here.subrange(0, word.len() as int) =~= word);
        }
        let k = lead(here, words)->0;
        assert(lead(here, words) is Some);
        assert(words[k].len() == word.len()) by {
            if words[k].len() > word.len() {
                assert(here.subrange(0, words[k].len() as int) == words[k]);
                assert(words[k][word.len() as int] == rest[0]);
                assert(set_apart(words[k], pieces));
            }
        }
        assert(words[k] =~= word);
        assert(to[k] == to[marks[0]]);
        assert(here.skip(word.len() as int) =~= rest);
    }
}

/// The characters of `s`, in order.
pub fn chars_of(s: &str) -> (r: Vec<char>)
    ensures
        r@ == s@,
{
    let mut r: Vec<char> = Vec::new();
    for c in it: s.chars()
        invariant
            it.seq() == s@,
            r@ == s@.take(it.index() as int),
    {
        r.push(c);
        assert(r@ =~= s@.take(it.index() + 1));
    }
    assert(s@.take(s@.len() as int) =~= s@);
    r
}

/// The text that the characters spell.
pub fn text_of(chars: &[char]) -> (r: String)
    ensures
        r@ == chars@,
{
    let mut r = String::new();
    for i in 0..chars.len()
        invariant
            r@ == chars@.take(i as int),
    {
        r.push(chars[i]);
        assert(chars@.take(i + 1) =~= chars@.take(i as int).push(chars@[i as int]));
    }
    assert(chars@.take(chars@.len() as int) =~= chars@);
    r
}

/// The two texts one after the other.
pub fn concat(a: &str, b: &str) -> (r: String)
    ensures
        r@ == a@ + b@,
{
    let mut r = a.to_owned();
    r.append(b);
    r
}

/// Whether two runs of characters are the same.
pub fn same_chars(a: &[char], b: &[char]) -> (r: bool)
    ensures
        r == (a@ == b@),
{
    if a.len() != b.len() {
        return false;
    }
    for i in 0..a.len()
        invariant
            a@.len() == b@.len(),
            forall|k: int| 0 <= k < i ==> a@[k] == b@[k],
    {
        if a[i] != b[i] {
            return false;
        }
    }
    assert(a@ =~= b@);
    true
}

/// Whether two texts are the same.
pub fn same_text(a: &str, b: &str) -> (r: bool)
    ensures
        r == (a@ == b@),
{
    let x = chars_of(a);
    let y = chars_of(b);
    same_chars(x.as_slice(), y.as_slice())
}

/// Whether `s` begins with `prefix`.
pub fn begins_with(s: &str, prefix: &str) -> (r: bool)
    ensures
        r == prefix@.is_prefix_of(s@),
{
    let x = chars_of(s);
    let p = chars_of(prefix);
    if p.len() > x.len() {
        return false;
    }
    same_chars(p.as_slice(), slice_subrange(x.as_slice(), 0, p.len()))
}

/// Whether `s` ends with `suffix`.
pub fn finishes_with(s: &str, suffix: &str) -> (r: bool)
    ensures
        r == suffix@.is_suffix_of(s@),
{
    let x = chars_of(s);
    let p = chars_of(suffix);
    if p.len() > x.len() {
        return false;
    }
    same_chars(p.as_slice(), slice_subrange(x.as_slice(), x.len() - p.len(), x.len()))
}

/// The place of the first `c` among the characters.
pub fn first_place(chars: &[char], c: char) -> (r: Option<usize>)
    ensures
        match r {
            Some(i) => chars@.index_of_first(c) == Some(i as int) && i < chars@.len(),
            None => chars@.index_of_first(c) is None,
        },
{
    proof {
        chars@.index_of_first_ensures(c);
    }
    for i in 0..chars.len()
        invariant
            forall|k: int| 0 <= k < i ==> chars@[k] != c,
    {
        if chars[i] == c {
            proof {
                chars@.index_of_first_ensures(c);
                assert(chars@.contains(c));
            }
            return Some(i);
        }
    }
    None
}

/// The pieces of `s` between the occurrences of `sep`.
pub fn split_text(s: &str, sep: char) -> (r: Vec<String>)
    ensures
        r@.map_values(|p: String| p@) == split(s@, sep),
        r@.len() >= 1,
{
    let chars = chars_of(s);
    let mut r: Vec<String> = Vec::new();
    let mut piece = String::new();
    proof {
        assert(split(s@.take(0), sep) =~= seq![Seq::<char>::empty()]);
    }
    for i in 0..chars.len()
        invariant
            chars@ == s@,
            split(s@.take(i as int), sep) =~= r@.map_values(|p: String| p@).push(piece@),
    {
        let c = chars[i];
        let ghost done = r@.map_values(|p: String| p@);
        proof {
            assert(s@.take(i + 1) =~= s@.take(i as int).push(c));
            lemma_split_push(s@.take(i as int), sep, c);
            assert(done.push(piece@).drop_last() =~= done);
        }
        if c == sep {
            r.push(piece);
            piece = String::new();
            assert(r@.map_values(|p: String| p@) =~= done.push(r@.last()@));
        } else {
            piece.push(c);
        }
    }
    let ghost done = r@.map_values(|p: String| p@);
    r.push(piece);
    proof {
        assert(s@.take(s@.len() as int) =~= s@);
        assert(r@.map_values(|p: String| p@) =~= done.push(r@.last()@));
    }
    r
}

/// The texts in order, with `sep` between each two neighbours.
pub fn join_text(parts: &Vec<String>, sep: &str) -> (r: String)
    ensures
        r@ == join(parts@.map_values(|p: String| p@), sep@),
{
    let mut r = String::new();
    let ghost views = parts@.map_values(|p: String| p@);
    for i in 0..parts.len()
        invariant
            views == parts@.map_values(|p: String| p@),
            r@ == join(views.take(i as int), sep@),
    {
        if i > 0 {
            r.append(sep);
        }
        r.append(parts[i].as_str());
        proof {
            let upto = views.take(i + 1);
            assert(upto.drop_last() =~= views.take(i as int));
            assert(upto.last() == parts@[i as int]@);
            if i == 0 {
                assert(r@ =~= upto[0]);
            }
        }
    }
    assert(views.take(views.len() as int) =~= views);
    r
}

/// The place of the longest of the words that the characters begin with.
fn find_lead(chars: &[char], words: &Vec<Vec<char>>) -> (r: Option<usize>)
    ensures
        match r {
            Some(k) => k < words@.len() && lead(
                chars@,
                words@.map_values(|w: Vec<char>| w@),
            ) == Some(k as int),
            None => lead(chars@, words@.map_values(|w: Vec<char>| w@)) is None,
        },
{
    let ghost views = words@.map_values(|w: Vec<char>| w@);
    let mut r: Option<usize> = None;
    for i in 0..words.len()
        invariant
            views == words@.map_values(|w: Vec<char>| w@),
            match r {
                Some(k) => k < i && lead(chars@, views.take(i as int)) == Some(k as int),
                None => lead(chars@, views.take(i as int)) is None,
            },
    {
        proof {
            assert(views.take(i + 1).drop_last() =~= views.take(i as int));
            assert(views.take(i + 1).last() == words@[i as int]@);
        }
        let word = &words[i];
        let longest: usize = match r {
            Some(k) => words[k].len(),
            None => 0,
        };
        if word.len() > longest && word.len() <= chars.len() {
            if same_chars(word.as_slice(), slice_subrange(chars, 0, word.len())) {
                r = Some(i);
            }
        }
    }
    assert(views.take(views.len() as int) =~= views);
    r
}

/// `s` with every word replaced by the text at the same place in `to`.
pub fn replace_text(s: &str, words: &Vec<String>, to: &Vec<String>) -> (r: String)
    requires
        words@.len() == to@.len(),
    ensures
        r@ == replace_words(
            s@,
            words@.map_values(|w: String| w@),
            to@.map_values(|w: String| w@),
        ),
{
    let text = chars_of(s);
    let n = text.len();
    let mut needles: Vec<Vec<char>> = Vec::new();
    let ghost views = words@.map_values(|w: String| w@);
    let ghost news = to@.map_values(|w: String| w@);
    for i in 0..words.len()
        invariant
            views == words@.map_values(|w: String| w@),
            needles@.map_values(|w: Vec<char>| w@) =~= views.take(i as int),
    {
        let ghost taken = needles@.map_values(|w: Vec<char>| w@);
        needles.push(chars_of(words[i].as_str()));
        proof {
            assert(needles@.map_values(|w: Vec<char>| w@) =~= taken.push(words@[i as int]@));
            assert(views.take(i + 1) =~= views.take(i as int).push(words@[i as int]@));
        }
    }
    assert(views.take(views.len() as int) =~= views);
    let mut r = String::new();
    let mut i: usize = 0;
    assert(s@.skip(0) =~= s@);
    while i < n
        invariant
            text@ == s@,
            n == text@.len(),
            words@.len() == to@.len(),
            views == words@.map_values(|w: String| w@),
            news == to@.map_values(|w: String| w@),
            needles@.map_values(|w: Vec<char>| w@) == views,
            i <= n,
            r@ + replace_words(s@.skip(i as int), views, news) == replace_words(s@, views, news),
        decreases n - i,
    {
        let ghost rest = s@.skip(i as int);
        let ghost before = r@;
        let here = slice_subrange(text.as_slice(), i, n);
        proof {
            assert(here@ =~= rest);
            lead_is_longest(rest, views);
            assert(needles@.len() == views.len());
        }
        match find_lead(here, &needles) {
            Some(k) => {
                assert(views[k as int] == needles@[k as int]@);
                assert(news[k as int] == to@[k as int]@);
                r.append(to[k].as_str());
                assert(rest.skip(needles@[k as int]@.len() as int) =~= s@.skip(
                    i + needles@[k as int]@.len(),
                ));
                i = i + needles[k].len();
                assert(r@ + replace_words(s@.skip(i as int), views, news) =~= before + (
                news[k as int] + replace_words(s@.skip(i as int), views, news)));
            },
            None => {
                r.push(text[i]);
                assert(rest.skip(1) =~= s@.skip(i + 1));
                i = i + 1;
                assert(r@ + replace_words(s@.skip(i as int), views, news) =~= before + (
                seq![rest[0]] + replace_words(s@.skip(i as int), views, news)));
            },
        }
    }
    assert(s@.skip(n as int) =~= Seq::empty());
    assert(r@ + replace_words(s@.skip(n as int), views, news) =~= r@);
    r
}

} // verus!
