//! Text as sequences of characters: trimming, splitting, searching.

use vstd::prelude::*;

verus! {

/// `String::push` appends one character.
pub assume_specification[ String::push ](s: &mut String, c: char)
    ensures
        final(s)@ == old(s)@.push(c),
;

/// What `String::from_utf8_lossy` makes of some bytes.
pub uninterp spec fn lossy(bytes: Seq<u8>) -> Seq<char>;

/// `String::from_utf8_lossy` yields the text that bytes encode in UTF-8. Of bytes that
/// are not UTF-8 it replaces what is wrong; the replacement has a name only.
#[verifier::external_body]
pub(crate) fn from_utf8_lossy(bytes: &[u8]) -> (r: String)
    ensures
        r@ == lossy(bytes@),
        vstd::utf8::valid_utf8(bytes@) ==> r@ == vstd::utf8::decode_utf8(bytes@),
{
    String::from_utf8_lossy(bytes).into_owned()
}

/// The characters with the Unicode `White_Space` property.
pub open spec fn is_white(c: char) -> bool {
    let u = c as u32;
    ||| 0x9 <= u <= 0xd
    ||| u == 0x20
    ||| u == 0x85
    ||| u == 0xa0
    ||| u == 0x1680
    ||| 0x2000 <= u <= 0x200a
    ||| u == 0x2028
    ||| u == 0x2029
    ||| u == 0x202f
    ||| u == 0x205f
    ||| u == 0x3000
}

/// `s` without its leading white space.
pub open spec fn skip_white(s: Seq<char>) -> Seq<char>
    decreases s.len(),
{
    if s.len() > 0 && is_white(s[0]) {
        skip_white(s.skip(1))
    } else {
        s
    }
}

/// `s` without its trailing white space.
pub open spec fn drop_white(s: Seq<char>) -> Seq<char>
    decreases s.len(),
{
    if s.len() > 0 && is_white(s.last()) {
        drop_white(s.drop_last())
    } else {
        s
    }
}

/// `s` without surrounding white space.
pub open spec fn trimmed(s: Seq<char>) -> Seq<char> {
    drop_white(skip_white(s))
}

/// The length of the run of characters other than white space that `s` begins with.
pub open spec fn word_len(s: Seq<char>) -> int
    decreases s.len(),
{
    if s.len() > 0 && !is_white(s[0]) {
        1 + word_len(s.skip(1))
    } else {
        0
    }
}

/// The maximal runs of characters other than white space, in order.
pub open spec fn words_of(s: Seq<char>) -> Seq<Seq<char>>
    decreases s.len(),
{
    let t = skip_white(s);
    if t.len() == 0 {
        Seq::empty()
    } else {
        proof {
            lemma_skip_white(s);
            lemma_word_len(t);
        }
        seq![t.take(word_len(t))] + words_of(t.skip(word_len(t)))
    }
}

/// The position of the first `c` in `s`, or the length of `s`.
pub open spec fn index_of(s: Seq<char>, c: char) -> int
    decreases s.len(),
{
    if s.len() == 0 || s[0] == c {
        0
    } else {
        1 + index_of(s.skip(1), c)
    }
}

/// A line without the carriage return before its line feed.
pub open spec fn without_cr(s: Seq<char>) -> Seq<char> {
    if s.len() > 0 && s.last() == '\r' {
        s.drop_last()
    } else {
        s
    }
}

/// The lines of `s`: each ends at a line feed or a carriage return and a line
/// feed; the last line may lack its ending.
pub open spec fn lines_of(s: Seq<char>) -> Seq<Seq<char>>
    decreases s.len(),
{
    let n = index_of(s, '\n');
    proof {
        lemma_index_of(s, '\n');
    }
    if s.len() == 0 {
        Seq::empty()
    } else if n >= s.len() {
        seq![s]
    } else {
        seq![without_cr(s.take(n))] + lines_of(s.skip(n + 1))
    }
}

/// The pieces of `s` between occurrences of `c`.
pub open spec fn split_of(s: Seq<char>, c: char) -> Seq<Seq<char>>
    decreases s.len(),
{
    let n = index_of(s, c);
    proof {
        lemma_index_of(s, c);
    }
    if n >= s.len() {
        seq![s]
    } else {
        seq![s.take(n)] + split_of(s.skip(n + 1), c)
    }
}

/// The position of the first occurrence of `pat` in `s`.
pub open spec fn find_of(s: Seq<char>, pat: Seq<char>) -> Option<int>
    decreases s.len(),
{
    if pat.is_prefix_of(s) {
        Some(0)
    } else if s.len() == 0 {
        None
    } else {
        match find_of(s.skip(1), pat) {
            Some(n) => Some(n + 1),
            None => None,
        }
    }
}

/// What stands before and after the first occurrence of `pat`.
pub open spec fn split_once_of(s: Seq<char>, pat: Seq<char>) -> Option<(Seq<char>, Seq<char>)> {
    match find_of(s, pat) {
        Some(n) => Some((s.take(n), s.skip(n + pat.len()))),
        None => None,
    }
}

/// The pieces of `s` between the occurrences of a non-empty `pat`.
pub open spec fn split_text_of(s: Seq<char>, pat: Seq<char>) -> Seq<Seq<char>>
    decreases s.len(),
{
    match find_of(s, pat) {
        Some(n) if pat.len() > 0 => {
            proof {
                lemma_find(s, pat);
            }
            seq![s.take(n)] + split_text_of(s.skip(n + pat.len()), pat)
        },
        _ => seq![s],
    }
}

/// `s` without any occurrence of a non-empty `pat`.
pub open spec fn without_text(s: Seq<char>, pat: Seq<char>) -> Seq<char>
    decreases s.len(),
{
    match find_of(s, pat) {
        Some(n) if pat.len() > 0 => {
            proof {
                lemma_find(s, pat);
            }
            s.take(n) + without_text(s.skip(n + pat.len()), pat)
        },
        _ => s,
    }
}

/// The remainder of `s` after `pat`, when `s` begins with it.
pub open spec fn after_prefix(s: Seq<char>, pat: Seq<char>) -> Option<Seq<char>> {
    if pat.is_prefix_of(s) {
        Some(s.skip(pat.len() as int))
    } else {
        None
    }
}

/// What precedes `pat` in `s`, when `s` ends with it.
pub open spec fn before_suffix(s: Seq<char>, pat: Seq<char>) -> Option<Seq<char>> {
    if pat.is_suffix_of(s) {
        Some(s.take(s.len() - pat.len()))
    } else {
        None
    }
}

/// The words one after the other, one space between two of them.
pub open spec fn spaced(words: Seq<Seq<char>>) -> Seq<char>
    decreases words.len(),
{
    if words.len() == 0 {
        Seq::empty()
    } else if words.len() == 1 {
        words[0]
    } else {
        spaced(words.drop_last()) + seq![' '] + words.last()
    }
}

/// The lines in groups, an empty line between two of them. A group may be empty.
pub open spec fn paragraphs_of(lines: Seq<Seq<char>>) -> Seq<Seq<Seq<char>>>
    decreases lines.len(),
{
    if lines.len() == 0 {
        seq![Seq::empty()]
    } else {
        let rest = paragraphs_of(lines.drop_last());
        if lines.last().len() == 0 {
            rest.push(Seq::empty())
        } else {
            rest.drop_last().push(rest.last().push(lines.last()))
        }
    }
}

/// The name and the value of a line `name: value`, both without surrounding white
/// space.
pub open spec fn field_of(line: Seq<char>) -> Option<(Seq<char>, Seq<char>)> {
    match split_once_of(line, seq![':']) {
        Some((name, value)) => Some((trimmed(name), trimmed(value))),
        None => None,
    }
}

/// The value of the last line of this name.
pub open spec fn last_field(lines: Seq<Seq<char>>, name: Seq<char>) -> Option<Seq<char>>
    decreases lines.len(),
{
    if lines.len() == 0 {
        None
    } else {
        match field_of(lines.last()) {
            Some((n, value)) if n == name => Some(value),
            _ => last_field(lines.drop_last(), name),
        }
    }
}

/// What follows `prefix` in the last text that begins with it.
pub open spec fn last_after(all: Seq<Seq<char>>, prefix: Seq<char>) -> Option<Seq<char>>
    decreases all.len(),
{
    if all.len() == 0 {
        None
    } else {
        match after_prefix(all.last(), prefix) {
            Some(value) => Some(value),
            None => last_after(all.drop_last(), prefix),
        }
    }
}

/// Whether every character of `s` is an ASCII digit.
pub open spec fn all_digits(s: Seq<char>) -> bool {
    forall|i: int| 0 <= i < s.len() ==> '0' <= #[trigger] s[i] <= '9'
}

/// The texts that a list of slices holds.
pub open spec fn texts(v: Seq<&[char]>) -> Seq<Seq<char>> {
    v.map_values(|x: &[char]| x@)
}

/// What an optional reference refers to.
pub open spec fn given<T: View + ?Sized>(x: Option<&T>) -> Option<T::V> {
    match x {
        Some(v) => Some(v@),
        None => None,
    }
}

/// The text that an optional string holds.
pub open spec fn maybe(s: Option<String>) -> Option<Seq<char>> {
    match s {
        Some(t) => Some(t@),
        None => None,
    }
}

pub proof fn lemma_skip_white(s: Seq<char>)
    ensures
        skip_white(s).len() <= s.len(),
        skip_white(s).len() > 0 ==> !is_white(skip_white(s)[0]),
    decreases s.len(),
{
    if s.len() > 0 && is_white(s[0]) {
        lemma_skip_white(s.skip(1));
    }
}

pub proof fn lemma_word_len(s: Seq<char>)
    ensures
        0 <= word_len(s) <= s.len(),
        s.len() > 0 && !is_white(s[0]) ==> word_len(s) > 0,
        word_len(s) < s.len() ==> is_white(s[word_len(s)]),
        forall|i: int| 0 <= i < word_len(s) ==> !is_white(#[trigger] s[i]),
    decreases s.len(),
{
    if s.len() > 0 && !is_white(s[0]) {
        lemma_word_len(s.skip(1));
        assert forall|i: int| 0 <= i < word_len(s) implies !is_white(#[trigger] s[i]) by {
            if i > 0 {
                assert(s[i] == s.skip(1)[i - 1]);
            }
        }
        if word_len(s) < s.len() {
            assert(s[word_len(s)] == s.skip(1)[word_len(s) - 1]);
        }
    }
}

pub proof fn lemma_index_of(s: Seq<char>, c: char)
    ensures
        0 <= index_of(s, c) <= s.len(),
        index_of(s, c) < s.len() ==> s[index_of(s, c)] == c,
        forall|i: int| 0 <= i < index_of(s, c) ==> #[trigger] s[i] != c,
    decreases s.len(),
{
    if s.len() > 0 && s[0] != c {
        lemma_index_of(s.skip(1), c);
        assert forall|i: int| 0 <= i < index_of(s, c) implies #[trigger] s[i] != c by {
            if i > 0 {
                assert(s[i] == s.skip(1)[i - 1]);
            }
        }
        if index_of(s, c) < s.len() {
            assert(s[index_of(s, c)] == s.skip(1)[index_of(s, c) - 1]);
        }
    }
}

/// An occurrence that `find_of` reports lies within `s`, and none precedes it.
pub proof fn lemma_find(s: Seq<char>, pat: Seq<char>)
    ensures
        match find_of(s, pat) {
            Some(n) => {
                &&& 0 <= n <= n + pat.len() <= s.len()
                &&& pat.is_prefix_of(s.skip(n))
                &&& forall|i: int| 0 <= i < n ==> !pat.is_prefix_of(#[trigger] s.skip(i))
            },
            None => forall|i: int|
                0 <= i <= s.len() ==> !pat.is_prefix_of(#[trigger] s.skip(i)),
        },
    decreases s.len(),
{
    assert(s.skip(0) =~= s);
    if !pat.is_prefix_of(s) {
        if s.len() > 0 {
            lemma_find(s.skip(1), pat);
            assert forall|i: int| 1 <= i <= s.len() implies #[trigger] s.skip(i) == s.skip(1).skip(
                i - 1,
            ) by {
                assert(s.skip(i) =~= s.skip(1).skip(i - 1));
            }
        }
    }
}

/// Words are not empty and hold no white space.
pub proof fn lemma_words(s: Seq<char>)
    ensures
        forall|i: int, j: int|
            #![trigger words_of(s)[i][j]]
            0 <= i < words_of(s).len() && 0 <= j < words_of(s)[i].len() ==> !is_white(
                words_of(s)[i][j],
            ),
        forall|i: int| 0 <= i < words_of(s).len() ==> (#[trigger] words_of(s)[i]).len() > 0,
    decreases s.len(),
{
    let t = skip_white(s);
    if t.len() > 0 {
        lemma_skip_white(s);
        lemma_word_len(t);
        let rest = t.skip(word_len(t));
        lemma_words(rest);
        assert forall|i: int| 0 < i < words_of(s).len() implies #[trigger] words_of(s)[i]
            == words_of(rest)[i - 1] by {}
    }
}

/// A line of words begins and ends as its first and its last word do.
pub proof fn lemma_spaced_ends(words: Seq<Seq<char>>)
    requires
        words.len() > 0,
        forall|i: int| 0 <= i < words.len() ==> (#[trigger] words[i]).len() > 0,
    ensures
        spaced(words).len() > 0,
        spaced(words)[0] == words[0][0],
        spaced(words).last() == words.last().last(),
    decreases words.len(),
{
    if words.len() > 1 {
        lemma_spaced_ends(words.drop_last());
        assert(words.drop_last()[0] == words[0]);
    }
}

/// White space parts the words on its two sides.
pub proof fn lemma_words_apart(a: Seq<char>, w: char, b: Seq<char>)
    requires
        is_white(w),
    ensures
        words_of(a + seq![w] + b) == words_of(a) + words_of(b),
    decreases a.len(),
{
    let s = a + seq![w] + b;
    if a.len() == 0 {
        assert(s.skip(1) =~= b);
        assert(skip_white(s) == skip_white(b));
        assert(words_of(s) == words_of(b));
        assert(words_of(a) + words_of(b) =~= words_of(b));
    } else if is_white(a[0]) {
        let rest = a.skip(1);
        lemma_words_apart(rest, w, b);
        assert(s.skip(1) =~= rest + seq![w] + b);
        assert(skip_white(s) == skip_white(s.skip(1)));
        assert(words_of(s) == words_of(s.skip(1)));
        assert(words_of(a) == words_of(rest));
    } else {
        let n = word_len(a);
        let rest = a.skip(n);
        lemma_word_len(a);
        lemma_word_of_prefix(a, w, b);
        lemma_words_apart(rest, w, b);
        assert(s.take(n) =~= a.take(n));
        assert(s.skip(n) =~= rest + seq![w] + b);
        assert(words_of(s) == seq![s.take(n)] + words_of(s.skip(n)));
        assert(words_of(a) == seq![a.take(n)] + words_of(rest));
        assert(words_of(s) =~= words_of(a) + words_of(b));
    }
}

proof fn lemma_word_of_prefix(a: Seq<char>, w: char, b: Seq<char>)
    requires
        is_white(w),
    ensures
        word_len(a + seq![w] + b) == word_len(a),
    decreases a.len(),
{
    let s = a + seq![w] + b;
    if a.len() > 0 && !is_white(a[0]) {
        lemma_word_of_prefix(a.skip(1), w, b);
        assert(s.skip(1) =~= a.skip(1) + seq![w] + b);
    }
}

/// White space around a text changes none of its words.
pub proof fn lemma_words_of_trimmed(s: Seq<char>)
    ensures
        words_of(trimmed(s)) == words_of(s),
{
    lemma_skip_white(s);
    assert(skip_white(skip_white(s)) == skip_white(s));
    assert(words_of(skip_white(s)) == words_of(s));
    lemma_words_of_dropped(skip_white(s));
}

proof fn lemma_words_of_dropped(s: Seq<char>)
    ensures
        words_of(drop_white(s)) == words_of(s),
    decreases s.len(),
{
    if s.len() > 0 && is_white(s.last()) {
        let head = s.drop_last();
        lemma_words_of_dropped(head);
        lemma_words_apart(head, s.last(), Seq::empty());
        assert(head + seq![s.last()] + Seq::<char>::empty() =~= s);
        assert(words_of(head) + words_of(Seq::<char>::empty()) =~= words_of(head));
    }
}

/// A text without white space is one word.
pub proof fn lemma_one_word(s: Seq<char>)
    requires
        s.len() > 0,
        forall|i: int| 0 <= i < s.len() ==> !is_white(#[trigger] s[i]),
    ensures
        words_of(s) == seq![s],
{
    lemma_word_len(s);
    let n = word_len(s);
    assert(n == s.len());
    assert(s.take(n) =~= s);
    assert(s.skip(n) =~= Seq::<char>::empty());
    assert(words_of(Seq::<char>::empty()) =~= Seq::<Seq<char>>::empty());
    assert(words_of(s) =~= seq![s]);
}

/// Behind a character that is not white space, trimming takes from the tail only.
pub proof fn lemma_trimmed_tail(head: Seq<char>, tail: Seq<char>)
    requires
        head.len() > 0,
        !is_white(head[0]),
        !is_white(head.last()),
    ensures
        trimmed(head + tail) == head + drop_white(tail),
    decreases tail.len(),
{
    let s = head + tail;
    assert(skip_white(s) == s);
    if tail.len() == 0 {
        assert(s =~= head);
        assert(head + drop_white(tail) =~= head);
    } else if is_white(tail.last()) {
        lemma_trimmed_tail(head, tail.drop_last());
        assert(s.drop_last() =~= head + tail.drop_last());
        assert(skip_white(s.drop_last()) == s.drop_last());
    }
}

proof fn lemma_same_prefix(s: Seq<char>, t: Seq<char>, pat: Seq<char>)
    requires
        pat.len() <= s.len(),
        pat.len() <= t.len(),
        forall|i: int| 0 <= i < pat.len() ==> #[trigger] s[i] == t[i],
    ensures
        pat.is_prefix_of(s) == pat.is_prefix_of(t),
{
    assert(s.subrange(0, pat.len() as int) =~= t.subrange(0, pat.len() as int));
}

/// A text that begins with `a` and `pat` holds `pat` first where it follows `a`, whatever
/// comes behind, if there is none before.
pub proof fn lemma_find_behind(a: Seq<char>, pat: Seq<char>, tail: Seq<char>, other: Seq<char>)
    requires
        find_of(a + pat + tail, pat) == Some(a.len() as int),
    ensures
        find_of(a + pat + other, pat) == Some(a.len() as int),
    decreases a.len(),
{
    let s = a + pat + tail;
    let t = a + pat + other;
    lemma_same_prefix(s, t, pat);
    if a.len() == 0 {
        lemma_same_prefix(t, pat, pat);
        assert(pat.is_prefix_of(pat)) by {
            assert(pat =~= pat.subrange(0, pat.len() as int));
        }
    } else {
        let rest = a.skip(1);
        assert(s.skip(1) =~= rest + pat + tail);
        assert(t.skip(1) =~= rest + pat + other);
        lemma_find_behind(rest, pat, tail, other);
    }
}

/// What does not occur in a text does not occur in a piece of it.
pub proof fn lemma_find_in_piece(s: Seq<char>, pat: Seq<char>, from: int, to: int)
    requires
        find_of(s, pat) is None,
        0 <= from <= to <= s.len(),
    ensures
        find_of(s.subrange(from, to), pat) is None,
{
    let piece = s.subrange(from, to);
    lemma_find(s, pat);
    lemma_find(piece, pat);
    if let Some(n) = find_of(piece, pat) {
        assert(pat =~= s.skip(from + n).subrange(0, pat.len() as int)) by {
            assert(pat == piece.skip(n).subrange(0, pat.len() as int));
            assert forall|i: int| 0 <= i < pat.len() implies pat[i] == s.skip(from + n)[i] by {
                assert(piece.skip(n).subrange(0, pat.len() as int)[i] == piece[n + i]);
            }
        }
        assert(pat.is_prefix_of(s.skip(from + n)));
    }
}

proof fn lemma_index_in_front(a: Seq<char>, b: Seq<char>, c: char)
    requires
        index_of(a, c) < a.len(),
    ensures
        index_of(a + b, c) == index_of(a, c),
    decreases a.len(),
{
    if a[0] != c {
        lemma_index_in_front(a.skip(1), b, c);
        assert((a + b).skip(1) =~= a.skip(1) + b);
    }
}

/// Behind whole lines, more lines follow.
pub proof fn lemma_lines_apart(a: Seq<char>, b: Seq<char>)
    requires
        a.len() > 0 ==> a.last() == '\n',
    ensures
        lines_of(a + b) == lines_of(a) + lines_of(b),
    decreases a.len(),
{
    if a.len() == 0 {
        assert(a + b =~= b);
        assert(lines_of(a) + lines_of(b) =~= lines_of(b));
    } else {
        let n = index_of(a, '\n');
        lemma_index_of(a, '\n');
        assert(a[a.len() - 1] == '\n');
        assert(n < a.len());
        lemma_index_in_front(a, b, '\n');
        let rest = a.skip(n + 1);
        lemma_lines_apart(rest, b);
        assert((a + b).take(n) =~= a.take(n));
        assert((a + b).skip(n + 1) =~= rest + b);
        assert(lines_of(a + b) =~= lines_of(a) + lines_of(b));
    }
}

/// The characters of a string.
pub(crate) fn chars_of(s: &str) -> (r: Vec<char>)
    ensures
        r@ == s@,
{
    let mut out: Vec<char> = Vec::new();
    for c in it: s.chars()
        invariant
            out@.len() == it.index(),
            it.seq() == s@,
            forall|i: int| 0 <= i < out@.len() ==> out@[i] == it.seq()[i],
    {
        out.push(c);
    }
    assert(out@ =~= s@);
    out
}

/// The string of some characters.
pub(crate) fn string_of(s: &[char]) -> (r: String)
    ensures
        r@ == s@,
{
    let mut out = String::new();
    for i in 0..s.len()
        invariant
            out@ == s@.take(i as int),
    {
        out.push(s[i]);
        assert(out@ =~= s@.take(i + 1));
    }
    assert(s@.take(s@.len() as int) =~= s@);
    out
}

/// The string that a literal stands for.
pub(crate) fn owned(s: &str) -> (r: String)
    ensures
        r@ == s@,
{
    s.to_owned()
}

pub(crate) fn white(c: char) -> (r: bool)
    ensures
        r == is_white(c),
{
    let u = c as u32;
    (0x9 <= u && u <= 0xd) || u == 0x20 || u == 0x85 || u == 0xa0 || u == 0x1680 || (0x2000 <= u
        && u <= 0x200a) || u == 0x2028 || u == 0x2029 || u == 0x202f || u == 0x205f || u == 0x3000
}

/// Whether a slice holds exactly this text.
pub(crate) fn is_text(s: &[char], text: &str) -> (r: bool)
    ensures
        r == (s@ == text@),
{
    let mut i: usize = 0;
    for c in it: text.chars()
        invariant
            i == it.index(),
            it.seq() == text@,
            i <= s@.len(),
            forall|j: int| 0 <= j < i ==> s@[j] == text@[j],
    {
        if i >= s.len() || s[i] != c {
            return false;
        }
        i += 1;
    }
    assert(i == s@.len() ==> s@ =~= text@);
    i == s.len()
}

pub(crate) fn same_text(a: &str, b: &str) -> (r: bool)
    ensures
        r == (a@ == b@),
{
    let chars = chars_of(a);
    is_text(chars.as_slice(), b)
}

pub(crate) fn starts_with(s: &[char], pat: &str) -> (r: bool)
    ensures
        r == pat@.is_prefix_of(s@),
{
    let mut i: usize = 0;
    for c in it: pat.chars()
        invariant
            i == it.index(),
            it.seq() == pat@,
            i <= s@.len(),
            forall|j: int| 0 <= j < i ==> s@[j] == pat@[j],
    {
        if i >= s.len() || s[i] != c {
            assert(pat@.is_prefix_of(s@) ==> s@[i as int] == pat@[i as int]);
            return false;
        }
        i += 1;
    }
    assert(pat@ =~= s@.subrange(0, pat@.len() as int));
    true
}

pub(crate) fn ends_with(s: &[char], pat: &[char]) -> (r: bool)
    ensures
        r == pat@.is_suffix_of(s@),
{
    if pat.len() > s.len() {
        return false;
    }
    let from = s.len() - pat.len();
    for i in 0..pat.len()
        invariant
            from == s@.len() - pat@.len(),
            s@.len() == s.len(),
            forall|j: int| 0 <= j < i ==> s@[from + j] == pat@[j],
    {
        if s[from + i] != pat[i] {
            assert(pat@.is_suffix_of(s@) ==> s@[from + i] == pat@[i as int]);
            return false;
        }
    }
    assert(pat@ =~= s@.subrange(from as int, s@.len() as int));
    true
}

/// The rest of a slice after a prefix that it begins with.
pub(crate) fn strip_prefix<'a>(s: &'a [char], pat: &str) -> (r: Option<&'a [char]>)
    ensures
        match r {
            Some(rest) => after_prefix(s@, pat@) == Some(rest@),
            None => after_prefix(s@, pat@) is None,
        },
{
    let mut i: usize = 0;
    for c in it: pat.chars()
        invariant
            i == it.index(),
            it.seq() == pat@,
            i <= s@.len(),
            forall|j: int| 0 <= j < i ==> s@[j] == pat@[j],
    {
        if i >= s.len() || s[i] != c {
            assert(pat@.is_prefix_of(s@) ==> s@[i as int] == pat@[i as int]);
            return None;
        }
        i += 1;
    }
    assert(pat@ =~= s@.subrange(0, pat@.len() as int));
    Some(&s[i..s.len()])
}

/// What a slice holds before a suffix that it ends with.
pub(crate) fn strip_suffix<'a>(s: &'a [char], pat: &str) -> (r: Option<&'a [char]>)
    ensures
        match r {
            Some(rest) => before_suffix(s@, pat@) == Some(rest@),
            None => before_suffix(s@, pat@) is None,
        },
{
    let p = chars_of(pat);
    if ends_with(s, p.as_slice()) {
        Some(&s[0..s.len() - p.len()])
    } else {
        None
    }
}

pub(crate) fn trim(s: &[char]) -> (r: &[char])
    ensures
        r@ == trimmed(s@),
{
    let mut start: usize = 0;
    assert(s@.skip(0) =~= s@);
    while start < s.len() && white(s[start])
        invariant
            start <= s@.len(),
            skip_white(s@) == skip_white(s@.skip(start as int)),
        decreases s@.len() - start,
    {
        assert(s@.skip(start as int).skip(1) =~= s@.skip(start + 1));
        start += 1;
    }
    let mut end: usize = s.len();
    assert(s@.skip(start as int) =~= s@.subrange(start as int, end as int));
    while end > start && white(s[end - 1])
        invariant
            start <= end <= s@.len(),
            drop_white(skip_white(s@)) == drop_white(s@.subrange(start as int, end as int)),
        decreases end,
    {
        assert(s@.subrange(start as int, end as int).drop_last() =~= s@.subrange(
            start as int,
            end - 1,
        ));
        end -= 1;
    }
    &s[start..end]
}

pub(crate) fn words(s: &[char]) -> (r: Vec<&[char]>)
    ensures
        texts(r@) == words_of(s@),
{
    let mut out: Vec<&[char]> = Vec::new();
    let mut pos: usize = 0;
    assert(s@.skip(0) =~= s@);
    assert(texts(out@) + words_of(s@.skip(0)) =~= words_of(s@));
    while pos < s.len()
        invariant
            pos <= s@.len(),
            texts(out@) + words_of(s@.skip(pos as int)) == words_of(s@),
        decreases s@.len() - pos,
    {
        let ghost rest = s@.skip(pos as int);
        if white(s[pos]) {
            assert(rest.skip(1) =~= s@.skip(pos + 1));
            assert(skip_white(rest) == skip_white(rest.skip(1)));
            pos += 1;
        } else {
            let start = pos;
            let ghost before = out@;
            while pos < s.len() && !white(s[pos])
                invariant
                    start <= pos <= s@.len(),
                    rest == s@.skip(start as int),
                    word_len(rest) == pos - start + word_len(s@.skip(pos as int)),
                decreases s@.len() - pos,
            {
                assert(s@.skip(pos as int).skip(1) =~= s@.skip(pos + 1));
                pos += 1;
            }
            out.push(&s[start..pos]);
            proof {
                let n = pos - start;
                assert(word_len(rest) == n);
                assert(rest.take(n) =~= s@.subrange(start as int, pos as int));
                assert(rest.skip(n) =~= s@.skip(pos as int));
                assert(skip_white(rest) == rest);
                assert(texts(out@) =~= texts(before) + seq![rest.take(n)]);
                assert(texts(before) + words_of(rest) =~= texts(out@) + words_of(rest.skip(n)));
            }
        }
    }
    assert(s@.skip(pos as int) =~= Seq::<char>::empty());
    assert(texts(out@) =~= words_of(s@));
    out
}

/// The position of the first `c` at or after `from`, or the length of the slice.
pub(crate) fn position(s: &[char], from: usize, c: char) -> (r: usize)
    requires
        from <= s@.len(),
    ensures
        from <= r <= s@.len(),
        r == from + index_of(s@.skip(from as int), c),
{
    let mut i: usize = from;
    while i < s.len() && s[i] != c
        invariant
            from <= i <= s@.len(),
            i - from + index_of(s@.skip(i as int), c) == index_of(s@.skip(from as int), c),
        decreases s@.len() - i,
    {
        assert(s@.skip(i as int).skip(1) =~= s@.skip(i + 1));
        i += 1;
    }
    i
}

pub(crate) fn lines(s: &[char]) -> (r: Vec<&[char]>)
    ensures
        texts(r@) == lines_of(s@),
{
    let mut out: Vec<&[char]> = Vec::new();
    let mut pos: usize = 0;
    assert(s@.skip(0) =~= s@);
    assert(texts(out@) + lines_of(s@.skip(0)) =~= lines_of(s@));
    while pos < s.len()
        invariant
            pos <= s@.len(),
            texts(out@) + lines_of(s@.skip(pos as int)) == lines_of(s@),
        decreases s@.len() - pos,
    {
        let ghost rest = s@.skip(pos as int);
        let ghost before = out@;
        let end = position(s, pos, '\n');
        let ghost n = end - pos;
        if end == s.len() {
            out.push(&s[pos..end]);
            proof {
                assert(s@.subrange(pos as int, end as int) =~= rest);
                assert(texts(out@) =~= texts(before) + seq![rest]);
                assert(lines_of(rest) =~= seq![rest]);
                assert(s@.skip(end as int) =~= Seq::<char>::empty());
                assert(texts(out@) + lines_of(s@.skip(end as int)) =~= texts(before) + lines_of(
                    rest,
                ));
            }
            pos = end;
        } else {
            let stop = if end > pos && s[end - 1] == '\r' {
                end - 1
            } else {
                end
            };
            out.push(&s[pos..stop]);
            proof {
                let line = without_cr(rest.take(n));
                assert(rest.take(n) =~= s@.subrange(pos as int, end as int));
                assert(line =~= s@.subrange(pos as int, stop as int));
                assert(rest.skip(n + 1) =~= s@.skip(end + 1));
                assert(texts(out@) =~= texts(before) + seq![line]);
                assert(texts(before) + lines_of(rest) =~= texts(out@) + lines_of(rest.skip(n + 1)));
            }
            pos = end + 1;
        }
    }
    assert(s@.skip(pos as int) =~= Seq::<char>::empty());
    assert(texts(out@) =~= lines_of(s@));
    out
}

/// The name and the value of a line `name: value`.
pub(crate) fn field<'a>(line: &'a [char]) -> (r: Option<(&'a [char], &'a [char])>)
    ensures
        match r {
            Some(p) => field_of(line@) == Some((p.0@, p.1@)),
            None => field_of(line@) is None,
        },
{
    proof {
        reveal_strlit(":");
        assert(":"@ =~= seq![':']);
    }
    match split_once(line, ":") {
        Some(p) => Some((trim(p.0), trim(p.1))),
        None => None,
    }
}

/// The pieces of a slice between occurrences of `c`.
pub(crate) fn split(s: &[char], c: char) -> (r: Vec<&[char]>)
    ensures
        texts(r@) == split_of(s@, c),
{
    let mut out: Vec<&[char]> = Vec::new();
    let mut pos: usize = 0;
    assert(s@.skip(0) =~= s@);
    assert(texts(out@) + split_of(s@.skip(0), c) =~= split_of(s@, c));
    loop
        invariant
            pos <= s@.len(),
            texts(out@) + split_of(s@.skip(pos as int), c) == split_of(s@, c),
        decreases s@.len() - pos,
    {
        let ghost rest = s@.skip(pos as int);
        let ghost before = out@;
        let end = position(s, pos, c);
        let ghost n = end - pos;
        out.push(&s[pos..end]);
        proof {
            assert(rest.take(n) =~= s@.subrange(pos as int, end as int));
            assert(texts(out@) =~= texts(before) + seq![rest.take(n)]);
        }
        if end == s.len() {
            proof {
                assert(rest.take(n) =~= rest);
                assert(texts(out@) =~= split_of(s@, c));
            }
            return out;
        }
        proof {
            assert(rest.skip(n + 1) =~= s@.skip(end + 1));
            assert(texts(before) + split_of(rest, c) =~= texts(out@) + split_of(
                rest.skip(n + 1),
                c,
            ));
        }
        pos = end + 1;
    }
}

/// The position of the first occurrence of `pat` at or after `from`.
pub(crate) fn find(s: &[char], from: usize, pat: &str) -> (r: Option<usize>)
    requires
        from <= s@.len(),
    ensures
        match r {
            Some(i) => from <= i && i + pat@.len() <= s@.len() && find_of(s@.skip(from as int), pat@)
                == Some(i - from),
            None => find_of(s@.skip(from as int), pat@) is None,
        },
{
    let ghost all = s@.skip(from as int);
    let mut i: usize = from;
    loop
        invariant
            from <= i <= s@.len(),
            all == s@.skip(from as int),
            match find_of(s@.skip(i as int), pat@) {
                Some(n) => find_of(all, pat@) == Some(n + (i - from)),
                None => find_of(all, pat@) is None,
            },
        decreases s@.len() - i,
    {
        let rest = &s[i..s.len()];
        assert(rest@ =~= s@.skip(i as int));
        if starts_with(rest, pat) {
            return Some(i);
        }
        if i == s.len() {
            return None;
        }
        assert(s@.skip(i as int).skip(1) =~= s@.skip(i + 1));
        i += 1;
    }
}

/// What a slice holds before and after the first occurrence of `pat`.
pub(crate) fn split_once<'a>(s: &'a [char], pat: &str) -> (r: Option<(&'a [char], &'a [char])>)
    ensures
        match r {
            Some(p) => split_once_of(s@, pat@) == Some((p.0@, p.1@)),
            None => split_once_of(s@, pat@) is None,
        },
{
    assert(s@.skip(0) =~= s@);
    match find(s, 0, pat) {
        Some(i) => {
            let n = chars_of(pat).len();
            assert(s@.len() == s.len());
            let p = (&s[0..i], &s[i + n..s.len()]);
            assert(p.0@ =~= s@.take(i as int));
            assert(p.1@ =~= s@.skip(i + pat@.len()));
            Some(p)
        },
        None => None,
    }
}

/// The pieces of a slice between occurrences of a non-empty `pat`.
pub(crate) fn split_text<'a>(s: &'a [char], pat: &str) -> (r: Vec<&'a [char]>)
    requires
        pat@.len() > 0,
    ensures
        texts(r@) == split_text_of(s@, pat@),
{
    let n = chars_of(pat).len();
    let len = s.len();
    let mut out: Vec<&[char]> = Vec::new();
    let mut pos: usize = 0;
    assert(s@.skip(0) =~= s@);
    assert(texts(out@) + split_text_of(s@.skip(0), pat@) =~= split_text_of(s@, pat@));
    loop
        invariant
            n == pat@.len() > 0,
            len == s@.len(),
            pos <= s@.len(),
            texts(out@) + split_text_of(s@.skip(pos as int), pat@) == split_text_of(s@, pat@),
        decreases s@.len() - pos,
    {
        let ghost rest = s@.skip(pos as int);
        let ghost before = out@;
        match find(s, pos, pat) {
            Some(end) => {
                out.push(&s[pos..end]);
                proof {
                    let k = end - pos;
                    assert(rest.take(k) =~= s@.subrange(pos as int, end as int));
                    assert(rest.skip(k + n) =~= s@.skip(end + n));
                    assert(texts(out@) =~= texts(before) + seq![rest.take(k)]);
                    assert(texts(before) + split_text_of(rest, pat@) =~= texts(out@)
                        + split_text_of(rest.skip(k + n), pat@));
                }
                pos = end + n;
            },
            None => {
                out.push(&s[pos..s.len()]);
                proof {
                    assert(s@.subrange(pos as int, s@.len() as int) =~= rest);
                    assert(texts(out@) =~= texts(before) + seq![rest]);
                    assert(texts(out@) =~= split_text_of(s@, pat@));
                }
                return out;
            },
        }
    }
}

/// The characters of a slice without any occurrence of a non-empty `pat`.
pub(crate) fn remove_text(s: &[char], pat: &str) -> (r: Vec<char>)
    requires
        pat@.len() > 0,
    ensures
        r@ == without_text(s@, pat@),
{
    let n = chars_of(pat).len();
    let len = s.len();
    let mut out: Vec<char> = Vec::new();
    let mut pos: usize = 0;
    assert(s@.skip(0) =~= s@);
    assert(out@ + without_text(s@.skip(0), pat@) =~= without_text(s@, pat@));
    loop
        invariant
            n == pat@.len() > 0,
            len == s@.len(),
            pos <= s@.len(),
            out@ + without_text(s@.skip(pos as int), pat@) == without_text(s@, pat@),
        decreases s@.len() - pos,
    {
        let ghost rest = s@.skip(pos as int);
        let ghost before = out@;
        match find(s, pos, pat) {
            Some(end) => {
                append(&mut out, &s[pos..end]);
                proof {
                    let k = end - pos;
                    assert(rest.take(k) =~= s@.subrange(pos as int, end as int));
                    assert(rest.skip(k + n) =~= s@.skip(end + n));
                    assert(before + without_text(rest, pat@) =~= out@ + without_text(
                        rest.skip(k + n),
                        pat@,
                    ));
                }
                pos = end + n;
            },
            None => {
                append(&mut out, &s[pos..s.len()]);
                proof {
                    assert(s@.subrange(pos as int, s@.len() as int) =~= rest);
                    assert(out@ =~= without_text(s@, pat@));
                }
                return out;
            },
        }
    }
}

pub(crate) fn append(out: &mut Vec<char>, s: &[char])
    ensures
        final(out)@ == old(out)@ + s@,
{
    let ghost before = out@;
    for i in 0..s.len()
        invariant
            out@ == before + s@.take(i as int),
    {
        out.push(s[i]);
        assert(out@ =~= before + s@.take(i + 1));
    }
    assert(s@.take(s@.len() as int) =~= s@);
    assert(out@ =~= before + s@);
}

/// The words one after the other, one space between two of them.
pub(crate) fn join_spaced(words: &Vec<&[char]>) -> (r: Vec<char>)
    ensures
        r@ == spaced(texts(words@)),
{
    let mut out: Vec<char> = Vec::new();
    let ghost all = texts(words@);
    assert(all.take(0) =~= Seq::<Seq<char>>::empty());
    for i in 0..words.len()
        invariant
            all == texts(words@),
            out@ == spaced(all.take(i as int)),
    {
        if i > 0 {
            out.push(' ');
        }
        append(&mut out, words[i]);
        proof {
            assert(all.take(i + 1).drop_last() =~= all.take(i as int));
            assert(all.take(i + 1).last() == words@[i as int]@);
            assert(out@ =~= spaced(all.take(i + 1)));
        }
    }
    assert(all.take(all.len() as int) =~= all);
    out
}

pub(crate) fn digits_only(s: &[char]) -> (r: bool)
    ensures
        r == all_digits(s@),
{
    for i in 0..s.len()
        invariant
            forall|j: int| 0 <= j < i ==> '0' <= #[trigger] s@[j] <= '9',
    {
        if !('0' <= s[i] && s[i] <= '9') {
            return false;
        }
    }
    true
}

} // verus!
