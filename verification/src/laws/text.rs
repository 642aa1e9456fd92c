//! Laws of text.

use crate::text;
use vstd::prelude::*;

verus! {

/// White space is the space, the ASCII controls from tab to carriage return, and the
/// spaces and line ends that Unicode has beyond ASCII.
pub proof fn law_white_space(c: char)
    ensures
        c as u32 <= 0x7f ==> (text::is_white(c) <==> c == ' ' || '\t' <= c <= '\r'),
        c as u32 > 0x7f ==> (text::is_white(c) <==> seq![
            0x85u32,
            0xa0,
            0x1680,
            0x2000,
            0x2001,
            0x2002,
            0x2003,
            0x2004,
            0x2005,
            0x2006,
            0x2007,
            0x2008,
            0x2009,
            0x200a,
            0x2028,
            0x2029,
            0x202f,
            0x205f,
            0x3000,
        ].contains(c as u32)),
{
    let all = seq![
        0x85u32,
        0xa0,
        0x1680,
        0x2000,
        0x2001,
        0x2002,
        0x2003,
        0x2004,
        0x2005,
        0x2006,
        0x2007,
        0x2008,
        0x2009,
        0x200a,
        0x2028,
        0x2029,
        0x202f,
        0x205f,
        0x3000,
    ];
    let u = c as u32;
    if u > 0x7f && text::is_white(c) {
        let i: int = if u == 0x85 {
            0
        } else if u == 0xa0 {
            1
        } else if u == 0x1680 {
            2
        } else if u <= 0x200a {
            u - 0x2000 + 3
        } else if u == 0x2028 {
            14
        } else if u == 0x2029 {
            15
        } else if u == 0x202f {
            16
        } else if u == 0x205f {
            17
        } else {
            18
        };
        assert(all[i] == u);
    }
}

proof fn lemma_skipped(s: Seq<char>) -> (n: int)
    ensures
        0 <= n <= s.len(),
        text::skip_white(s) == s.skip(n),
        forall|i: int| 0 <= i < n ==> text::is_white(#[trigger] s[i]),
        n < s.len() ==> !text::is_white(s[n]),
    decreases s.len(),
{
    if s.len() > 0 && text::is_white(s[0]) {
        let rest = s.skip(1);
        let n = lemma_skipped(rest);
        assert(rest.skip(n) =~= s.skip(n + 1));
        assert forall|i: int| 0 <= i < n + 1 implies text::is_white(#[trigger] s[i]) by {
            if i > 0 {
                assert(rest[i - 1] == s[i]);
            }
        }
        n + 1
    } else {
        assert(s.skip(0) =~= s);
        0
    }
}

proof fn lemma_dropped(s: Seq<char>) -> (n: int)
    ensures
        0 <= n <= s.len(),
        text::drop_white(s) == s.take(n),
        forall|i: int| n <= i < s.len() ==> text::is_white(#[trigger] s[i]),
        n > 0 ==> !text::is_white(s[n - 1]),
    decreases s.len(),
{
    if s.len() > 0 && text::is_white(s.last()) {
        let n = lemma_dropped(s.drop_last());
        assert(s.drop_last().take(n) =~= s.take(n));
        assert forall|i: int| n <= i < s.len() implies text::is_white(#[trigger] s[i]) by {
            if i < s.len() - 1 {
                assert(s.drop_last()[i] == s[i]);
            }
        }
        n
    } else {
        assert(s.take(s.len() as int) =~= s);
        s.len() as int
    }
}

/// Trimming takes white space from both ends, all of it and nothing else.
pub proof fn law_trimming(s: Seq<char>)
    ensures
        exists|from: int, to: int|
            {
                &&& 0 <= from <= to <= s.len()
                &&& text::trimmed(s) == #[trigger] s.subrange(from, to)
                &&& forall|i: int| 0 <= i < from || to <= i < s.len() ==> text::is_white(
                    #[trigger] s[i],
                )
            },
        text::trimmed(s).len() > 0 ==> !text::is_white(text::trimmed(s)[0]) && !text::is_white(
            text::trimmed(s).last(),
        ),
{
    let from = lemma_skipped(s);
    let t = s.skip(from);
    let n = lemma_dropped(t);
    assert(t.take(n) =~= s.subrange(from, from + n));
    assert forall|i: int| 0 <= i < from || from + n <= i < s.len() implies text::is_white(
        #[trigger] s[i],
    ) by {
        if i >= from {
            assert(t[i - from] == s[i]);
        }
    }
    if n > 0 {
        assert(t[n - 1] == s[from + n - 1]);
        assert(t[0] == s[from]);
    }
}

/// A text between white space is trimmed to itself, whatever surrounds it.
pub proof fn law_trimming_undoes_padding(front: Seq<char>, s: Seq<char>, back: Seq<char>)
    requires
        forall|i: int| 0 <= i < front.len() ==> text::is_white(#[trigger] front[i]),
        forall|i: int| 0 <= i < back.len() ==> text::is_white(#[trigger] back[i]),
        s.len() > 0 ==> !text::is_white(s[0]) && !text::is_white(s.last()),
    ensures
        text::trimmed(front + s + back) == s,
{
    let all = front + s + back;
    let from = lemma_skipped(all);
    let t = all.skip(from);
    let n = lemma_dropped(t);
    if s.len() > 0 {
        assert(all[front.len() as int] == s[0]);
        assert(from <= front.len()) by {
            if from > front.len() {
                assert(text::is_white(all[front.len() as int]));
            }
        }
        assert(from >= front.len()) by {
            if from < front.len() {
                assert(all[from] == front[from]);
            }
        }
        assert(t[s.len() - 1] == s.last());
        assert(n >= s.len()) by {
            if n < s.len() {
                assert(text::is_white(t[s.len() - 1]));
            }
        }
        assert(n <= s.len()) by {
            if n > s.len() {
                assert(t[n - 1] == back[n - 1 - s.len()]);
            }
        }
        assert(t.take(n) =~= s);
    } else {
        assert(n == 0) by {
            if n > 0 {
                let k = from + n - 1;
                assert(t[n - 1] == all[k]);
                if k < front.len() {
                    assert(all[k] == front[k]);
                } else {
                    assert(all[k] == back[k - front.len()]);
                }
            }
        }
        assert(t.take(n) =~= s);
    }
}

/// Words that are written one space apart are read again.
pub proof fn law_words_read_back(words: Seq<Seq<char>>)
    requires
        forall|i: int, j: int|
            #![trigger words[i][j]]
            0 <= i < words.len() && 0 <= j < words[i].len() ==> !text::is_white(words[i][j]),
        forall|i: int| 0 <= i < words.len() ==> (#[trigger] words[i]).len() > 0,
    ensures
        text::words_of(text::spaced(words)) == words,
    decreases words.len(),
{
    if words.len() == 0 {
        assert(text::words_of(text::spaced(words)) =~= words);
    } else if words.len() == 1 {
        text::lemma_one_word(words[0]);
        assert(seq![words[0]] =~= words);
    } else {
        let front = words.drop_last();
        assert forall|i: int, j: int|
            #![trigger front[i][j]]
            0 <= i < front.len() && 0 <= j < front[i].len() implies !text::is_white(front[i][j]) by {
            assert(words[i][j] == front[i][j]);
        }
        assert forall|i: int| 0 <= i < front.len() implies (#[trigger] front[i]).len() > 0 by {
            assert(words[i] == front[i]);
        }
        law_words_read_back(front);
        let last = words[words.len() - 1];
        assert forall|i: int| 0 <= i < last.len() implies !text::is_white(#[trigger] last[i]) by {
            assert(words[words.len() - 1][i] == last[i]);
        }
        text::lemma_words_apart(text::spaced(front), ' ', last);
        text::lemma_one_word(last);
        assert(words =~= front + seq![last]);
    }
}

/// White space of any kind and amount parts words, and none of it is part of one.
pub proof fn law_white_space_parts_words(a: Seq<char>, gap: Seq<char>, b: Seq<char>)
    requires
        gap.len() > 0,
        forall|i: int| 0 <= i < gap.len() ==> text::is_white(#[trigger] gap[i]),
    ensures
        text::words_of(a + gap + b) == text::words_of(a) + text::words_of(b),
    decreases gap.len(),
{
    if gap.len() == 1 {
        assert(gap =~= seq![gap[0]]);
        text::lemma_words_apart(a, gap[0], b);
    } else {
        let rest = gap.drop_last();
        let w = gap[gap.len() - 1];
        text::lemma_words_apart(a + rest, w, b);
        assert(a + gap + b =~= (a + rest) + seq![w] + b);
        assert forall|i: int| 0 <= i < rest.len() implies text::is_white(#[trigger] rest[i]) by {
            assert(gap[i] == rest[i]);
        }
        law_white_space_parts_words(a, rest, Seq::empty());
        assert(a + rest + Seq::<char>::empty() =~= a + rest);
        assert(text::words_of(Seq::<char>::empty()) =~= Seq::<Seq<char>>::empty());
        assert(text::words_of(a) + text::words_of(Seq::<char>::empty()) =~= text::words_of(a));
    }
}

/// Words of white space alone: none. A text without white space: itself.
pub proof fn law_single_words(s: Seq<char>)
    ensures
        (forall|i: int| 0 <= i < s.len() ==> text::is_white(#[trigger] s[i])) ==> text::words_of(
            s,
        ).len() == 0,
        s.len() > 0 && (forall|i: int| 0 <= i < s.len() ==> !text::is_white(#[trigger] s[i]))
            ==> text::words_of(s) == seq![s],
{
    if forall|i: int| 0 <= i < s.len() ==> text::is_white(#[trigger] s[i]) {
        let n = lemma_skipped(s);
        assert(n == s.len());
    }
    if s.len() > 0 && (forall|i: int| 0 <= i < s.len() ==> !text::is_white(#[trigger] s[i])) {
        text::lemma_one_word(s);
    }
}

/// Words one space apart are the pieces between the spaces.
pub proof fn law_spaced_words_split(words: Seq<Seq<char>>)
    requires
        words.len() > 0,
        forall|i: int, j: int|
            #![trigger words[i][j]]
            0 <= i < words.len() && 0 <= j < words[i].len() ==> words[i][j] != ' ',
    ensures
        text::split_of(text::spaced(words), ' ') == words,
    decreases words.len(),
{
    let last = words[words.len() - 1];
    assert forall|j: int| 0 <= j < last.len() implies #[trigger] last[j] != ' ' by {
        assert(words[words.len() - 1][j] == last[j]);
    }
    text::lemma_index_of(last, ' ');
    assert(text::split_of(last, ' ') =~= seq![last]);
    if words.len() == 1 {
        assert(seq![last] =~= words);
    } else {
        let front = words.drop_last();
        assert forall|i: int, j: int|
            #![trigger front[i][j]]
            0 <= i < front.len() && 0 <= j < front[i].len() implies front[i][j] != ' ' by {
            assert(words[i][j] == front[i][j]);
        }
        law_spaced_words_split(front);
        law_split_joined(text::spaced(front), ' ', last);
        assert(words =~= front + seq![last]);
    }
}

/// What stands on the two sides of a separator is split on its own.
pub proof fn law_split_joined(a: Seq<char>, c: char, b: Seq<char>)
    ensures
        text::split_of(a + seq![c] + b, c) == text::split_of(a, c) + text::split_of(b, c),
        (forall|i: int| 0 <= i < a.len() ==> #[trigger] a[i] != c) ==> text::split_of(a, c)
            == seq![a],
    decreases a.len(),
{
    let s = a + seq![c] + b;
    let n = text::index_of(a, c);
    text::lemma_index_of(a, c);
    text::lemma_index_of(s, c);
    let m = text::index_of(s, c);
    if n >= a.len() {
        assert(s[a.len() as int] == c);
        assert(m == a.len()) by {
            if m < a.len() {
                assert(s[m] == a[m]);
            }
        }
        assert(s.take(m) =~= a);
        assert(s.skip(m + 1) =~= b);
        assert(text::split_of(s, c) =~= text::split_of(a, c) + text::split_of(b, c));
    } else {
        assert(s[n] == a[n]);
        assert(m == n) by {
            if m < n {
                assert(s[m] == a[m]);
            }
        }
        let rest = a.skip(n + 1);
        law_split_joined(rest, c, b);
        assert(s.take(n) =~= a.take(n));
        assert(s.skip(n + 1) =~= rest + seq![c] + b);
        assert(text::split_of(s, c) =~= text::split_of(a, c) + text::split_of(b, c));
    }
}

/// A prefix is what a text begins with.
pub proof fn law_prefix(s: Seq<char>, pat: Seq<char>, rest: Seq<char>)
    ensures
        text::after_prefix(s, pat) == Some(rest) <==> s == pat + rest,
        text::after_prefix(s, pat) is None ==> s != pat + rest,
{
    if s == pat + rest {
        assert(pat =~= s.subrange(0, pat.len() as int));
        assert(s.skip(pat.len() as int) =~= rest);
    }
    if text::after_prefix(s, pat) == Some(rest) {
        assert(s =~= pat + rest);
    }
}

/// A suffix is what a text ends with.
pub proof fn law_suffix(s: Seq<char>, pat: Seq<char>, front: Seq<char>)
    ensures
        text::before_suffix(s, pat) == Some(front) <==> s == front + pat,
        text::before_suffix(s, pat) is None ==> s != front + pat,
{
    if s == front + pat {
        assert(pat =~= s.subrange(s.len() - pat.len(), s.len() as int));
        assert(s.take(s.len() - pat.len()) =~= front);
    }
    if text::before_suffix(s, pat) == Some(front) {
        assert(s =~= front + pat);
    }
}

/// A text is split where `pat` occurs first, and only if it occurs.
pub proof fn law_split_once(s: Seq<char>, pat: Seq<char>)
    ensures
        match text::split_once_of(s, pat) {
            Some((a, b)) => {
                &&& s == a + pat + b
                &&& forall|i: int|
                    0 <= i < a.len() ==> !pat.is_prefix_of(#[trigger] s.skip(i))
            },
            None => forall|i: int| 0 <= i <= s.len() ==> !pat.is_prefix_of(#[trigger] s.skip(i)),
        },
{
    text::lemma_find(s, pat);
    if let Some(n) = text::find_of(s, pat) {
        assert(s.skip(n).subrange(0, pat.len() as int) =~= s.subrange(n, n + pat.len()));
        assert(s =~= s.take(n) + pat + s.skip(n + pat.len()));
    }
}

/// A text is found behind one that does not hold its first character.
proof fn lemma_found_behind(a: Seq<char>, pat: Seq<char>, b: Seq<char>)
    requires
        pat.len() > 0,
        forall|i: int| 0 <= i < a.len() ==> #[trigger] a[i] != pat[0],
    ensures
        text::find_of(a + pat + b, pat) == Some(a.len() as int),
        text::find_of(a, pat) is None,
    decreases a.len(),
{
    let s = a + pat + b;
    if a.len() == 0 {
        assert(pat =~= s.subrange(0, pat.len() as int));
        assert(pat.is_prefix_of(s));
    } else {
        let rest = a.skip(1);
        assert forall|i: int| 0 <= i < rest.len() implies #[trigger] rest[i] != pat[0] by {
            assert(a[i + 1] == rest[i]);
        }
        lemma_found_behind(rest, pat, b);
        assert(s.skip(1) =~= rest + pat + b);
        assert(s[0] == a[0] && a[0] != pat[0]);
        assert(!pat.is_prefix_of(s)) by {
            if pat.is_prefix_of(s) {
                assert(s.subrange(0, pat.len() as int)[0] == s[0]);
            }
        }
        assert(!pat.is_prefix_of(a)) by {
            if pat.is_prefix_of(a) {
                assert(a.subrange(0, pat.len() as int)[0] == a[0]);
            }
        }
    }
}

/// A text that holds `c` once or more is split at the first one.
pub proof fn law_split_once_at(a: Seq<char>, c: char, b: Seq<char>)
    requires
        forall|i: int| 0 <= i < a.len() ==> #[trigger] a[i] != c,
    ensures
        text::split_once_of(a + seq![c] + b, seq![c]) == Some((a, b)),
        text::split_once_of(a, seq![c]) is None,
{
    let s = a + seq![c] + b;
    let n = a.len() as int;
    lemma_found_behind(a, seq![c], b);
    assert(s.take(n) =~= a);
    assert(s.skip(n + 1) =~= b);
}

/// The pieces between the occurrences of `pat`, put together with `pat` between them.
pub open spec fn put_together(pieces: Seq<Seq<char>>, pat: Seq<char>) -> Seq<char>
    decreases pieces.len(),
{
    if pieces.len() == 0 {
        Seq::empty()
    } else if pieces.len() == 1 {
        pieces[0]
    } else {
        pieces[0] + pat + put_together(pieces.skip(1), pat)
    }
}

/// The pieces one behind the other.
pub open spec fn flat(pieces: Seq<Seq<char>>) -> Seq<char>
    decreases pieces.len(),
{
    if pieces.len() == 0 {
        Seq::empty()
    } else {
        pieces[0] + flat(pieces.skip(1))
    }
}

/// Splitting at `pat` loses nothing but `pat`, which no piece holds; taking `pat` out of a
/// text leaves the pieces.
pub proof fn law_split_text(s: Seq<char>, pat: Seq<char>)
    requires
        pat.len() > 0,
    ensures
        text::split_text_of(s, pat).len() > 0,
        put_together(text::split_text_of(s, pat), pat) == s,
        forall|i: int|
            0 <= i < text::split_text_of(s, pat).len() ==> text::find_of(
                #[trigger] text::split_text_of(s, pat)[i],
                pat,
            ) is None,
        text::without_text(s, pat) == flat(text::split_text_of(s, pat)),
    decreases s.len(),
{
    text::lemma_find(s, pat);
    let pieces = text::split_text_of(s, pat);
    match text::find_of(s, pat) {
        Some(n) => {
            let rest = s.skip(n + pat.len());
            law_split_text(rest, pat);
            let more = text::split_text_of(rest, pat);
            assert(pieces == seq![s.take(n)] + more);
            assert(pieces.skip(1) =~= more);
            assert(s.skip(n).subrange(0, pat.len() as int) =~= s.subrange(n, n + pat.len()));
            assert(s =~= s.take(n) + pat + rest);
            text::lemma_find(s.take(n), pat);
            if let Some(k) = text::find_of(s.take(n), pat) {
                assert(s.take(n).skip(k).subrange(0, pat.len() as int) =~= s.skip(k).subrange(
                    0,
                    pat.len() as int,
                ));
                assert(pat.is_prefix_of(s.skip(k)));
            }
            assert forall|i: int| 0 <= i < pieces.len() implies text::find_of(
                #[trigger] pieces[i],
                pat,
            ) is None by {
                if i > 0 {
                    assert(pieces[i] == more[i - 1]);
                }
            }
        },
        None => {
            assert(pieces == seq![s]);
            assert(pieces.skip(1) =~= Seq::<Seq<char>>::empty());
            assert(flat(pieces.skip(1)) =~= Seq::<char>::empty());
            assert(flat(pieces) =~= s);
        },
    }
}

/// A row of columns is split into them again.
pub proof fn law_columns_read_back(pieces: Seq<Seq<char>>, c: char, d: char)
    requires
        pieces.len() > 0,
        c != d,
        forall|i: int, j: int|
            #![trigger pieces[i][j]]
            0 <= i < pieces.len() && 0 <= j < pieces[i].len() ==> pieces[i][j] != c,
    ensures
        text::split_text_of(put_together(pieces, seq![c, d]), seq![c, d]) == pieces,
    decreases pieces.len(),
{
    let pat = seq![c, d];
    let s = put_together(pieces, pat);
    let first = pieces[0];
    assert forall|j: int| 0 <= j < first.len() implies #[trigger] first[j] != c by {
        assert(pieces[0][j] == first[j]);
    }
    if pieces.len() == 1 {
        lemma_found_behind(first, pat, Seq::empty());
        assert(text::split_text_of(s, pat) =~= pieces);
    } else {
        let rest = pieces.skip(1);
        let tail = put_together(rest, pat);
        let n = first.len() as int;
        assert(s == first + pat + tail);
        lemma_found_behind(first, pat, tail);
        assert(s.take(n) =~= first);
        assert(s.skip(n + 2) =~= tail);
        assert forall|i: int, j: int|
            #![trigger rest[i][j]]
            0 <= i < rest.len() && 0 <= j < rest[i].len() implies rest[i][j] != c by {
            assert(pieces[i + 1][j] == rest[i][j]);
        }
        law_columns_read_back(rest, c, d);
        assert(text::split_text_of(s, pat) =~= seq![first] + rest);
        assert(seq![first] + rest =~= pieces);
    }
}

/// A line with its line feed, or with a carriage return and a line feed, is read without
/// them; a last line needs neither.
pub proof fn law_one_line(line: Seq<char>)
    requires
        forall|i: int| 0 <= i < line.len() ==> #[trigger] line[i] != '\n',
    ensures
        text::lines_of(line + seq!['\r', '\n']) == seq![line],
        line.len() == 0 || line.last() != '\r' ==> text::lines_of(line + seq!['\n']) == seq![line],
        line.len() > 0 ==> text::lines_of(line) == seq![line],
        line.len() == 0 ==> text::lines_of(line).len() == 0,
{
    let a = line + seq!['\r', '\n'];
    let b = line + seq!['\n'];
    let n = line.len() as int;
    text::lemma_index_of(a, '\n');
    text::lemma_index_of(b, '\n');
    text::lemma_index_of(line, '\n');
    let ia = text::index_of(a, '\n');
    let ib = text::index_of(b, '\n');
    assert(a[n + 1] == '\n' && a[n] == '\r');
    assert(b[n] == '\n');
    assert(ia == n + 1) by {
        if ia < n {
            assert(a[ia] == line[ia]);
        }
    }
    assert(ib == n) by {
        if ib < n {
            assert(b[ib] == line[ib]);
        }
    }
    assert(text::lines_of(Seq::<char>::empty()) =~= Seq::<Seq<char>>::empty());
    assert(a.take(n + 1).last() == '\r');
    assert(a.take(n + 1).drop_last() =~= line);
    assert(a.skip(n + 2) =~= Seq::<char>::empty());
    assert(text::lines_of(a) =~= seq![line]);
    assert(b.take(n) =~= line);
    assert(b.skip(n + 1) =~= Seq::<char>::empty());
    if line.len() == 0 || line.last() != '\r' {
        assert(text::lines_of(b) =~= seq![line]);
    }
}

/// Lines behind whole lines are read on their own.
pub proof fn law_lines_follow(a: Seq<char>, b: Seq<char>)
    requires
        a.len() > 0 ==> a.last() == '\n',
    ensures
        text::lines_of(a + b) == text::lines_of(a) + text::lines_of(b),
{
    text::lemma_lines_apart(a, b);
}

/// Lines without an empty one among them are one paragraph; an empty one parts two.
pub proof fn law_paragraphs(a: Seq<Seq<char>>, b: Seq<Seq<char>>)
    ensures
        (forall|i: int| 0 <= i < a.len() ==> (#[trigger] a[i]).len() > 0) ==> text::paragraphs_of(a)
            == seq![a],
        text::paragraphs_of(a + seq![Seq::<char>::empty()] + b) == text::paragraphs_of(a)
            + text::paragraphs_of(b),
        text::paragraphs_of(b).len() > 0,
    decreases b.len(),
{
    if forall|i: int| 0 <= i < a.len() ==> (#[trigger] a[i]).len() > 0 {
        lemma_one_paragraph(a);
    }
    let empty = seq![Seq::<char>::empty()];
    let all = a + empty + b;
    let first = text::paragraphs_of(a);
    if b.len() == 0 {
        assert(all.drop_last() =~= a);
        assert(all.last() == Seq::<char>::empty());
        assert(text::paragraphs_of(all) =~= first + text::paragraphs_of(b));
    } else {
        let rest = text::paragraphs_of(b.drop_last());
        law_paragraphs(a, b.drop_last());
        assert(all.drop_last() =~= a + empty + b.drop_last());
        assert(all.last() == b.last());
        assert((first + rest).last() == rest.last());
        assert((first + rest).drop_last() =~= first + rest.drop_last());
        assert(text::paragraphs_of(all) =~= first + text::paragraphs_of(b));
    }
}

proof fn lemma_one_paragraph(a: Seq<Seq<char>>)
    requires
        forall|i: int| 0 <= i < a.len() ==> (#[trigger] a[i]).len() > 0,
    ensures
        text::paragraphs_of(a) == seq![a],
    decreases a.len(),
{
    if a.len() == 0 {
        assert(a =~= Seq::<Seq<char>>::empty());
    } else {
        let front = a.drop_last();
        assert forall|i: int| 0 <= i < front.len() implies (#[trigger] front[i]).len() > 0 by {
            assert(a[i] == front[i]);
        }
        lemma_one_paragraph(front);
        assert(a[a.len() - 1].len() > 0);
        assert(front.push(a.last()) =~= a);
        assert(text::paragraphs_of(a) =~= seq![a]);
    }
}

/// A field is what stands before and behind the first colon of its line, trimmed.
pub proof fn law_field(name: Seq<char>, value: Seq<char>)
    requires
        forall|i: int| 0 <= i < name.len() ==> #[trigger] name[i] != ':',
    ensures
        text::field_of(name + seq![':'] + value) == Some(
            (text::trimmed(name), text::trimmed(value)),
        ),
        text::field_of(name) is None,
{
    law_split_once_at(name, ':', value);
}

/// Of the lines with a name the last one counts; lines with other names do not.
pub proof fn law_last_field_counts(lines: Seq<Seq<char>>, line: Seq<char>, name: Seq<char>)
    ensures
        text::last_field(lines.push(line), name) == (match text::field_of(line) {
            Some(f) if f.0 == name => Some(f.1),
            _ => text::last_field(lines, name),
        }),
        text::last_field(Seq::empty(), name) is None,
{
    assert(lines.push(line).drop_last() =~= lines);
}

/// Of the texts with a prefix the last one counts; others do not.
pub proof fn law_last_after_counts(all: Seq<Seq<char>>, s: Seq<char>, prefix: Seq<char>)
    ensures
        forall|rest: Seq<char>|
            s == prefix + rest ==> #[trigger] text::last_after(all.push(s), prefix) == Some(rest),
        !prefix.is_prefix_of(s) ==> text::last_after(all.push(s), prefix) == text::last_after(
            all,
            prefix,
        ),
        text::last_after(Seq::empty(), prefix) is None,
{
    assert(all.push(s).drop_last() =~= all);
    assert forall|rest: Seq<char>| s == prefix + rest implies #[trigger] text::last_after(
        all.push(s),
        prefix,
    ) == Some(rest) by {
        law_prefix(s, prefix, rest);
    }
}

/// Digits are the characters `0` to `9`.
pub proof fn law_digits(s: Seq<char>)
    ensures
        text::all_digits(s) <==> forall|i: int|
            0 <= i < s.len() ==> "0123456789"@.contains(#[trigger] s[i]),
{
    reveal_strlit("0123456789");
    let d = "0123456789"@;
    if text::all_digits(s) {
        assert forall|i: int| 0 <= i < s.len() implies d.contains(#[trigger] s[i]) by {
            let k = s[i] as int - '0' as int;
            assert(d[k] == s[i]);
        }
    }
    if forall|i: int| 0 <= i < s.len() ==> d.contains(#[trigger] s[i]) {
        assert forall|i: int| 0 <= i < s.len() implies '0' <= #[trigger] s[i] <= '9' by {
            let k = choose|k: int| 0 <= k < d.len() && d[k] == s[i];
        }
    }
}

/// Lists of texts hold the texts in their order.
pub proof fn law_lists_of_texts(v: Seq<&[char]>, s: Option<String>)
    ensures
        text::texts(v).len() == v.len(),
        forall|i: int| 0 <= i < v.len() ==> #[trigger] text::texts(v)[i] == v[i]@,
        match s {
            Some(t) => text::maybe(s) == Some(t@),
            None => text::maybe(s) is None,
        },
{
}

/// What an optional reference refers to is there if and only if the reference is.
pub proof fn law_given<T: View + ?Sized>(x: Option<&T>)
    ensures
        match x {
            Some(v) => text::given(x) == Some(v@),
            None => text::given(x) is None,
        },
{
}

} // verus!
