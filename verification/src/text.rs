//! Character-level text utilities shared by the line codecs: conversion
//! between strings and character vectors, whitespace handling, word and line
//! splitting, joining, substring search and decimal numerals.
use vstd::prelude::*;
use vstd::slice::slice_subrange;

verus! {

broadcast use vstd::string::group_string_axioms;

/// The characters `str::split_whitespace` and `str::trim` treat as
/// whitespace (the Unicode `White_Space` set).
pub open spec fn ws_char(c: char) -> bool {
    ||| c == '\u{0009}'
    ||| c == '\u{000A}'
    ||| c == '\u{000B}'
    ||| c == '\u{000C}'
    ||| c == '\u{000D}'
    ||| c == ' '
    ||| c == '\u{0085}'
    ||| c == '\u{00A0}'
    ||| c == '\u{1680}'
    ||| ('\u{2000}' <= c && c <= '\u{200A}')
    ||| c == '\u{2028}'
    ||| c == '\u{2029}'
    ||| c == '\u{202F}'
    ||| c == '\u{205F}'
    ||| c == '\u{3000}'
}

pub fn is_ws_char(c: char) -> (r: bool)
    ensures
        r == ws_char(c),
{
    c == '\u{0009}' || c == '\u{000A}' || c == '\u{000B}' || c == '\u{000C}' || c == '\u{000D}'
        || c == ' ' || c == '\u{0085}' || c == '\u{00A0}' || c == '\u{1680}'
        || ('\u{2000}' <= c && c <= '\u{200A}') || c == '\u{2028}' || c == '\u{2029}'
        || c == '\u{202F}' || c == '\u{205F}' || c == '\u{3000}'
}

/// Collects the characters of a string slice into a vector.
pub fn str_chars(s: &str) -> (r: Vec<char>)
    ensures
        r@ == s@,
{
    let mut out: Vec<char> = Vec::new();
    for c in it: s.chars()
        invariant
            it.seq() == s@,
            out@ == it.seq().take(it.index() as int),
    {
        out.push(c);
    }
    proof {
        assert(out@ =~= s@);
    }
    out
}

/// Relies on `FromIterator<char> for String`: collecting characters yields
/// the string of exactly those characters, in order.
#[verifier::external_body]
pub fn chars_string(v: &[char]) -> (r: String)
    ensures
        r@ == v@,
{
    v.iter().collect()
}

/// Copies `v[lo..hi]` into a fresh vector.
pub fn subvec(v: &[char], lo: usize, hi: usize) -> (r: Vec<char>)
    requires
        lo <= hi <= v@.len(),
    ensures
        r@ == v@.subrange(lo as int, hi as int),
{
    let mut out: Vec<char> = Vec::new();
    let mut i: usize = lo;
    while i < hi
        invariant
            lo <= i <= hi <= v@.len(),
            out@ == v@.subrange(lo as int, i as int),
        decreases hi - i,
    {
        out.push(v[i]);
        i += 1;
        proof {
            assert(out@ =~= v@.subrange(lo as int, i as int));
        }
    }
    out
}

/// Appends all of `src` to `out`.
pub fn push_all(out: &mut Vec<char>, src: &[char])
    ensures
        final(out)@ == old(out)@ + src@,
{
    let mut i: usize = 0;
    while i < src.len()
        invariant
            i <= src@.len(),
            out@ == old(out)@ + src@.take(i as int),
        decreases src@.len() - i,
    {
        out.push(src[i]);
        i += 1;
        proof {
            assert(old(out)@ + src@.take(i as int) =~= (old(out)@ + src@.take(i - 1)).push(
                src@[i - 1],
            ));
        }
    }
    proof {
        assert(src@.take(src@.len() as int) =~= src@);
    }
}

/// The sequence with leading whitespace removed.
pub open spec fn trim_front(s: Seq<char>) -> Seq<char>
    decreases s.len(),
{
    if s.len() > 0 && ws_char(s[0]) {
        trim_front(s.drop_first())
    } else {
        s
    }
}

/// The sequence with trailing whitespace removed.
pub open spec fn trim_back(s: Seq<char>) -> Seq<char>
    decreases s.len(),
{
    if s.len() > 0 && ws_char(s.last()) {
        trim_back(s.drop_last())
    } else {
        s
    }
}

pub open spec fn trim_both(s: Seq<char>) -> Seq<char> {
    trim_back(trim_front(s))
}

pub proof fn lemma_trim_front_len(s: Seq<char>)
    ensures
        trim_front(s).len() <= s.len(),
    decreases s.len(),
{
    if s.len() > 0 && ws_char(s[0]) {
        lemma_trim_front_len(s.drop_first());
    }
}

/// Index of the first non-whitespace character, or `s.len()` if none.
pub fn trim_front_index(v: &[char]) -> (r: usize)
    ensures
        r <= v@.len(),
        trim_front(v@) == v@.subrange(r as int, v@.len() as int),
        forall|j: int| 0 <= j < r ==> ws_char(v@[j]),
        r < v@.len() ==> !ws_char(v@[r as int]),
{
    proof {
        assert(v@.subrange(0, v@.len() as int) =~= v@);
    }
    let mut i: usize = 0;
    while i < v.len() && is_ws_char(v[i])
        invariant
            i <= v@.len(),
            trim_front(v@) == trim_front(v@.subrange(i as int, v@.len() as int)),
            forall|j: int| 0 <= j < i ==> ws_char(v@[j]),
        decreases v@.len() - i,
    {
        proof {
            let sub = v@.subrange(i as int, v@.len() as int);
            assert(sub.drop_first() =~= v@.subrange(i + 1, v@.len() as int));
        }
        i += 1;
    }
    proof {
        let sub = v@.subrange(i as int, v@.len() as int);
        assert(trim_front(sub) == sub);
    }
    i
}

/// One past the last non-whitespace character, or `0` if all whitespace.
pub fn trim_back_index(v: &[char]) -> (r: usize)
    ensures
        r <= v@.len(),
        trim_back(v@) == v@.subrange(0, r as int),
        r > 0 ==> !ws_char(v@[r - 1]),
        forall|j: int| r <= j < v@.len() ==> ws_char(v@[j]),
{
    proof {
        assert(v@.subrange(0, v@.len() as int) =~= v@);
    }
    let mut i: usize = v.len();
    while i > 0 && is_ws_char(v[i - 1])
        invariant
            i <= v@.len(),
            trim_back(v@) == trim_back(v@.subrange(0, i as int)),
            forall|j: int| i <= j < v@.len() ==> ws_char(v@[j]),
        decreases i,
    {
        proof {
            let sub = v@.subrange(0, i as int);
            assert(sub.drop_last() =~= v@.subrange(0, i - 1));
        }
        i -= 1;
    }
    proof {
        let sub = v@.subrange(0, i as int);
        assert(trim_back(sub) == sub);
    }
    i
}

/// Trims leading whitespace, returning a fresh vector.
pub fn trim_front_vec(v: &[char]) -> (r: Vec<char>)
    ensures
        r@ == trim_front(v@),
{
    let lo = trim_front_index(v);
    subvec(v, lo, v.len())
}

/// Trims whitespace from both ends, returning a fresh vector.
pub fn trim_vec(v: &[char]) -> (r: Vec<char>)
    ensures
        r@ == trim_both(v@),
{
    let lo = trim_front_index(v);
    let sub = slice_subrange(v, lo, v.len());
    let hi = trim_back_index(sub);
    let out = subvec(sub, 0, hi);
    out
}

/// True iff `pat` occurs in `s` starting at index `i`.
pub open spec fn match_at(s: Seq<char>, pat: Seq<char>, i: int) -> bool {
    0 <= i && i + pat.len() <= s.len() && s.subrange(i, i + pat.len()) == pat
}

/// Whether `v` starts with `pat` at offset `at`.
pub fn matches_at(v: &[char], at: usize, pat: &[char]) -> (r: bool)
    requires
        at <= v@.len(),
    ensures
        r == match_at(v@, pat@, at as int),
{
    if v.len() - at < pat.len() {
        return false;
    }
    let vlen = v.len();
    let mut i: usize = 0;
    while i < pat.len()
        invariant
            i <= pat@.len(),
            at + pat@.len() <= vlen == v@.len(),
            forall|j: int| 0 <= j < i ==> v@[at + j] == pat@[j],
        decreases pat@.len() - i,
    {
        assert(at + i < vlen);
        if v[at + i] != pat[i] {
            proof {
                assert(v@.subrange(at as int, at + pat@.len())[i as int] == v@[at + i]);
            }
            return false;
        }
        i += 1;
    }
    proof {
        assert(v@.subrange(at as int, at + pat@.len()) =~= pat@);
    }
    true
}

/// Whether two character slices hold the same characters.
pub fn chars_eq(a: &[char], b: &[char]) -> (r: bool)
    ensures
        r == (a@ == b@),
{
    if a.len() != b.len() {
        proof {
            assert(a@ != b@);
        }
        return false;
    }
    let r = matches_at(a, 0, b);
    proof {
        assert(a@.subrange(0, a@.len() as int) =~= a@);
    }
    r
}

/// The views of a sequence of character vectors.
pub open spec fn deep(vs: Seq<Vec<char>>) -> Seq<Seq<char>> {
    vs.map_values(|w: Vec<char>| w@)
}

/// A pending word: emitted only if non-empty.
pub open spec fn emit_word(cur: Seq<char>) -> Seq<Seq<char>> {
    if cur.len() > 0 {
        seq![cur]
    } else {
        seq![]
    }
}

/// Whitespace splitting, scanning `s` with `cur` the word read so far.
pub open spec fn words_rec(s: Seq<char>, cur: Seq<char>) -> Seq<Seq<char>>
    decreases s.len(),
{
    if s.len() == 0 {
        emit_word(cur)
    } else if ws_char(s[0]) {
        emit_word(cur) + words_rec(s.drop_first(), Seq::empty())
    } else {
        words_rec(s.drop_first(), cur.push(s[0]))
    }
}

/// The whitespace-separated words of `s`, as `str::split_whitespace` yields
/// them.
pub open spec fn words_of(s: Seq<char>) -> Seq<Seq<char>> {
    words_rec(s, Seq::empty())
}

/// Splits `v` into whitespace-separated words.
pub fn split_words(v: &[char]) -> (r: Vec<Vec<char>>)
    ensures
        deep(r@) == words_of(v@),
{
    let mut out: Vec<Vec<char>> = Vec::new();
    let mut cur: Vec<char> = Vec::new();
    let mut i: usize = 0;
    proof {
        assert(v@.skip(0) =~= v@);
    }
    while i < v.len()
        invariant
            i <= v@.len(),
            words_of(v@) == deep(out@) + words_rec(v@.skip(i as int), cur@),
        decreases v@.len() - i,
    {
        let ghost pre = v@.skip(i as int);
        proof {
            assert(pre.drop_first() =~= v@.skip(i + 1));
        }
        let ghost cur0 = cur@;
        let ghost out0 = out@;
        if is_ws_char(v[i]) {
            if cur.len() > 0 {
                out.push(cur);
                cur = Vec::new();
                proof {
                    assert(deep(out@) =~= deep(out0).push(cur0));
                }
            } else {
                proof {
                    assert(cur@ =~= Seq::<char>::empty());
                }
            }
            proof {
                assert(cur@ == Seq::<char>::empty());
                assert(deep(out@) + words_rec(pre.drop_first(), Seq::empty()) =~= deep(out0)
                    + words_rec(pre, cur0));
            }
        } else {
            cur.push(v[i]);
            proof {
                assert(pre[0] == v@[i as int]);
                assert(words_rec(pre, cur0) == words_rec(pre.drop_first(), cur@));
            }
        }
        i += 1;
    }
    let ghost out1 = out@;
    let ghost cur1 = cur@;
    if cur.len() > 0 {
        out.push(cur);
        proof {
            assert(deep(out@) =~= deep(out1).push(cur1));
        }
    }
    proof {
        assert(v@.skip(v@.len() as int) =~= Seq::<char>::empty());
        assert(deep(out@) =~= deep(out1) + emit_word(cur1));
        assert(words_of(v@) =~= deep(out@));
    }
    out
}

/// The parts joined with `sep` between consecutive parts.
pub open spec fn join_with(parts: Seq<Seq<char>>, sep: Seq<char>) -> Seq<char>
    decreases parts.len(),
{
    if parts.len() == 0 {
        Seq::empty()
    } else if parts.len() == 1 {
        parts[0]
    } else {
        parts[0] + sep + join_with(parts.drop_first(), sep)
    }
}

pub proof fn lemma_join_push(parts: Seq<Seq<char>>, sep: Seq<char>, w: Seq<char>)
    ensures
        join_with(parts.push(w), sep) == if parts.len() == 0 {
            w
        } else {
            join_with(parts, sep) + sep + w
        },
    decreases parts.len(),
{
    if parts.len() == 0 {
        assert(parts.push(w)[0] == w);
        assert(join_with(parts.push(w), sep) == w);
    } else if parts.len() == 1 {
        assert(parts.push(w).drop_first() =~= seq![w]);
        assert(join_with(seq![w], sep) == w);
        assert(parts.push(w)[0] == parts[0]);
        assert(join_with(parts.push(w), sep) == parts[0] + sep + w);
    } else {
        assert(parts.push(w).drop_first() =~= parts.drop_first().push(w));
        lemma_join_push(parts.drop_first(), sep, w);
        assert(join_with(parts, sep) + sep + w =~= parts[0] + sep + (join_with(
            parts.drop_first(),
            sep,
        ) + sep + w));
    }
}

/// Joins the parts with the separator.
pub fn join_chars(parts: &Vec<Vec<char>>, sep: &[char]) -> (r: Vec<char>)
    ensures
        r@ == join_with(deep(parts@), sep@),
{
    let mut out: Vec<char> = Vec::new();
    let mut i: usize = 0;
    while i < parts.len()
        invariant
            i <= parts@.len(),
            out@ == join_with(deep(parts@.take(i as int)), sep@),
        decreases parts@.len() - i,
    {
        if i > 0 {
            push_all(&mut out, sep);
        }
        push_all(&mut out, parts[i].as_slice());
        proof {
            assert(deep(parts@.take(i + 1)) =~= deep(parts@.take(i as int)).push(parts@[i as int]@));
            lemma_join_push(deep(parts@.take(i as int)), sep@, parts@[i as int]@);
        }
        i += 1;
    }
    proof {
        assert(parts@.take(parts@.len() as int) =~= parts@);
    }
    out
}

/// A word fit for joining: non-empty, with no whitespace characters.
pub open spec fn plain_word(w: Seq<char>) -> bool {
    w.len() > 0 && forall|i: int| 0 <= i < w.len() ==> !ws_char(#[trigger] w[i])
}

/// Scanning a whitespace-free block just extends the current word.
pub proof fn lemma_words_rec_block(w: Seq<char>, s: Seq<char>, cur: Seq<char>)
    requires
        forall|i: int| 0 <= i < w.len() ==> !ws_char(#[trigger] w[i]),
    ensures
        words_rec(w + s, cur) == words_rec(s, cur + w),
    decreases w.len(),
{
    if w.len() == 0 {
        assert(w + s =~= s);
        assert(cur + w =~= cur);
    } else {
        assert((w + s)[0] == w[0]);
        assert((w + s).drop_first() =~= w.drop_first() + s);
        lemma_words_rec_block(w.drop_first(), s, cur.push(w[0]));
        assert(cur.push(w[0]) + w.drop_first() =~= cur + w);
    }
}

/// Splitting the joined words gives the words back, when every word is
/// non-empty and whitespace-free.
pub proof fn lemma_words_of_join(ws: Seq<Seq<char>>)
    requires
        forall|k: int| 0 <= k < ws.len() ==> plain_word(#[trigger] ws[k]),
    ensures
        words_of(join_with(ws, seq![' '])) == ws,
    decreases ws.len(),
{
    let sp = seq![' '];
    if ws.len() == 0 {
        assert(words_of(join_with(ws, sp)) =~= ws);
    } else if ws.len() == 1 {
        lemma_words_rec_block(ws[0], Seq::empty(), Seq::empty());
        assert(ws[0] + Seq::<char>::empty() =~= ws[0]);
        assert(Seq::<char>::empty() + ws[0] =~= ws[0]);
        assert(words_rec(Seq::empty(), ws[0]) == emit_word(ws[0]));
        assert(emit_word(ws[0]) =~= ws);
    } else {
        let rest = ws.drop_first();
        let j = join_with(rest, sp);
        assert(join_with(ws, sp) == ws[0] + sp + j);
        lemma_words_rec_block(ws[0], sp + j, Seq::empty());
        assert(ws[0] + (sp + j) =~= ws[0] + sp + j);
        assert(Seq::<char>::empty() + ws[0] =~= ws[0]);
        assert((sp + j)[0] == ' ');
        assert((sp + j).drop_first() =~= j);
        assert(words_rec(sp + j, ws[0]) == emit_word(ws[0]) + words_rec(j, Seq::empty()));
        lemma_words_of_join(rest);
        assert(emit_word(ws[0]) + rest =~= ws);
    }
}

/// Joining non-empty word lists concatenates through a single space.
pub proof fn lemma_join_concat(a: Seq<Seq<char>>, b: Seq<Seq<char>>, sep: Seq<char>)
    requires
        a.len() > 0,
        b.len() > 0,
    ensures
        join_with(a + b, sep) == join_with(a, sep) + sep + join_with(b, sep),
    decreases a.len(),
{
    if a.len() == 1 {
        assert((a + b)[0] == a[0]);
        assert((a + b).drop_first() =~= b);
        assert(a + b =~= seq![a[0]] + b);
        assert(join_with(a + b, sep) == a[0] + sep + join_with(b, sep));
        assert(join_with(a, sep) == a[0]);
    } else {
        assert((a + b)[0] == a[0]);
        assert((a + b).drop_first() =~= a.drop_first() + b);
        lemma_join_concat(a.drop_first(), b, sep);
        assert(join_with(a + b, sep) == a[0] + sep + (join_with(a.drop_first(), sep) + sep
            + join_with(b, sep)));
        assert(join_with(a, sep) + sep + join_with(b, sep) =~= a[0] + sep + (join_with(
            a.drop_first(),
            sep,
        ) + sep + join_with(b, sep)));
    }
}

/// The first and last characters of joined plain words are the first
/// word's first and the last word's last; the join is never empty.
pub proof fn lemma_join_ends(ws: Seq<Seq<char>>)
    requires
        ws.len() > 0,
        forall|k: int| 0 <= k < ws.len() ==> plain_word(#[trigger] ws[k]),
    ensures
        join_with(ws, seq![' ']).len() > 0,
        join_with(ws, seq![' '])[0] == ws[0][0],
        join_with(ws, seq![' ']).last() == ws.last().last(),
    decreases ws.len(),
{
    let sp = seq![' '];
    if ws.len() == 1 {
    } else {
        lemma_join_ends(ws.drop_first());
        let j = join_with(ws.drop_first(), sp);
        assert(join_with(ws, sp) == ws[0] + sp + j);
        assert((ws[0] + sp + j)[0] == ws[0][0]);
        assert((ws[0] + sp + j).last() == j.last());
        assert(ws.drop_first().last() == ws.last());
    }
}

/// Joined plain words have no leading or trailing whitespace to trim.
pub proof fn lemma_trim_join(ws: Seq<Seq<char>>)
    requires
        ws.len() > 0,
        forall|k: int| 0 <= k < ws.len() ==> plain_word(#[trigger] ws[k]),
    ensures
        trim_both(join_with(ws, seq![' '])) == join_with(ws, seq![' ']),
        trim_front(join_with(ws, seq![' '])) == join_with(ws, seq![' ']),
    {
    lemma_join_ends(ws);
    let j = join_with(ws, seq![' ']);
    assert(!ws_char(j[0]));
    assert(!ws_char(j.last()));
    assert(trim_front(j) == j);
    assert(trim_back(j) == j);
}

/// A line with one trailing carriage return removed, as `str::lines` does
/// for `\r\n` endings.
pub open spec fn strip_cr(l: Seq<char>) -> Seq<char> {
    if l.len() > 0 && l.last() == '\r' {
        l.drop_last()
    } else {
        l
    }
}

/// Line splitting with `str::lines` semantics: terminated by `\n` (a
/// preceding `\r` is dropped), final line ending optional.
pub open spec fn lines_rec(s: Seq<char>, cur: Seq<char>) -> Seq<Seq<char>>
    decreases s.len(),
{
    if s.len() == 0 {
        emit_word(cur)
    } else if s[0] == '\n' {
        seq![strip_cr(cur)] + lines_rec(s.drop_first(), Seq::empty())
    } else {
        lines_rec(s.drop_first(), cur.push(s[0]))
    }
}

pub open spec fn lines_of(s: Seq<char>) -> Seq<Seq<char>> {
    lines_rec(s, Seq::empty())
}

/// Scanning a newline-free block just extends the current line.
pub proof fn lemma_lines_rec_block(w: Seq<char>, s: Seq<char>, cur: Seq<char>)
    requires
        forall|i: int| 0 <= i < w.len() ==> #[trigger] w[i] != '\n',
    ensures
        lines_rec(w + s, cur) == lines_rec(s, cur + w),
    decreases w.len(),
{
    if w.len() == 0 {
        assert(w + s =~= s);
        assert(cur + w =~= cur);
    } else {
        assert((w + s)[0] == w[0]);
        assert((w + s).drop_first() =~= w.drop_first() + s);
        lemma_lines_rec_block(w.drop_first(), s, cur.push(w[0]));
        assert(cur.push(w[0]) + w.drop_first() =~= cur + w);
    }
}

/// No line produced by the splitter contains a newline.
pub proof fn lemma_lines_rec_no_newline(s: Seq<char>, cur: Seq<char>)
    requires
        forall|i: int| 0 <= i < cur.len() ==> #[trigger] cur[i] != '\n',
    ensures
        forall|k: int, i: int|
            0 <= k < lines_rec(s, cur).len() && 0 <= i < lines_rec(s, cur)[k].len()
                ==> #[trigger] lines_rec(s, cur)[k][i] != '\n',
    decreases s.len(),
{
    if s.len() == 0 {
        let whole = lines_rec(s, cur);
        assert(whole == emit_word(cur));
        assert forall|k: int, i: int|
            0 <= k < whole.len() && 0 <= i < whole[k].len() implies #[trigger] whole[k][i]
            != '\n' by {
            assert(whole[k] == cur);
        }
    } else if s[0] == '\n' {
        lemma_lines_rec_no_newline(s.drop_first(), Seq::empty());
        let whole = lines_rec(s, cur);
        let tail = lines_rec(s.drop_first(), Seq::empty());
        assert(whole == seq![strip_cr(cur)] + tail);
        assert forall|k: int, i: int|
            0 <= k < whole.len() && 0 <= i < whole[k].len() implies #[trigger] whole[k][i]
            != '\n' by {
            if k == 0 {
                assert(whole[0] == strip_cr(cur));
                if cur.len() > 0 && cur.last() == '\r' {
                    assert(whole[0] == cur.drop_last());
                    assert(whole[0][i] == cur[i]);
                } else {
                    assert(whole[0] == cur);
                }
            } else {
                assert(whole[k] == tail[k - 1]);
            }
        }
    } else {
        assert forall|i: int| 0 <= i < cur.push(s[0]).len() implies #[trigger] cur.push(s[0])[i]
            != '\n' by {
            if i < cur.len() {
                assert(cur.push(s[0])[i] == cur[i]);
            } else {
                assert(cur.push(s[0])[i] == s[0]);
            }
        }
        lemma_lines_rec_no_newline(s.drop_first(), cur.push(s[0]));
        assert(lines_rec(s, cur) == lines_rec(s.drop_first(), cur.push(s[0])));
    }
}

/// When the text does not end with a newline, the last line is the
/// non-empty remainder.
pub proof fn lemma_lines_rec_last_nonempty(s: Seq<char>, cur: Seq<char>)
    requires
        s.len() > 0 || cur.len() > 0,
        s.len() > 0 ==> s.last() != '\n',
    ensures
        lines_rec(s, cur).len() > 0,
        lines_rec(s, cur).last().len() > 0,
    decreases s.len(),
{
    if s.len() == 0 {
    } else if s[0] == '\n' {
        assert(s.drop_first().len() > 0) by {
            if s.len() == 1 {
                assert(s.last() == '\n');
            }
        }
        lemma_lines_rec_last_nonempty(s.drop_first(), Seq::empty());
        let whole = lines_rec(s, cur);
        let tail = lines_rec(s.drop_first(), Seq::empty());
        assert(whole == seq![strip_cr(cur)] + tail);
        assert(whole.last() == tail.last());
    } else {
        lemma_lines_rec_last_nonempty(s.drop_first(), cur.push(s[0]));
    }
}

/// The last character of a join is the last line's last character.
pub proof fn lemma_join_last(ls: Seq<Seq<char>>, sep: Seq<char>)
    requires
        ls.len() > 0,
        ls.last().len() > 0,
    ensures
        join_with(ls, sep).len() > 0,
        join_with(ls, sep).last() == ls.last().last(),
    decreases ls.len(),
{
    if ls.len() == 1 {
    } else {
        lemma_join_last(ls.drop_first(), sep);
        assert(join_with(ls, sep) == ls[0] + sep + join_with(ls.drop_first(), sep));
        assert((ls[0] + sep + join_with(ls.drop_first(), sep)).last() == join_with(
            ls.drop_first(),
            sep,
        ).last());
        assert(ls.drop_first().last() == ls.last());
    }
}

/// Splitting the newline-joined lines gives the lines back, when no line
/// holds a newline or ends with a carriage return; without a trailing
/// newline the last line must be non-empty.
pub proof fn lemma_lines_of_join(ls: Seq<Seq<char>>, trailing: bool)
    requires
        ls.len() > 0,
        forall|k: int, i: int|
            0 <= k < ls.len() && 0 <= i < ls[k].len() ==> #[trigger] ls[k][i] != '\n',
        forall|k: int| 0 <= k < ls.len() ==> !((#[trigger] ls[k]).len() > 0 && ls[k].last() == '\r'),
        !trailing ==> ls.last().len() > 0,
    ensures
        lines_of(
            join_with(ls, seq!['\n']) + (if trailing {
                seq!['\n']
            } else {
                Seq::<char>::empty()
            }),
        ) == ls,
    decreases ls.len(),
{
    let nl = seq!['\n'];
    let tr: Seq<char> = if trailing {
        seq!['\n']
    } else {
        Seq::empty()
    };
    let s = join_with(ls, nl) + tr;
    if ls.len() == 1 {
        if trailing {
            assert(s =~= ls[0] + seq!['\n']);
            lemma_lines_rec_block(ls[0], seq!['\n'], Seq::empty());
            assert(Seq::<char>::empty() + ls[0] =~= ls[0]);
            assert(seq!['\n'][0] == '\n');
            assert(seq!['\n'].drop_first() =~= Seq::<char>::empty());
            assert(lines_rec(seq!['\n'], ls[0]) == seq![strip_cr(ls[0])] + lines_rec(
                Seq::<char>::empty(),
                Seq::empty(),
            ));
            assert(lines_rec(Seq::<char>::empty(), Seq::<char>::empty()) =~= Seq::<
                Seq<char>,
            >::empty());
            assert(strip_cr(ls[0]) == ls[0]);
            assert(seq![ls[0]] + Seq::<Seq<char>>::empty() =~= ls);
        } else {
            assert(s =~= ls[0]);
            lemma_lines_rec_block(ls[0], Seq::empty(), Seq::empty());
            assert(ls[0] + Seq::<char>::empty() =~= ls[0]);
            assert(Seq::<char>::empty() + ls[0] =~= ls[0]);
            assert(lines_rec(Seq::<char>::empty(), ls[0]) == emit_word(ls[0]));
            assert(emit_word(ls[0]) =~= ls);
        }
    } else {
        let rest = ls.drop_first();
        let j = join_with(rest, nl);
        assert(join_with(ls, nl) == ls[0] + nl + j);
        assert(s =~= ls[0] + (nl + (j + tr)));
        lemma_lines_rec_block(ls[0], nl + (j + tr), Seq::empty());
        assert(Seq::<char>::empty() + ls[0] =~= ls[0]);
        assert((nl + (j + tr))[0] == '\n');
        assert((nl + (j + tr)).drop_first() =~= j + tr);
        assert(lines_rec(nl + (j + tr), ls[0]) == seq![strip_cr(ls[0])] + lines_rec(
            j + tr,
            Seq::empty(),
        ));
        assert(strip_cr(ls[0]) == ls[0]);
        assert forall|k: int, i: int|
            0 <= k < rest.len() && 0 <= i < rest[k].len() implies #[trigger] rest[k][i] != '\n' by {
            assert(rest[k] == ls[k + 1]);
            assert(ls[k + 1][i] != '\n');
        }
        assert forall|k: int|
            0 <= k < rest.len() implies !((#[trigger] rest[k]).len() > 0 && rest[k].last()
            == '\r') by {
            assert(rest[k] == ls[k + 1]);
        }
        assert(rest.last() == ls.last());
        lemma_lines_of_join(rest, trailing);
        assert(seq![ls[0]] + rest =~= ls);
    }
}

/// Splits `v` into lines as `str::lines` does.
pub fn split_lines(v: &[char]) -> (r: Vec<Vec<char>>)
    ensures
        deep(r@) == lines_of(v@),
{
    let mut out: Vec<Vec<char>> = Vec::new();
    let mut cur: Vec<char> = Vec::new();
    let mut i: usize = 0;
    proof {
        assert(v@.skip(0) =~= v@);
    }
    while i < v.len()
        invariant
            i <= v@.len(),
            lines_of(v@) == deep(out@) + lines_rec(v@.skip(i as int), cur@),
        decreases v@.len() - i,
    {
        let ghost pre = v@.skip(i as int);
        proof {
            assert(pre.drop_first() =~= v@.skip(i + 1));
        }
        if v[i] == '\n' {
            let ghost cur0 = cur@;
            if cur.len() > 0 && cur[cur.len() - 1] == '\r' {
                cur.pop();
            }
            proof {
                assert(cur@ == strip_cr(cur0));
            }
            let ghost out0 = out@;
            out.push(cur);
            cur = Vec::new();
            proof {
                assert(deep(out@) =~= deep(out0) + seq![out@.last()@]);
            }
        } else {
            cur.push(v[i]);
        }
        i += 1;
    }
    if cur.len() > 0 {
        let ghost out0 = out@;
        out.push(cur);
        proof {
            assert(deep(out@) =~= deep(out0) + emit_word(out@.last()@));
        }
    }
    proof {
        assert(deep(out@) =~= deep(out@) + Seq::<Seq<char>>::empty());
    }
    out
}

pub open spec fn dec_digit(c: char) -> bool {
    '0' <= c && c <= '9'
}

pub open spec fn digit_of(n: int) -> char {
    if n == 0 {
        '0'
    } else if n == 1 {
        '1'
    } else if n == 2 {
        '2'
    } else if n == 3 {
        '3'
    } else if n == 4 {
        '4'
    } else if n == 5 {
        '5'
    } else if n == 6 {
        '6'
    } else if n == 7 {
        '7'
    } else if n == 8 {
        '8'
    } else {
        '9'
    }
}

pub open spec fn digit_val(c: char) -> int {
    if c == '0' {
        0
    } else if c == '1' {
        1
    } else if c == '2' {
        2
    } else if c == '3' {
        3
    } else if c == '4' {
        4
    } else if c == '5' {
        5
    } else if c == '6' {
        6
    } else if c == '7' {
        7
    } else if c == '8' {
        8
    } else {
        9
    }
}

pub fn digit_value(c: char) -> (r: u32)
    requires
        dec_digit(c),
    ensures
        r == digit_val(c),
{
    if c == '0' {
        0
    } else if c == '1' {
        1
    } else if c == '2' {
        2
    } else if c == '3' {
        3
    } else if c == '4' {
        4
    } else if c == '5' {
        5
    } else if c == '6' {
        6
    } else if c == '7' {
        7
    } else if c == '8' {
        8
    } else {
        9
    }
}

pub open spec fn all_digits(s: Seq<char>) -> bool {
    forall|i: int| 0 <= i < s.len() ==> dec_digit(s[i])
}

/// The numeric value of a digit string.
pub open spec fn dec_val(s: Seq<char>) -> int
    decreases s.len(),
{
    if s.len() == 0 {
        0
    } else {
        dec_val(s.drop_last()) * 10 + digit_val(s.last())
    }
}

/// The canonical decimal numeral for `n` (no leading zeros).
pub open spec fn dec_chars(n: int) -> Seq<char>
    decreases n,
{
    if n < 10 {
        seq![digit_of(n)]
    } else {
        dec_chars(n / 10).push(digit_of(n % 10))
    }
}

pub proof fn lemma_dec_val_nonneg(s: Seq<char>)
    ensures
        dec_val(s) >= 0,
    decreases s.len(),
{
    if s.len() > 0 {
        lemma_dec_val_nonneg(s.drop_last());
    }
}

/// Extending a digit string cannot decrease its value.
pub proof fn lemma_dec_val_prefix(s: Seq<char>, i: int)
    requires
        0 <= i <= s.len(),
    ensures
        dec_val(s.take(i)) <= dec_val(s),
    decreases s.len() - i,
{
    if i < s.len() {
        lemma_dec_val_prefix(s, i + 1);
        assert(s.take(i + 1).drop_last() =~= s.take(i));
        lemma_dec_val_nonneg(s.take(i));
    } else {
        assert(s.take(i) =~= s);
    }
}

/// Parses an unsigned decimal numeral; `None` for an empty string, a
/// non-digit character, or a value above `usize::MAX`.
pub fn parse_decimal(v: &[char]) -> (r: Option<usize>)
    ensures
        r is Some <==> v@.len() > 0 && all_digits(v@) && dec_val(v@) <= usize::MAX,
        r matches Some(n) ==> n == dec_val(v@),
{
    if v.len() == 0 {
        return None;
    }
    let mut acc: usize = 0;
    let mut i: usize = 0;
    proof {
        assert(v@.take(0) =~= Seq::<char>::empty());
    }
    while i < v.len()
        invariant
            i <= v@.len(),
            all_digits(v@.take(i as int)),
            acc == dec_val(v@.take(i as int)),
        decreases v@.len() - i,
    {
        let c = v[i];
        if !('0' <= c && c <= '9') {
            assert(!dec_digit(v@[i as int]));
            return None;
        }
        let d = digit_value(c) as usize;
        proof {
            assert(v@.take(i + 1).drop_last() =~= v@.take(i as int));
            assert(dec_val(v@.take(i + 1)) == acc * 10 + d);
        }
        let acc10 = match acc.checked_mul(10) {
            Some(x) => x,
            None => {
                proof {
                    lemma_dec_val_prefix(v@, i + 1);
                }
                return None;
            },
        };
        acc = match acc10.checked_add(d) {
            Some(x) => x,
            None => {
                proof {
                    lemma_dec_val_prefix(v@, i + 1);
                }
                return None;
            },
        };
        i += 1;
    }
    proof {
        assert(v@.take(v@.len() as int) =~= v@);
    }
    Some(acc)
}

/// Appends the decimal numeral of `n` to `out`.
pub fn push_decimal(out: &mut Vec<char>, n: usize)
    ensures
        final(out)@ == old(out)@ + dec_chars(n as int),
    decreases n,
{
    if n >= 10 {
        push_decimal(out, n / 10);
    }
    let m = n % 10;
    let c: char = if m == 0 {
        '0'
    } else if m == 1 {
        '1'
    } else if m == 2 {
        '2'
    } else if m == 3 {
        '3'
    } else if m == 4 {
        '4'
    } else if m == 5 {
        '5'
    } else if m == 6 {
        '6'
    } else if m == 7 {
        '7'
    } else if m == 8 {
        '8'
    } else {
        '9'
    };
    out.push(c);
    proof {
        if n < 10 {
            assert(old(out)@ + dec_chars(n as int) =~= old(out)@.push(digit_of(n as int)));
        }
    }
}

/// The index of the first occurrence of `pat` at or after `i`, if any.
pub open spec fn find_from(s: Seq<char>, pat: Seq<char>, i: int) -> Option<int>
    decreases s.len() - i,
{
    if i < 0 || i + pat.len() > s.len() {
        None
    } else if match_at(s, pat, i) {
        Some(i)
    } else if i >= s.len() {
        None
    } else {
        find_from(s, pat, i + 1)
    }
}

/// `s` with the first occurrence of `pat` (if any) replaced by `rep`, as
/// `str::replacen` with count 1 produces it.
pub open spec fn replace_first(s: Seq<char>, pat: Seq<char>, rep: Seq<char>) -> Seq<char> {
    match find_from(s, pat, 0) {
        Option::None => s,
        Option::Some(i) => s.take(i) + rep + s.skip(i + pat.len()),
    }
}

/// A found occurrence lies in bounds and matches.
pub proof fn lemma_find_in_bounds(s: Seq<char>, pat: Seq<char>, i: int)
    ensures
        find_from(s, pat, i) matches Some(j) ==> i <= j && 0 <= j && j + pat.len() <= s.len()
            && match_at(s, pat, j),
    decreases s.len() - i,
{
    if !(i < 0 || i + pat.len() > s.len()) && !match_at(s, pat, i) && i < s.len() {
        lemma_find_in_bounds(s, pat, i + 1);
    }
}

/// Finds the first occurrence of `pat` in `v`.
pub fn find_sub(v: &[char], pat: &[char]) -> (r: Option<usize>)
    ensures
        match r {
            Option::Some(i) => find_from(v@, pat@, 0) == Option::Some(i as int),
            Option::None => find_from(v@, pat@, 0) is None,
        },
{
    let vlen = v.len();
    if pat.len() > vlen {
        return None;
    }
    let lim = vlen - pat.len();
    let mut i: usize = 0;
    loop
        invariant
            i <= lim,
            lim + pat@.len() == vlen == v@.len(),
            find_from(v@, pat@, 0) == find_from(v@, pat@, i as int),
        decreases lim - i,
    {
        if matches_at(v, i, pat) {
            return Some(i);
        }
        if i == lim {
            return None;
        }
        i += 1;
    }
}

/// Replaces the first occurrence of `pat` in `v` by `rep`.
pub fn replace_first_vec(v: &[char], pat: &[char], rep: &[char]) -> (r: Vec<char>)
    ensures
        r@ == replace_first(v@, pat@, rep@),
{
    match find_sub(v, pat) {
        Option::None => subvec(v, 0, v.len()),
        Option::Some(i) => {
            proof {
                lemma_find_in_bounds(v@, pat@, 0);
            }
            let vlen = v.len();
            let mut out = subvec(v, 0, i);
            push_all(&mut out, rep);
            let tail = subvec(v, i + pat.len(), vlen);
            push_all(&mut out, tail.as_slice());
            proof {
                assert(v@.subrange(0, i as int) =~= v@.take(i as int));
                assert(v@.subrange(i + pat@.len(), v@.len() as int) =~= v@.skip(i + pat@.len()));
            }
            out
        },
    }
}

/// Whether `pat` occurs anywhere in `v`.
pub fn contains_sub(v: &[char], pat: &[char]) -> (r: bool)
    ensures
        r == (find_from(v@, pat@, 0) is Some),
{
    match find_sub(v, pat) {
        Option::Some(_) => true,
        Option::None => false,
    }
}

/// Copies a vector of strings, preserving every character.
pub fn clone_strings(v: &Vec<String>) -> (r: Vec<String>)
    ensures
        r.deep_view() == v.deep_view(),
        r@.len() == v@.len(),
{
    let mut out: Vec<String> = Vec::new();
    let mut i: usize = 0;
    while i < v.len()
        invariant
            i <= v@.len(),
            out@.len() == i,
            forall|j: int| 0 <= j < i ==> out@[j]@ == v@[j]@,
        decreases v@.len() - i,
    {
        out.push(v[i].clone());
        i += 1;
    }
    proof {
        assert(out.deep_view() =~= v.deep_view());
    }
    out
}

/// Skipping positions without a match leaves the found occurrence.
pub proof fn lemma_find_skip(s: Seq<char>, pat: Seq<char>, i: int, j: int)
    requires
        0 <= i <= j <= s.len(),
        forall|p: int| i <= p < j ==> !match_at(s, pat, p),
    ensures
        find_from(s, pat, i) == find_from(s, pat, j),
    decreases j - i,
{
    if i < j {
        if i + pat.len() > s.len() {
            assert(find_from(s, pat, i) is None);
            assert(find_from(s, pat, j) is None);
        } else {
            assert(!match_at(s, pat, i));
            lemma_find_skip(s, pat, i + 1, j);
        }
    }
}

/// With no match anywhere, nothing is found.
pub proof fn lemma_find_none(s: Seq<char>, pat: Seq<char>)
    requires
        forall|p: int| 0 <= p <= s.len() ==> !match_at(s, pat, p),
    ensures
        find_from(s, pat, 0) is None,
{
    assert(!match_at(s, pat, s.len() as int));
    assert(pat.len() > 0) by {
        if pat.len() == 0 {
            assert(s.subrange(s.len() as int, s.len() as int) =~= pat);
            assert(match_at(s, pat, s.len() as int));
        }
    }
    lemma_find_skip(s, pat, 0, s.len() as int);
    assert(find_from(s, pat, s.len() as int) is None);
}

/// Where nothing is found, nothing matches.
pub proof fn lemma_find_none_no_match(s: Seq<char>, pat: Seq<char>, i: int)
    requires
        0 <= i,
        find_from(s, pat, i) is None,
    ensures
        forall|p: int| i <= p ==> !match_at(s, pat, p),
    decreases s.len() - i,
{
    if i + pat.len() > s.len() {
        assert forall|p: int| i <= p implies !match_at(s, pat, p) by {
            assert(p + pat.len() > s.len());
        }
    } else if i >= s.len() {
        assert forall|p: int| i <= p implies !match_at(s, pat, p) by {
            if p + pat.len() <= s.len() {
                assert(pat.len() == 0 && p <= s.len());
                assert(s.subrange(i, i + pat.len()) =~= pat);
                assert(match_at(s, pat, i));
            }
        }
    } else {
        lemma_find_none_no_match(s, pat, i + 1);
        assert(!match_at(s, pat, i));
    }
}

/// Trimming passes over an all-whitespace prefix.
pub proof fn lemma_trim_front_concat(a: Seq<char>, b: Seq<char>)
    requires
        forall|i: int| 0 <= i < a.len() ==> ws_char(#[trigger] a[i]),
    ensures
        trim_front(a + b) == trim_front(b),
    decreases a.len(),
{
    if a.len() == 0 {
        assert(a + b =~= b);
    } else {
        assert((a + b)[0] == a[0]);
        assert((a + b).drop_first() =~= a.drop_first() + b);
        lemma_trim_front_concat(a.drop_first(), b);
    }
}

/// The trimmed front is a suffix; everything before it is whitespace.
pub proof fn lemma_trim_front_suffix(s: Seq<char>)
    ensures
        trim_front(s).len() <= s.len(),
        trim_front(s) == s.skip(s.len() - trim_front(s).len()),
        forall|p: int| 0 <= p < s.len() - trim_front(s).len() ==> ws_char(#[trigger] s[p]),
    decreases s.len(),
{
    if s.len() > 0 && ws_char(s[0]) {
        lemma_trim_front_suffix(s.drop_first());
        let tf = s.len() - trim_front(s).len();
        assert(s.drop_first().skip(s.drop_first().len() - trim_front(s.drop_first()).len()) =~= s.skip(
            tf,
        ));
        assert forall|p: int| 0 <= p < tf implies ws_char(#[trigger] s[p]) by {
            if p >= 1 {
                assert(s[p] == s.drop_first()[p - 1]);
            }
        }
    } else {
        assert(s.skip(0) =~= s);
    }
}

/// What `str::to_lowercase` returns: a function of the characters alone.
pub uninterp spec fn lower_of(s: Seq<char>) -> Seq<char>;

/// Relies on `str::to_lowercase`: the result depends only on the characters
/// of the input, and an empty string stays empty.
#[verifier::external_body]
pub fn lowercase(s: &str) -> (r: String)
    ensures
        r@ == lower_of(s@),
        s@.len() == 0 ==> r@.len() == 0,
{
    s.to_lowercase()
}

} // verus!
