//! What holds of trimming, words, lines and fields, whatever the text.
use vstd::prelude::*;
use crate::text::{Blanks, is_blank, lemma_position, lemma_position_is, lower_all, position};
use crate::words::{
    drop_cr, fields, lemma_word_len, lemma_word_len_is, lines, trim, trim_end, trim_start, word_len,
    words,
};

verus! {

/// Whether `s` is white space alone.
pub open spec fn all_blank(s: Seq<char>) -> bool {
    forall|i: int| 0 <= i < s.len() ==> is_blank(Blanks::Unicode, #[trigger] s[i])
}

/// Whether neither end of `s` is white space; so of the empty text.
pub open spec fn solid(s: Seq<char>) -> bool {
    s.len() > 0 ==> !is_blank(Blanks::Unicode, s[0]) && !is_blank(Blanks::Unicode, s.last())
}

/// Whether `c` is not in `s`.
pub open spec fn lacks(s: Seq<char>, c: char) -> bool {
    forall|i: int| 0 <= i < s.len() ==> #[trigger] s[i] != c
}

/// Whether `s` ends where a line does: it is empty, or its last character is a
/// line feed.
pub open spec fn whole_lines(s: Seq<char>) -> bool {
    s.len() > 0 ==> s.last() == '\n'
}

// ---- trimming -----------------------------------------------------------------------------------

proof fn lemma_trim_start_pad(a: Seq<char>, t: Seq<char>)
    requires
        all_blank(a),
    ensures
        trim_start(a + t) == trim_start(t),
    decreases a.len(),
{
    if a.len() == 0 {
        assert(a + t =~= t);
    } else {
        assert(is_blank(Blanks::Unicode, a[0]));
        assert((a + t)[0] == a[0]);
        assert((a + t).drop_first() =~= a.drop_first() + t);
        assert forall|i: int| 0 <= i < a.drop_first().len() implies is_blank(
            Blanks::Unicode,
            #[trigger] a.drop_first()[i],
        ) by {
            assert(a.drop_first()[i] == a[i + 1]);
        }
        lemma_trim_start_pad(a.drop_first(), t);
    }
}

proof fn lemma_trim_end_pad(t: Seq<char>, b: Seq<char>)
    requires
        all_blank(b),
    ensures
        trim_end(t + b) == trim_end(t),
    decreases b.len(),
{
    if b.len() == 0 {
        assert(t + b =~= t);
    } else {
        assert(is_blank(Blanks::Unicode, b[b.len() - 1]));
        assert((t + b).last() == b.last());
        assert((t + b).drop_last() =~= t + b.drop_last());
        assert forall|i: int| 0 <= i < b.drop_last().len() implies is_blank(
            Blanks::Unicode,
            #[trigger] b.drop_last()[i],
        ) by {
            assert(b.drop_last()[i] == b[i]);
        }
        lemma_trim_end_pad(t, b.drop_last());
    }
}

/// Trimming drops the white space around a text, all of it and nothing else.
pub proof fn trimming_drops_the_white_space_around(a: Seq<char>, s: Seq<char>, b: Seq<char>)
    requires
        all_blank(a),
        all_blank(b),
        solid(s),
    ensures
        trim(a + s + b) == s,
{
    assert(a + s + b =~= a + (s + b));
    lemma_trim_start_pad(a, s + b);
    if s.len() == 0 {
        assert(s + b =~= b);
        assert(b + Seq::<char>::empty() =~= b);
        lemma_trim_start_pad(b, Seq::<char>::empty());
    } else {
        assert((s + b)[0] == s[0]);
        lemma_trim_end_pad(s, b);
    }
}

/// Every text is its trimming between white space.
pub proof fn every_text_is_its_trimming_in_white_space(s: Seq<char>) -> (r: (Seq<char>, Seq<char>))
    ensures
        all_blank(r.0),
        all_blank(r.1),
        solid(trim(s)),
        s == r.0 + trim(s) + r.1,
    decreases s.len(),
{
    if s.len() > 0 && is_blank(Blanks::Unicode, s[0]) {
        let (a, b) = every_text_is_its_trimming_in_white_space(s.drop_first());
        let a2 = seq![s[0]] + a;
        assert forall|i: int| 0 <= i < a2.len() implies is_blank(
            Blanks::Unicode,
            #[trigger] a2[i],
        ) by {
            if i > 0 {
                assert(a2[i] == a[i - 1]);
            }
        }
        assert(s =~= seq![s[0]] + s.drop_first());
        assert(s =~= a2 + trim(s) + b);
        (a2, b)
    } else {
        let b = lemma_end_of(s);
        let none = Seq::<char>::empty();
        assert(trim(s) == trim_end(s));
        assert(s =~= none + trim(s) + b);
        if trim(s).len() > 0 {
            assert(trim(s)[0] == s[0]);
        }
        (none, b)
    }
}

proof fn lemma_end_of(s: Seq<char>) -> (b: Seq<char>)
    ensures
        all_blank(b),
        s == trim_end(s) + b,
        trim_end(s).len() > 0 ==> !is_blank(Blanks::Unicode, trim_end(s).last()),
    decreases s.len(),
{
    if s.len() > 0 && is_blank(Blanks::Unicode, s.last()) {
        let b = lemma_end_of(s.drop_last());
        let b2 = b.push(s.last());
        assert forall|i: int| 0 <= i < b2.len() implies is_blank(
            Blanks::Unicode,
            #[trigger] b2[i],
        ) by {
            if i < b.len() {
                assert(b2[i] == b[i]);
            }
        }
        assert(s =~= s.drop_last().push(s.last()));
        assert(s =~= trim_end(s) + b2);
        b2
    } else {
        assert(s + Seq::<char>::empty() =~= s);
        Seq::<char>::empty()
    }
}

// ---- words --------------------------------------------------------------------------------------

/// A blank parts the words before it from those after it.
pub proof fn blanks_part_words(kind: Blanks, a: Seq<char>, c: char, b: Seq<char>)
    requires
        is_blank(kind, c),
    ensures
        words(kind, a + seq![c] + b) == words(kind, a) + words(kind, b),
    decreases a.len(),
{
    let s = a + seq![c] + b;
    if a.len() == 0 {
        assert(s[0] == c);
        assert(s.drop_first() =~= b);
        assert(words(kind, a) + words(kind, b) =~= words(kind, b));
    } else if is_blank(kind, a[0]) {
        assert(s[0] == a[0]);
        assert(s.drop_first() =~= a.drop_first() + seq![c] + b);
        blanks_part_words(kind, a.drop_first(), c, b);
    } else {
        lemma_word_len(kind, a);
        let n = word_len(kind, a) as int;
        assert(n >= 1);
        assert forall|i: int| 0 <= i < n implies !is_blank(kind, #[trigger] s[i]) by {
            assert(s[i] == a[i]);
        }
        if n < a.len() {
            assert(s[n] == a[n]);
        } else {
            assert(s[n] == c);
        }
        lemma_word_len_is(kind, s, n);
        assert(s[0] == a[0]);
        assert(s.take(n) =~= a.take(n));
        assert(s.skip(n) =~= a.skip(n) + seq![c] + b);
        blanks_part_words(kind, a.skip(n), c, b);
        assert(words(kind, s) =~= seq![a.take(n)] + (words(kind, a.skip(n)) + words(kind, b)));
        assert(words(kind, a) + words(kind, b) =~= words(kind, s));
    }
}

/// Text without a blank is one word, itself; no text is no word.
pub proof fn solid_text_is_one_word(kind: Blanks, s: Seq<char>)
    requires
        forall|i: int| 0 <= i < s.len() ==> !is_blank(kind, #[trigger] s[i]),
    ensures
        s.len() > 0 ==> words(kind, s) == seq![s],
        s.len() == 0 ==> words(kind, s) == Seq::<Seq<char>>::empty(),
{
    if s.len() > 0 {
        lemma_word_len_is(kind, s, s.len() as int);
        assert(s.take(s.len() as int) =~= s);
        assert(!is_blank(kind, s[0]));
        assert(words(kind, s.skip(s.len() as int)) =~= Seq::<Seq<char>>::empty());
        assert(words(kind, s) =~= seq![s]);
    }
}

// ---- lines --------------------------------------------------------------------------------------

/// The lines of a text are those of any of its whole lines and those of the rest.
pub proof fn lines_add_up(a: Seq<char>, b: Seq<char>)
    requires
        whole_lines(a),
    ensures
        lines(a + b) == lines(a) + lines(b),
    decreases a.len(),
{
    let s = a + b;
    if a.len() == 0 {
        assert(s =~= b);
        assert(lines(a) + lines(b) =~= lines(b));
    } else {
        lemma_position(a, '\n');
        let n = position(a, '\n') as int;
        if n == a.len() {
            assert(a[a.len() - 1] != '\n');
        }
        assert forall|i: int| 0 <= i < n implies s[i] != '\n' by {
            assert(s[i] == a[i]);
        }
        assert(s[n] == a[n]);
        lemma_position_is(s, '\n', n);
        assert(s.take(n) =~= a.take(n));
        assert(s.skip(n + 1) =~= a.skip(n + 1) + b);
        if a.skip(n + 1).len() > 0 {
            assert(a.skip(n + 1).last() == a.last());
        }
        lines_add_up(a.skip(n + 1), b);
        assert(lines(a) + lines(b) =~= lines(s));
    }
}

/// Text without a line feed is one line, with or without a line feed, or a
/// carriage return and a line feed, after it.
pub proof fn text_without_a_line_feed_is_one_line(s: Seq<char>)
    requires
        lacks(s, '\n'),
    ensures
        s.len() > 0 ==> lines(s) == seq![s],
        lines(s + seq!['\r', '\n']) == seq![s],
        s.len() == 0 || s.last() != '\r' ==> lines(s + seq!['\n']) == seq![s],
        lines(Seq::<char>::empty()) == Seq::<Seq<char>>::empty(),
{
    let none = Seq::<char>::empty();
    if s.len() > 0 {
        lemma_position_is(s, '\n', s.len() as int);
    }
    let n = s.len() as int;
    let c = s + seq!['\r', '\n'];
    assert forall|i: int| 0 <= i < n + 1 implies c[i] != '\n' by {
        if i < n {
            assert(c[i] == s[i]);
        }
    }
    assert(c[n + 1] == '\n');
    lemma_position_is(c, '\n', n + 1);
    assert(c.take(n + 1).drop_last() =~= s);
    assert(c.take(n + 1).last() == '\r');
    assert(c.skip(n + 2) =~= none);
    assert(drop_cr(c.take(n + 1)) == s);
    assert(lines(none) =~= Seq::<Seq<char>>::empty());
    assert(lines(c) =~= seq![s] + lines(none));
    assert(lines(c) =~= seq![s]);
    let f = s + seq!['\n'];
    assert forall|i: int| 0 <= i < n implies f[i] != '\n' by {
        assert(f[i] == s[i]);
    }
    lemma_position_is(f, '\n', n);
    assert(f.take(n) =~= s);
    assert(f.skip(n + 1) =~= none);
    if n == 0 || s.last() != '\r' {
        assert(drop_cr(s) == s);
        assert(lines(f) =~= seq![s]);
    }
}

// ---- fields -------------------------------------------------------------------------------------

/// A separator parts the fields before it from those after it, and only a
/// separator does.
pub proof fn separators_part_fields(a: Seq<char>, sep: char, b: Seq<char>)
    ensures
        fields(a + seq![sep] + b, sep) == fields(a, sep) + fields(b, sep),
        lacks(a, sep) ==> fields(a, sep) == seq![a],
    decreases a.len(),
{
    let s = a + seq![sep] + b;
    lemma_position(a, sep);
    let n = position(a, sep) as int;
    assert forall|i: int| 0 <= i < n implies s[i] != sep by {
        assert(s[i] == a[i]);
    }
    if n < a.len() {
        assert(s[n] == a[n]);
    } else {
        assert(s[n] == sep);
    }
    lemma_position_is(s, sep, n);
    assert(s.take(n) =~= a.take(n));
    if n < a.len() {
        assert(s.skip(n + 1) =~= a.skip(n + 1) + seq![sep] + b);
        separators_part_fields(a.skip(n + 1), sep, b);
        assert(fields(a, sep) + fields(b, sep) =~= fields(s, sep));
    } else {
        assert(a.take(n) =~= a);
        assert(s.skip(n + 1) =~= b);
        assert(fields(a, sep) + fields(b, sep) =~= fields(s, sep));
    }
}

// ---- characters ---------------------------------------------------------------------------------

/// The ASCII white space is the white space below 128 but for the vertical tab,
/// and no letter, digit or punctuation is any.
pub proof fn ascii_white_space_is_plain(c: char)
    ensures
        is_blank(Blanks::Ascii, c) == (is_blank(Blanks::Unicode, c) && (c as u32) < 128 && c
            != '\x0B'),
        33 <= (c as u32) < 128 ==> !is_blank(Blanks::Ascii, c) && !is_blank(Blanks::Unicode, c),
{
}

/// A text without its ASCII capitals has none, is as long, differs only where
/// there was a capital, and there holds the letter 32 places on.
pub proof fn capitals_become_small(t: Seq<char>, i: int)
    requires
        0 <= i < t.len(),
    ensures
        lower_all(t).len() == t.len(),
        lower_all(lower_all(t)) == lower_all(t),
        65 <= (t[i] as u32) <= 90 ==> lower_all(t)[i] as u32 == t[i] as u32 + 32,
        !(65 <= (t[i] as u32) <= 90) ==> lower_all(t)[i] == t[i],
{
    assert(lower_all(lower_all(t)) =~= lower_all(t));
}

} // verus!
