//! Cutting text apart: trimming, words, lines and separated fields.
use vstd::prelude::*;
use vstd::slice::{slice_subrange, slice_to_vec};
use crate::text::{Blanks, all_chars, blank, is_blank, lemma_position, position, position_of};

verus! {

// ---- trimming -------------------------------------------------------------------

pub open spec fn trim_start(s: Seq<char>) -> Seq<char>
    decreases s.len(),
{
    if s.len() > 0 && is_blank(Blanks::Unicode, s[0]) {
        trim_start(s.drop_first())
    } else {
        s
    }
}

pub open spec fn trim_end(s: Seq<char>) -> Seq<char>
    decreases s.len(),
{
    if s.len() > 0 && is_blank(Blanks::Unicode, s.last()) {
        trim_end(s.drop_last())
    } else {
        s
    }
}

/// `s` without the Unicode white space at its two ends.
pub open spec fn trim(s: Seq<char>) -> Seq<char> {
    trim_end(trim_start(s))
}

/// `s` without its leading Unicode white space.
pub fn trimmed_start<'a>(s: &'a [char]) -> (r: &'a [char])
    ensures
        r@ == trim_start(s@),
{
    let n = s.len();
    let mut i: usize = 0;
    assert(s@.skip(0) == s@);
    while i < n && blank(Blanks::Unicode, s[i])
        invariant
            n == s.len(),
            i <= n,
            trim_start(s@) == trim_start(s@.skip(i as int)),
        decreases n - i,
    {
        assert(s@.skip(i as int).drop_first() == s@.skip(i + 1));
        i += 1;
    }
    slice_subrange(s, i, n)
}

/// `s` without the Unicode white space at its two ends.
pub fn trimmed<'a>(s: &'a [char]) -> (r: &'a [char])
    ensures
        r@ == trim(s@),
{
    let t = trimmed_start(s);
    let mut n: usize = t.len();
    assert(t@.take(n as int) == t@);
    while n > 0 && blank(Blanks::Unicode, t[n - 1])
        invariant
            n <= t.len(),
            trim_end(t@) == trim_end(t@.take(n as int)),
        decreases n,
    {
        assert(t@.take(n as int).drop_last() == t@.take(n - 1));
        n -= 1;
    }
    slice_subrange(t, 0, n)
}

/// Text whose two ends are not white space is its own trimming.
pub proof fn lemma_trim_solid(s: Seq<char>)
    requires
        s.len() > 0,
        !is_blank(Blanks::Unicode, s[0]),
        !is_blank(Blanks::Unicode, s.last()),
    ensures
        trim(s) == s,
{
}

// ---- words ------------------------------------------------------------------------

/// How many characters stand before the first blank of `s`.
pub open spec fn word_len(kind: Blanks, s: Seq<char>) -> nat
    decreases s.len(),
{
    if s.len() == 0 || is_blank(kind, s[0]) {
        0
    } else {
        1 + word_len(kind, s.drop_first())
    }
}

pub proof fn lemma_word_len(kind: Blanks, s: Seq<char>)
    ensures
        word_len(kind, s) <= s.len(),
        word_len(kind, s) < s.len() ==> is_blank(kind, s[word_len(kind, s) as int]),
        forall|i: int| 0 <= i < word_len(kind, s) ==> !is_blank(kind, #[trigger] s[i]),
    decreases s.len(),
{
    if s.len() != 0 && !is_blank(kind, s[0]) {
        lemma_word_len(kind, s.drop_first());
        assert forall|i: int| 0 <= i < word_len(kind, s) implies !is_blank(
            kind,
            #[trigger] s[i],
        ) by {
            if i > 0 {
                assert(s.drop_first()[i - 1] == s[i]);
            }
        }
    }
}

pub proof fn lemma_word_len_is(kind: Blanks, s: Seq<char>, n: int)
    requires
        0 <= n <= s.len(),
        n < s.len() ==> is_blank(kind, s[n]),
        forall|i: int| 0 <= i < n ==> !is_blank(kind, #[trigger] s[i]),
    ensures
        word_len(kind, s) == n,
{
    lemma_word_len(kind, s);
    let m = word_len(kind, s) as int;
    if m < n {
        assert(!is_blank(kind, s[m]));
    }
    if n < m {
        assert(!is_blank(kind, s[n]));
    }
}

/// The maximal runs of non-blank characters of `s`, in order.
pub open spec fn words(kind: Blanks, s: Seq<char>) -> Seq<Seq<char>>
    decreases s.len(),
{
    if s.len() == 0 {
        seq![]
    } else if is_blank(kind, s[0]) {
        words(kind, s.drop_first())
    } else {
        let n = word_len(kind, s) as int;
        proof {
            lemma_word_len(kind, s);
        }
        seq![s.take(n)] + words(kind, s.skip(n))
    }
}

/// The words of `s`, in order.
pub fn words_of(kind: Blanks, s: &[char]) -> (r: Vec<Vec<char>>)
    ensures
        all_chars(r@) == words(kind, s@),
{
    let mut out: Vec<Vec<char>> = Vec::new();
    let n = s.len();
    let mut i: usize = 0;
    assert(s@.skip(0) == s@);
    assert(all_chars(out@) + words(kind, s@) == words(kind, s@));
    while i < n
        invariant
            n == s.len(),
            i <= n,
            all_chars(out@) + words(kind, s@.skip(i as int)) == words(kind, s@),
        decreases n - i,
    {
        let ghost rest = s@.skip(i as int);
        assert(rest[0] == s@[i as int]);
        if blank(kind, s[i]) {
            assert(rest.drop_first() == s@.skip(i + 1));
            i += 1;
        } else {
            let mut j: usize = i;
            while j < n && !blank(kind, s[j])
                invariant
                    n == s.len(),
                    i <= j <= n,
                    forall|k: int| i <= k < j ==> !is_blank(kind, #[trigger] s@[k]),
                decreases n - j,
            {
                j += 1;
            }
            assert(j > i);
            proof {
                assert forall|k: int| 0 <= k < j - i implies !is_blank(
                    kind,
                    #[trigger] rest[k],
                ) by {
                    assert(rest[k] == s@[i + k]);
                }
                lemma_word_len_is(kind, rest, j - i);
            }
            let w = slice_subrange(s, i, j);
            let word: Vec<char> = slice_to_vec(w);
            let ghost before = out@;
            out.push(word);
            assert(word@ =~= rest.take(j - i));
            assert(rest.skip(j - i) =~= s@.skip(j as int));
            assert(all_chars(out@) =~= all_chars(before).push(word@));
            assert(all_chars(before) + (seq![word@] + words(kind, s@.skip(j as int)))
                =~= all_chars(out@) + words(kind, s@.skip(j as int)));
            i = j;
        }
    }
    assert(s@.skip(n as int).len() == 0);
    assert(all_chars(out@) + words(kind, s@.skip(n as int)) =~= all_chars(out@));
    out
}

// ---- lines --------------------------------------------------------------------------

/// `s` without one carriage return at its end.
pub open spec fn drop_cr(s: Seq<char>) -> Seq<char> {
    if s.len() > 0 && s.last() == '\r' {
        s.drop_last()
    } else {
        s
    }
}

/// The lines of `s`: each ends at a line feed, or at a carriage return and a
/// line feed, neither of which belongs to it; the last line may lack its end.
pub open spec fn lines(s: Seq<char>) -> Seq<Seq<char>>
    decreases s.len(),
{
    if s.len() == 0 {
        seq![]
    } else {
        let n = position(s, '\n') as int;
        proof {
            lemma_position(s, '\n');
        }
        if n == s.len() {
            seq![s]
        } else {
            seq![drop_cr(s.take(n))] + lines(s.skip(n + 1))
        }
    }
}

/// The lines of `s`, in order.
pub fn lines_of(s: &[char]) -> (r: Vec<Vec<char>>)
    ensures
        all_chars(r@) == lines(s@),
{
    let mut out: Vec<Vec<char>> = Vec::new();
    let n = s.len();
    let mut i: usize = 0;
    assert(s@.skip(0) == s@);
    assert(all_chars(out@) + lines(s@) == lines(s@));
    while i < n
        invariant
            n == s.len(),
            i <= n,
            all_chars(out@) + lines(s@.skip(i as int)) == lines(s@),
        decreases n - i,
    {
        let rest = slice_subrange(s, i, n);
        assert(rest@ == s@.skip(i as int));
        let k = position_of(rest, '\n');
        let ghost before = out@;
        if k == rest.len() {
            out.push(slice_to_vec(rest));
            assert(out@[out@.len() - 1]@ =~= rest@);
            assert(all_chars(out@) =~= all_chars(before) + seq![rest@]);
            return out;
        }
        let end: usize = if k > 0 && rest[k - 1] == '\r' { k - 1 } else { k };
        let line = slice_subrange(rest, 0, end);
        let owned: Vec<char> = slice_to_vec(line);
        assert(owned@ =~= drop_cr(rest@.take(k as int)));
        out.push(owned);
        assert(rest@.skip(k + 1) =~= s@.skip(i + k + 1));
        assert(all_chars(out@) =~= all_chars(before).push(owned@));
        assert(all_chars(before) + (seq![owned@] + lines(s@.skip(i + k + 1))) =~= all_chars(out@)
            + lines(s@.skip(i + k + 1)));
        i += k + 1;
    }
    assert(s@.skip(n as int).len() == 0);
    assert(all_chars(out@) + lines(s@.skip(n as int)) =~= all_chars(out@));
    out
}

// ---- separated fields -----------------------------------------------------------------

/// The pieces of `s` between the separators `sep`; always at least one.
pub open spec fn fields(s: Seq<char>, sep: char) -> Seq<Seq<char>>
    decreases s.len(),
{
    let n = position(s, sep) as int;
    proof {
        lemma_position(s, sep);
    }
    if n >= s.len() {
        seq![s]
    } else {
        seq![s.take(n)] + fields(s.skip(n + 1), sep)
    }
}

/// The pieces of `s` between the separators `sep`, in order.
pub fn fields_of(s: &[char], sep: char) -> (r: Vec<Vec<char>>)
    ensures
        all_chars(r@) == fields(s@, sep),
{
    let mut out: Vec<Vec<char>> = Vec::new();
    let n = s.len();
    let mut i: usize = 0;
    assert(s@.skip(0) == s@);
    assert(all_chars(out@) + fields(s@, sep) == fields(s@, sep));
    loop
        invariant
            n == s.len(),
            i <= n,
            all_chars(out@) + fields(s@.skip(i as int), sep) == fields(s@, sep),
        decreases n - i,
    {
        let rest = slice_subrange(s, i, n);
        assert(rest@ == s@.skip(i as int));
        let k = position_of(rest, sep);
        let ghost before = out@;
        if k == rest.len() {
            out.push(slice_to_vec(rest));
            assert(out@[out@.len() - 1]@ =~= rest@);
            assert(all_chars(out@) =~= all_chars(before) + seq![rest@]);
            return out;
        }
        let piece = slice_subrange(rest, 0, k);
        let owned: Vec<char> = slice_to_vec(piece);
        assert(owned@ =~= rest@.take(k as int));
        out.push(owned);
        assert(rest@.skip(k + 1) =~= s@.skip(i + k + 1));
        assert(all_chars(out@) =~= all_chars(before).push(owned@));
        assert(all_chars(before) + (seq![owned@] + fields(s@.skip(i + k + 1), sep)) =~= all_chars(
            out@,
        ) + fields(s@.skip(i + k + 1), sep));
        i += k + 1;
    }
}

} // verus!
