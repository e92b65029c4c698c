//! What the operations on texts do to their characters.
use crate::text::{
    ascii_only, blank, first_chars, has_text, lemma_run_end, lemma_run_start, lowered, only, parted, run_end,
    run_start, stands_at, trimmed, trimmed_end, white_space,
};
use vstd::prelude::*;

verus! {

/// In lower case, capital letters of ASCII become small ones, and nothing else
/// changes.
pub proof fn law_lowered_changes_capitals(s: Seq<char>)
    requires
        forall|i: int| 0 <= i < s.len() ==> (#[trigger] s[i]) as u32 <= 127,
    ensures
        lowered(s).len() == s.len(),
        forall|i: int|
            0 <= i < s.len() ==> #[trigger] lowered(s)[i] == (if 'A' <= s[i] && s[i] <= 'Z' {
                (s[i] as u32 + 32) as char
            } else {
                s[i]
            }),
        forall|i: int| 0 <= i < s.len() ==> (#[trigger] lowered(s)[i]) as u32 <= 127,
{
    assert(ascii_only(s));
}

/// Texts one after another are put into lower case one by one.
pub proof fn law_lowered_piecewise(a: Seq<char>, b: Seq<char>)
    requires
        ascii_only(a),
        ascii_only(b),
    ensures
        ascii_only(a + b),
        lowered(a + b) == lowered(a) + lowered(b),
{
    let s = a + b;
    assert forall|i: int| 0 <= i < s.len() implies (#[trigger] s[i]) as u32 <= 127 by {
        if i < a.len() {
            assert(s[i] == a[i]);
        } else {
            assert(s[i] == b[i - a.len()]);
        }
    }
    assert(lowered(s) =~= lowered(a) + lowered(b));
}

/// A text stands in another wherever it is surrounded by anything, and nowhere
/// else.
pub proof fn law_text_stands_between(before: Seq<char>, needle: Seq<char>, after: Seq<char>, s: Seq<char>)
    ensures
        has_text(before + needle + after, needle),
        has_text(s, needle) <==> exists|i: int|
            0 <= i <= s.len() - needle.len() && #[trigger] s.subrange(i, i + needle.len()) == needle,
{
    let whole = before + needle + after;
    let n = before.len() as int;
    assert(whole.subrange(n, n + needle.len()) =~= needle);
    assert(stands_at(whole, needle, n));
    if has_text(s, needle) {
        let i = choose|i: int| stands_at(s, needle, i);
        assert(s.subrange(i, i + needle.len()) == needle);
    }
    if exists|i: int| 0 <= i <= s.len() - needle.len() && #[trigger] s.subrange(i, i + needle.len()) == needle {
        let i = choose|i: int| 0 <= i <= s.len() - needle.len() && #[trigger] s.subrange(i, i + needle.len()) == needle;
        assert(stands_at(s, needle, i));
    }
}

/// What stands in a part of a text stands in the text.
pub proof fn law_text_stands_in_whole(before: Seq<char>, part: Seq<char>, after: Seq<char>, needle: Seq<char>)
    requires
        has_text(part, needle),
    ensures
        has_text(before + part + after, needle),
{
    let i = choose|i: int| stands_at(part, needle, i);
    let whole = before + part + after;
    let k = before.len() + i;
    assert(whole.subrange(k, k + needle.len()) =~= part.subrange(i, i + needle.len()));
    assert(stands_at(whole, needle, k));
}

/// A text without one of the characters of another stands in it only on one side
/// of that character.
pub proof fn law_text_stands_on_one_side(a: Seq<char>, mark: char, b: Seq<char>, needle: Seq<char>)
    requires
        !needle.contains(mark),
        has_text(a.push(mark) + b, needle),
    ensures
        has_text(a, needle) || has_text(b, needle),
{
    let whole = a.push(mark) + b;
    let i = choose|i: int| stands_at(whole, needle, i);
    let n = a.len() as int;
    if i + needle.len() <= n {
        assert(a.subrange(i, i + needle.len()) =~= whole.subrange(i, i + needle.len()));
        assert(stands_at(a, needle, i));
    } else if i > n {
        let k = i - n - 1;
        assert(b.subrange(k, k + needle.len()) =~= whole.subrange(i, i + needle.len()));
        assert(stands_at(b, needle, k));
    } else {
        assert(needle[n - i] == whole.subrange(i, i + needle.len())[n - i]);
        assert(needle[n - i] == mark);
    }
}

/// Blanks, tabs and line breaks are white space; visible characters of ASCII are
/// not.
pub proof fn law_white_space(c: char)
    ensures
        white_space(' '),
        white_space('\t'),
        white_space('\n'),
        white_space('\r'),
        '!' <= c && c <= '~' ==> !white_space(c),
{
}

/// Trimming takes off the white space around a text, and nothing of the text.
pub proof fn law_trimming_takes_off_the_ends(before: Seq<char>, inner: Seq<char>, after: Seq<char>)
    requires
        forall|i: int| 0 <= i < before.len() ==> white_space(#[trigger] before[i]),
        forall|i: int| 0 <= i < after.len() ==> white_space(#[trigger] after[i]),
        inner.len() > 0 ==> !white_space(inner[0]) && !white_space(inner.last()),
    ensures
        trimmed(before + inner + after) == inner,
        trimmed_end(inner + after) == inner,
{
    let kind = blank();
    let s = before + inner + after;
    let a = run_end(s, kind, 0);
    lemma_run_end(s, kind, 0);
    let n = before.len() as int;
    if a < n {
        assert(s[a] == before[a]);
        assert(kind(s[a]));
    }
    if inner.len() > 0 {
        assert(s[n] == inner[0]);
        if a > n {
            assert(kind(s[n]));
        }
        let t = s.skip(n);
        assert(t =~= inner + after);
        lemma_inner_end(inner, after);
    } else {
        if a < s.len() {
            assert(s[a] == after[a - n]);
            assert(kind(s[a]));
        }
        let t = s.skip(a);
        assert(t.len() == 0);
        assert(trimmed(s) =~= inner);
        lemma_inner_end(inner, after);
    }
}

proof fn lemma_inner_end(inner: Seq<char>, after: Seq<char>)
    requires
        forall|i: int| 0 <= i < after.len() ==> white_space(#[trigger] after[i]),
        inner.len() > 0 ==> !white_space(inner.last()),
    ensures
        trimmed_end(inner + after) == inner,
{
    let kind = blank();
    let t = inner + after;
    let m = inner.len() as int;
    let b = run_start(t, kind, t.len() as int);
    lemma_run_start(t, kind, t.len() as int);
    if b < m {
        assert(t[m - 1] == inner.last());
        assert(kind(t[m - 1]));
    }
    if b > m {
        assert(t[b - 1] == after[b - 1 - m]);
        assert(!kind(t[b - 1]));
    }
    assert(t.take(m) =~= inner);
}

/// The first characters of a text are all of it where it is short, and begin it
/// where it is long.
pub proof fn law_first_characters(s: Seq<char>, n: int)
    requires
        n >= 0,
    ensures
        s.len() <= n ==> first_chars(s, n) == s,
        s.len() > n ==> first_chars(s, n) == s.subrange(0, n),
{
}

/// A text is parted at the first of a mark: what stands before holds none of it.
pub proof fn law_parting_at_the_first(before: Seq<char>, mark: char, after: Seq<char>)
    requires
        !before.contains(mark),
    ensures
        parted(before.push(mark) + after, only(mark)) == Some((before, after)),
        parted(before, only(mark)) is None,
{
    let s = before.push(mark) + after;
    let kind = only(mark);
    let n = before.len() as int;
    crate::text::lemma_first_at(s, kind, 0);
    let p = crate::text::first_at(s, kind, 0);
    assert(s[n] == mark);
    assert(kind(s[n]));
    if p < n {
        assert(kind(s[p]));
        assert(before.contains(before[p]));
    }
    assert(s.take(n) =~= before);
    assert(s.skip(n + 1) =~= after);
    crate::text::lemma_first_at(before, kind, 0);
    let q = crate::text::first_at(before, kind, 0);
    if q < before.len() {
        assert(kind(before[q]));
        assert(before.contains(before[q]));
    }
}

} // verus!
