//! How texts are taken apart into words, lines and fields, and put together, and
//! which texts are numbers.
use crate::text::{
    after_prefix, among, blank, decimal, digit, digits_value, find_from, is_digit, joined, last_at,
    lemma_find_from, lemma_last_at, lemma_pieces_join, lemma_pieces_some, lemma_pieces_whole, lemma_run_end,
    lemma_run_start, lines_of, only, parsed_number, parted_at, parted_last, pieces, run_end, run_start,
    split_at, stands_at, stripped_end, stripped_start, unsigned_digits, white_space, without_return, words_of,
};
use vstd::prelude::*;

verus! {

/// White space is made of exactly these characters.
pub proof fn law_white_space_is_listed(c: char)
    ensures
        white_space(c) == (c == '\t' || c == '\n' || c == '\u{b}' || c == '\u{c}' || c == '\r' || c == ' ' || c
            == '\u{85}' || c == '\u{a0}' || c == '\u{1680}' || ('\u{2000}' <= c && c <= '\u{200a}') || c
            == '\u{2028}' || c == '\u{2029}' || c == '\u{202f}' || c == '\u{205f}' || c == '\u{3000}'),
{
}

/// Splitting at a mark gives what stands before the mark and what stands behind
/// it, however often it occurs; a text without the mark stays whole.
pub proof fn law_texts_split_at_every_mark(a: Seq<char>, mark: char, b: Seq<char>)
    ensures
        split_at(a.push(mark) + b, mark) == split_at(a, mark) + split_at(b, mark),
        !a.contains(mark) ==> split_at(a, mark) == seq![a],
{
    let kind = among(seq![mark]);
    assert(seq![mark][0] == mark);
    lemma_pieces_join(a, mark, b, kind);
    if !a.contains(mark) {
        assert forall|i: int| 0 <= i < a.len() implies !kind(#[trigger] a[i]) by {
            assert(a.contains(a[i]));
        }
        lemma_pieces_whole(a, kind);
    }
}

/// The words of a text stand between white space, however much of it there is.
pub proof fn law_words_stand_between_white_space(a: Seq<char>, space: char, b: Seq<char>)
    requires
        white_space(space),
    ensures
        words_of(a.push(space) + b) == words_of(a) + words_of(b),
        words_of(Seq::empty()) == Seq::<Seq<char>>::empty(),
        a.len() > 0 && (forall|i: int| 0 <= i < a.len() ==> !white_space(#[trigger] a[i])) ==> words_of(a)
            == seq![a],
{
    let kind = blank();
    let full = |w: Seq<char>| w.len() > 0;
    lemma_pieces_join(a, space, b, kind);
    Seq::filter_distributes_over_add(pieces(a, kind), pieces(b, kind), full);
    reveal(Seq::filter);
    let none = seq![Seq::<char>::empty()];
    assert(none.drop_last() =~= Seq::<Seq<char>>::empty());
    assert(none.last().len() == 0);
    assert(none.drop_last().filter(full) =~= Seq::<Seq<char>>::empty());
    if a.len() > 0 && (forall|i: int| 0 <= i < a.len() ==> !white_space(#[trigger] a[i])) {
        lemma_pieces_whole(a, kind);
        let one = seq![a];
        assert(one.drop_last() =~= Seq::<Seq<char>>::empty());
        assert(one.last() == a);
        assert(one.filter(full) =~= seq![a]);
    }
}

/// The lines of a text end at line feeds, with or without a carriage return
/// before them; what follows the last line feed is a line if it is not empty.
pub proof fn law_lines_end_at_line_feeds(line: Seq<char>, rest: Seq<char>)
    requires
        !line.contains('\n'),
    ensures
        lines_of(line.push('\n') + rest) == seq![without_return(line)] + lines_of(rest),
        line.len() > 0 ==> lines_of(line) == seq![line],
        lines_of(Seq::empty()) == Seq::<Seq<char>>::empty(),
        without_return(line.push('\r')) == line,
        line.len() > 0 && line.last() != '\r' ==> without_return(line) == line,
{
    let kind = among(seq!['\n']);
    assert(seq!['\n'][0] == '\n');
    assert forall|i: int| 0 <= i < line.len() implies !kind(#[trigger] line[i]) by {
        assert(line.contains(line[i]));
    }
    lemma_pieces_whole(line, kind);
    lemma_pieces_join(line, '\n', rest, kind);
    let whole = split_at(line.push('\n') + rest, '\n');
    let tail = split_at(rest, '\n');
    lemma_pieces_some(rest, kind);
    let cut = |l: Seq<char>| without_return(l);
    assert(whole == seq![line] + tail);
    assert(whole.last() == tail.last());
    assert(whole.drop_last() =~= seq![line] + tail.drop_last());
    assert(whole.drop_last().map_values(cut) =~= seq![without_return(line)] + tail.drop_last().map_values(cut));
    assert(lines_of(line.push('\n') + rest) =~= seq![without_return(line)] + lines_of(rest));
    assert(seq![line].drop_last().map_values(cut) =~= Seq::<Seq<char>>::empty());
    if line.len() > 0 {
        assert(lines_of(line) =~= seq![line]);
    }
    let none = Seq::<char>::empty();
    lemma_pieces_whole(none, kind);
    assert(seq![none].drop_last().map_values(cut) =~= Seq::<Seq<char>>::empty());
    assert(lines_of(none) =~= Seq::<Seq<char>>::empty());
    assert(line.push('\r').drop_last() =~= line);
}

/// Texts are joined in their order with the separator between them.
pub proof fn law_texts_are_joined(parts: Seq<Seq<char>>, part: Seq<char>, sep: Seq<char>)
    ensures
        joined(Seq::empty(), sep) == Seq::<char>::empty(),
        parts.len() == 0 ==> joined(parts.push(part), sep) == part,
        parts.len() > 0 ==> joined(parts.push(part), sep) == joined(parts, sep) + sep + part,
{
    assert(parts.push(part).drop_last() =~= parts);
}

/// A text is parted at the last mark in it.
pub proof fn law_parting_at_the_last(before: Seq<char>, mark: char, after: Seq<char>)
    requires
        !after.contains(mark),
    ensures
        parted_last(before.push(mark) + after, mark) == Some((before, after)),
        parted_last(after, mark) is None,
{
    let kind = only(mark);
    let s = before.push(mark) + after;
    lemma_last_at(s, kind, s.len() as int);
    lemma_last_at(after, kind, after.len() as int);
    let i = last_at(s, kind, s.len() as int);
    assert(s[before.len() as int] == mark);
    assert(kind(s[before.len() as int]));
    if i > before.len() {
        assert(after[i - before.len() - 1] == mark);
    }
    assert(i == before.len());
    assert(s.take(i) =~= before);
    assert(s.skip(i + 1) =~= after);
    let j = last_at(after, kind, after.len() as int);
    if j >= 0 {
        assert(after[j] == mark);
    }
}

/// A text is parted at the first place where a separator stands, and not at all
/// where it does not stand.
pub proof fn law_parting_at_a_text(before: Seq<char>, sep: Seq<char>, after: Seq<char>, s: Seq<char>)
    requires
        forall|i: int| 0 <= i < before.len() ==> !stands_at(before + sep + after, sep, i),
    ensures
        parted_at(before + sep + after, sep) == Some((before, after)),
        (forall|i: int| !stands_at(s, sep, i)) ==> parted_at(s, sep) is None,
{
    let whole = before + sep + after;
    lemma_find_from(whole, sep, 0);
    lemma_find_from(s, sep, 0);
    let n = before.len() as int;
    assert(whole.subrange(n, n + sep.len()) =~= sep);
    assert(stands_at(whole, sep, n));
    let i = find_from(whole, sep, 0);
    assert(i == n);
    assert(whole.take(n) =~= before);
    assert(whole.skip(n + sep.len()) =~= after);
}

/// Marks at the start or at the end of a text are taken off, all of them, and
/// nothing else.
pub proof fn law_marks_are_taken_off(marks: Seq<char>, mark: char, s: Seq<char>)
    requires
        forall|i: int| 0 <= i < marks.len() ==> #[trigger] marks[i] == mark,
    ensures
        s.len() == 0 || s[0] != mark ==> stripped_start(marks + s, mark) == s,
        s.len() == 0 || s.last() != mark ==> stripped_end(s + marks, mark) == s,
{
    let kind = only(mark);
    let a = marks + s;
    let b = s + marks;
    lemma_run_end(a, kind, 0);
    lemma_run_start(b, kind, b.len() as int);
    let n = marks.len() as int;
    if s.len() == 0 || s[0] != mark {
        let k = run_end(a, kind, 0);
        if k < n {
            assert(a[k] == marks[k]);
        }
        if k > n {
            assert(kind(a[n]));
            assert(a[n] == s[0]);
        }
        assert(a.skip(n) =~= s);
    }
    if s.len() == 0 || s.last() != mark {
        let k = run_start(b, kind, b.len() as int);
        let m = s.len() as int;
        if k > m {
            assert(b[k - 1] == marks[k - 1 - m]);
        }
        if k < m {
            assert(kind(b[m - 1]));
            assert(b[m - 1] == s.last());
        }
        assert(b.take(m) =~= s);
    }
}

/// A prefix is taken off a text that starts with it.
pub proof fn law_prefix_is_taken_off(prefix: Seq<char>, rest: Seq<char>, s: Seq<char>)
    ensures
        after_prefix(prefix + rest, prefix) == Some(rest),
        after_prefix(s, prefix) matches Some(r) ==> s == prefix + r,
        after_prefix(s, prefix) is None ==> s.len() < prefix.len() || s.take(prefix.len() as int) != prefix,
{
    let whole = prefix + rest;
    assert(whole.subrange(0, prefix.len() as int) =~= prefix);
    assert(prefix.is_prefix_of(whole));
    assert(whole.skip(prefix.len() as int) =~= rest);
    if let Some(r) = after_prefix(s, prefix) {
        assert(s =~= prefix + r);
    }
}

/// A number is written with its last digit last.
pub proof fn law_numbers_are_written_in_decimal(n: nat, d: nat)
    requires
        d < 10,
    ensures
        decimal(d) == seq![(('0' as u32) + d) as char],
        n > 0 ==> decimal(10 * n + d) == decimal(n).push((('0' as u32) + d) as char),
{
    if n > 0 {
        assert((10 * n + d) / 10 == n);
        assert((10 * n + d) % 10 == d);
    }
}

/// A text is a number if it is made of digits, with or without a plus sign
/// before them, and the number is not above the limit; one more digit makes it
/// ten times as large and adds the digit.
pub proof fn law_digits_are_numbers(s: Seq<char>, n: nat, d: nat, limit: nat, k: int)
    ensures
        parsed_number(s, limit) == Some(n) && d < 10 && 10 * n + d <= limit ==> parsed_number(
            s.push((('0' as u32) + d) as char),
            limit,
        ) == Some(10 * n + d),
        parsed_number(s, limit) == Some(n) && d < 10 && 10 * n + d > limit ==> parsed_number(
            s.push((('0' as u32) + d) as char),
            limit,
        ) is None,
        d < 10 && d <= limit ==> parsed_number(seq![(('0' as u32) + d) as char], limit) == Some(d),
        parsed_number(Seq::empty(), limit) is None,
        s.len() > 0 && s[0] != '+' ==> parsed_number(seq!['+'] + s, limit) == parsed_number(s, limit),
        0 < k < s.len() && !('0' <= s[k] && s[k] <= '9') ==> parsed_number(s, limit) is None,
        s.len() > 0 && s[0] != '+' && !('0' <= s[0] && s[0] <= '9') ==> parsed_number(s, limit) is None,
        parsed_number(seq!['+'], limit) is None,
{
    let u = unsigned_digits(s);
    if d < 10 {
        let c = (('0' as u32) + d) as char;
        assert(is_digit(c));
        assert((c as u32 - '0' as u32) as nat == d);
        if parsed_number(s, limit) == Some(n) {
            let more = s.push(c);
            assert(unsigned_digits(more) =~= u.push(c));
            assert(u.push(c).drop_last() =~= u);
            assert(digits_value(u.push(c)) == n * 10 + d);
            assert forall|i: int| 0 <= i < u.push(c).len() implies is_digit(#[trigger] u.push(c)[i]) by {
                if i < u.len() {
                    assert(is_digit(u[i]));
                }
            }
        }
        let one = seq![c];
        assert(one.drop_last() =~= Seq::<char>::empty());
        assert(one[0] == c && one.last() == c);
        assert(digits_value(one.drop_last()) == 0);
        assert(digits_value(one) == d);
        assert(unsigned_digits(one) == one);
        assert(forall|i: int| 0 <= i < one.len() ==> is_digit(#[trigger] one[i]));
    }
    if s.len() > 0 && s[0] != '+' {
        let plus = seq!['+'] + s;
        assert(plus.skip(1) =~= s);
        assert(unsigned_digits(plus) == s);
    }
    if 0 < k < s.len() && !('0' <= s[k] && s[k] <= '9') {
        if s[0] == '+' {
            assert(u[k - 1] == s[k]);
        } else {
            assert(u[k] == s[k]);
        }
    }
    assert(unsigned_digits(seq!['+']) =~= Seq::<char>::empty());
}

} // verus!
