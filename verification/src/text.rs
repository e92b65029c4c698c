//! Text as sequences of characters: trimming, splitting, searching, replacing,
//! joining, ordering, and decimal numbers.
use crate::outside::{lowercase, lowercase_text, push_char};
use vstd::prelude::*;

verus! {

broadcast use {vstd::seq::group_seq_axioms, vstd::string::group_string_axioms};

/// The texts that a list of strings holds.
pub open spec fn texts(v: Seq<String>) -> Seq<Seq<char>> {
    v.map_values(|s: String| s@)
}

/// The text of an optional string.
pub open spec fn opt_text(s: Option<String>) -> Option<Seq<char>> {
    match s {
        Some(t) => Some(t@),
        None => None,
    }
}

/// The text of an optional string, or a default.
pub open spec fn text_or(s: Option<String>, default: Seq<char>) -> Seq<char> {
    match s {
        Some(t) => t@,
        None => default,
    }
}

/// The characters of a text.
pub fn chars_of(s: &str) -> (r: Vec<char>)
    ensures
        r@ == s@,
{
    let mut out: Vec<char> = Vec::new();
    for c in iter: s.chars()
        invariant
            iter.seq() == s@,
            out@ == s@.take(iter.index() as int),
    {
        out.push(c);
    }
    out
}

/// The text between two positions of a list of characters.
pub fn text_of(v: &Vec<char>, from: usize, to: usize) -> (r: String)
    requires
        from <= to <= v@.len(),
    ensures
        r@ == v@.subrange(from as int, to as int),
{
    let mut out = String::new();
    let mut i: usize = from;
    while i < to
        invariant
            from <= i <= to <= v@.len(),
            out@ == v@.subrange(from as int, i as int),
        decreases to - i,
    {
        push_char(&mut out, v[i]);
        proof {
            assert(v@.subrange(from as int, i + 1) =~= v@.subrange(from as int, i as int).push(v@[i as int]));
        }
        i += 1;
    }
    out
}

/// The text that a whole list of characters spells.
pub fn text_from(v: &Vec<char>) -> (r: String)
    ensures
        r@ == v@,
{
    let r = text_of(v, 0, v.len());
    proof {
        assert(v@.subrange(0, v@.len() as int) =~= v@);
    }
    r
}

/// Whether two texts are the same.
pub fn same(a: &str, b: &str) -> (r: bool)
    ensures
        r == (a@ == b@),
{
    let x = chars_of(a);
    let y = chars_of(b);
    if x.len() != y.len() {
        return false;
    }
    let mut i: usize = 0;
    while i < x.len()
        invariant
            i <= x@.len(),
            x@.len() == y@.len(),
            x@ == a@,
            y@ == b@,
            forall|j: int| 0 <= j < i ==> x@[j] == y@[j],
        decreases x@.len() - i,
    {
        if x[i] != y[i] {
            return false;
        }
        i += 1;
    }
    proof {
        assert(a@ =~= b@);
    }
    true
}

/// Whether a list of strings holds a text.
pub fn holds(list: &Vec<String>, item: &str) -> (r: bool)
    ensures
        r == texts(list@).contains(item@),
{
    let mut i: usize = 0;
    while i < list.len()
        invariant
            i <= list@.len(),
            forall|j: int| 0 <= j < i ==> texts(list@)[j] != item@,
        decreases list@.len() - i,
    {
        if same(list[i].as_str(), item) {
            proof {
                assert(texts(list@)[i as int] == item@);
            }
            return true;
        }
        i += 1;
    }
    false
}

/// The characters that Unicode counts as white space.
pub open spec fn white_space(c: char) -> bool {
    let n = c as u32;
    ||| 0x9 <= n <= 0xd
    ||| n == 0x20
    ||| n == 0x85
    ||| n == 0xa0
    ||| n == 0x1680
    ||| 0x2000 <= n <= 0x200a
    ||| n == 0x2028
    ||| n == 0x2029
    ||| n == 0x202f
    ||| n == 0x205f
    ||| n == 0x3000
}

/// Whether a character is white space.
pub fn is_white_space(c: char) -> (r: bool)
    ensures
        r == white_space(c),
{
    let n: u32 = c as u32;
    (0x9 <= n && n <= 0xd) || n == 0x20 || n == 0x85 || n == 0xa0 || n == 0x1680 || (0x2000 <= n
        && n <= 0x200a) || n == 0x2028 || n == 0x2029 || n == 0x202f || n == 0x205f || n == 0x3000
}

/// The kind of white space.
pub open spec fn blank() -> spec_fn(char) -> bool {
    |c: char| white_space(c)
}

/// The kind of one character.
pub open spec fn only(mark: char) -> spec_fn(char) -> bool {
    |c: char| c == mark
}

/// Where the leading run of characters of a kind ends.
pub open spec fn run_end(s: Seq<char>, kind: spec_fn(char) -> bool, i: int) -> int
    decreases s.len() - i,
{
    if 0 <= i < s.len() && kind(s[i]) {
        run_end(s, kind, i + 1)
    } else {
        i
    }
}

/// Where the trailing run of characters of a kind starts.
pub open spec fn run_start(s: Seq<char>, kind: spec_fn(char) -> bool, n: int) -> int
    decreases n,
{
    if 0 < n <= s.len() && kind(s[n - 1]) {
        run_start(s, kind, n - 1)
    } else {
        n
    }
}

/// A text without its leading characters of a kind.
pub open spec fn without_start(s: Seq<char>, kind: spec_fn(char) -> bool) -> Seq<char> {
    s.skip(run_end(s, kind, 0))
}

/// A text without its trailing characters of a kind.
pub open spec fn without_end(s: Seq<char>, kind: spec_fn(char) -> bool) -> Seq<char> {
    s.take(run_start(s, kind, s.len() as int))
}

/// A text without the white space at its end.
pub open spec fn trimmed_end(s: Seq<char>) -> Seq<char> {
    without_end(s, blank())
}

/// A text without the white space at both ends.
pub open spec fn trimmed(s: Seq<char>) -> Seq<char> {
    trimmed_end(without_start(s, blank()))
}

/// A text without the leading occurrences of a character.
pub open spec fn stripped_start(s: Seq<char>, mark: char) -> Seq<char> {
    without_start(s, only(mark))
}

/// A text without the trailing occurrences of a character.
pub open spec fn stripped_end(s: Seq<char>, mark: char) -> Seq<char> {
    without_end(s, only(mark))
}

/// The run that `run_end` follows has only characters of the kind, and stops
/// at the first other one.
pub proof fn lemma_run_end(s: Seq<char>, kind: spec_fn(char) -> bool, i: int)
    requires
        0 <= i <= s.len(),
    ensures
        i <= run_end(s, kind, i) <= s.len(),
        forall|j: int| i <= j < run_end(s, kind, i) ==> kind(#[trigger] s[j]),
        run_end(s, kind, i) < s.len() ==> !kind(s[run_end(s, kind, i)]),
    decreases s.len() - i,
{
    if i < s.len() && kind(s[i]) {
        lemma_run_end(s, kind, i + 1);
    }
}

/// The run that `run_start` follows has only characters of the kind, and stops
/// at the last other one.
pub proof fn lemma_run_start(s: Seq<char>, kind: spec_fn(char) -> bool, n: int)
    requires
        0 <= n <= s.len(),
    ensures
        0 <= run_start(s, kind, n) <= n,
        forall|j: int| run_start(s, kind, n) <= j < n ==> kind(#[trigger] s[j]),
        run_start(s, kind, n) > 0 ==> !kind(s[run_start(s, kind, n) - 1]),
    decreases n,
{
    if 0 < n && kind(s[n - 1]) {
        lemma_run_start(s, kind, n - 1);
    }
}

/// Removes the white space at the end of a text.
pub fn trim_end(s: &str) -> (r: String)
    ensures
        r@ == trimmed_end(s@),
{
    let v = chars_of(s);
    let ghost kind = blank();
    let mut n: usize = v.len();
    while n > 0 && is_white_space(v[n - 1])
        invariant
            n <= v@.len(),
            v@ == s@,
            kind == blank(),
            run_start(s@, kind, v@.len() as int) == run_start(s@, kind, n as int),
        decreases n,
    {
        n -= 1;
    }
    proof {
        lemma_run_start(s@, kind, n as int);
        assert(s@.subrange(0, n as int) =~= s@.take(n as int));
    }
    text_of(&v, 0, n)
}

/// Removes the white space at the start of a text.
pub fn trim_start(s: &str) -> (r: String)
    ensures
        r@ == without_start(s@, blank()),
{
    let v = chars_of(s);
    let ghost kind = blank();
    let mut i: usize = 0;
    while i < v.len() && is_white_space(v[i])
        invariant
            i <= v@.len(),
            v@ == s@,
            kind == blank(),
            run_end(s@, kind, 0) == run_end(s@, kind, i as int),
        decreases v@.len() - i,
    {
        i += 1;
    }
    proof {
        assert(s@.subrange(i as int, s@.len() as int) =~= s@.skip(i as int));
    }
    text_of(&v, i, v.len())
}

/// Removes the white space at both ends of a text.
pub fn trim(s: &str) -> (r: String)
    ensures
        r@ == trimmed(s@),
{
    trim_end(trim_start(s).as_str())
}

/// Removes the leading occurrences of a character.
pub fn strip_start(s: &str, mark: char) -> (r: String)
    ensures
        r@ == stripped_start(s@, mark),
{
    let v = chars_of(s);
    let ghost kind = only(mark);
    let mut i: usize = 0;
    while i < v.len() && v[i] == mark
        invariant
            i <= v@.len(),
            v@ == s@,
            kind == only(mark),
            run_end(s@, kind, 0) == run_end(s@, kind, i as int),
        decreases v@.len() - i,
    {
        i += 1;
    }
    proof {
        assert(s@.subrange(i as int, s@.len() as int) =~= s@.skip(i as int));
    }
    text_of(&v, i, v.len())
}

/// Removes the trailing occurrences of a character.
pub fn strip_end(s: &str, mark: char) -> (r: String)
    ensures
        r@ == stripped_end(s@, mark),
{
    let v = chars_of(s);
    let ghost kind = only(mark);
    let mut n: usize = v.len();
    while n > 0 && v[n - 1] == mark
        invariant
            n <= v@.len(),
            v@ == s@,
            kind == only(mark),
            run_start(s@, kind, v@.len() as int) == run_start(s@, kind, n as int),
        decreases n,
    {
        n -= 1;
    }
    proof {
        assert(s@.subrange(0, n as int) =~= s@.take(n as int));
    }
    text_of(&v, 0, n)
}

/// Trimming a text whose ends are not white space changes nothing.
pub proof fn lemma_trimmed_fixed(s: Seq<char>)
    requires
        s.len() > 0 ==> !white_space(s[0]) && !white_space(s.last()),
    ensures
        trimmed(s) == s,
{
    let kind = blank();
    assert(s.skip(0) =~= s);
    assert(s.take(s.len() as int) =~= s);
    if s.len() > 0 {
        assert(!kind(s[0]));
        assert(!kind(s[s.len() - 1]));
    }
}

/// A trimmed text is empty or starts and ends with something else than white
/// space, and every character of it stands in the text that was trimmed.
pub proof fn lemma_trimmed(s: Seq<char>)
    ensures
        trimmed(s).len() > 0 ==> !white_space(trimmed(s)[0]) && !white_space(trimmed(s).last()),
        trimmed(s).len() <= s.len(),
        exists|i: int|
            0 <= i <= s.len() - trimmed(s).len() && trimmed(s) == #[trigger] s.subrange(
                i,
                i + trimmed(s).len(),
            ),
{
    let kind = blank();
    let a = run_end(s, kind, 0);
    lemma_run_end(s, kind, 0);
    let t = s.skip(a);
    let b = run_start(t, kind, t.len() as int);
    lemma_run_start(t, kind, t.len() as int);
    let r = trimmed(s);
    assert(r =~= s.subrange(a, a + r.len()));
    if r.len() > 0 {
        assert(r[0] == s[a]);
        assert(!kind(s[a]));
        assert(r.last() == t[b - 1]);
        assert(!kind(t[b - 1]));
    }
}

/// The kind of the characters of a list.
pub open spec fn among(marks: Seq<char>) -> spec_fn(char) -> bool {
    |c: char| marks.contains(c)
}

/// The pieces of a text between the characters of a kind: one more piece than
/// there are such characters.
pub open spec fn pieces(s: Seq<char>, kind: spec_fn(char) -> bool) -> Seq<Seq<char>>
    decreases s.len(),
{
    if s.len() == 0 {
        seq![Seq::empty()]
    } else {
        let before = pieces(s.drop_last(), kind);
        if kind(s.last()) {
            before.push(Seq::empty())
        } else {
            before.drop_last().push(before.last().push(s.last()))
        }
    }
}

/// A text always has a piece.
pub proof fn lemma_pieces_some(s: Seq<char>, kind: spec_fn(char) -> bool)
    ensures
        pieces(s, kind).len() >= 1,
    decreases s.len(),
{
    if s.len() > 0 {
        lemma_pieces_some(s.drop_last(), kind);
    }
}

/// No piece holds a character at which the text was split, and each holds
/// characters of the text only.
pub proof fn lemma_pieces_kind(s: Seq<char>, kind: spec_fn(char) -> bool)
    ensures
        forall|i: int, j: int|
            0 <= i < pieces(s, kind).len() && 0 <= j < pieces(s, kind)[i].len() ==> {
                &&& !kind(#[trigger] pieces(s, kind)[i][j])
                &&& s.contains(pieces(s, kind)[i][j])
            },
    decreases s.len(),
{
    if s.len() > 0 {
        let init = s.drop_last();
        lemma_pieces_kind(init, kind);
        lemma_pieces_some(init, kind);
        let before = pieces(init, kind);
        let p = pieces(s, kind);
        assert forall|i: int, j: int| 0 <= i < p.len() && 0 <= j < p[i].len() implies {
            &&& !kind(#[trigger] p[i][j])
            &&& s.contains(p[i][j])
        } by {
            if kind(s.last()) {
                assert(p[i] == before[i]);
                let k = choose|k: int| 0 <= k < init.len() && init[k] == before[i][j];
                assert(s[k] == p[i][j]);
            } else if i < before.len() - 1 {
                assert(p[i] == before[i]);
                let k = choose|k: int| 0 <= k < init.len() && init[k] == before[i][j];
                assert(s[k] == p[i][j]);
            } else if j < before.last().len() {
                assert(p[i][j] == before[i][j]);
                let k = choose|k: int| 0 <= k < init.len() && init[k] == before[i][j];
                assert(s[k] == p[i][j]);
            } else {
                assert(p[i][j] == s.last());
                assert(s[s.len() - 1] == p[i][j]);
            }
        }
    }
}

/// A text without characters of the kind is its own only piece.
pub proof fn lemma_pieces_whole(s: Seq<char>, kind: spec_fn(char) -> bool)
    requires
        forall|i: int| 0 <= i < s.len() ==> !kind(#[trigger] s[i]),
    ensures
        pieces(s, kind) == seq![s],
    decreases s.len(),
{
    if s.len() > 0 {
        let init = s.drop_last();
        assert forall|i: int| 0 <= i < init.len() implies !kind(#[trigger] init[i]) by {
            assert(init[i] == s[i]);
        }
        lemma_pieces_whole(init, kind);
        assert(!kind(s[s.len() - 1]));
        assert(init.push(s.last()) =~= s);
        assert(pieces(s, kind) =~= seq![s]);
    } else {
        assert(s =~= Seq::empty());
    }
}

/// Characters that do not part a text extend its last piece.
pub proof fn lemma_pieces_append(s: Seq<char>, more: Seq<char>, kind: spec_fn(char) -> bool)
    requires
        forall|j: int| 0 <= j < more.len() ==> !kind(#[trigger] more[j]),
    ensures
        pieces(s + more, kind) == pieces(s, kind).drop_last().push(
            pieces(s, kind).last() + more,
        ),
    decreases more.len(),
{
    lemma_pieces_some(s, kind);
    let p = pieces(s, kind);
    if more.len() == 0 {
        assert(s + more =~= s);
        assert(p.last() + more =~= p.last());
        assert(p.drop_last().push(p.last()) =~= p);
    } else {
        let init = more.drop_last();
        assert forall|j: int| 0 <= j < init.len() implies !kind(#[trigger] init[j]) by {
            assert(init[j] == more[j]);
        }
        lemma_pieces_append(s, init, kind);
        assert((s + more).drop_last() =~= s + init);
        assert(!kind(more[more.len() - 1]));
        assert((s + more).last() == more.last());
        let q = pieces(s + init, kind);
        assert(q.drop_last() =~= p.drop_last());
        assert((p.last() + init).push(more.last()) =~= p.last() + more);
    }
}

/// A character that parts a text starts a new piece.
pub proof fn lemma_pieces_mark(s: Seq<char>, mark: char, kind: spec_fn(char) -> bool)
    requires
        kind(mark),
    ensures
        pieces(s.push(mark), kind) == pieces(s, kind).push(Seq::empty()),
{
    assert(s.push(mark).drop_last() =~= s);
}

/// Two texts with a character that parts them between come apart into the
/// pieces of both.
pub proof fn lemma_pieces_join(s: Seq<char>, mark: char, more: Seq<char>, kind: spec_fn(char) -> bool)
    requires
        kind(mark),
    ensures
        pieces(s.push(mark) + more, kind) == pieces(s, kind) + pieces(more, kind),
    decreases more.len(),
{
    let whole = s.push(mark) + more;
    let front = pieces(s, kind);
    if more.len() == 0 {
        assert(whole =~= s.push(mark));
        lemma_pieces_mark(s, mark, kind);
        assert(front + seq![Seq::<char>::empty()] =~= front.push(Seq::empty()));
    } else {
        let init = more.drop_last();
        lemma_pieces_join(s, mark, init, kind);
        lemma_pieces_some(init, kind);
        let back = pieces(init, kind);
        assert(whole.drop_last() =~= s.push(mark) + init);
        assert(whole.last() == more.last());
        if kind(more.last()) {
            assert((front + back).push(Seq::empty()) =~= front + back.push(Seq::empty()));
        } else {
            assert((front + back).last() == back.last());
            assert((front + back).drop_last().push(back.last().push(more.last())) =~= front
                + back.drop_last().push(back.last().push(more.last())));
        }
    }
}

/// What follows a text changes none of its pieces but the last.
pub proof fn lemma_pieces_prefix(s: Seq<char>, more: Seq<char>, kind: spec_fn(char) -> bool)
    ensures
        pieces(s + more, kind).len() >= pieces(s, kind).len(),
        forall|i: int|
            0 <= i < pieces(s, kind).len() - 1 ==> pieces(s + more, kind)[i] == #[trigger] pieces(s, kind)[i],
    decreases more.len(),
{
    lemma_pieces_some(s, kind);
    if more.len() == 0 {
        assert(s + more =~= s);
    } else {
        lemma_pieces_prefix(s, more.drop_last(), kind);
        assert((s + more).drop_last() =~= s + more.drop_last());
        assert((s + more).last() == more.last());
    }
}

/// White space at the end of a text does not count for what trimming leaves.
pub proof fn lemma_trimmed_push(s: Seq<char>, c: char)
    requires
        white_space(c),
    ensures
        trimmed(s.push(c)) == trimmed(s),
{
    let kind = blank();
    let l = s.push(c);
    let a = run_end(s, kind, 0);
    let b = run_end(l, kind, 0);
    lemma_run_end(s, kind, 0);
    lemma_run_end(l, kind, 0);
    if a < s.len() {
        assert(l[a] == s[a]);
        if b < a {
            assert(kind(s[b]));
            assert(l[b] == s[b]);
        }
        if b > a {
            assert(kind(l[a]));
        }
        assert(a == b);
        let t = s.skip(a);
        let u = l.skip(a);
        assert(u =~= t.push(c));
        let n = t.len() as int;
        assert(run_start(u, kind, n + 1) == run_start(u, kind, n));
        lemma_run_start(u, kind, n);
        lemma_run_start(t, kind, n);
        let x = run_start(u, kind, n);
        let y = run_start(t, kind, n);
        if x < y {
            assert(u[y - 1] == t[y - 1]);
            assert(kind(u[y - 1]));
        }
        if y < x {
            assert(u[x - 1] == t[x - 1]);
            assert(kind(t[x - 1]));
        }
        assert(u.take(x) =~= t.take(y));
    } else {
        if b < l.len() {
            if b < s.len() {
                assert(kind(s[b]));
                assert(l[b] == s[b]);
            } else {
                assert(l[b] == c);
            }
        }
        assert(b == l.len());
        assert(s.skip(a) =~= l.skip(b));
    }
}

/// Whether a character stands in a list.
pub fn is_among(c: char, marks: &Vec<char>) -> (r: bool)
    ensures
        r == marks@.contains(c),
{
    let mut i: usize = 0;
    while i < marks.len()
        invariant
            i <= marks@.len(),
            forall|j: int| 0 <= j < i ==> marks@[j] != c,
        decreases marks@.len() - i,
    {
        if marks[i] == c {
            return true;
        }
        i += 1;
    }
    false
}

/// White space, or the characters of a list.
spec fn separators(marks: Option<Vec<char>>) -> spec_fn(char) -> bool {
    match marks {
        Some(list) => among(list@),
        None => blank(),
    }
}

/// Splits a text at the characters of a list, or without a list at white
/// space.
fn split_where(s: &str, marks: &Option<Vec<char>>) -> (r: Vec<String>)
    ensures
        texts(r@) == pieces(s@, separators(*marks)),
{
    let ghost kind = separators(*marks);
    let v = chars_of(s);
    let mut out: Vec<String> = Vec::new();
    let mut start: usize = 0;
    let mut i: usize = 0;
    proof {
        assert(s@.take(0).len() == 0);
        assert(texts(out@) =~= pieces(s@.take(0), kind).drop_last());
        assert(s@.subrange(0, 0) =~= Seq::<char>::empty());
    }
    while i < v.len()
        invariant
            start <= i <= v@.len(),
            v@ == s@,
            kind == separators(*marks),
            pieces(s@.take(i as int), kind).len() >= 1,
            texts(out@) == pieces(s@.take(i as int), kind).drop_last(),
            pieces(s@.take(i as int), kind).last() == s@.subrange(start as int, i as int),
        decreases v@.len() - i,
    {
        let ghost before = pieces(s@.take(i as int), kind);
        let ghost out0 = out@;
        let ghost start0 = start as int;
        let ghost now = s@.take(i + 1);
        proof {
            assert(now.drop_last() =~= s@.take(i as int));
            assert(now.last() == s@[i as int]);
        }
        let ends = match marks {
            Some(list) => is_among(v[i], list),
            None => is_white_space(v[i]),
        };
        if ends {
            let piece = text_of(&v, start, i);
            out.push(piece);
            start = i + 1;
            proof {
                assert(pieces(now, kind) == before.push(Seq::empty()));
                assert(texts(out@) =~= texts(out0).push(piece@));
                assert(before.drop_last().push(before.last()) =~= before);
                assert(pieces(now, kind).drop_last() =~= before);
                assert(s@.subrange(start as int, i + 1) =~= Seq::<char>::empty());
            }
        } else {
            proof {
                assert(pieces(now, kind) == before.drop_last().push(before.last().push(s@[i as int])));
                assert(pieces(now, kind).drop_last() =~= before.drop_last());
                assert(s@.subrange(start0, i + 1) =~= s@.subrange(start0, i as int).push(s@[i as int]));
            }
        }
        i += 1;
    }
    let ghost out1 = out@;
    let piece = text_of(&v, start, v.len());
    out.push(piece);
    proof {
        let all = pieces(s@, kind);
        assert(s@.take(s@.len() as int) =~= s@);
        assert(texts(out@) =~= texts(out1).push(piece@));
        assert(all.drop_last().push(all.last()) =~= all);
    }
    out
}

/// Splits a text at the characters of a list.
pub fn split_any(s: &str, marks: Vec<char>) -> (r: Vec<String>)
    ensures
        texts(r@) == pieces(s@, among(marks@)),
{
    split_where(s, &Some(marks))
}

/// The pieces of a text between the occurrences of a character.
pub open spec fn split_at(s: Seq<char>, mark: char) -> Seq<Seq<char>> {
    pieces(s, among(seq![mark]))
}

/// Splits a text at a character.
pub fn split_on(s: &str, mark: char) -> (r: Vec<String>)
    ensures
        texts(r@) == split_at(s@, mark),
{
    let marks = vec![mark];
    proof {
        assert(marks@ =~= seq![mark]);
    }
    split_any(s, marks)
}

/// A text without one carriage return at its end.
pub open spec fn without_return(s: Seq<char>) -> Seq<char> {
    if s.len() > 0 && s.last() == '\r' {
        s.drop_last()
    } else {
        s
    }
}

/// The lines of a text. A line ends at a line feed, and a carriage return
/// before that line feed does not belong to it; nothing after the last line
/// feed is no line.
pub open spec fn lines_of(s: Seq<char>) -> Seq<Seq<char>> {
    let p = split_at(s, '\n');
    let ended = p.drop_last().map_values(|l: Seq<char>| without_return(l));
    if p.last().len() == 0 {
        ended
    } else {
        ended.push(p.last())
    }
}

/// Splits a text into its lines.
pub fn lines(s: &str) -> (r: Vec<String>)
    ensures
        texts(r@) == lines_of(s@),
{
    let p = split_on(s, '\n');
    let ghost ps = split_at(s@, '\n');
    let ghost cut = |l: Seq<char>| without_return(l);
    proof {
        lemma_pieces_some(s@, among(seq!['\n']));
    }
    let last: usize = p.len() - 1;
    let mut out: Vec<String> = Vec::new();
    let mut i: usize = 0;
    while i < last
        invariant
            i <= last,
            last == p@.len() - 1,
            texts(p@) == ps,
            cut == (|l: Seq<char>| without_return(l)),
            texts(out@) == ps.take(i as int).map_values(cut),
        decreases last - i,
    {
        let ghost out0 = out@;
        let line = chars_of(p[i].as_str());
        let n: usize = line.len();
        let stripped = if n > 0 && line[n - 1] == '\r' {
            text_of(&line, 0, n - 1)
        } else {
            text_from(&line)
        };
        out.push(stripped);
        proof {
            assert(ps[i as int] == p@[i as int]@);
            if n > 0 && line@[n - 1] == '\r' {
                assert(line@.subrange(0, n - 1) =~= line@.drop_last());
            }
            assert(stripped@ == cut(ps[i as int]));
            assert(texts(out@) =~= texts(out0).push(stripped@));
            assert(ps.take(i + 1).map_values(cut) =~= ps.take(i as int).map_values(cut).push(cut(ps[i as int])));
        }
        i += 1;
    }
    proof {
        assert(ps.take(last as int) =~= ps.drop_last());
        assert(ps.last() == p@[last as int]@);
    }
    if !p[last].as_str().is_empty() {
        let ghost out0 = out@;
        out.push(p[last].clone());
        proof {
            assert(texts(out@) =~= texts(out0).push(ps.last()));
        }
    }
    out
}

/// The words of a text: its pieces between white space, the empty ones left
/// out.
pub open spec fn words_of(s: Seq<char>) -> Seq<Seq<char>> {
    pieces(s, blank()).filter(|w: Seq<char>| w.len() > 0)
}

/// Splits a text into the pieces between white space, empty ones among them.
pub fn split_blank(s: &str) -> (r: Vec<String>)
    ensures
        texts(r@) == pieces(s@, blank()),
{
    split_where(s, &None)
}

/// Keeps the texts that are not empty.
pub fn not_empty(list: &Vec<String>) -> (r: Vec<String>)
    ensures
        texts(r@) == texts(list@).filter(|w: Seq<char>| w.len() > 0),
{
    let ghost all = texts(list@);
    let ghost full = |w: Seq<char>| w.len() > 0;
    let mut out: Vec<String> = Vec::new();
    let mut i: usize = 0;
    proof {
        reveal(Seq::filter);
        assert(all.take(0).filter(full) =~= Seq::empty());
    }
    while i < list.len()
        invariant
            i <= list@.len(),
            all == texts(list@),
            full == (|w: Seq<char>| w.len() > 0),
            texts(out@) == all.take(i as int).filter(full),
        decreases list@.len() - i,
    {
        let ghost out0 = out@;
        proof {
            reveal(Seq::filter);
            assert(all.take(i + 1).drop_last() =~= all.take(i as int));
            assert(all.take(i + 1).last() == list@[i as int]@);
        }
        if !list[i].as_str().is_empty() {
            out.push(list[i].clone());
            proof {
                assert(texts(out@) =~= texts(out0).push(list@[i as int]@));
            }
        }
        i += 1;
    }
    proof {
        assert(all.take(all.len() as int) =~= all);
    }
    out
}

/// Splits a text into its words.
pub fn words(s: &str) -> (r: Vec<String>)
    ensures
        texts(r@) == words_of(s@),
{
    let p = split_blank(s);
    not_empty(&p)
}

/// The first position from `i` on with a character of a kind, or the length of
/// the text.
pub open spec fn first_at(s: Seq<char>, kind: spec_fn(char) -> bool, i: int) -> int
    decreases s.len() - i,
{
    if i >= s.len() || kind(s[i]) {
        i
    } else {
        first_at(s, kind, i + 1)
    }
}

/// The last position below `n` with a character of a kind, or -1.
pub open spec fn last_at(s: Seq<char>, kind: spec_fn(char) -> bool, n: int) -> int
    decreases n,
{
    if n <= 0 {
        -1
    } else if kind(s[n - 1]) {
        n - 1
    } else {
        last_at(s, kind, n - 1)
    }
}

/// What stands before and after the first character of a kind.
pub open spec fn parted(s: Seq<char>, kind: spec_fn(char) -> bool) -> Option<(Seq<char>, Seq<char>)> {
    let i = first_at(s, kind, 0);
    if i < s.len() {
        Some((s.take(i), s.skip(i + 1)))
    } else {
        None
    }
}

/// What stands before and after the last occurrence of a character.
pub open spec fn parted_last(s: Seq<char>, mark: char) -> Option<(Seq<char>, Seq<char>)> {
    let i = last_at(s, only(mark), s.len() as int);
    if i >= 0 {
        Some((s.take(i), s.skip(i + 1)))
    } else {
        None
    }
}

/// The texts of a pair.
pub open spec fn pair_texts(p: Option<(String, String)>) -> Option<(Seq<char>, Seq<char>)> {
    match p {
        Some((a, b)) => Some((a@, b@)),
        None => None,
    }
}

/// `first_at` finds a character of the kind, with none before it.
pub proof fn lemma_first_at(s: Seq<char>, kind: spec_fn(char) -> bool, i: int)
    requires
        0 <= i <= s.len(),
    ensures
        i <= first_at(s, kind, i) <= s.len(),
        first_at(s, kind, i) < s.len() ==> kind(s[first_at(s, kind, i)]),
        forall|j: int| i <= j < first_at(s, kind, i) ==> !kind(#[trigger] s[j]),
    decreases s.len() - i,
{
    if i < s.len() && !kind(s[i]) {
        lemma_first_at(s, kind, i + 1);
    }
}

/// `last_at` finds a character of the kind, with none after it.
pub proof fn lemma_last_at(s: Seq<char>, kind: spec_fn(char) -> bool, n: int)
    requires
        0 <= n <= s.len(),
    ensures
        -1 <= last_at(s, kind, n) < n,
        last_at(s, kind, n) >= 0 ==> kind(s[last_at(s, kind, n)]),
        forall|j: int| last_at(s, kind, n) < j < n ==> !kind(#[trigger] s[j]),
    decreases n,
{
    if n > 0 && !kind(s[n - 1]) {
        lemma_last_at(s, kind, n - 1);
    }
}

/// Splits a text at the first occurrence of a character.
pub fn split_once(s: &str, mark: char) -> (r: Option<(String, String)>)
    ensures
        pair_texts(r) == parted(s@, only(mark)),
{
    let v = chars_of(s);
    let ghost kind = only(mark);
    let mut i: usize = 0;
    while i < v.len() && v[i] != mark
        invariant
            i <= v@.len(),
            v@ == s@,
            kind == only(mark),
            first_at(s@, kind, 0) == first_at(s@, kind, i as int),
        decreases v@.len() - i,
    {
        i += 1;
    }
    if i < v.len() {
        proof {
            assert(s@.subrange(0, i as int) =~= s@.take(i as int));
            assert(s@.subrange(i + 1, s@.len() as int) =~= s@.skip(i + 1));
        }
        Some((text_of(&v, 0, i), text_of(&v, i + 1, v.len())))
    } else {
        None
    }
}

/// Splits a text at its first white space.
pub fn split_once_blank(s: &str) -> (r: Option<(String, String)>)
    ensures
        pair_texts(r) == parted(s@, blank()),
{
    let v = chars_of(s);
    let ghost kind = blank();
    let mut i: usize = 0;
    while i < v.len() && !is_white_space(v[i])
        invariant
            i <= v@.len(),
            v@ == s@,
            kind == blank(),
            first_at(s@, kind, 0) == first_at(s@, kind, i as int),
        decreases v@.len() - i,
    {
        i += 1;
    }
    if i < v.len() {
        proof {
            assert(s@.subrange(0, i as int) =~= s@.take(i as int));
            assert(s@.subrange(i + 1, s@.len() as int) =~= s@.skip(i + 1));
        }
        Some((text_of(&v, 0, i), text_of(&v, i + 1, v.len())))
    } else {
        None
    }
}

/// Splits a text at the last occurrence of a character.
pub fn split_last(s: &str, mark: char) -> (r: Option<(String, String)>)
    ensures
        pair_texts(r) == parted_last(s@, mark),
{
    let v = chars_of(s);
    let ghost kind = only(mark);
    let mut n: usize = v.len();
    while n > 0 && v[n - 1] != mark
        invariant
            n <= v@.len(),
            v@ == s@,
            kind == only(mark),
            last_at(s@, kind, v@.len() as int) == last_at(s@, kind, n as int),
        decreases n,
    {
        n -= 1;
    }
    if n > 0 {
        proof {
            assert(s@.subrange(0, n - 1) =~= s@.take(n - 1));
            assert(s@.subrange(n as int, s@.len() as int) =~= s@.skip(n as int));
        }
        Some((text_of(&v, 0, n - 1), text_of(&v, n, v.len())))
    } else {
        None
    }
}

/// Whether a text stands at a position of another.
pub open spec fn stands_at(s: Seq<char>, needle: Seq<char>, i: int) -> bool {
    0 <= i && i + needle.len() <= s.len() && s.subrange(i, i + needle.len()) == needle
}

/// Whether a text stands somewhere in another.
pub open spec fn has_text(s: Seq<char>, needle: Seq<char>) -> bool {
    exists|i: int| stands_at(s, needle, i)
}

/// The first position from `i` on where a text stands in another, or -1.
pub open spec fn find_from(s: Seq<char>, needle: Seq<char>, i: int) -> int
    decreases s.len() + 1 - i,
{
    if i + needle.len() > s.len() {
        -1
    } else if stands_at(s, needle, i) {
        i
    } else {
        find_from(s, needle, i + 1)
    }
}

/// What stands before and after the first occurrence of a text.
pub open spec fn parted_at(s: Seq<char>, sep: Seq<char>) -> Option<(Seq<char>, Seq<char>)> {
    let i = find_from(s, sep, 0);
    if i >= 0 {
        Some((s.take(i), s.skip(i + sep.len())))
    } else {
        None
    }
}

/// `find_from` finds the text wherever it stands.
pub proof fn lemma_find_from(s: Seq<char>, needle: Seq<char>, i: int)
    requires
        0 <= i,
    ensures
        find_from(s, needle, i) >= 0 ==> i <= find_from(s, needle, i) && stands_at(
            s,
            needle,
            find_from(s, needle, i),
        ),
        find_from(s, needle, i) < 0 ==> find_from(s, needle, i) == -1 && forall|j: int|
            i <= j ==> !stands_at(s, needle, j),
        find_from(s, needle, i) >= 0 ==> forall|j: int|
            i <= j < find_from(s, needle, i) ==> !stands_at(s, needle, j),
    decreases s.len() + 1 - i,
{
    if i + needle.len() <= s.len() && !stands_at(s, needle, i) {
        lemma_find_from(s, needle, i + 1);
    }
}

/// Whether one list of characters stands at a position of another.
fn matches_at(v: &Vec<char>, n: &Vec<char>, i: usize) -> (r: bool)
    requires
        i + n@.len() <= v@.len(),
    ensures
        r == stands_at(v@, n@, i as int),
{
    let total: usize = v.len();
    let mut j: usize = 0;
    while j < n.len()
        invariant
            j <= n@.len(),
            i + n@.len() <= v@.len(),
            v@.len() == total,
            forall|k: int| 0 <= k < j ==> v@[i + k] == n@[k],
        decreases n@.len() - j,
    {
        if v[i + j] != n[j] {
            proof {
                assert(v@.subrange(i as int, i + n@.len())[j as int] != n@[j as int]);
            }
            return false;
        }
        j += 1;
    }
    proof {
        assert(v@.subrange(i as int, i + n@.len()) =~= n@);
    }
    true
}

/// The first position where a text stands in another, counted in characters.
pub fn find(s: &str, needle: &str) -> (r: Option<usize>)
    ensures
        match r {
            Some(i) => find_from(s@, needle@, 0) == i,
            None => find_from(s@, needle@, 0) == -1,
        },
{
    let v = chars_of(s);
    let n = chars_of(needle);
    if n.len() > v.len() {
        return None;
    }
    let last: usize = v.len() - n.len();
    let mut i: usize = 0;
    while i < last
        invariant
            v@ == s@,
            n@ == needle@,
            last == v@.len() - n@.len(),
            i <= last,
            find_from(s@, needle@, 0) == find_from(s@, needle@, i as int),
        decreases last - i,
    {
        if matches_at(&v, &n, i) {
            return Some(i);
        }
        i += 1;
    }
    if matches_at(&v, &n, i) {
        Some(i)
    } else {
        proof {
            assert(find_from(s@, needle@, i + 1) == -1);
        }
        None
    }
}

/// Whether a text stands somewhere in another.
pub fn contains(s: &str, needle: &str) -> (r: bool)
    ensures
        r == has_text(s@, needle@),
{
    proof {
        lemma_find_from(s@, needle@, 0);
    }
    match find(s, needle) {
        Some(_) => true,
        None => false,
    }
}

/// Splits a text at the first occurrence of another.
pub fn split_once_at(s: &str, sep: &str) -> (r: Option<(String, String)>)
    ensures
        pair_texts(r) == parted_at(s@, sep@),
{
    match find(s, sep) {
        Some(i) => {
            let v = chars_of(s);
            let n = chars_of(sep);
            let total: usize = v.len();
            proof {
                lemma_find_from(s@, sep@, 0);
                assert(s@.subrange(0, i as int) =~= s@.take(i as int));
                assert(s@.subrange(i + sep@.len(), s@.len() as int) =~= s@.skip(i + sep@.len()));
            }
            Some((text_of(&v, 0, i), text_of(&v, i + n.len(), total)))
        },
        None => None,
    }
}

/// Whether a text starts with another.
pub fn starts_with(s: &str, prefix: &str) -> (r: bool)
    ensures
        r == prefix@.is_prefix_of(s@),
{
    let v = chars_of(s);
    let n = chars_of(prefix);
    if n.len() > v.len() {
        return false;
    }
    let r = matches_at(&v, &n, 0);
    proof {
        if r {
            assert(prefix@ =~= s@.subrange(0, prefix@.len() as int));
        }
    }
    r
}

/// The text after a prefix.
pub open spec fn after_prefix(s: Seq<char>, prefix: Seq<char>) -> Option<Seq<char>> {
    if prefix.is_prefix_of(s) {
        Some(s.skip(prefix.len() as int))
    } else {
        None
    }
}

/// Removes a prefix from a text that starts with it.
pub fn strip_prefix(s: &str, prefix: &str) -> (r: Option<String>)
    ensures
        opt_text(r) == after_prefix(s@, prefix@),
{
    if starts_with(s, prefix) {
        let v = chars_of(s);
        let n = chars_of(prefix);
        proof {
            assert(s@.subrange(prefix@.len() as int, s@.len() as int) =~= s@.skip(prefix@.len() as int));
        }
        Some(text_of(&v, n.len(), v.len()))
    } else {
        None
    }
}

/// Whether a character stands in a text.
pub fn has_char(s: &str, mark: char) -> (r: bool)
    ensures
        r == s@.contains(mark),
{
    let v = chars_of(s);
    is_among(mark, &v)
}

/// A text with each occurrence of a character replaced by another text.
pub open spec fn replaced(s: Seq<char>, mark: char, with: Seq<char>) -> Seq<char>
    decreases s.len(),
{
    if s.len() == 0 {
        Seq::empty()
    } else if s.last() == mark {
        replaced(s.drop_last(), mark, with) + with
    } else {
        replaced(s.drop_last(), mark, with).push(s.last())
    }
}

/// Replaces each occurrence of a character by a text.
pub fn replace(s: &str, mark: char, with: &str) -> (r: String)
    ensures
        r@ == replaced(s@, mark, with@),
{
    let v = chars_of(s);
    let mut out = String::new();
    let mut i: usize = 0;
    while i < v.len()
        invariant
            i <= v@.len(),
            v@ == s@,
            out@ == replaced(s@.take(i as int), mark, with@),
        decreases v@.len() - i,
    {
        proof {
            assert(s@.take(i + 1).drop_last() =~= s@.take(i as int));
        }
        if v[i] == mark {
            out.append(with);
        } else {
            push_char(&mut out, v[i]);
        }
        i += 1;
    }
    proof {
        assert(s@.take(s@.len() as int) =~= s@);
    }
    out
}

/// The first characters of a text, at most `n`.
pub open spec fn first_chars(s: Seq<char>, n: int) -> Seq<char> {
    if s.len() <= n {
        s
    } else {
        s.take(n)
    }
}

/// Keeps at most the first `n` characters of a text.
pub fn take_chars(s: &str, n: usize) -> (r: String)
    ensures
        r@ == first_chars(s@, n as int),
{
    let v = chars_of(s);
    if v.len() <= n {
        s.to_owned()
    } else {
        proof {
            assert(s@.subrange(0, n as int) =~= s@.take(n as int));
        }
        text_of(&v, 0, n)
    }
}

/// Texts joined with a separator between each two.
pub open spec fn joined(parts: Seq<Seq<char>>, sep: Seq<char>) -> Seq<char>
    decreases parts.len(),
{
    if parts.len() == 0 {
        Seq::empty()
    } else if parts.len() == 1 {
        parts[0]
    } else {
        joined(parts.drop_last(), sep) + sep + parts.last()
    }
}

/// Joins texts with a separator.
pub fn join(parts: &Vec<String>, sep: &str) -> (r: String)
    ensures
        r@ == joined(texts(parts@), sep@),
{
    let ghost all = texts(parts@);
    let mut out = String::new();
    let mut i: usize = 0;
    while i < parts.len()
        invariant
            i <= parts@.len(),
            all == texts(parts@),
            out@ == joined(all.take(i as int), sep@),
        decreases parts@.len() - i,
    {
        proof {
            assert(all.take(i + 1).drop_last() =~= all.take(i as int));
            assert(all.take(i + 1).last() == parts@[i as int]@);
        }
        if i > 0 {
            out.append(sep);
        }
        out.append(parts[i].as_str());
        proof {
            if i == 0 {
                assert(out@ =~= parts@[0]@);
            }
        }
        i += 1;
    }
    proof {
        assert(all.take(all.len() as int) =~= all);
    }
    out
}

/// Joining the pieces between the occurrences of a character with that
/// character gives the text back.
pub proof fn law_split_joins(s: Seq<char>, mark: char)
    ensures
        joined(split_at(s, mark), seq![mark]) == s,
    decreases s.len(),
{
    let kind = among(seq![mark]);
    let sep = seq![mark];
    assert(sep[0] == mark);
    if s.len() > 0 {
        let init = s.drop_last();
        let before = split_at(init, mark);
        let now = split_at(s, mark);
        law_split_joins(init, mark);
        lemma_pieces_some(init, kind);
        if kind(s.last()) {
            let k = choose|k: int| 0 <= k < sep.len() && sep[k] == s.last();
            assert(s.last() == mark);
            assert(now.drop_last() =~= before);
            assert(joined(now, sep) =~= s);
        } else if before.len() == 1 {
            assert(now =~= seq![before[0].push(s.last())]);
            assert(joined(before, sep) == before[0]);
            assert(joined(now, sep) =~= init.push(s.last()));
            assert(s =~= init.push(s.last()));
        } else {
            assert(now.drop_last() =~= before.drop_last());
            assert(joined(before, sep) == joined(before.drop_last(), sep) + sep + before.last());
            assert(joined(now, sep) == joined(before.drop_last(), sep) + sep + now.last());
            assert(joined(now, sep) =~= init.push(s.last()));
            assert(s =~= init.push(s.last()));
        }
    } else {
        assert(split_at(s, mark) =~= seq![Seq::empty()]);
        assert(joined(split_at(s, mark), sep) =~= s);
    }
}

/// A letter of ASCII in lower case; other characters stay.
pub open spec fn ascii_lower(c: char) -> char {
    if 'A' <= c && c <= 'Z' {
        ((c as u32) + 32) as char
    } else {
        c
    }
}

/// Whether a text holds characters of ASCII only.
pub open spec fn ascii_only(s: Seq<char>) -> bool {
    forall|i: int| 0 <= i < s.len() ==> (#[trigger] s[i]) as u32 <= 127
}

/// A text in lower case.
pub open spec fn lowered(s: Seq<char>) -> Seq<char> {
    if ascii_only(s) {
        s.map_values(|c: char| ascii_lower(c))
    } else {
        lowercase_text(s)
    }
}

/// Puts a text into lower case.
pub fn to_lower(s: &str) -> (r: String)
    ensures
        r@ == lowered(s@),
{
    lowercase(s)
}

/// The digit for a number below ten.
pub open spec fn digit(n: nat) -> char {
    (('0' as u32) + n) as char
}

/// A number in decimal notation.
pub open spec fn decimal(n: nat) -> Seq<char>
    decreases n,
{
    if n < 10 {
        seq![digit(n)]
    } else {
        decimal(n / 10).push(digit(n % 10))
    }
}

fn digit_char(n: u64) -> (r: char)
    requires
        n < 10,
    ensures
        r == digit(n as nat),
{
    ((('0' as u8) + (n as u8)) as char)
}

/// Writes a number in decimal notation.
pub fn decimal_of(n: u64) -> (r: String)
    ensures
        r@ == decimal(n as nat),
    decreases n,
{
    if n < 10 {
        let mut out = String::new();
        push_char(&mut out, digit_char(n));
        proof {
            assert(out@ =~= seq![digit(n as nat)]);
        }
        out
    } else {
        let mut out = decimal_of(n / 10);
        push_char(&mut out, digit_char(n % 10));
        out
    }
}

/// Whether a character is a decimal digit.
pub open spec fn is_digit(c: char) -> bool {
    '0' <= c && c <= '9'
}

/// The number that digits spell.
pub open spec fn digits_value(s: Seq<char>) -> nat
    decreases s.len(),
{
    if s.len() == 0 {
        0
    } else {
        digits_value(s.drop_last()) * 10 + (s.last() as u32 - '0' as u32) as nat
    }
}

/// The digits of a number that may carry a plus sign.
pub open spec fn unsigned_digits(s: Seq<char>) -> Seq<char> {
    if s.len() > 0 && s[0] == '+' {
        s.skip(1)
    } else {
        s
    }
}

/// The number that a text spells in decimal notation, if it spells one that is
/// not above a limit.
pub open spec fn parsed_number(s: Seq<char>, limit: nat) -> Option<nat> {
    let d = unsigned_digits(s);
    if d.len() > 0 && (forall|i: int| 0 <= i < d.len() ==> is_digit(#[trigger] d[i])) && digits_value(d)
        <= limit {
        Some(digits_value(d))
    } else {
        None
    }
}

/// More digits spell no smaller number.
proof fn lemma_digits_grow(s: Seq<char>, n: int)
    requires
        0 <= n <= s.len(),
    ensures
        digits_value(s.take(n)) <= digits_value(s),
    decreases s.len(),
{
    if n < s.len() {
        assert(s.drop_last().take(n) =~= s.take(n));
        lemma_digits_grow(s.drop_last(), n);
        assert(digits_value(s) >= digits_value(s.drop_last()) * 10);
    } else {
        assert(s.take(n) =~= s);
    }
}

/// Reads a number in decimal notation that is not above a limit.
pub fn parse_number(s: &str, limit: u64) -> (r: Option<u64>)
    ensures
        match r {
            Some(n) => parsed_number(s@, limit as nat) == Some(n as nat),
            None => parsed_number(s@, limit as nat) is None,
        },
{
    let v = chars_of(s);
    let start: usize = if v.len() > 0 && v[0] == '+' {
        1
    } else {
        0
    };
    let ghost d = unsigned_digits(s@);
    proof {
        assert(d =~= s@.skip(start as int));
    }
    if v.len() == start {
        return None;
    }
    let mut n: u64 = 0;
    let mut i: usize = start;
    while i < v.len()
        invariant
            start <= i <= v@.len(),
            start <= 1,
            v@ == s@,
            d == unsigned_digits(s@),
            d == s@.skip(start as int),
            d.len() > 0,
            n == digits_value(d.take(i - start)),
            n <= limit,
            forall|j: int| 0 <= j < i - start ==> is_digit(#[trigger] d[j]),
        decreases v@.len() - i,
    {
        let c = v[i];
        let ghost at = i - start;
        proof {
            assert(d[at] == c);
            assert(d.take(at + 1).drop_last() =~= d.take(at));
            assert(d.take(at + 1).last() == c);
        }
        if !('0' <= c && c <= '9') {
            return None;
        }
        let value: u64 = (c as u32 - '0' as u32) as u64;
        if value > limit || n > limit / 10 || n * 10 > limit - value {
            proof {
                lemma_digits_grow(d, at + 1);
                assert(digits_value(d.take(at + 1)) == n * 10 + value);
                assert(digits_value(d) > limit);
            }
            return None;
        }
        n = n * 10 + value;
        i += 1;
    }
    proof {
        assert(d.take(d.len() as int) =~= d);
    }
    Some(n)
}

/// A number in decimal notation is read back as that number.
pub proof fn law_decimal_reads_back(n: nat, limit: nat)
    requires
        n <= limit,
    ensures
        parsed_number(decimal(n), limit) == Some(n),
{
    lemma_decimal(n);
    let d = decimal(n);
    assert(is_digit(d[0]));
    assert(unsigned_digits(d) == d);
}

/// A number in decimal notation has digits only, which spell it.
pub proof fn lemma_decimal(n: nat)
    ensures
        decimal(n).len() > 0,
        forall|i: int| 0 <= i < decimal(n).len() ==> is_digit(#[trigger] decimal(n)[i]),
        digits_value(decimal(n)) == n,
    decreases n,
{
    let d = decimal(n);
    let low = n % 10;
    assert(digit(low) as u32 == '0' as u32 + low);
    assert(is_digit(digit(low)));
    if n < 10 {
        assert(d =~= Seq::<char>::empty().push(digit(n)));
        assert(d.drop_last() =~= Seq::<char>::empty());
        assert(d.last() == digit(n));
        assert(digits_value(d.drop_last()) == 0);
    } else {
        lemma_decimal(n / 10);
        assert(d.drop_last() =~= decimal(n / 10));
        assert(d.last() == digit(low));
    }
}

/// Different numbers are written differently.
pub proof fn lemma_decimal_differs(a: nat, b: nat)
    requires
        a != b,
    ensures
        decimal(a) != decimal(b),
{
    lemma_decimal(a);
    lemma_decimal(b);
}

} // verus!
