//! Mail addresses in header values.
use crate::outside::{push_char, regex_first_groups, regex_groups, EMAIL_PATTERN};
use crate::text::{
    among, chars_of, lemma_trimmed, lemma_trimmed_fixed, lowered, only, parted, pieces, split_any,
    split_once, texts, to_lower, trim, trimmed,
};
use vstd::prelude::*;

verus! {

/// A line break becomes a space; other characters stay.
pub open spec fn unbroken(c: char) -> char {
    if c == '\n' || c == '\r' {
        ' '
    } else {
        c
    }
}

/// A header value on one line: line breaks become spaces, and the ends are
/// trimmed.
pub open spec fn cleaned(s: Seq<char>) -> Seq<char> {
    trimmed(s.map_values(|c: char| unbroken(c)))
}

/// Puts a header value on one line.
pub fn clean_addr(value: &str) -> (r: String)
    ensures
        r@ == cleaned(value@),
{
    let v = chars_of(value);
    let ghost flat = |c: char| unbroken(c);
    let mut out = String::new();
    let mut i: usize = 0;
    while i < v.len()
        invariant
            i <= v@.len(),
            v@ == value@,
            flat == (|c: char| unbroken(c)),
            out@ == v@.take(i as int).map_values(flat),
        decreases v@.len() - i,
    {
        let c = if v[i] == '\n' || v[i] == '\r' {
            ' '
        } else {
            v[i]
        };
        push_char(&mut out, c);
        proof {
            assert(v@.take(i + 1).map_values(flat) =~= v@.take(i as int).map_values(flat).push(c));
        }
        i += 1;
    }
    proof {
        assert(v@.take(v@.len() as int) =~= v@);
    }
    trim(out.as_str())
}

/// A cleaned value holds no line break: it cannot start a header line of its
/// own.
pub proof fn law_cleaned_is_one_line(s: Seq<char>)
    ensures
        !cleaned(s).contains('\n'),
        !cleaned(s).contains('\r'),
{
    let flat = s.map_values(|c: char| unbroken(c));
    lemma_trimmed(flat);
    let t = cleaned(s);
    let i = choose|i: int| 0 <= i <= flat.len() - t.len() && t == #[trigger] flat.subrange(i, i + t.len());
    assert forall|k: int| 0 <= k < t.len() implies t[k] != '\n' && t[k] != '\r' by {
        assert(t[k] == flat[i + k]);
        assert(flat[i + k] == unbroken(s[i + k]));
    }
}

/// Cleaning a cleaned value changes nothing.
pub proof fn law_cleaned_again(s: Seq<char>)
    ensures
        cleaned(cleaned(s)) == cleaned(s),
{
    let t = cleaned(s);
    law_cleaned_is_one_line(s);
    lemma_trimmed(s.map_values(|c: char| unbroken(c)));
    let again = t.map_values(|c: char| unbroken(c));
    assert forall|k: int| 0 <= k < t.len() implies again[k] == t[k] by {
        assert(t.contains(t[k]));
    }
    assert(again =~= t);
    lemma_trimmed_fixed(t);
}

/// The addresses of a list with commas or semicolons between them, each
/// cleaned, the empty ones left out.
pub open spec fn address_list(raw: Seq<char>) -> Seq<Seq<char>> {
    pieces(raw, among(seq![',', ';'])).map_values(|s: Seq<char>| cleaned(s)).filter(
        |s: Seq<char>| s.len() > 0,
    )
}

/// Reads a list of addresses.
pub fn addresses(raw: &str) -> (r: Vec<String>)
    ensures
        texts(r@) == address_list(raw@),
{
    let marks = vec![',', ';'];
    proof {
        assert(marks@ =~= seq![',', ';']);
    }
    let parts = split_any(raw, marks);
    let ghost ps = texts(parts@);
    let ghost clean = |s: Seq<char>| cleaned(s);
    let mut out: Vec<String> = Vec::new();
    let mut i: usize = 0;
    while i < parts.len()
        invariant
            i <= parts@.len(),
            ps == texts(parts@),
            clean == (|s: Seq<char>| cleaned(s)),
            texts(out@) == ps.take(i as int).map_values(clean),
        decreases parts@.len() - i,
    {
        let ghost out0 = out@;
        let item = clean_addr(parts[i].as_str());
        out.push(item);
        proof {
            assert(ps[i as int] == parts@[i as int]@);
            assert(texts(out@) =~= texts(out0).push(item@));
            assert(ps.take(i + 1).map_values(clean) =~= ps.take(i as int).map_values(clean).push(item@));
        }
        i += 1;
    }
    proof {
        assert(ps.take(ps.len() as int) =~= ps);
    }
    crate::text::not_empty(&out)
}

/// The first mail address in a text, in lower case; empty where there is none.
pub open spec fn email_in(value: Seq<char>) -> Seq<char> {
    let found = regex_groups(EMAIL_PATTERN@, value);
    if found.len() > 0 {
        lowered(found[0])
    } else {
        Seq::empty()
    }
}

/// Finds the first mail address in a text.
pub fn normalized_email(value: &str) -> (r: String)
    ensures
        r@ == email_in(value@),
{
    let found = regex_first_groups(EMAIL_PATTERN, value);
    let r = first_lowercase(&found);
    r
}

/// The first of the addresses found, in lower case.
pub fn first_lowercase(found: &Vec<String>) -> (r: String)
    ensures
        r@ == (if found@.len() > 0 {
            lowered(found@[0]@)
        } else {
            Seq::empty()
        }),
{
    if found.len() > 0 {
        to_lower(found[0].as_str())
    } else {
        String::new()
    }
}

/// What follows the first at sign of an address; empty where there is none.
pub open spec fn domain_of(email: Seq<char>) -> Seq<char> {
    match parted(email, only('@')) {
        Some((_, d)) => d,
        None => Seq::empty(),
    }
}

/// The domain of an address.
pub fn address_domain(email: &str) -> (r: String)
    ensures
        r@ == domain_of(email@),
{
    match split_once(email, '@') {
        Some((_, d)) => d,
        None => String::new(),
    }
}

/// The domain of the first mail address in a text.
pub fn sender_domain(value: &str) -> (r: String)
    ensures
        r@ == domain_of(email_in(value@)),
{
    address_domain(normalized_email(value).as_str())
}

} // verus!
