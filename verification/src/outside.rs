//! The calls that leave the verified code: functions of other crates, and of
//! the standard library where the verifier knows nothing of them. Each states
//! what is taken on trust of the function that it calls.
use crate::json::Tree;
use crate::text::{ascii_lower, ascii_only, opt_text, texts};
use base64::Engine;
use mailparse::MailHeaderMap;
use rand::distr::SampleString;
use rand::Rng;
use sha1::Digest;
use subtle::ConstantTimeEq;
use vstd::prelude::*;
use vstd::utf8::{decode_utf8, encode_utf8, valid_utf8};

verus! {

/// The texts in a result: the value or the message of the failure.
pub open spec fn text_result(r: Result<String, String>) -> Result<Seq<char>, Seq<char>> {
    match r {
        Ok(s) => Ok(s@),
        Err(e) => Err(e@),
    }
}

/// The bytes in a result, or the message of the failure.
pub open spec fn bytes_result(r: Result<Vec<u8>, String>) -> Result<Seq<u8>, Seq<char>> {
    match r {
        Ok(b) => Ok(b@),
        Err(e) => Err(e@),
    }
}

/// The texts in a result, or the message of the failure.
pub open spec fn texts_result(r: Result<Vec<String>, String>) -> Result<Seq<Seq<char>>, Seq<char>> {
    match r {
        Ok(v) => Ok(texts(v@)),
        Err(e) => Err(e@),
    }
}

/// What reading gives that finds these bytes.
pub open spec fn read_bytes(bytes: Seq<u8>) -> Result<Seq<u8>, Seq<char>> {
    Ok(bytes)
}

/// What reading gives that finds these texts.
pub open spec fn read_texts(rows: Seq<Seq<char>>) -> Result<Seq<Seq<char>>, Seq<char>> {
    Ok(rows)
}

// ---------------------------------------------------------------------------
// Standard library
// ---------------------------------------------------------------------------

/// Calls `String::push`, which appends one character to a string.
#[verifier::external_body]
pub(crate) fn push_char(s: &mut String, c: char)
    ensures
        final(s)@ == old(s)@.push(c),
{
    s.push(c)
}

/// The lowercase equivalent of a text.
pub uninterp spec fn lowercase_text(s: Seq<char>) -> Seq<char>;

/// Calls `str::to_lowercase`. In text of ASCII the capital letters become small
/// ones, and nothing else changes. What becomes of other text follows the case
/// tables of Unicode: it is named, not described. In particular it is not said
/// that text in lower case stays as it is.
#[verifier::external_body]
pub(crate) fn lowercase(s: &str) -> (r: String)
    ensures
        r@ == lowercase_text(s@),
        ascii_only(s@) ==> r@ == s@.map_values(|c: char| ascii_lower(c)),
{
    s.to_lowercase()
}

/// Bytes read as UTF-8, with replacement characters for what is not UTF-8.
pub uninterp spec fn lossy_text(bytes: Seq<u8>) -> Seq<char>;

/// Calls `String::from_utf8_lossy`. Bytes that are valid UTF-8 come out as the
/// text they encode; what is put in place of others is not described.
#[verifier::external_body]
pub(crate) fn utf8_lossy(bytes: &[u8]) -> (r: String)
    ensures
        r@ == lossy_text(bytes@),
        valid_utf8(bytes@) ==> r@ == decode_utf8(bytes@),
{
    String::from_utf8_lossy(bytes).to_string()
}

// ---------------------------------------------------------------------------
// Digests, hexadecimal, comparison in constant time
// ---------------------------------------------------------------------------

/// The SHA-256 digest of bytes.
pub uninterp spec fn sha256_digest(data: Seq<u8>) -> Seq<u8>;

/// Calls `sha2::Sha256::digest`: 32 bytes that depend on the data alone.
#[verifier::external_body]
pub(crate) fn sha256(data: &[u8]) -> (r: Vec<u8>)
    ensures
        r@ == sha256_digest(data@),
        r@.len() == 32,
{
    sha2::Sha256::digest(data).to_vec()
}

/// The SHA-1 digest of bytes.
pub uninterp spec fn sha1_digest(data: Seq<u8>) -> Seq<u8>;

/// Calls `sha1::Sha1::digest`: 20 bytes that depend on the data alone.
#[verifier::external_body]
pub(crate) fn sha1(data: &[u8]) -> (r: Vec<u8>)
    ensures
        r@ == sha1_digest(data@),
        r@.len() == 20,
{
    sha1::Sha1::digest(data).to_vec()
}

/// The lower case hexadecimal digit for a number below sixteen.
pub open spec fn hex_digit(n: u8) -> char {
    if n < 10 {
        (n + '0' as u8) as char
    } else {
        (n - 10 + 'a' as u8) as char
    }
}

/// Bytes in hexadecimal notation: two lower case digits for each byte, the
/// higher one first.
pub open spec fn hex_text(data: Seq<u8>) -> Seq<char> {
    Seq::new(
        2 * data.len(),
        |i: int|
            if i % 2 == 0 {
                hex_digit((data[i / 2] / 16) as u8)
            } else {
                hex_digit((data[i / 2] % 16) as u8)
            },
    )
}

/// Calls `hex::encode`, which writes each byte as two lower case digits.
#[verifier::external_body]
pub(crate) fn hex_encode(data: &[u8]) -> (r: String)
    ensures
        r@ == hex_text(data@),
{
    hex::encode(data)
}

/// Calls `ct_eq` of `subtle::ConstantTimeEq` on byte slices: whether they hold
/// the same bytes. That it takes as long for equal as for different slices of
/// one length is not stated.
#[verifier::external_body]
pub(crate) fn bytes_equal(a: &[u8], b: &[u8]) -> (r: bool)
    ensures
        r == (a@ == b@),
{
    a.ct_eq(b).into()
}

// ---------------------------------------------------------------------------
// Base64
// ---------------------------------------------------------------------------

/// The characters of standard base64 text.
pub open spec fn base64_char(c: char) -> bool {
    ('A' <= c && c <= 'Z') || ('a' <= c && c <= 'z') || ('0' <= c && c <= '9') || c == '+' || c == '/'
        || c == '='
}

/// The characters of base64 text that is safe in URLs.
pub open spec fn base64_url_char(c: char) -> bool {
    ('A' <= c && c <= 'Z') || ('a' <= c && c <= 'z') || ('0' <= c && c <= '9') || c == '-' || c == '_'
}

/// The standard base64 text of bytes, with padding.
pub uninterp spec fn base64_text(data: Seq<u8>) -> Seq<char>;

/// The bytes of a standard base64 text, or why it is none.
pub uninterp spec fn base64_bytes(text: Seq<char>) -> Result<Seq<u8>, Seq<char>>;

/// The base64 text of bytes that is safe in URLs, without padding.
pub uninterp spec fn base64_url_text(data: Seq<u8>) -> Seq<char>;

/// The bytes of a base64 text that is safe in URLs, or why it is none.
pub uninterp spec fn base64_url_bytes(text: Seq<char>) -> Result<Seq<u8>, Seq<char>>;

/// Calls `encode` of the `base64` engine `STANDARD`: text of that alphabet,
/// from which `decode` gives back the bytes.
#[verifier::external_body]
pub(crate) fn base64_encode(data: &[u8]) -> (r: String)
    ensures
        r@ == base64_text(data@),
        base64_bytes(r@) == read_bytes(data@),
        forall|i: int| 0 <= i < r@.len() ==> base64_char(#[trigger] r@[i]),
{
    base64::engine::general_purpose::STANDARD.encode(data)
}

/// Calls `decode` of the `base64` engine `STANDARD`; a failure comes out as
/// its message.
#[verifier::external_body]
pub(crate) fn base64_decode(text: &str) -> (r: Result<Vec<u8>, String>)
    ensures
        bytes_result(r) == base64_bytes(text@),
{
    base64::engine::general_purpose::STANDARD.decode(text).map_err(|e| e.to_string())
}

/// Calls `encode` of the `base64` engine `URL_SAFE_NO_PAD`: text of that
/// alphabet, from which `decode` gives back the bytes.
#[verifier::external_body]
pub(crate) fn base64_url_encode(data: &[u8]) -> (r: String)
    ensures
        r@ == base64_url_text(data@),
        base64_url_bytes(r@) == read_bytes(data@),
        forall|i: int| 0 <= i < r@.len() ==> base64_url_char(#[trigger] r@[i]),
{
    base64::engine::general_purpose::URL_SAFE_NO_PAD.encode(data)
}

/// Calls `decode` of the `base64` engine `URL_SAFE_NO_PAD`; a failure comes
/// out as its message.
#[verifier::external_body]
pub(crate) fn base64_url_decode(text: &str) -> (r: Result<Vec<u8>, String>)
    ensures
        bytes_result(r) == base64_url_bytes(text@),
{
    base64::engine::general_purpose::URL_SAFE_NO_PAD.decode(text).map_err(|e| e.to_string())
}

// ---------------------------------------------------------------------------
// Random values
// ---------------------------------------------------------------------------

/// Calls `random` of `rand::Rng` on the generator of the thread: any byte.
#[verifier::external_body]
pub(crate) fn random_byte() -> (r: u8) {
    rand::rng().random()
}

/// The letters and digits of ASCII.
pub open spec fn alphanumeric(c: char) -> bool {
    ('A' <= c && c <= 'Z') || ('a' <= c && c <= 'z') || ('0' <= c && c <= '9')
}

/// Calls `sample_string` of `rand::distr::Alphanumeric`: as many random letters
/// and digits as asked for.
#[verifier::external_body]
pub(crate) fn random_alphanumeric(len: usize) -> (r: String)
    ensures
        r@.len() == len,
        forall|i: int| 0 <= i < r@.len() ==> alphanumeric(#[trigger] r@[i]),
{
    rand::distr::Alphanumeric.sample_string(&mut rand::rng(), len)
}

// ---------------------------------------------------------------------------
// Regular expressions
// ---------------------------------------------------------------------------

/// The pattern of a domain name: labels of lower case letters, digits and
/// inner hyphens, at least two of them, with dots between.
pub const DOMAIN_PATTERN: &'static str = r"^[a-z0-9]([a-z0-9-]*[a-z0-9])?(\.[a-z0-9]([a-z0-9-]*[a-z0-9])?)+$";

/// The pattern of a mail address.
pub const EMAIL_PATTERN: &'static str = r"(?i)([a-z0-9._%+\-]+@[a-z0-9.\-]+\.[a-z]{2,})";

/// The pattern of a link.
pub const LINK_PATTERN: &'static str = "(?i)https?://|www\\.";

/// The pattern of a text in quotation marks.
pub const QUOTED_PATTERN: &'static str = "\"([^\"]*)\"";

/// The pattern of a log line that reports trouble.
pub const TROUBLE_PATTERN: &'static str = "(?i)\\b(reject|warning|error|fatal|bounced)\\b";

/// The pattern of HTML elements that are removed with all they hold.
pub const ELEMENT_PATTERN: &'static str = "(?is)<script[^>]*>.*?</script>|<style[^>]*>.*?</style>|<iframe[^>]*>.*?</iframe>|<object[^>]*>.*?</object>|<embed[^>]*>.*?</embed>|<link[^>]*>.*?</link>|<meta[^>]*>.*?</meta>|<base[^>]*>.*?</base>|<form[^>]*>.*?</form>";

/// The pattern of tags of such elements that stand alone.
pub const TAG_PATTERN: &'static str = "(?is)<(script|style|iframe|object|embed|link|meta|base|form)[^>]*/?>";

/// The pattern of HTML attributes that handle events.
pub const HANDLER_PATTERN: &'static str = "(?is)\\s+on[a-zA-Z]+\\s*=\\s*(?:'.*?'|\".*?\")";

/// The pattern of HTML links that run a script.
pub const SCRIPT_LINK_PATTERN: &'static str = "(?is)\\s+(href|src)\\s*=\\s*(?:'\\s*javascript:.*?'|\"\\s*javascript:.*?\")";

/// Patterns that the `regex` crate compiles.
pub open spec fn compiles(pattern: Seq<char>) -> bool {
    ||| pattern == DOMAIN_PATTERN@
    ||| pattern == EMAIL_PATTERN@
    ||| pattern == LINK_PATTERN@
    ||| pattern == QUOTED_PATTERN@
    ||| pattern == TROUBLE_PATTERN@
    ||| pattern == ELEMENT_PATTERN@
    ||| pattern == TAG_PATTERN@
    ||| pattern == HANDLER_PATTERN@
    ||| pattern == SCRIPT_LINK_PATTERN@
}

/// The characters that can stand in a domain name.
pub open spec fn domain_char(c: char) -> bool {
    ('a' <= c && c <= 'z') || ('0' <= c && c <= '9') || c == '-' || c == '.'
}

/// Whether a pattern matches somewhere in a text.
pub uninterp spec fn regex_match(pattern: Seq<char>, text: Seq<char>) -> bool;

/// Calls `regex::Regex::new` and `is_match`. Of the pattern of a domain name,
/// which is anchored at both ends, it is stated that a text that matches is
/// not empty and holds characters of its classes only.
#[verifier::external_body]
pub(crate) fn regex_is_match(pattern: &str, text: &str) -> (r: bool)
    requires
        compiles(pattern@),
    ensures
        r == regex_match(pattern@, text@),
        r && pattern@ == DOMAIN_PATTERN@ ==> text@.len() > 0 && forall|i: int|
            0 <= i < text@.len() ==> domain_char(#[trigger] text@[i]),
{
    regex::Regex::new(pattern).unwrap().is_match(text)
}

/// How many times a pattern is found in a text, one after another.
pub uninterp spec fn regex_finds(pattern: Seq<char>, text: Seq<char>) -> nat;

/// Calls `regex::Regex::new` and counts what `find_iter` finds.
#[verifier::external_body]
pub(crate) fn regex_count(pattern: &str, text: &str) -> (r: usize)
    requires
        compiles(pattern@),
    ensures
        r == regex_finds(pattern@, text@),
{
    regex::Regex::new(pattern).unwrap().find_iter(text).count()
}

/// Patterns that compile and whose first group takes part in every match.
pub open spec fn groups_always(pattern: Seq<char>) -> bool {
    ||| pattern == EMAIL_PATTERN@
    ||| pattern == QUOTED_PATTERN@
}

/// What the first group of a pattern holds in each match, in their order.
pub uninterp spec fn regex_groups(pattern: Seq<char>, text: Seq<char>) -> Seq<Seq<char>>;

/// Calls `regex::Regex::new` and `captures_iter`, and takes the first group of
/// each match.
#[verifier::external_body]
pub(crate) fn regex_first_groups(pattern: &str, text: &str) -> (r: Vec<String>)
    requires
        groups_always(pattern@),
    ensures
        texts(r@) == regex_groups(pattern@, text@),
{
    let re = regex::Regex::new(pattern).unwrap();
    re.captures_iter(text).map(|c| c[1].to_string()).collect()
}

/// A text with every match of a pattern replaced, one after another; in what
/// takes their place, `$1` stands for what the first group holds.
pub uninterp spec fn regex_replaced(pattern: Seq<char>, text: Seq<char>, with: Seq<char>) -> Seq<char>;

/// Calls `regex::Regex::new` and `replace_all`.
#[verifier::external_body]
pub(crate) fn regex_replace_all(pattern: &str, text: &str, with: &str) -> (r: String)
    requires
        compiles(pattern@),
    ensures
        r@ == regex_replaced(pattern@, text@, with@),
{
    regex::Regex::new(pattern).unwrap().replace_all(text, with).to_string()
}

// ---------------------------------------------------------------------------
// JSON text
// ---------------------------------------------------------------------------

/// The JSON text of a list of texts.
pub uninterp spec fn json_list(rows: Seq<Seq<char>>) -> Seq<char>;

/// The list of texts that JSON text holds, or why it holds none.
pub uninterp spec fn json_list_read(bytes: Seq<u8>) -> Result<Seq<Seq<char>>, Seq<char>>;

/// Calls `serde_json::to_string` on a list of strings: text from which
/// `serde_json::from_slice` gives back the list.
#[verifier::external_body]
pub(crate) fn json_list_text(rows: &Vec<String>) -> (r: String)
    ensures
        r@ == json_list(texts(rows@)),
        json_list_read(encode_utf8(r@)) == read_texts(texts(rows@)),
{
    serde_json::to_string(rows).unwrap_or_default()
}

/// Calls `serde_json::from_slice` for a list of strings; a failure comes out as
/// its message.
#[verifier::external_body]
pub(crate) fn json_list_parse(bytes: &[u8]) -> (r: Result<Vec<String>, String>)
    ensures
        texts_result(r) == json_list_read(bytes@),
{
    serde_json::from_slice(bytes).map_err(|e| e.to_string())
}

/// A value of `serde_json`.
#[verifier::external_type_specification]
#[verifier::external_body]
pub struct ExValue(serde_json::Value);

/// What a value of `serde_json` holds.
pub uninterp spec fn value_tree(value: serde_json::Value) -> Tree;

/// What the value that JSON text spells holds, if it spells one.
pub uninterp spec fn json_read(bytes: Seq<u8>) -> Option<Tree>;

/// Calls `serde_json::from_slice` for any value; nothing comes out where it
/// fails.
#[verifier::external_body]
pub(crate) fn json_parse(bytes: &[u8]) -> (r: Option<serde_json::Value>)
    ensures
        match r {
            Some(v) => json_read(bytes@) == Some(value_tree(v)),
            None => json_read(bytes@) is None,
        },
{
    serde_json::from_slice(bytes).ok()
}

/// Calls `get` of `serde_json::Value` for a member of an object; nothing comes
/// out where the value is no object or has no such member.
#[verifier::external_body]
pub(crate) fn json_member<'a>(value: &'a serde_json::Value, key: &str) -> (r: Option<&'a serde_json::Value>)
    ensures
        match r {
            Some(v) => value_tree(*value).get(key@) == Some(value_tree(*v)),
            None => value_tree(*value).get(key@) is None,
        },
{
    value.get(key)
}

/// Calls `as_str` of `serde_json::Value`: the text that a value is, if it is one.
#[verifier::external_body]
pub(crate) fn json_text(value: &serde_json::Value) -> (r: Option<String>)
    ensures
        match r {
            Some(s) => value_tree(*value) == Tree::Text(s@),
            None => !(value_tree(*value) is Text),
        },
{
    value.as_str().map(String::from)
}

// ---------------------------------------------------------------------------
// Mail messages
// ---------------------------------------------------------------------------

/// What a part of a mail message holds.
pub ghost struct PartTree {
    /// The media type, as in `text/plain`.
    pub mimetype: Seq<char>,
    /// The parameter `filename` of the content disposition.
    pub disposition_name: Option<Seq<char>>,
    /// The parameter `name` of the content type.
    pub content_name: Option<Seq<char>>,
    /// The decoded text; empty where it cannot be decoded.
    pub body: Seq<char>,
    /// The decoded bytes, or why they cannot be decoded.
    pub raw: Result<Seq<u8>, Seq<char>>,
    /// The parts inside this one.
    pub subparts: Seq<PartTree>,
}

/// A parsed mail message, or a part of one.
#[verifier::external_type_specification]
#[verifier::external_body]
pub struct ExParsedMail<'a>(mailparse::ParsedMail<'a>);

/// What a parsed part holds.
pub uninterp spec fn part_tree(part: mailparse::ParsedMail) -> PartTree;

/// The value of the first header of a name in a parsed part.
pub uninterp spec fn part_header(part: mailparse::ParsedMail, name: Seq<char>) -> Option<Seq<char>>;

/// What the message that bytes spell holds, or why they spell none.
pub uninterp spec fn mail_tree(raw: Seq<u8>) -> Result<PartTree, Seq<char>>;

/// The value of the first header of a name in the message that bytes spell.
pub uninterp spec fn mail_header(raw: Seq<u8>, name: Seq<char>) -> Option<Seq<char>>;

/// Calls `mailparse::parse_mail`; a failure comes out as its message.
#[verifier::external_body]
pub(crate) fn mail_parse<'a>(raw: &'a [u8]) -> (r: Result<mailparse::ParsedMail<'a>, String>)
    ensures
        match r {
            Ok(part) => {
                &&& mail_tree(raw@) == Ok::<PartTree, Seq<char>>(part_tree(part))
                &&& forall|name: Seq<char>| #[trigger] part_header(part, name) == mail_header(raw@, name)
            },
            Err(e) => mail_tree(raw@) == Err::<PartTree, Seq<char>>(e@),
        },
{
    mailparse::parse_mail(raw).map_err(|e| e.to_string())
}

/// Calls `get_first_value` of `mailparse::MailHeaderMap` on the headers of a
/// part.
#[verifier::external_body]
pub(crate) fn mail_first_header(part: &mailparse::ParsedMail, name: &str) -> (r: Option<String>)
    ensures
        opt_text(r) == part_header(*part, name@),
{
    part.headers.get_first_value(name)
}

/// Reads the media type of a part of `mailparse`.
#[verifier::external_body]
pub(crate) fn mail_mimetype(part: &mailparse::ParsedMail) -> (r: String)
    ensures
        r@ == part_tree(*part).mimetype,
{
    part.ctype.mimetype.clone()
}

/// Calls `get_content_disposition` of `mailparse` and looks up the parameter
/// `filename`.
#[verifier::external_body]
pub(crate) fn mail_disposition_name(part: &mailparse::ParsedMail) -> (r: Option<String>)
    ensures
        opt_text(r) == part_tree(*part).disposition_name,
{
    part.get_content_disposition().params.get("filename").cloned()
}

/// Looks up the parameter `name` of the content type of a part of `mailparse`.
#[verifier::external_body]
pub(crate) fn mail_content_name(part: &mailparse::ParsedMail) -> (r: Option<String>)
    ensures
        opt_text(r) == part_tree(*part).content_name,
{
    part.ctype.params.get("name").cloned()
}

/// Calls `get_body` of `mailparse`; where it fails the text is empty.
#[verifier::external_body]
pub(crate) fn mail_body(part: &mailparse::ParsedMail) -> (r: String)
    ensures
        r@ == part_tree(*part).body,
{
    part.get_body().unwrap_or_default()
}

/// Calls `get_body_raw` of `mailparse`; a failure comes out as its message.
#[verifier::external_body]
pub(crate) fn mail_body_raw(part: &mailparse::ParsedMail) -> (r: Result<Vec<u8>, String>)
    ensures
        bytes_result(r) == part_tree(*part).raw,
{
    part.get_body_raw().map_err(|e| e.to_string())
}

/// Counts the parts inside a part of `mailparse`.
#[verifier::external_body]
pub(crate) fn mail_subpart_count(part: &mailparse::ParsedMail) -> (r: usize)
    ensures
        r == part_tree(*part).subparts.len(),
{
    part.subparts.len()
}

/// Reads one of the parts inside a part of `mailparse`.
#[verifier::external_body]
pub(crate) fn mail_subpart<'a, 'b>(part: &'b mailparse::ParsedMail<'a>, i: usize) -> (r: &'b mailparse::ParsedMail<'a>)
    requires
        i < part_tree(*part).subparts.len(),
    ensures
        part_tree(*r) == part_tree(*part).subparts[i as int],
{
    &part.subparts[i]
}

} // verus!
