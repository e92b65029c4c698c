//! Composing mail: the message of a request, its recipients and attachments.
use crate::address::{address_list, addresses, clean_addr, cleaned};
use crate::json::{Json, Tree};
use crate::outside::{base64_bytes, base64_char, base64_decode, base64_encode, base64_text};
use crate::site::DOMAIN;
use crate::text::{
    chars_of, decimal, decimal_of, only, parted, split_once, text_of, texts, trim, trim_end, trimmed,
    trimmed_end,
};
use vstd::prelude::*;
use vstd::utf8::encode_utf8;

verus! {

/// The longest attachment that is sent, in bytes.
pub const MAX_ATTACHMENT_BYTES: usize = 8388608;

/// The length of a line of encoded data.
pub const LINE_WIDTH: usize = 76;

/// A text broken into lines of a fixed width.
pub open spec fn wrapped(s: Seq<char>) -> Seq<char>
    decreases s.len(),
{
    if s.len() <= LINE_WIDTH {
        s
    } else {
        s.take(LINE_WIDTH as int) + "\r\n"@ + wrapped(s.skip(LINE_WIDTH as int))
    }
}

/// The kind of characters that do not break lines.
pub open spec fn within_line() -> spec_fn(char) -> bool {
    |c: char| c != '\r' && c != '\n'
}

/// Encodes data in lines. Without the line breaks, decoding gives the data back.
pub fn wrap_base64(data: &[u8]) -> (r: String)
    ensures
        r@ == wrapped(base64_text(data@)),
        base64_bytes(r@.filter(within_line())) == Ok::<Seq<u8>, Seq<char>>(data@),
{
    let raw = base64_encode(data);
    proof {
        assert forall|c: char| #[trigger] raw@.contains(c) implies c != '\r' && c != '\n' by {
            let k = choose|k: int| 0 <= k < raw@.len() && raw@[k] == c;
            assert(base64_char(raw@[k]));
        }
        law_wrapping_adds_only_breaks(raw@);
    }
    wrap_lines(raw.as_str())
}

/// Breaks a text into lines of a fixed width.
pub fn wrap_lines(raw: &str) -> (r: String)
    ensures
        r@ == wrapped(raw@),
{
    let v = chars_of(raw);
    let total: usize = v.len();
    let mut out = String::new();
    let mut i: usize = 0;
    proof {
        assert(raw@.skip(0) =~= raw@);
        assert(out@ + wrapped(raw@) =~= wrapped(raw@));
    }
    while total - i > LINE_WIDTH
        invariant
            i <= total,
            total == v@.len(),
            v@ == raw@,
            wrapped(raw@) == out@ + wrapped(raw@.skip(i as int)),
        decreases total - i,
    {
        let ghost out0 = out@;
        let ghost rest = raw@.skip(i as int);
        out.append(text_of(&v, i, i + LINE_WIDTH).as_str());
        out.append("\r\n");
        proof {
            assert(rest.take(LINE_WIDTH as int) =~= v@.subrange(i as int, i + LINE_WIDTH));
            assert(rest.skip(LINE_WIDTH as int) =~= raw@.skip(i + LINE_WIDTH));
            assert(out0 + wrapped(rest) =~= out@ + wrapped(raw@.skip(i + LINE_WIDTH)));
        }
        i += LINE_WIDTH;
    }
    proof {
        assert(v@.subrange(i as int, total as int) =~= raw@.skip(i as int));
    }
    out.append(text_of(&v, i, total).as_str());
    out
}

/// Removing the line breaks of a wrapped text that holds none itself gives the
/// text back.
pub proof fn law_wrapping_adds_only_breaks(s: Seq<char>)
    requires
        !s.contains('\r'),
        !s.contains('\n'),
    ensures
        wrapped(s).filter(within_line()) == s,
    decreases s.len(),
{
    let keep = within_line();
    assert forall|i: int| 0 <= i < s.len() implies keep(#[trigger] s[i]) by {
        assert(s.contains(s[i]));
    }
    if s.len() <= LINE_WIDTH {
        lemma_filter_all(s, keep);
    } else {
        let a = s.take(LINE_WIDTH as int);
        let b = s.skip(LINE_WIDTH as int);
        assert(a + b =~= s);
        assert(!b.contains('\r') && !b.contains('\n')) by {
            assert forall|i: int| 0 <= i < b.len() implies b[i] != '\r' && b[i] != '\n' by {
                assert(keep(s[i + LINE_WIDTH]));
            }
        }
        law_wrapping_adds_only_breaks(b);
        Seq::filter_distributes_over_add(a + "\r\n"@, wrapped(b), keep);
        Seq::filter_distributes_over_add(a, "\r\n"@, keep);
        assert forall|i: int| 0 <= i < a.len() implies keep(#[trigger] a[i]) by {
            assert(keep(s[i]));
        }
        lemma_filter_all(a, keep);
        reveal_strlit("\r\n");
        let brk = "\r\n"@;
        assert(brk.filter(keep) =~= Seq::<char>::empty()) by {
            reveal(Seq::filter);
            let first = brk.drop_last();
            assert(first.drop_last().filter(keep) =~= Seq::<char>::empty());
            assert(!keep(first.last()));
            assert(first.filter(keep) =~= Seq::<char>::empty());
            assert(!keep(brk.last()));
        }
        assert(wrapped(s).filter(keep) =~= a + b);
    }
}

proof fn lemma_filter_all(s: Seq<char>, keep: spec_fn(char) -> bool)
    requires
        forall|i: int| 0 <= i < s.len() ==> keep(#[trigger] s[i]),
    ensures
        s.filter(keep) == s,
    decreases s.len(),
{
    reveal(Seq::filter);
    if s.len() > 0 {
        let init = s.drop_last();
        assert forall|i: int| 0 <= i < init.len() implies keep(#[trigger] init[i]) by {
            assert(init[i] == s[i]);
        }
        lemma_filter_all(init, keep);
        assert(keep(s[s.len() - 1]));
        assert(init.push(s.last()) =~= s);
    }
}

/// One line of a header.
pub open spec fn header_line(name: Seq<char>, value: Seq<char>) -> Seq<char> {
    name + ": "@ + value + "\r\n"@
}

fn push_header(out: &mut String, name: &str, value: &str)
    ensures
        final(out)@ == old(out)@ + header_line(name@, value@),
{
    let ghost out0 = out@;
    out.append(name);
    out.append(": ");
    out.append(value);
    out.append("\r\n");
    proof {
        assert(out@ =~= out0 + header_line(name@, value@));
    }
}

/// The data of an attachment without what a data URL puts before its comma.
pub open spec fn encoded_data(data: Seq<char>) -> Seq<char> {
    match parted(data, only(',')) {
        Some((_, v)) => v,
        None => data,
    }
}

/// Data as a part of a message with this boundary, or why it cannot be one.
pub open spec fn data_part(
    name: Seq<char>,
    ctype: Seq<char>,
    data: Seq<u8>,
    boundary: Seq<char>,
) -> Result<Seq<char>, Seq<char>> {
    if data.len() > MAX_ATTACHMENT_BYTES {
        Err("attachment too large: "@ + name)
    } else {
        Ok(
            "--"@ + boundary + "\r\nContent-Type: "@ + ctype
                + "\r\nContent-Disposition: attachment; filename=\""@ + name
                + "\"\r\nContent-Transfer-Encoding: base64\r\n\r\n"@ + wrapped(base64_text(data)) + "\r\n"@,
        )
    }
}

/// An attachment as a part of a message with this boundary, or why it cannot
/// be one.
pub open spec fn attachment_part(item: Tree, boundary: Seq<char>) -> Result<Seq<char>, Seq<char>> {
    let name = cleaned(item.at("name"@).text_or("attachment"@));
    let ctype = item.at("type"@).text_or("application/octet-stream"@);
    match base64_bytes(encoded_data(item.at("data"@).text_or(""@))) {
        Err(e) => Err("invalid attachment: "@ + e),
        Ok(data) => data_part(name, ctype, data, boundary),
    }
}

/// The attachments as parts of a message, or why the first of them that cannot
/// be one is none.
pub open spec fn attachment_parts(items: Seq<Tree>, boundary: Seq<char>) -> Result<Seq<char>, Seq<char>>
    decreases items.len(),
{
    if items.len() == 0 {
        Ok(Seq::empty())
    } else {
        match attachment_parts(items.drop_last(), boundary) {
            Err(e) => Err(e),
            Ok(before) => match attachment_part(items.last(), boundary) {
                Err(e) => Err(e),
                Ok(part) => Ok(before + part),
            },
        }
    }
}

/// Writes data as a part of a message.
pub fn write_data(name: &str, ctype: &str, data: &[u8], boundary: &str) -> (r: Result<String, String>)
    ensures
        crate::outside::text_result(r) == data_part(name@, ctype@, data@, boundary@),
{
    if data.len() > MAX_ATTACHMENT_BYTES {
        let mut out = "attachment too large: ".to_owned();
        out.append(name);
        return Err(out);
    }
    let mut out = "--".to_owned();
    out.append(boundary);
    out.append("\r\nContent-Type: ");
    out.append(ctype);
    out.append("\r\nContent-Disposition: attachment; filename=\"");
    out.append(name);
    out.append("\"\r\nContent-Transfer-Encoding: base64\r\n\r\n");
    out.append(wrap_base64(data).as_str());
    out.append("\r\n");
    Ok(out)
}

/// Writes an attachment as a part of a message.
pub fn write_attachment(item: &Json, boundary: &str) -> (r: Result<String, String>)
    ensures
        crate::outside::text_result(r) == attachment_part(item@, boundary@),
{
    let name = clean_addr(item.text_at("name", "attachment").as_str());
    let ctype = item.text_at("type", "application/octet-stream");
    let data_text = item.text_at("data", "");
    let encoded = match split_once(data_text.as_str(), ',') {
        Some((_, v)) => v,
        None => data_text,
    };
    match base64_decode(encoded.as_str()) {
        Err(e) => {
            let mut out = "invalid attachment: ".to_owned();
            out.append(e.as_str());
            Err(out)
        },
        Ok(data) => write_data(name.as_str(), ctype.as_str(), data.as_slice(), boundary),
    }
}

/// The recipients that a request names.
pub open spec fn recipients_of(payload: Tree) -> Seq<Seq<char>> {
    address_list(cleaned(payload.at("to"@).text_or(""@))) + address_list(
        cleaned(payload.at("cc"@).text_or(""@)),
    ) + address_list(cleaned(payload.at("bcc"@).text_or(""@)))
}

/// The text of a message, with the signature below it if there is one.
pub open spec fn body_text(payload: Tree) -> Seq<char> {
    let body = payload.at("body"@).text_or(""@);
    let signature = payload.at("signature"@).text_or(""@);
    if trimmed(signature).len() == 0 {
        body
    } else {
        trimmed_end(body) + "\n\n"@ + trimmed(signature)
    }
}

/// The header lines of a message. Those who get blind copies are not named.
pub open spec fn message_head(
    sender: Seq<char>,
    payload: Tree,
    date: Seq<char>,
    at: u64,
    pid: u32,
) -> Seq<char> {
    let cc = cleaned(payload.at("cc"@).text_or(""@));
    let subject = cleaned(payload.at("subject"@).text_or(""@));
    header_line("From"@, sender) + header_line("To"@, cleaned(payload.at("to"@).text_or(""@))) + (
    if cc.len() == 0 {
        Seq::empty()
    } else {
        header_line("Cc"@, cc)
    }) + header_line(
        "Subject"@,
        if subject.len() == 0 {
            "(no subject)"@
        } else {
            subject
        },
    ) + header_line("Date"@, trimmed(date)) + header_line(
        "Message-ID"@,
        "<"@ + decimal(at as nat) + "."@ + decimal(pid as nat) + "@"@ + DOMAIN@ + ">"@,
    ) + header_line("MIME-Version"@, "1.0"@)
}

/// The line that parts the pieces of a message with attachments.
pub open spec fn boundary_text(at: u64, pid: u32) -> Seq<char> {
    "akurai-"@ + decimal(at as nat) + "-"@ + decimal(pid as nat)
}

/// The attachments of a request that are sent: the first five.
pub open spec fn sent_attachments(payload: Tree) -> Seq<Tree> {
    let items = payload.at("attachments"@).items();
    if items.len() > 5 {
        items.take(5)
    } else {
        items
    }
}

/// The message of a request, or why there is none.
pub open spec fn message_text(
    sender: Seq<char>,
    payload: Tree,
    date: Seq<char>,
    at: u64,
    pid: u32,
) -> Result<Seq<char>, Seq<char>> {
    let head = message_head(sender, payload, date, at, pid);
    let body = body_text(payload);
    if recipients_of(payload).len() == 0 {
        Err("at least one recipient is required"@)
    } else if payload.at("attachments"@).items().len() == 0 {
        Ok(head + "Content-Type: text/plain; charset=utf-8\r\n\r\n"@ + body + "\r\n"@)
    } else {
        let boundary = boundary_text(at, pid);
        match attachment_parts(sent_attachments(payload), boundary) {
            Err(e) => Err(e),
            Ok(parts) => Ok(
                head + "Content-Type: multipart/mixed; boundary=\""@ + boundary + "\"\r\n\r\n"@ + "--"@
                    + boundary + "\r\nContent-Type: text/plain; charset=utf-8\r\n\r\n"@ + body
                    + "\r\n"@ + parts + "--"@ + boundary + "--\r\n"@,
            ),
        }
    }
}

fn all_recipients(to: &str, cc: &str, bcc: &str) -> (r: Vec<String>)
    ensures
        texts(r@) == address_list(to@) + address_list(cc@) + address_list(bcc@),
{
    let mut out = addresses(to);
    let mut second = addresses(cc);
    let mut third = addresses(bcc);
    let ghost a = out@;
    let ghost b = second@;
    let ghost c = third@;
    out.append(&mut second);
    out.append(&mut third);
    proof {
        assert(texts(out@) =~= texts(a) + texts(b) + texts(c));
    }
    out
}

fn write_body(payload: &Json) -> (r: String)
    ensures
        r@ == body_text(payload@),
{
    let body = payload.text_at("body", "");
    let signature = payload.text_at("signature", "");
    let signed = trim(signature.as_str());
    proof {
        reveal_strlit("");
    }
    if signed.as_str().is_empty() {
        body
    } else {
        let mut out = trim_end(body.as_str());
        out.append("\n\n");
        out.append(signed.as_str());
        out
    }
}

fn write_head(sender: &str, payload: &Json, date: &str, at: u64, pid: u32) -> (r: String)
    ensures
        r@ == message_head(sender@, payload@, date@, at, pid),
{
    let to = clean_addr(payload.text_at("to", "").as_str());
    let cc = clean_addr(payload.text_at("cc", "").as_str());
    let subject = clean_addr(payload.text_at("subject", "").as_str());
    let mut id = "<".to_owned();
    id.append(decimal_of(at).as_str());
    id.append(".");
    id.append(decimal_of(pid as u64).as_str());
    id.append("@");
    id.append(DOMAIN);
    id.append(">");
    let mut out = String::new();
    push_header(&mut out, "From", sender);
    proof {
        assert(out@ =~= header_line("From"@, sender@));
    }
    push_header(&mut out, "To", to.as_str());
    let ghost so_far = out@;
    if !cc.as_str().is_empty() {
        push_header(&mut out, "Cc", cc.as_str());
    } else {
        proof {
            assert(so_far + Seq::<char>::empty() =~= so_far);
        }
    }
    if subject.as_str().is_empty() {
        push_header(&mut out, "Subject", "(no subject)");
    } else {
        push_header(&mut out, "Subject", subject.as_str());
    }
    push_header(&mut out, "Date", trim(date).as_str());
    push_header(&mut out, "Message-ID", id.as_str());
    push_header(&mut out, "MIME-Version", "1.0");
    out
}

fn write_boundary(at: u64, pid: u32) -> (r: String)
    ensures
        r@ == boundary_text(at, pid),
{
    let mut out = "akurai-".to_owned();
    out.append(decimal_of(at).as_str());
    out.append("-");
    out.append(decimal_of(pid as u64).as_str());
    out
}

/// Builds the message of a request: its bytes and its recipients.
pub fn build_message(sender: &str, payload: &Json, date: &str, at: u64, pid: u32) -> (r: Result<(Vec<u8>, Vec<String>), String>)
    ensures
        match r {
            Ok((message, recipients)) => {
                &&& message_text(sender@, payload@, date@, at, pid) matches Ok(text)
                &&& message@ == encode_utf8(text)
                &&& texts(recipients@) == recipients_of(payload@)
            },
            Err(e) => message_text(sender@, payload@, date@, at, pid) == Err::<Seq<char>, Seq<char>>(e@),
        },
{
    let to = clean_addr(payload.text_at("to", "").as_str());
    let cc = clean_addr(payload.text_at("cc", "").as_str());
    let bcc = clean_addr(payload.text_at("bcc", "").as_str());
    let recipients = all_recipients(to.as_str(), cc.as_str(), bcc.as_str());
    if recipients.len() == 0 {
        proof {
            assert(texts(recipients@).len() == 0);
        }
        return Err("at least one recipient is required".to_owned());
    }
    proof {
        assert(texts(recipients@).len() > 0);
    }
    let body = write_body(payload);
    let attachments = payload.items_at("attachments");
    let mut out = write_head(sender, payload, date, at, pid);
    proof {
        assert(payload@.at("attachments"@).items().len() == attachments@.len());
    }
    if attachments.len() == 0 {
        out.append("Content-Type: text/plain; charset=utf-8\r\n\r\n");
        out.append(body.as_str());
        out.append("\r\n");
    } else {
        let boundary = write_boundary(at, pid);
        out.append("Content-Type: multipart/mixed; boundary=\"");
        out.append(boundary.as_str());
        out.append("\"\r\n\r\n");
        out.append("--");
        out.append(boundary.as_str());
        out.append("\r\nContent-Type: text/plain; charset=utf-8\r\n\r\n");
        out.append(body.as_str());
        out.append("\r\n");
        let count: usize = if attachments.len() > 5 {
            5
        } else {
            attachments.len()
        };
        let ghost sent = sent_attachments(payload@);
        let ghost head = out@;
        let mut parts = String::new();
        let mut i: usize = 0;
        while i < count
            invariant
                i <= count <= attachments@.len(),
                count == sent.len(),
                recipients_of(payload@).len() > 0,
                payload@.at("attachments"@).items().len() > 0,
                boundary@ == boundary_text(at, pid),
                sent == sent_attachments(payload@),
                forall|j: int| 0 <= j < count ==> sent[j] == (#[trigger] attachments@[j])@,
                attachment_parts(sent.take(i as int), boundary@) == Ok::<Seq<char>, Seq<char>>(parts@),
            decreases count - i,
        {
            proof {
                assert(sent.take(i + 1).drop_last() =~= sent.take(i as int));
                assert(sent.take(i + 1).last() == attachments@[i as int]@);
            }
            match write_attachment(&attachments[i], boundary.as_str()) {
                Ok(part) => {
                    parts.append(part.as_str());
                },
                Err(e) => {
                    proof {
                        lemma_parts_fail(sent, boundary@, i + 1, e@);
                    }
                    return Err(e);
                },
            }
            i += 1;
        }
        proof {
            assert(sent.take(count as int) =~= sent);
        }
        out.append(parts.as_str());
        out.append("--");
        out.append(boundary.as_str());
        out.append("--\r\n");
    }
    Ok((out.as_str().as_bytes_vec(), recipients))
}

/// Where some of the attachments fail, all of them do, with the same message.
proof fn lemma_parts_fail(items: Seq<Tree>, boundary: Seq<char>, n: int, e: Seq<char>)
    requires
        0 <= n <= items.len(),
        attachment_parts(items.take(n), boundary) == Err::<Seq<char>, Seq<char>>(e),
    ensures
        attachment_parts(items, boundary) == Err::<Seq<char>, Seq<char>>(e),
    decreases items.len() - n,
{
    if n < items.len() {
        assert(items.take(n + 1).drop_last() =~= items.take(n));
        lemma_parts_fail(items, boundary, n + 1, e);
    } else {
        assert(items.take(n) =~= items);
    }
}

} // verus!
