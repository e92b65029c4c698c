//! DNS messages: the question that is sent, and the names and records of the
//! answer.
use crate::outside::{lossy_text, text_result, texts_result, utf8_lossy};
use crate::text::{
    decimal, decimal_of, join, joined, law_split_joins, same, split_at, split_on, strip_end, stripped_end, texts,
};
use vstd::prelude::*;
use vstd::slice::slice_subrange;
use vstd::utf8::{
    decode_utf8, encode_utf8, encode_utf8_decode_utf8, encode_utf8_valid_utf8, valid_utf8,
};

verus! {

/// The longest datagram that an answer is read from.
pub const DATAGRAM_MAX: usize = 4096;

/// Bytes as text: what they spell in UTF-8, with replacement characters where
/// they are not UTF-8.
pub open spec fn spelled(bytes: Seq<u8>) -> Seq<char> {
    if valid_utf8(bytes) {
        decode_utf8(bytes)
    } else {
        lossy_text(bytes)
    }
}

/// A number of two bytes, the higher byte first.
pub open spec fn be16(data: Seq<u8>, i: int) -> int {
    data[i] as int * 256 + data[i + 1] as int
}

/// The two bytes of a number, the higher byte first.
pub open spec fn be16_bytes(n: u16) -> Seq<u8> {
    seq![(n / 256) as u8, (n % 256) as u8]
}

/// The position behind a name that starts at `p`: behind the zero that ends it,
/// or behind the first pointer in it. There is none where the bytes end before
/// that.
pub open spec fn name_end(data: Seq<u8>, p: int) -> Option<int>
    decreases data.len() - p,
{
    if p < 0 || p >= data.len() {
        None
    } else if data[p] >= 192 {
        if p + 1 >= data.len() {
            None
        } else {
            Some(p + 2)
        }
    } else if data[p] == 0 {
        Some(p + 1)
    } else if p + 1 + data[p] > data.len() {
        None
    } else {
        name_end(data, p + 1 + data[p])
    }
}

/// The labels of the name that starts at `p`, read after so many pointers have
/// been followed, or why they cannot be read.
pub open spec fn name_labels(data: Seq<u8>, p: int, jumps: nat) -> Result<Seq<Seq<char>>, Seq<char>>
    decreases 17 - jumps, data.len() - p,
{
    if p < 0 || p >= data.len() {
        Err("dns name out of range"@)
    } else if data[p] >= 192 {
        if p + 1 >= data.len() {
            Err("dns pointer out of range"@)
        } else if jumps >= 16 {
            Err("dns pointer loop"@)
        } else {
            name_labels(data, (data[p] - 192) * 256 + data[p + 1], jumps + 1)
        }
    } else if data[p] == 0 {
        Ok(Seq::empty())
    } else if p + 1 + data[p] > data.len() {
        Err("dns label out of range"@)
    } else {
        match name_labels(data, p + 1 + data[p], jumps) {
            Ok(rest) => Ok(seq![spelled(data.subrange(p + 1, p + 1 + data[p]))] + rest),
            Err(e) => Err(e),
        }
    }
}

/// The name that starts at `p`.
pub open spec fn name_text(data: Seq<u8>, p: int) -> Result<Seq<char>, Seq<char>> {
    match name_labels(data, p, 0) {
        Ok(labels) => Ok(joined(labels, "."@)),
        Err(e) => Err(e),
    }
}

/// What was read, put in front of what remains to be read.
pub open spec fn after(
    front: Seq<Seq<char>>,
    rest: Result<Seq<Seq<char>>, Seq<char>>,
) -> Result<Seq<Seq<char>>, Seq<char>> {
    match rest {
        Ok(r) => Ok(front + r),
        Err(e) => Err(e),
    }
}

/// A name that can be read has an end, within the data.
pub proof fn lemma_name_end(data: Seq<u8>, p: int)
    requires
        0 <= p,
    ensures
        name_labels(data, p, 0) is Ok ==> name_end(data, p) is Some,
        name_end(data, p) matches Some(e) ==> p < e <= data.len(),
    decreases data.len() - p,
{
    if p < data.len() && 0 < data[p] < 192 && p + 1 + data[p] <= data.len() {
        lemma_name_end(data, p + 1 + data[p]);
    }
}

fn pointer_target(high: u8, low: u8) -> (r: usize)
    requires
        high >= 192,
    ensures
        r == (high - 192) * 256 + low,
{
    let h: usize = (high - 192) as usize;
    h * 256 + (low as usize)
}

/// Reads the name at a position and moves the position behind it. Where the
/// name cannot be read, the position still moves behind the first pointer, if
/// one was reached.
pub fn read_name(data: &[u8], pos: &mut usize) -> (r: Result<String, String>)
    ensures
        text_result(r) == name_text(data@, *old(pos) as int),
        match name_end(data@, *old(pos) as int) {
            Some(e) => *final(pos) == e,
            None => *final(pos) == *old(pos),
        },
{
    let ghost p0 = *old(pos) as int;
    let mut labels: Vec<String> = Vec::new();
    let mut p: usize = *pos;
    let mut jumped = false;
    let mut jumps: u32 = 0;
    let total: usize = data.len();
    proof {
        assert(after(texts(labels@), name_labels(data@, p0, 0)) == name_labels(data@, p0, 0)) by {
            if let Ok(rest) = name_labels(data@, p0, 0) {
                assert(texts(labels@) + rest =~= rest);
            }
        }
    }
    loop
        invariant
            total == data@.len(),
            p0 == *old(pos) as int,
            jumps <= 16,
            name_labels(data@, p0, 0) == after(texts(labels@), name_labels(data@, p as int, jumps as nat)),
            jumped ==> name_end(data@, p0) == Some(*pos as int),
            !jumped ==> jumps == 0 && name_end(data@, p0) == name_end(data@, p as int) && *pos == p0,
        decreases 17 - jumps, total - p,
    {
        if p >= total {
            return Err("dns name out of range".to_owned());
        }
        let len: u8 = data[p];
        if len >= 192 {
            if total - p < 2 {
                return Err("dns pointer out of range".to_owned());
            }
            let ptr: usize = pointer_target(len, data[p + 1]);
            if !jumped {
                *pos = p + 2;
            }
            p = ptr;
            jumped = true;
            if jumps >= 16 {
                return Err("dns pointer loop".to_owned());
            }
            jumps += 1;
            continue;
        }
        if len == 0 {
            if !jumped {
                *pos = p + 1;
            }
            proof {
                assert(texts(labels@) + Seq::<Seq<char>>::empty() =~= texts(labels@));
            }
            return Ok(join(&labels, "."));
        }
        let wide: usize = len as usize;
        if wide > total - p - 1 {
            return Err("dns label out of range".to_owned());
        }
        let start: usize = p + 1;
        let end: usize = start + wide;
        let label = utf8_lossy(slice_subrange(data, start, end));
        let ghost labels0 = labels@;
        labels.push(label);
        proof {
            assert(texts(labels@) =~= texts(labels0).push(label@));
            if let Ok(rest) = name_labels(data@, end as int, jumps as nat) {
                assert(texts(labels0) + (seq![label@] + rest) =~= texts(labels@) + rest);
            }
        }
        p = end;
    }
}

/// The number that stands for a record type in a DNS message.
pub open spec fn type_code(qtype: Seq<char>) -> Option<u16> {
    if qtype == "A"@ {
        Some(1)
    } else if qtype == "MX"@ {
        Some(15)
    } else if qtype == "TXT"@ {
        Some(16)
    } else {
        None
    }
}

/// Looks up the number of a record type.
pub fn record_type(qtype: &str) -> (r: Result<u16, String>)
    ensures
        match r {
            Ok(code) => type_code(qtype@) == Some(code),
            Err(e) => type_code(qtype@) is None && e@ == "unsupported qtype"@,
        },
{
    if same(qtype, "A") {
        Ok(1)
    } else if same(qtype, "MX") {
        Ok(15)
    } else if same(qtype, "TXT") {
        Ok(16)
    } else {
        Err("unsupported qtype".to_owned())
    }
}

/// Labels as a question spells them: before each label the lowest byte of its
/// length.
pub open spec fn label_bytes(labels: Seq<Seq<char>>) -> Seq<u8>
    decreases labels.len(),
{
    if labels.len() == 0 {
        Seq::empty()
    } else {
        let label = encode_utf8(labels.last());
        label_bytes(labels.drop_last()).push((label.len() % 256) as u8) + label
    }
}

/// The question for the records of a type under a name.
pub open spec fn question_bytes(tid: u16, name: Seq<char>, code: u16) -> Seq<u8> {
    be16_bytes(tid) + seq![1u8, 0, 0, 1, 0, 0, 0, 0, 0, 0] + label_bytes(
        split_at(stripped_end(name, '.'), '.'),
    ) + seq![0u8] + be16_bytes(code) + seq![0u8, 1]
}

fn push_be16(out: &mut Vec<u8>, n: u16)
    ensures
        final(out)@ == old(out)@ + be16_bytes(n),
{
    let ghost out0 = out@;
    out.push((n / 256) as u8);
    out.push((n % 256) as u8);
    proof {
        assert(out@ =~= out0 + be16_bytes(n));
    }
}

fn push_all(out: &mut Vec<u8>, bytes: &[u8])
    ensures
        final(out)@ == old(out)@ + bytes@,
{
    let ghost out0 = out@;
    let mut i: usize = 0;
    while i < bytes.len()
        invariant
            i <= bytes@.len(),
            out@ =~= out0 + bytes@.take(i as int),
        decreases bytes@.len() - i,
    {
        out.push(bytes[i]);
        i += 1;
    }
    proof {
        assert(bytes@.take(bytes@.len() as int) =~= bytes@);
    }
}

fn low_byte(n: usize) -> (r: u8)
    ensures
        r == n % 256,
{
    (n % 256) as u8
}

/// Writes the question for the records of a type under a name.
pub fn dns_question(tid: u16, name: &str, qtype: &str) -> (r: Result<Vec<u8>, String>)
    ensures
        match r {
            Ok(packet) => type_code(qtype@) is Some && packet@ == question_bytes(
                tid,
                name@,
                type_code(qtype@)->0,
            ),
            Err(e) => type_code(qtype@) is None && e@ == "unsupported qtype"@,
        },
{
    let code: u16 = match record_type(qtype) {
        Ok(code) => code,
        Err(e) => {
            return Err(e);
        },
    };
    let mut packet: Vec<u8> = Vec::new();
    push_be16(&mut packet, tid);
    proof {
        assert(packet@ =~= be16_bytes(tid));
    }
    let fixed: Vec<u8> = vec![1u8, 0, 0, 1, 0, 0, 0, 0, 0, 0];
    proof {
        assert(fixed@ =~= seq![1u8, 0, 0, 1, 0, 0, 0, 0, 0, 0]);
    }
    push_all(&mut packet, fixed.as_slice());
    let labels = split_on(strip_end(name, '.').as_str(), '.');
    let ghost head = packet@;
    let ghost all = texts(labels@);
    let mut i: usize = 0;
    proof {
        assert(packet@ =~= head + label_bytes(all.take(0)));
    }
    while i < labels.len()
        invariant
            i <= labels@.len(),
            all == texts(labels@),
            packet@ == head + label_bytes(all.take(i as int)),
        decreases labels@.len() - i,
    {
        let ghost before = packet@;
        let label = labels[i].as_str().as_bytes();
        packet.push(low_byte(label.len()));
        push_all(&mut packet, label);
        proof {
            assert(all.take(i + 1).drop_last() =~= all.take(i as int));
            assert(all.take(i + 1).last() == labels@[i as int]@);
            assert(packet@ =~= head + label_bytes(all.take(i + 1)));
        }
        i += 1;
    }
    proof {
        assert(all.take(all.len() as int) =~= all);
    }
    let ghost named = packet@;
    packet.push(0);
    proof {
        assert(packet@ =~= named + seq![0u8]);
    }
    push_be16(&mut packet, code);
    let ghost typed = packet@;
    packet.push(0);
    packet.push(1);
    proof {
        assert(packet@ =~= typed + seq![0u8, 1]);
    }
    Ok(packet)
}

/// The address that four bytes spell.
pub open spec fn ip_text(b: Seq<u8>, i: int) -> Seq<char> {
    decimal(b[i] as nat) + "."@ + decimal(b[i + 1] as nat) + "."@ + decimal(b[i + 2] as nat) + "."@
        + decimal(b[i + 3] as nat)
}

fn write_ip(data: &[u8], i: usize) -> (r: String)
    requires
        i + 4 <= data@.len(),
        data@.len() <= DATAGRAM_MAX,
    ensures
        r@ == ip_text(data@, i as int),
{
    let mut out = decimal_of(data[i] as u64);
    out.append(".");
    out.append(decimal_of(data[i + 1] as u64).as_str());
    out.append(".");
    out.append(decimal_of(data[i + 2] as u64).as_str());
    out.append(".");
    out.append(decimal_of(data[i + 3] as u64).as_str());
    out
}

/// The text of a text record from `p` to `end`: its pieces, each after a byte
/// with its length, up to one that does not fit.
pub open spec fn txt_text(data: Seq<u8>, p: int, end: int) -> Seq<char>
    decreases end - p,
{
    if p >= end || p + 1 + data[p] > end {
        Seq::empty()
    } else {
        spelled(data.subrange(p + 1, p + 1 + data[p])) + txt_text(data, p + 1 + data[p], end)
    }
}

fn write_txt(data: &[u8], start: usize, end: usize) -> (r: String)
    requires
        start <= end <= data@.len(),
        data@.len() <= DATAGRAM_MAX,
    ensures
        r@ == txt_text(data@, start as int, end as int),
{
    let mut out = String::new();
    let mut p: usize = start;
    proof {
        assert(out@ + txt_text(data@, start as int, end as int) =~= txt_text(data@, start as int, end as int));
    }
    while p < end
        invariant
            start <= p <= end <= data@.len(),
            data@.len() <= DATAGRAM_MAX,
            txt_text(data@, start as int, end as int) == out@ + txt_text(data@, p as int, end as int),
        decreases end - p,
    {
        let wide: usize = data[p] as usize;
        if p + 1 + wide > end {
            proof {
                assert(out@ + Seq::<char>::empty() =~= out@);
            }
            return out;
        }
        let piece = utf8_lossy(slice_subrange(data, p + 1, p + 1 + wide));
        let ghost out0 = out@;
        out.append(piece.as_str());
        proof {
            let rest = txt_text(data@, p + 1 + wide, end as int);
            assert(out0 + (piece@ + rest) =~= out@ + rest);
        }
        p = p + 1 + wide;
    }
    proof {
        assert(out@ + Seq::<char>::empty() =~= out@);
    }
    out
}

/// What the record of a type with data from `start` to `end` says, if it is one
/// of the type asked for and has that type's form.
pub open spec fn record_text(
    data: Seq<u8>,
    start: int,
    end: int,
    atype: int,
    code: int,
) -> Result<Seq<Seq<char>>, Seq<char>> {
    if atype != code {
        Ok(Seq::empty())
    } else if atype == 1 && end - start == 4 {
        Ok(seq![ip_text(data, start)])
    } else if atype == 15 && end - start >= 2 {
        match name_text(data, start + 2) {
            Ok(exchange) => Ok(seq![decimal(be16(data, start) as nat) + " "@ + exchange]),
            Err(e) => Err(e),
        }
    } else if atype == 16 {
        Ok(seq![txt_text(data, start, end)])
    } else {
        Ok(Seq::empty())
    }
}

/// The position behind `n` questions.
pub open spec fn questions_end(data: Seq<u8>, pos: int, n: nat) -> Result<int, Seq<char>>
    decreases n,
{
    if n == 0 {
        Ok(pos)
    } else {
        match name_labels(data, pos, 0) {
            Ok(_) => questions_end(data, name_end(data, pos)->0 + 4, (n - 1) as nat),
            Err(e) => Err(e),
        }
    }
}

/// What the next `n` records say that are of the type asked for. A record that
/// does not fit ends the list; a name that cannot be read is an error.
pub open spec fn records(data: Seq<u8>, pos: int, n: nat, code: int) -> Result<Seq<Seq<char>>, Seq<char>>
    decreases n,
{
    if n == 0 {
        Ok(Seq::empty())
    } else {
        match name_labels(data, pos, 0) {
            Err(e) => Err(e),
            Ok(_) => {
                let p = name_end(data, pos)->0;
                if p + 10 > data.len() || p + 10 + be16(data, p + 8) > data.len() {
                    Ok(Seq::empty())
                } else {
                    let end = p + 10 + be16(data, p + 8);
                    match record_text(data, p + 10, end, be16(data, p), code) {
                        Err(e) => Err(e),
                        Ok(v) => after(v, records(data, end, (n - 1) as nat, code)),
                    }
                }
            },
        }
    }
}

/// What an answer says of the records of a type.
pub open spec fn answer_texts(data: Seq<u8>, code: int) -> Result<Seq<Seq<char>>, Seq<char>> {
    if data.len() < 12 {
        Err("short dns response"@)
    } else {
        match questions_end(data, 12, be16(data, 4) as nat) {
            Err(e) => Err(e),
            Ok(pos) => records(data, pos, be16(data, 6) as nat, code),
        }
    }
}

fn read_be16(data: &[u8], i: usize) -> (r: u16)
    requires
        i + 2 <= data@.len(),
        data@.len() <= DATAGRAM_MAX,
    ensures
        r == be16(data@, i as int),
{
    (data[i] as u16) * 256 + (data[i + 1] as u16)
}

fn read_record(data: &[u8], start: usize, end: usize, atype: u16, code: u16) -> (r: Result<Option<String>, String>)
    requires
        start <= end <= data@.len(),
        data@.len() <= DATAGRAM_MAX,
    ensures
        match r {
            Ok(Some(s)) => record_text(data@, start as int, end as int, atype as int, code as int) == Ok::<
                Seq<Seq<char>>,
                Seq<char>,
            >(seq![s@]),
            Ok(None) => record_text(data@, start as int, end as int, atype as int, code as int) == Ok::<
                Seq<Seq<char>>,
                Seq<char>,
            >(Seq::empty()),
            Err(e) => record_text(data@, start as int, end as int, atype as int, code as int) == Err::<
                Seq<Seq<char>>,
                Seq<char>,
            >(e@),
        },
{
    if atype != code {
        return Ok(None);
    }
    if atype == 1 && end - start == 4 {
        return Ok(Some(write_ip(data, start)));
    }
    if atype == 15 && end - start >= 2 {
        let preference: u16 = read_be16(data, start);
        let mut pos: usize = start + 2;
        return match read_name(data, &mut pos) {
            Ok(exchange) => {
                let mut out = decimal_of(preference as u64);
                out.append(" ");
                out.append(exchange.as_str());
                Ok(Some(out))
            },
            Err(e) => Err(e),
        };
    }
    if atype == 16 {
        return Ok(Some(write_txt(data, start, end)));
    }
    Ok(None)
}

/// Reads an answer: what it says of the records of a type.
pub fn dns_answers(data: &[u8], code: u16) -> (r: Result<Vec<String>, String>)
    requires
        data@.len() <= DATAGRAM_MAX,
    ensures
        texts_result(r) == answer_texts(data@, code as int),
{
    if data.len() < 12 {
        return Err("short dns response".to_owned());
    }
    let qd: u16 = read_be16(data, 4);
    let an: u16 = read_be16(data, 6);
    let mut pos: usize = 12;
    let mut i: u16 = 0;
    while i < qd
        invariant
            i <= qd,
            12 <= data@.len() <= DATAGRAM_MAX,
            qd == be16(data@, 4),
            pos <= data@.len() + 4,
            questions_end(data@, 12, qd as nat) == questions_end(data@, pos as int, (qd - i) as nat),
        decreases qd - i,
    {
        proof {
            lemma_name_end(data@, pos as int);
        }
        match read_name(data, &mut pos) {
            Ok(_) => {},
            Err(e) => {
                return Err(e);
            },
        }
        pos += 4;
        i += 1;
    }
    let ghost start = pos as int;
    let mut vals: Vec<String> = Vec::new();
    let mut k: u16 = 0;
    proof {
        if let Ok(rest) = records(data@, start, an as nat, code as int) {
            assert(texts(vals@) + rest =~= rest);
        }
    }
    while k < an
        invariant
            k <= an,
            data@.len() <= DATAGRAM_MAX,
            pos <= data@.len() + 4,
            answer_texts(data@, code as int) == records(data@, start, an as nat, code as int),
            records(data@, start, an as nat, code as int) == after(
                texts(vals@),
                records(data@, pos as int, (an - k) as nat, code as int),
            ),
        decreases an - k,
    {
        let ghost pos0 = pos as int;
        proof {
            lemma_name_end(data@, pos as int);
            assert(texts(vals@) + Seq::<Seq<char>>::empty() =~= texts(vals@));
        }
        match read_name(data, &mut pos) {
            Ok(_) => {},
            Err(e) => {
                return Err(e);
            },
        }
        if pos + 10 > data.len() {
            return Ok(vals);
        }
        let atype: u16 = read_be16(data, pos);
        let rdlen: usize = read_be16(data, pos + 8) as usize;
        let from: usize = pos + 10;
        let end: usize = from + rdlen;
        if end > data.len() {
            return Ok(vals);
        }
        pos = end;
        let ghost vals0 = vals@;
        let ghost rest = records(data@, end as int, (an - k - 1) as nat, code as int);
        match read_record(data, from, end, atype, code) {
            Ok(Some(s)) => {
                vals.push(s);
                proof {
                    assert(texts(vals@) =~= texts(vals0).push(s@));
                    if let Ok(t) = rest {
                        assert(texts(vals0) + (seq![s@] + t) =~= texts(vals@) + t);
                    }
                }
            },
            Ok(None) => {
                proof {
                    if let Ok(t) = rest {
                        assert(texts(vals0) + (Seq::<Seq<char>>::empty() + t) =~= texts(vals@) + t);
                    }
                }
            },
            Err(e) => {
                return Err(e);
            },
        }
        k += 1;
    }
    proof {
        assert(texts(vals@) + Seq::<Seq<char>>::empty() =~= texts(vals@));
    }
    Ok(vals)
}

/// The bytes of the first labels start the bytes of all labels.
proof fn lemma_label_prefix(labels: Seq<Seq<char>>, k: int)
    requires
        0 <= k <= labels.len(),
    ensures
        label_bytes(labels.take(k)).len() <= label_bytes(labels).len(),
        label_bytes(labels).take(label_bytes(labels.take(k)).len() as int) == label_bytes(labels.take(k)),
    decreases labels.len() - k,
{
    let part = label_bytes(labels.take(k));
    let whole = label_bytes(labels);
    if k == labels.len() {
        assert(labels.take(k) =~= labels);
        assert(whole.take(whole.len() as int) =~= whole);
    } else {
        lemma_label_prefix(labels, k + 1);
        let next = label_bytes(labels.take(k + 1));
        assert(labels.take(k + 1).drop_last() =~= labels.take(k));
        assert(next.take(part.len() as int) =~= part);
        assert(whole.take(next.len() as int).take(part.len() as int) =~= whole.take(part.len() as int));
    }
}

/// The labels that are read from some label of a question on.
proof fn lemma_labels_from(data: Seq<u8>, head: Seq<u8>, labels: Seq<Seq<char>>, tail: Seq<u8>, k: int)
    requires
        data == head + label_bytes(labels) + seq![0u8] + tail,
        0 <= k <= labels.len(),
        forall|i: int| 0 <= i < labels.len() ==> 0 < encode_utf8(#[trigger] labels[i]).len() < 192,
    ensures
        ({
            let p = head.len() + label_bytes(labels.take(k)).len();
            &&& name_labels(data, p as int, 0) == Ok::<Seq<Seq<char>>, Seq<char>>(
                labels.skip(k),
            )
            &&& name_end(data, p as int) == Some((head.len() + label_bytes(labels).len() + 1) as int)
        }),
    decreases labels.len() - k,
{
    let before = label_bytes(labels.take(k));
    let whole = label_bytes(labels);
    let p = (head.len() + before.len()) as int;
    lemma_label_prefix(labels, k);
    if k == labels.len() {
        assert(labels.take(k) =~= labels);
        assert(data[p] == 0);
        assert(labels.skip(k) =~= Seq::<Seq<char>>::empty());
    } else {
        let label = encode_utf8(labels[k]);
        let next = label_bytes(labels.take(k + 1));
        assert(labels.take(k + 1).drop_last() =~= labels.take(k));
        assert(labels.take(k + 1).last() == labels[k]);
        lemma_label_prefix(labels, k + 1);
        assert(next == before.push((label.len() % 256) as u8) + label);
        assert(next[before.len() as int] == label.len());
        assert(whole.take(next.len() as int)[before.len() as int] == next[before.len() as int]);
        assert(data[p] == label.len());
        let q = p + 1 + label.len();
        assert(q == head.len() + next.len());
        assert(data.subrange(p + 1, q) =~= label) by {
            assert forall|i: int| 0 <= i < label.len() implies data[p + 1 + i] == label[i] by {
                assert(next[before.len() + 1 + i] == label[i]);
                assert(whole.take(next.len() as int)[before.len() + 1 + i] == next[before.len() + 1 + i]);
            }
        }
        lemma_labels_from(data, head, labels, tail, k + 1);
        encode_utf8_valid_utf8(labels[k]);
        encode_utf8_decode_utf8(labels[k]);
        assert(labels.skip(k) =~= seq![labels[k]] + labels.skip(k + 1));
    }
}

/// The name in a question is read back from it, without dots at its end, and the
/// question ends where its bytes do; if no label is empty or longer than a label
/// can be.
pub proof fn law_question_reads_back(tid: u16, name: Seq<char>, code: u16)
    requires
        ({
            let labels = split_at(stripped_end(name, '.'), '.');
            forall|i: int| 0 <= i < labels.len() ==> 0 < encode_utf8(#[trigger] labels[i]).len() < 192
        }),
    ensures
        name_text(question_bytes(tid, name, code), 12) == Ok::<Seq<char>, Seq<char>>(
            stripped_end(name, '.'),
        ),
        questions_end(question_bytes(tid, name, code), 12, 1) == Ok::<int, Seq<char>>(
            question_bytes(tid, name, code).len() as int,
        ),
{
    let labels = split_at(stripped_end(name, '.'), '.');
    let head = be16_bytes(tid) + seq![1u8, 0, 0, 1, 0, 0, 0, 0, 0, 0];
    let tail = be16_bytes(code) + seq![0u8, 1];
    let data = question_bytes(tid, name, code);
    assert(data =~= head + label_bytes(labels) + seq![0u8] + tail);
    lemma_labels_from(data, head, labels, tail, 0);
    assert(labels.take(0) =~= Seq::empty());
    assert(labels.skip(0) =~= labels);
    assert(head.len() == 12);
    assert("."@ =~= seq!['.']) by {
        reveal_strlit(".");
    }
    law_split_joins(stripped_end(name, '.'), '.');
    let end = name_end(data, 12)->0;
    assert(questions_end(data, end + 4, 0) == Ok::<int, Seq<char>>(end + 4));
}

} // verus!
