//! What DNS messages say.
use crate::dns::{
    after, answer_texts, be16, be16_bytes, name_end, name_labels, name_text, question_bytes, questions_end,
    records, spelled, txt_text, type_code,
};
use crate::text::decimal;
use vstd::prelude::*;

verus! {

/// A question holds its number, asks for one name, wants recursion, and ends
/// with the number of the type and that of the class of the internet.
pub proof fn law_question_asks_for_one_name(tid: u16, name: Seq<char>, code: u16)
    ensures
        ({
            let q = question_bytes(tid, name, code);
            &&& q.len() >= 17
            &&& be16(q, 0) == tid
            &&& be16(q, 2) == 256
            &&& be16(q, 4) == 1
            &&& be16(q, 6) == 0 && be16(q, 8) == 0 && be16(q, 10) == 0
            &&& q[q.len() - 5] == 0
            &&& be16(q, q.len() - 4) == code
            &&& be16(q, q.len() - 2) == 1
        }),
        type_code("A"@) == Some(1u16),
        type_code("MX"@) == Some(15u16),
        type_code("TXT"@) == Some(16u16),
        name != "A"@ && name != "MX"@ && name != "TXT"@ ==> type_code(name) is None,
{
    reveal_strlit("A");
    reveal_strlit("MX");
    reveal_strlit("TXT");
    assert("A"@.len() == 1 && "MX"@.len() == 2 && "TXT"@.len() == 3);
    lemma_two_bytes(tid);
    lemma_two_bytes(code);
    let q = question_bytes(tid, name, code);
    let a = be16_bytes(tid);
    let z = be16_bytes(code);
    let n = q.len() as int;
    assert(q[0] == a[0] && q[1] == a[1]);
    assert(q[n - 4] == z[0] && q[n - 3] == z[1]);
}

proof fn lemma_two_bytes(n: u16)
    ensures
        be16_bytes(n).len() == 2,
        be16_bytes(n)[0] as int * 256 + be16_bytes(n)[1] as int == n,
{
    let h = n / 256;
    let l = n % 256;
    assert(h < 256 && l < 256 && h * 256 + l == n) by (nonlinear_arith)
        requires
            h == n / 256,
            l == n % 256,
            n <= 65535,
    ;
    assert(h as u8 == h && l as u8 == l);
}

/// A name is read label by label up to the zero that ends it; a pointer in a
/// name stands for the name that it points at.
pub proof fn law_names_are_read_label_by_label(data: Seq<u8>, p: int, jumps: nat, rest: Seq<Seq<char>>)
    requires
        0 <= p < data.len(),
        jumps < 16,
    ensures
        data[p] == 0 ==> name_labels(data, p, jumps) == Ok::<Seq<Seq<char>>, Seq<char>>(Seq::empty())
            && name_end(data, p) == Some(p + 1),
        0 < data[p] < 192 && p + 1 + data[p] <= data.len() && name_labels(data, p + 1 + data[p], jumps) == Ok::<
            Seq<Seq<char>>,
            Seq<char>,
        >(rest) ==> name_labels(data, p, jumps) == Ok::<Seq<Seq<char>>, Seq<char>>(
            seq![spelled(data.subrange(p + 1, p + 1 + data[p]))] + rest,
        ) && name_end(data, p) == name_end(data, p + 1 + data[p]),
        data[p] >= 192 && p + 1 < data.len() ==> name_labels(data, p, jumps) == name_labels(
            data,
            (data[p] - 192) * 256 + data[p + 1],
            jumps + 1,
        ) && name_end(data, p) == Some(p + 2),
        data[p] >= 192 && p + 1 == data.len() ==> name_labels(data, p, jumps) == Err::<
            Seq<Seq<char>>,
            Seq<char>,
        >("dns pointer out of range"@),
        0 < data[p] < 192 && p + 1 + data[p] > data.len() ==> name_labels(data, p, jumps) == Err::<
            Seq<Seq<char>>,
            Seq<char>,
        >("dns label out of range"@),
        data[p] >= 192 && p + 1 < data.len() ==> name_labels(data, p, 16) == Err::<Seq<Seq<char>>, Seq<char>>(
            "dns pointer loop"@,
        ),
        name_labels(data, data.len() as int, jumps) == Err::<Seq<Seq<char>>, Seq<char>>(
            "dns name out of range"@,
        ),
{
}

/// The first bytes of a record: its type, its class, how long it holds, and how
/// many bytes follow.
pub open spec fn record_head(code: u16, ttl: Seq<u8>, length: u16) -> Seq<u8> {
    be16_bytes(code) + seq![0u8, 1] + ttl + be16_bytes(length)
}

proof fn lemma_record_place(
    front: Seq<u8>,
    low: u8,
    code: u16,
    ttl: Seq<u8>,
    body: Seq<u8>,
    back: Seq<u8>,
)
    requires
        ttl.len() == 4,
        body.len() <= 65535,
    ensures
        ({
            let data = front + seq![192u8, low] + record_head(code, ttl, body.len() as u16) + body + back;
            let p = front.len() as int + 2;
            &&& name_end(data, front.len() as int) == Some(p)
            &&& be16(data, p) == code
            &&& be16(data, p + 8) == body.len()
            &&& p + 10 + body.len() + back.len() == data.len()
            &&& data.subrange(p + 10, p + 10 + body.len() as int) == body
        }),
{
    let n = body.len() as u16;
    lemma_two_bytes(code);
    lemma_two_bytes(n);
    let head = record_head(code, ttl, n);
    let data = front + seq![192u8, low] + head + body + back;
    let p = front.len() as int + 2;
    assert(data[p - 2] == 192 && data[p - 1] == low);
    assert(head[0] == be16_bytes(code)[0] && head[1] == be16_bytes(code)[1]);
    assert(head[8] == be16_bytes(n)[0] && head[9] == be16_bytes(n)[1]);
    assert(data[p] == head[0] && data[p + 1] == head[1] && data[p + 8] == head[8] && data[p + 9] == head[9]);
    assert(data.subrange(p + 10, p + 10 + body.len() as int) =~= body);
}

/// A record of an address says its four numbers with dots between them, to who
/// asks for addresses; to others it says nothing. The records behind it are read
/// on.
pub proof fn law_address_record_says_its_numbers(
    front: Seq<u8>,
    low: u8,
    ttl: Seq<u8>,
    a: u8,
    b: u8,
    c: u8,
    d: u8,
    back: Seq<u8>,
    n: nat,
    code: int,
)
    requires
        ttl.len() == 4,
        n > 0,
        name_labels(
            front + seq![192u8, low] + record_head(1, ttl, 4) + seq![a, b, c, d] + back,
            front.len() as int,
            0,
        ) is Ok,
    ensures
        ({
            let data = front + seq![192u8, low] + record_head(1, ttl, 4) + seq![a, b, c, d] + back;
            let pos = front.len() as int;
            let rest = records(data, pos + 16, (n - 1) as nat, code);
            &&& code == 1 ==> records(data, pos, n, code) == (match rest {
                Ok(r) => Ok::<Seq<Seq<char>>, Seq<char>>(
                    seq![
                        decimal(a as nat) + "."@ + decimal(b as nat) + "."@ + decimal(c as nat) + "."@ + decimal(
                            d as nat,
                        ),
                    ] + r,
                ),
                Err(e) => Err(e),
            })
            &&& code != 1 ==> records(data, pos, n, code) == rest
        }),
{
    let body = seq![a, b, c, d];
    let data = front + seq![192u8, low] + record_head(1, ttl, 4) + body + back;
    lemma_record_place(front, low, 1, ttl, body, back);
    let p = front.len() as int + 2;
    let s = data.subrange(p + 10, p + 14);
    assert(s[0] == data[p + 10] && s[1] == data[p + 11] && s[2] == data[p + 12] && s[3] == data[p + 13]);
    let rest = records(data, p + 14, (n - 1) as nat, code);
    if code != 1 {
        if let Ok(r) = rest {
            assert(Seq::<Seq<char>>::empty() + r =~= r);
        }
    }
}

/// A record of a mail server says its preference and its name, to who asks for
/// mail servers.
pub proof fn law_mail_server_record_says_its_name(
    front: Seq<u8>,
    low: u8,
    ttl: Seq<u8>,
    preference: u16,
    name: Seq<u8>,
    back: Seq<u8>,
    n: nat,
    code: int,
)
    requires
        ttl.len() == 4,
        n > 0,
        name.len() <= 65533,
        name_labels(
            front + seq![192u8, low] + record_head(15, ttl, (name.len() + 2) as u16) + (be16_bytes(preference)
                + name) + back,
            front.len() as int,
            0,
        ) is Ok,
    ensures
        ({
            let data = front + seq![192u8, low] + record_head(15, ttl, (name.len() + 2) as u16) + (be16_bytes(
                preference,
            ) + name) + back;
            let pos = front.len() as int;
            let rest = records(data, pos + 14 + name.len(), (n - 1) as nat, code);
            &&& code == 15 ==> records(data, pos, n, code) == (match name_text(data, pos + 14) {
                Err(e) => Err::<Seq<Seq<char>>, Seq<char>>(e),
                Ok(server) => match rest {
                    Ok(r) => Ok(seq![decimal(preference as nat) + " "@ + server] + r),
                    Err(e) => Err(e),
                },
            })
            &&& code != 15 ==> records(data, pos, n, code) == rest
        }),
{
    lemma_two_bytes(preference);
    let two = be16_bytes(preference);
    let body = two + name;
    assert(body.len() == name.len() + 2);
    let data = front + seq![192u8, low] + record_head(15, ttl, (name.len() + 2) as u16) + body + back;
    lemma_record_place(front, low, 15, ttl, body, back);
    let p = front.len() as int + 2;
    let s = data.subrange(p + 10, p + 10 + body.len() as int);
    assert(s[0] == data[p + 10] && s[1] == data[p + 11]);
    assert(body[0] == two[0] && body[1] == two[1]);
    assert(be16(data, p + 10) == preference);
    let rest = records(data, p + 10 + body.len() as int, (n - 1) as nat, code);
    if code != 15 {
        if let Ok(r) = rest {
            assert(Seq::<Seq<char>>::empty() + r =~= r);
        }
    }
}

proof fn lemma_txt_same(a: Seq<u8>, i: int, b: Seq<u8>, j: int, n: int)
    requires
        0 <= n,
        0 <= i,
        0 <= j,
        i + n <= a.len(),
        j + n <= b.len(),
        a.subrange(i, i + n) == b.subrange(j, j + n),
    ensures
        txt_text(a, i, i + n) == txt_text(b, j, j + n),
    decreases n,
{
    if n > 0 {
        assert(a.subrange(i, i + n)[0] == a[i]);
        assert(b.subrange(j, j + n)[0] == b[j]);
        let k = 1 + a[i] as int;
        if k <= n {
            assert(a.subrange(i + 1, i + k) =~= a.subrange(i, i + n).subrange(1, k));
            assert(b.subrange(j + 1, j + k) =~= b.subrange(j, j + n).subrange(1, k));
            assert(a.subrange(i + k, i + n) =~= a.subrange(i, i + n).subrange(k, n));
            assert(b.subrange(j + k, j + n) =~= b.subrange(j, j + n).subrange(k, n));
            lemma_txt_same(a, i + k, b, j + k, n - k);
        }
    }
}

/// The text of a record is made of its pieces one after another, each behind its
/// length.
pub proof fn law_pieces_of_text_follow_one_another(piece: Seq<u8>, rest: Seq<u8>)
    requires
        piece.len() <= 255,
    ensures
        ({
            let data = seq![piece.len() as u8] + piece + rest;
            txt_text(data, 0, data.len() as int) == spelled(piece) + txt_text(rest, 0, rest.len() as int)
        }),
        txt_text(Seq::empty(), 0, 0) == Seq::<char>::empty(),
{
    let data = seq![piece.len() as u8] + piece + rest;
    let n = piece.len() as int;
    assert(data[0] == piece.len() as u8);
    assert(data.subrange(1, 1 + n) =~= piece);
    assert(data.subrange(1 + n, 1 + n + rest.len() as int) =~= rest);
    assert(rest.subrange(0, rest.len() as int) =~= rest);
    lemma_txt_same(data, 1 + n, rest, 0, rest.len() as int);
}

/// A record of text says its text, to who asks for text.
pub proof fn law_text_record_says_its_text(
    front: Seq<u8>,
    low: u8,
    ttl: Seq<u8>,
    body: Seq<u8>,
    back: Seq<u8>,
    n: nat,
    code: int,
)
    requires
        ttl.len() == 4,
        n > 0,
        body.len() <= 65535,
        name_labels(
            front + seq![192u8, low] + record_head(16, ttl, body.len() as u16) + body + back,
            front.len() as int,
            0,
        ) is Ok,
    ensures
        ({
            let data = front + seq![192u8, low] + record_head(16, ttl, body.len() as u16) + body + back;
            let pos = front.len() as int;
            let rest = records(data, pos + 12 + body.len(), (n - 1) as nat, code);
            &&& code == 16 ==> records(data, pos, n, code) == (match rest {
                Ok(r) => Ok::<Seq<Seq<char>>, Seq<char>>(seq![txt_text(body, 0, body.len() as int)] + r),
                Err(e) => Err(e),
            })
            &&& code != 16 ==> records(data, pos, n, code) == rest
        }),
{
    let data = front + seq![192u8, low] + record_head(16, ttl, body.len() as u16) + body + back;
    lemma_record_place(front, low, 16, ttl, body, back);
    let p = front.len() as int + 2;
    assert(body.subrange(0, body.len() as int) =~= body);
    lemma_txt_same(data, p + 10, body, 0, body.len() as int);
    let rest = records(data, p + 10 + body.len() as int, (n - 1) as nat, code);
    if code != 16 {
        if let Ok(r) = rest {
            assert(Seq::<Seq<char>>::empty() + r =~= r);
        }
    }
}

/// An answer says what its records say, of which there are as many as its
/// heading tells, behind its questions; without records it says nothing, and an
/// answer without a heading cannot be read.
pub proof fn law_answer_says_what_its_records_say(data: Seq<u8>, code: int, pos: int)
    ensures
        data.len() < 12 ==> answer_texts(data, code) == Err::<Seq<Seq<char>>, Seq<char>>("short dns response"@),
        data.len() >= 12 && questions_end(data, 12, be16(data, 4) as nat) == Ok::<int, Seq<char>>(pos)
            ==> answer_texts(data, code) == records(data, pos, be16(data, 6) as nat, code),
        data.len() >= 12 && data[4] == 0 && data[5] == 0 ==> answer_texts(data, code) == records(
            data,
            12,
            be16(data, 6) as nat,
            code,
        ),
        records(data, pos, 0, code) == Ok::<Seq<Seq<char>>, Seq<char>>(Seq::empty()),
        0 <= pos < data.len() && data[pos] == 0 ==> questions_end(data, pos, 1) == Ok::<int, Seq<char>>(pos + 5),
{
    assert(questions_end(data, pos + 5, 0) == Ok::<int, Seq<char>>(pos + 5));
}

} // verus!
