//! The state of the machine: services, memory, processor, mail queue, errors and
//! processes.
use crate::antispam::{spam_summary, spam_summary_of, total_spam, SpamCount};
use crate::json::{trees, Json, Number, Tree};
use crate::outside::{regex_is_match, regex_match, TROUBLE_PATTERN};
use crate::spam::{count, with_policy};
use crate::text::{
    after_prefix, blank, chars_of, contains, first_chars, has_text, lines, lines_of, opt_text, parse_number,
    parsed_number, parted, split_once_blank, strip_prefix, take_chars, text_of, texts, trim, trim_start,
    trimmed, without_start, words, words_of,
};
use vstd::prelude::*;
use vstd::utf8::encode_utf8;

verus! {

/// The services of the platform.
pub open spec fn service_names() -> Seq<Seq<char>> {
    seq!["postfix"@, "dovecot"@, "opendkim"@, "nginx"@, "akurai-mail-ui"@, "fail2ban"@]
}

/// Lists the services of the platform.
pub fn service_list() -> (r: Vec<String>)
    ensures
        texts(r@) == service_names(),
{
    let r = vec![
        "postfix".to_owned(),
        "dovecot".to_owned(),
        "opendkim".to_owned(),
        "nginx".to_owned(),
        "akurai-mail-ui".to_owned(),
        "fail2ban".to_owned(),
    ];
    proof {
        assert(texts(r@) =~= service_names());
    }
    r
}

/// The state of the first services, by their names.
pub open spec fn services_of(statuses: Seq<Seq<char>>, n: nat) -> Tree
    decreases n,
{
    if n == 0 {
        Tree::object()
    } else {
        services_of(statuses, (n - 1) as nat).with(
            service_names()[n - 1],
            Tree::Text(trimmed(statuses[n - 1])),
        )
    }
}

/// Shows the state of the services, given what was said of each.
pub fn services(statuses: &Vec<String>) -> (r: Json)
    requires
        statuses@.len() == service_names().len(),
    ensures
        r@ == services_of(texts(statuses@), service_names().len()),
{
    let names = service_list();
    let mut out = Json::object();
    let mut i: usize = 0;
    proof {
        assert(texts(names@).len() == names@.len());
    }
    while i < names.len()
        invariant
            i <= names@.len(),
            names@.len() == statuses@.len(),
            texts(names@) == service_names(),
            out@ == services_of(texts(statuses@), i as nat),
            out@.settable(),
        decreases names@.len() - i,
    {
        proof {
            assert(texts(names@)[i as int] == names@[i as int]@);
            assert(texts(statuses@)[i as int] == statuses@[i as int]@);
        }
        out.set(names[i].as_str(), Json::text(trim(statuses[i].as_str()).as_str()));
        i += 1;
    }
    out
}

/// The first number after a label, or a default; nothing where the line does
/// not start with the label.
pub open spec fn labelled(line: Seq<char>, label: Seq<char>, default: nat) -> Option<nat> {
    match after_prefix(line, label) {
        None => None,
        Some(rest) => {
            let w = words_of(rest);
            if w.len() == 0 {
                Some(default)
            } else {
                match parsed_number(w[0], u64::MAX as nat) {
                    Some(n) => Some(n),
                    None => Some(default),
                }
            }
        },
    }
}

/// The number after the last label of its kind, or a default.
pub open spec fn last_labelled(list: Seq<Seq<char>>, label: Seq<char>, default: nat) -> nat
    decreases list.len(),
{
    if list.len() == 0 {
        default
    } else {
        match labelled(list.last(), label, default) {
            Some(n) => n,
            None => last_labelled(list.drop_last(), label, default),
        }
    }
}

fn read_labelled(line: &str, label: &str, default: u64) -> (r: Option<u64>)
    ensures
        match r {
            Some(n) => labelled(line@, label@, default as nat) == Some(n as nat),
            None => labelled(line@, label@, default as nat) is None,
        },
{
    match strip_prefix(line, label) {
        None => None,
        Some(rest) => {
            let w = words(rest.as_str());
            proof {
                assert(texts(w@).len() == w@.len());
            }
            if w.len() == 0 {
                return Some(default);
            }
            proof {
                assert(texts(w@)[0] == w@[0]@);
            }
            match parse_number(w[0].as_str(), u64::MAX) {
                Some(n) => Some(n),
                None => Some(default),
            }
        },
    }
}

/// The total memory and the memory in use, in kilobytes.
pub open spec fn memory_of(text: Seq<char>) -> (nat, nat) {
    let total = last_labelled(lines_of(text), "MemTotal:"@, 1);
    let available = last_labelled(lines_of(text), "MemAvailable:"@, 0);
    (
        total,
        if available <= total {
            (total - available) as nat
        } else {
            0
        },
    )
}

/// Reads the total memory and the memory in use.
pub fn memory_numbers(text: &str) -> (r: (u64, u64))
    ensures
        (r.0 as nat, r.1 as nat) == memory_of(text@),
{
    let list = lines(text);
    let ghost all = texts(list@);
    let mut total: u64 = 1;
    let mut available: u64 = 0;
    let mut i: usize = 0;
    while i < list.len()
        invariant
            i <= list@.len(),
            all == texts(list@),
            total == last_labelled(all.take(i as int), "MemTotal:"@, 1),
            available == last_labelled(all.take(i as int), "MemAvailable:"@, 0),
        decreases list@.len() - i,
    {
        proof {
            assert(all.take(i + 1).drop_last() =~= all.take(i as int));
            assert(all.take(i + 1).last() == list@[i as int]@);
        }
        if let Some(n) = read_labelled(list[i].as_str(), "MemTotal:", 1) {
            total = n;
        }
        if let Some(n) = read_labelled(list[i].as_str(), "MemAvailable:", 0) {
            available = n;
        }
        i += 1;
    }
    proof {
        assert(all.take(all.len() as int) =~= all);
    }
    let used: u64 = if available <= total {
        total - available
    } else {
        0
    };
    (total, used)
}

/// Shows the memory: in megabytes, and how much of it is in use.
pub fn mem_info(total_mb: u64, used_mb: u64, percent: Number) -> (r: Json)
    ensures
        r@ == Tree::object().with("totalMb"@, count(total_mb)).with("usedMb"@, count(used_mb)).with(
            "percent"@,
            Tree::Number(percent),
        ),
{
    Json::object()
        .with("totalMb", Json::unsigned(total_mb))
        .with("usedMb", Json::unsigned(used_mb))
        .with("percent", Json::Number(percent))
}

/// The numbers among words.
pub open spec fn numbers_in(list: Seq<Seq<char>>) -> Seq<nat>
    decreases list.len(),
{
    if list.len() == 0 {
        Seq::empty()
    } else {
        match parsed_number(list.last(), u64::MAX as nat) {
            Some(n) => numbers_in(list.drop_last()).push(n),
            None => numbers_in(list.drop_last()),
        }
    }
}

/// The sum of numbers.
pub open spec fn sum_of(list: Seq<nat>) -> nat
    decreases list.len(),
{
    if list.len() == 0 {
        0
    } else {
        sum_of(list.drop_last()) + list.last()
    }
}

/// A number of a list, or zero where the list is too short.
pub open spec fn number_at(list: Seq<nat>, i: int) -> nat {
    if i < list.len() {
        list[i]
    } else {
        0
    }
}

/// The numbers in the first line, after its first word.
pub open spec fn processor_numbers(text: Seq<char>) -> Seq<nat> {
    let list = lines_of(text);
    let w = words_of(
        if list.len() > 0 {
            list[0]
        } else {
            Seq::empty()
        },
    );
    numbers_in(
        if w.len() > 0 {
            w.skip(1)
        } else {
            w
        },
    )
}

/// How long the processor ran: in all, and idle or waiting.
pub open spec fn processor_of(text: Seq<char>) -> (nat, nat) {
    let nums = processor_numbers(text);
    (sum_of(nums), number_at(nums, 3) + number_at(nums, 4))
}

proof fn lemma_sum_holds(list: Seq<nat>, n: int)
    requires
        0 <= n <= list.len(),
    ensures
        sum_of(list.take(n)) <= sum_of(list),
    decreases list.len() - n,
{
    if n < list.len() {
        assert(list.take(n + 1).drop_last() =~= list.take(n));
        lemma_sum_holds(list, n + 1);
    } else {
        assert(list.take(n) =~= list);
    }
}

/// The idle time is a part of the whole time.
proof fn lemma_idle_within(list: Seq<nat>)
    ensures
        number_at(list, 3) + number_at(list, 4) <= sum_of(list),
{
    if list.len() > 4 {
        let five = list.take(5);
        assert(five.drop_last() =~= list.take(4));
        assert(list.take(4).drop_last() =~= list.take(3));
        assert(five.last() == list[4]);
        assert(list.take(4).last() == list[3]);
        assert(sum_of(list.take(4)) == sum_of(list.take(3)) + list[3]);
        assert(sum_of(five) == sum_of(list.take(4)) + list[4]);
        lemma_sum_holds(list, 5);
    } else if list.len() > 3 {
        assert(list.take(4).drop_last() =~= list.take(3));
        assert(list.take(4).last() == list[3]);
        lemma_sum_holds(list, 4);
    }
}

fn read_numbers(list: &Vec<String>, from: usize) -> (r: Vec<u64>)
    requires
        from <= list@.len(),
    ensures
        r@.map_values(|n: u64| n as nat) == numbers_in(texts(list@).skip(from as int)),
{
    let ghost all = texts(list@).skip(from as int);
    let ghost wide = |n: u64| n as nat;
    let mut out: Vec<u64> = Vec::new();
    let mut i: usize = from;
    proof {
        assert(out@.map_values(wide) =~= numbers_in(all.take(0)));
    }
    while i < list.len()
        invariant
            from <= i <= list@.len(),
            all == texts(list@).skip(from as int),
            wide == (|n: u64| n as nat),
            out@.map_values(wide) == numbers_in(all.take(i - from)),
        decreases list@.len() - i,
    {
        let ghost out0 = out@;
        proof {
            assert(all.take(i - from + 1).drop_last() =~= all.take(i - from));
            assert(all.take(i - from + 1).last() == list@[i as int]@);
        }
        if let Some(n) = parse_number(list[i].as_str(), u64::MAX) {
            out.push(n);
            proof {
                assert(out@.map_values(wide) =~= out0.map_values(wide).push(n as nat));
            }
        }
        i += 1;
    }
    proof {
        assert(all.take(all.len() as int) =~= all);
    }
    out
}

/// Reads how long the processor ran: in all, and idle or waiting. Nothing comes
/// out where the sum is too large.
pub fn cpu_times(text: &str) -> (r: Option<(u64, u64)>)
    ensures
        match r {
            Some((total, idle)) => (total as nat, idle as nat) == processor_of(text@),
            None => processor_of(text@).0 > u64::MAX,
        },
{
    let list = lines(text);
    proof {
        assert(texts(list@).len() == list@.len());
    }
    let w = if list.len() > 0 {
        proof {
            assert(texts(list@)[0] == list@[0]@);
        }
        words(list[0].as_str())
    } else {
        words("")
    };
    proof {
        reveal_strlit("");
        assert(""@ =~= Seq::<char>::empty());
        assert(texts(w@).len() == w@.len());
        assert(texts(w@).skip(0) =~= texts(w@));
    }
    let from: usize = if w.len() > 0 {
        1
    } else {
        0
    };
    let nums = read_numbers(&w, from);
    let ghost all = processor_numbers(text@);
    let ghost wide = |n: u64| n as nat;
    proof {
        assert(nums@.map_values(wide) == all);
        assert(all.len() == nums@.len());
        lemma_idle_within(all);
    }
    let mut total: u64 = 0;
    let mut i: usize = 0;
    while i < nums.len()
        invariant
            i <= nums@.len(),
            wide == (|n: u64| n as nat),
            all == nums@.map_values(wide),
            all == processor_numbers(text@),
            total == sum_of(all.take(i as int)),
        decreases nums@.len() - i,
    {
        proof {
            assert(all.take(i + 1).drop_last() =~= all.take(i as int));
            assert(all.take(i + 1).last() == nums@[i as int] as nat);
            lemma_sum_holds(all, i + 1);
        }
        if total > u64::MAX - nums[i] {
            return None;
        }
        total += nums[i];
        i += 1;
    }
    proof {
        assert(all.take(all.len() as int) =~= all);
        if nums@.len() > 3 {
            assert(all[3] == nums@[3] as nat);
        }
        if nums@.len() > 4 {
            assert(all[4] == nums@[4] as nat);
        }
    }
    let idle: u64 = if nums.len() > 3 {
        nums[3]
    } else {
        0
    };
    let waiting: u64 = if nums.len() > 4 {
        nums[4]
    } else {
        0
    };
    Some((total, idle + waiting))
}

/// The difference of two numbers, or zero.
pub open spec fn less(a: u64, b: u64) -> u64 {
    if b <= a {
        (a - b) as u64
    } else {
        0
    }
}

/// The idle time and the whole time since the last measurement; the latter is
/// at least one.
pub open spec fn processor_change(data: Tree, total: u64, idle: u64) -> (u64, u64) {
    let last = data.at("lastCpu"@);
    let whole = less(total, last.at("total"@).unsigned_or(total));
    (
        less(idle, last.at("idle"@).unsigned_or(idle)),
        if whole < 1 {
            1
        } else {
            whole
        },
    )
}

fn saturating(a: u64, b: u64) -> (r: u64)
    ensures
        r == less(a, b),
{
    if b <= a {
        a - b
    } else {
        0
    }
}

/// Measures the processor: the idle time and the whole time since the last
/// measurement, which this one replaces.
pub fn cpu_change(data: &mut Json, total: u64, idle: u64) -> (r: (u64, u64))
    ensures
        r == processor_change(old(data)@, total, idle),
        r.1 >= 1,
        final(data)@ == old(data)@.as_object().with(
            "lastCpu"@,
            Tree::object().with("total"@, count(total)).with("idle"@, count(idle)),
        ),
{
    let last = data.copy_at("lastCpu");
    let whole: u64 = saturating(total, last.unsigned_at("total", total));
    let rest: u64 = saturating(idle, last.unsigned_at("idle", idle));
    data.make_object();
    data.set(
        "lastCpu",
        Json::object().with("total", Json::unsigned(total)).with("idle", Json::unsigned(idle)),
    );
    let diff: u64 = if whole < 1 {
        1
    } else {
        whole
    };
    (rest, diff)
}

/// The fields of the second line that hold the size of the disk and what is in
/// use.
pub open spec fn disk_fields_of(text: Seq<char>) -> (Option<Seq<char>>, Option<Seq<char>>) {
    let list = lines_of(text);
    let w = if list.len() > 1 {
        words_of(list[1])
    } else {
        Seq::empty()
    };
    (
        if w.len() > 1 {
            Some(w[1])
        } else {
            None
        },
        if w.len() > 2 {
            Some(w[2])
        } else {
            None
        },
    )
}

/// Reads the fields that hold the size of the disk and what is in use.
pub fn disk_fields(text: &str) -> (r: (Option<String>, Option<String>))
    ensures
        (opt_text(r.0), opt_text(r.1)) == disk_fields_of(text@),
{
    let list = lines(text);
    proof {
        assert(texts(list@).len() == list@.len());
    }
    if list.len() < 2 {
        return (None, None);
    }
    proof {
        assert(texts(list@)[1] == list@[1]@);
    }
    let w = words(list[1].as_str());
    proof {
        assert(texts(w@).len() == w@.len());
        if w@.len() > 1 {
            assert(texts(w@)[1] == w@[1]@);
        }
        if w@.len() > 2 {
            assert(texts(w@)[2] == w@[2]@);
        }
    }
    let total = if w.len() > 1 {
        Some(w[1].clone())
    } else {
        None
    };
    let used = if w.len() > 2 {
        Some(w[2].clone())
    } else {
        None
    };
    (total, used)
}

/// Shows the disk: in gigabytes, and how much of it is in use.
pub fn disk_info(total_gb: Number, used_gb: Number, percent: Number) -> (r: Json)
    ensures
        r@ == Tree::object().with("totalGb"@, Tree::Number(total_gb)).with("usedGb"@, Tree::Number(used_gb)).with(
            "percent"@,
            Tree::Number(percent),
        ),
{
    Json::object()
        .with("totalGb", Json::Number(total_gb))
        .with("usedGb", Json::Number(used_gb))
        .with("percent", Json::Number(percent))
}

/// How many measurements are kept.
pub const HISTORY_KEPT: usize = 48;

/// A measurement.
pub open spec fn metrics_of(at: u64, cpu: Number, memory: Tree, disk: Tree) -> Tree {
    Tree::object().with("at"@, count(at)).with("cpu"@, Tree::Number(cpu)).with("memory"@, memory).with(
        "disk"@,
        disk,
    )
}

/// The row that keeps a measurement.
pub open spec fn history_row(at: u64, cpu: Number, memory: Tree, disk: Tree) -> Tree {
    Tree::object().with("at"@, count(at)).with("cpu"@, Tree::Number(cpu)).with(
        "memory"@,
        memory.at("percent"@),
    ).with("disk"@, disk.at("percent"@))
}

/// The last items of a list.
pub open spec fn last_items(list: Seq<Tree>, n: int) -> Seq<Tree> {
    if list.len() > n {
        list.skip(list.len() - n)
    } else {
        list
    }
}

fn keep_last(list: Vec<Json>, n: usize) -> (r: Vec<Json>)
    ensures
        trees(r@) == last_items(trees(list@), n as int),
{
    if list.len() <= n {
        return list;
    }
    let start: usize = list.len() - n;
    let mut out: Vec<Json> = Vec::new();
    let mut i: usize = start;
    while i < list.len()
        invariant
            start <= i <= list@.len(),
            out@.len() == i - start,
            forall|j: int| 0 <= j < out@.len() ==> (#[trigger] out@[j])@ == list@[start + j]@,
        decreases list@.len() - i,
    {
        out.push(list[i].copy());
        i += 1;
    }
    proof {
        assert(trees(out@) =~= trees(list@).skip(start as int));
    }
    out
}

/// A state in which a measurement is kept.
pub open spec fn with_metrics(data: Tree, at: u64, cpu: Number, memory: Tree, disk: Tree) -> Tree {
    data.as_object().with(
        "metricsHistory"@,
        Tree::Array(
            last_items(
                data.at("metricsHistory"@).items().push(history_row(at, cpu, memory, disk)),
                HISTORY_KEPT as int,
            ),
        ),
    )
}

/// Makes a measurement, and keeps it in a state.
pub fn vm_metrics(data: &mut Json, at: u64, cpu: Number, memory: Json, disk: Json) -> (r: Json)
    ensures
        r@ == metrics_of(at, cpu, memory@, disk@),
        final(data)@ == with_metrics(old(data)@, at, cpu, memory@, disk@),
{
    let mut history = data.items_at("metricsHistory");
    let ghost before = trees(history@);
    let row = Json::object()
        .with("at", Json::unsigned(at))
        .with("cpu", Json::Number(cpu))
        .with("memory", memory.copy_at("percent"))
        .with("disk", disk.copy_at("percent"));
    history.push(row);
    proof {
        assert(trees(history@) =~= before.push(row@));
    }
    data.make_object();
    data.set("metricsHistory", Json::array(keep_last(history, HISTORY_KEPT)));
    Json::object()
        .with("at", Json::unsigned(at))
        .with("cpu", Json::Number(cpu))
        .with("memory", memory)
        .with("disk", disk)
}

// ---------------------------------------------------------------------------
// The mail queue
// ---------------------------------------------------------------------------

/// Whether a character is a hexadecimal digit.
pub open spec fn is_hex(c: char) -> bool {
    ('0' <= c && c <= '9') || ('a' <= c && c <= 'f') || ('A' <= c && c <= 'F')
}

/// The kind of lines that start with a hexadecimal digit: those of messages.
pub open spec fn of_message() -> spec_fn(Seq<char>) -> bool {
    |l: Seq<char>| l.len() > 0 && is_hex(l[0])
}

/// What the mail queue holds.
pub open spec fn queue_of(text: Seq<char>) -> Tree {
    let t = trimmed(text);
    if t.len() == 0 || has_text(t, "Mail queue is empty"@) {
        Tree::object().with("count"@, count(0)).with("summary"@, Tree::Text("Mail queue is empty"@))
    } else {
        let list = lines_of(t);
        Tree::object().with("count"@, count(list.filter(of_message()).len() as u64)).with(
            "summary"@,
            Tree::Text(
                if list.len() > 0 {
                    list.last()
                } else {
                    "Queue has messages"@
                },
            ),
        )
    }
}

fn message_count(list: &Vec<String>) -> (r: u64)
    ensures
        r == texts(list@).filter(of_message()).len(),
{
    let ghost all = texts(list@);
    let ghost kind = of_message();
    let mut n: u64 = 0;
    let mut i: usize = 0;
    proof {
        reveal(Seq::filter);
        assert(all.take(0).filter(kind).len() == 0);
    }
    while i < list.len()
        invariant
            i <= list@.len(),
            all == texts(list@),
            kind == of_message(),
            n == all.take(i as int).filter(kind).len(),
            n <= i,
        decreases list@.len() - i,
    {
        proof {
            reveal(Seq::filter);
            assert(all.take(i + 1).drop_last() =~= all.take(i as int));
            assert(all.take(i + 1).last() == list@[i as int]@);
        }
        let v = chars_of(list[i].as_str());
        if v.len() > 0 && ((v[0] >= '0' && v[0] <= '9') || (v[0] >= 'a' && v[0] <= 'f') || (v[0] >= 'A'
            && v[0] <= 'F')) {
            n += 1;
        }
        i += 1;
    }
    proof {
        assert(all.take(all.len() as int) =~= all);
    }
    n
}

/// Shows what the mail queue holds.
pub fn mail_queue(text: &str) -> (r: Json)
    ensures
        r@ == queue_of(text@),
{
    let t = trim(text);
    if t.as_str().is_empty() || contains(t.as_str(), "Mail queue is empty") {
        return Json::object()
            .with("count", Json::unsigned(0))
            .with("summary", Json::text("Mail queue is empty"));
    }
    let list = lines(t.as_str());
    proof {
        assert(texts(list@).len() == list@.len());
    }
    let n: u64 = message_count(&list);
    let summary = if list.len() > 0 {
        proof {
            assert(texts(list@).last() == list@.last()@);
        }
        list[list.len() - 1].clone()
    } else {
        "Queue has messages".to_owned()
    };
    Json::object().with("count", Json::unsigned(n)).with("summary", Json::text(summary.as_str()))
}

// ---------------------------------------------------------------------------
// Delivery errors
// ---------------------------------------------------------------------------

/// How many bytes of a line are shown.
pub const ERROR_BYTES: usize = 240;

/// How many errors are shown.
pub const ERRORS_SHOWN: usize = 12;

/// The end of a line that is shown: the longest that is no larger than that many
/// bytes in UTF-8.
pub open spec fn tail_of(line: Seq<char>, bytes: nat) -> Seq<char> {
    tail_from(line, bytes, 0)
}

/// The longest end of a line, from some character on, that is no larger than
/// that many bytes in UTF-8.
pub open spec fn tail_from(line: Seq<char>, bytes: nat, from: int) -> Seq<char>
    decreases line.len() - from,
{
    if from >= line.len() || encode_utf8(line.skip(from)).len() <= bytes {
        line.skip(from)
    } else {
        tail_from(line, bytes, from + 1)
    }
}

fn utf8_width(c: char) -> (r: usize)
    ensures
        r == vstd::utf8::encode_scalar(c as u32).len(),
        1 <= r <= 4,
{
    let n: u32 = c as u32;
    if n <= 0x7f {
        1
    } else if n <= 0x7ff {
        2
    } else if n <= 0xffff {
        3
    } else {
        4
    }
}

/// Finds the end of a line that is shown.
pub fn line_tail(line: &str) -> (r: String)
    ensures
        r@ == tail_of(line@, ERROR_BYTES as nat),
{
    let v = chars_of(line);
    let total: usize = v.len();
    let mut size: usize = line.as_bytes().len();
    let mut i: usize = 0;
    proof {
        assert(line@.skip(0) =~= line@);
    }
    while i < total && size > ERROR_BYTES
        invariant
            i <= total,
            total == v@.len(),
            v@ == line@,
            size == encode_utf8(line@.skip(i as int)).len(),
            tail_of(line@, ERROR_BYTES as nat) == tail_from(line@, ERROR_BYTES as nat, i as int),
        decreases total - i,
    {
        let w: usize = utf8_width(v[i]);
        proof {
            let rest = line@.skip(i as int);
            assert(rest.drop_first() =~= line@.skip(i + 1));
            assert(rest[0] == v@[i as int]);
            assert(encode_utf8(rest) == vstd::utf8::encode_scalar(rest[0] as u32) + encode_utf8(
                rest.drop_first(),
            ));
        }
        size -= w;
        i += 1;
    }
    proof {
        assert(v@.subrange(i as int, total as int) =~= line@.skip(i as int));
    }
    text_of(&v, i, total)
}

/// The shown end of a line ends the line and is no larger than it may be, and
/// the line has no longer end of which that is true.
pub proof fn law_tail_is_longest(line: Seq<char>, bytes: nat)
    ensures
        ({
            let n = line.len() - tail_of(line, bytes).len();
            &&& 0 <= n
            &&& tail_of(line, bytes) == line.skip(n)
            &&& encode_utf8(tail_of(line, bytes)).len() <= bytes
            &&& forall|i: int| 0 <= i < n ==> encode_utf8(#[trigger] line.skip(i)).len() > bytes
        }),
{
    lemma_tail_from(line, bytes, 0);
}

proof fn lemma_tail_from(line: Seq<char>, bytes: nat, from: int)
    requires
        0 <= from <= line.len(),
    ensures
        ({
            let t = tail_from(line, bytes, from);
            let n = line.len() - t.len();
            &&& from <= n
            &&& t == line.skip(n)
            &&& encode_utf8(t).len() <= bytes
            &&& forall|i: int| from <= i < n ==> encode_utf8(#[trigger] line.skip(i)).len() > bytes
        }),
    decreases line.len() - from,
{
    if from >= line.len() {
        assert(line.skip(from).len() == 0);
        assert(encode_utf8(line.skip(from)).len() == 0);
    } else if encode_utf8(line.skip(from)).len() > bytes {
        lemma_tail_from(line, bytes, from + 1);
    }
}

/// The kind of lines that report trouble.
pub open spec fn troubled() -> spec_fn(Seq<char>) -> bool {
    |l: Seq<char>| regex_match(TROUBLE_PATTERN@, l)
}

/// Lists the lines of a log that report trouble.
pub fn trouble_lines(text: &str) -> (r: Vec<String>)
    ensures
        texts(r@) == lines_of(text@).filter(troubled()),
{
    let list = lines(text);
    let ghost all = texts(list@);
    let mut out: Vec<String> = Vec::new();
    let mut i: usize = 0;
    proof {
        reveal(Seq::filter);
        assert(texts(out@) =~= all.take(0).filter(troubled()));
    }
    while i < list.len()
        invariant
            i <= list@.len(),
            all == texts(list@),
            texts(out@) == all.take(i as int).filter(troubled()),
        decreases list@.len() - i,
    {
        let ghost out0 = out@;
        proof {
            reveal(Seq::filter);
            assert(all.take(i + 1).drop_last() =~= all.take(i as int));
            assert(all.take(i + 1).last() == list@[i as int]@);
        }
        if regex_is_match(TROUBLE_PATTERN, list[i].as_str()) {
            out.push(list[i].clone());
            proof {
                assert(texts(out@) =~= texts(out0).push(list@[i as int]@));
            }
        }
        i += 1;
    }
    proof {
        assert(all.take(all.len() as int) =~= all);
    }
    out
}

/// A line as it is shown.
pub open spec fn tail_row() -> spec_fn(Seq<char>) -> Tree {
    |l: Seq<char>| Tree::Text(tail_of(l, ERROR_BYTES as nat))
}

/// The last errors of a list, as they are shown.
pub open spec fn errors_shown(list: Seq<Seq<char>>) -> Tree {
    Tree::Array(last_items(list.map_values(tail_row()), ERRORS_SHOWN as int))
}

/// Shows the last errors of a list.
pub fn show_errors(list: &Vec<String>) -> (r: Json)
    ensures
        r@ == errors_shown(texts(list@)),
{
    let ghost all = texts(list@);
    let mut rows: Vec<Json> = Vec::new();
    let mut i: usize = 0;
    while i < list.len()
        invariant
            i <= list@.len(),
            all == texts(list@),
            rows@.len() == i,
            forall|j: int| 0 <= j < i ==> (#[trigger] rows@[j])@ == tail_row()(all[j]),
        decreases list@.len() - i,
    {
        proof {
            assert(all[i as int] == list@[i as int]@);
        }
        rows.push(Json::text(line_tail(list[i].as_str()).as_str()));
        i += 1;
    }
    proof {
        assert(trees(rows@) =~= all.map_values(tail_row()));
    }
    Json::array(keep_last(rows, ERRORS_SHOWN))
}

/// Shows the last errors in a log.
pub fn delivery_errors(text: &str) -> (r: Json)
    ensures
        r@ == errors_shown(lines_of(text@).filter(troubled())),
{
    show_errors(&trouble_lines(text))
}

// ---------------------------------------------------------------------------
// Processes
// ---------------------------------------------------------------------------

/// A process, as a line of the list of processes shows it.
#[derive(Debug, PartialEq, Eq)]
pub struct Process {
    pub pid: u32,
    pub user: String,
    /// The share of the processor, as it is written.
    pub cpu: String,
    /// The share of the memory, as it is written.
    pub mem: String,
    pub vsz: u64,
    pub rss: u64,
    pub command: String,
}

/// A process, as a line of the list of processes shows it.
pub ghost struct ProcessTree {
    pub pid: nat,
    pub user: Seq<char>,
    pub cpu: Seq<char>,
    pub mem: Seq<char>,
    pub vsz: nat,
    pub rss: nat,
    pub command: Seq<char>,
}

impl View for Process {
    type V = ProcessTree;

    open spec fn view(&self) -> ProcessTree {
        ProcessTree {
            pid: self.pid as nat,
            user: self.user@,
            cpu: self.cpu@,
            mem: self.mem@,
            vsz: self.vsz as nat,
            rss: self.rss as nat,
            command: self.command@,
        }
    }
}

/// The fields of a text: runs of other characters than white space, with white
/// space between them, and the rest as the last field.
pub open spec fn fields_of(s: Seq<char>, n: nat) -> Seq<Seq<char>>
    decreases n,
{
    let t = without_start(s, blank());
    if t.len() == 0 {
        Seq::empty()
    } else if n <= 1 {
        seq![t]
    } else {
        match parted(t, blank()) {
            Some((first, rest)) => seq![first] + fields_of(rest, (n - 1) as nat),
            None => seq![t],
        }
    }
}

/// The fields of a line of the list of processes.
pub const PROCESS_FIELDS: usize = 11;

/// How much of a command is shown.
pub const COMMAND_LENGTH: usize = 120;

/// How many processes are shown.
pub const PROCESSES_SHOWN: usize = 15;

/// A number, or zero where there is none.
pub open spec fn or_zero(n: Option<nat>) -> nat {
    match n {
        Some(v) => v,
        None => 0,
    }
}

/// The process that a line shows, where it has all fields.
pub open spec fn process_in(line: Seq<char>) -> Option<ProcessTree> {
    let parts = fields_of(line, PROCESS_FIELDS as nat);
    if parts.len() < PROCESS_FIELDS {
        None
    } else {
        Some(
            ProcessTree {
                pid: or_zero(parsed_number(parts[1], u32::MAX as nat)),
                user: parts[0],
                cpu: parts[2],
                mem: parts[3],
                vsz: or_zero(parsed_number(parts[4], u64::MAX as nat)),
                rss: or_zero(parsed_number(parts[5], u64::MAX as nat)),
                command: first_chars(parts[10], COMMAND_LENGTH as int),
            },
        )
    }
}

/// The processes that lines show.
pub open spec fn processes_in(list: Seq<Seq<char>>) -> Seq<ProcessTree>
    decreases list.len(),
{
    if list.len() == 0 {
        Seq::empty()
    } else {
        match process_in(list.last()) {
            Some(p) => processes_in(list.drop_last()).push(p),
            None => processes_in(list.drop_last()),
        }
    }
}

/// The lines after the first, as many as are shown.
pub open spec fn process_lines(list: Seq<Seq<char>>) -> Seq<Seq<char>> {
    let rest = if list.len() > 0 {
        list.skip(1)
    } else {
        list
    };
    if rest.len() > PROCESSES_SHOWN {
        rest.take(PROCESSES_SHOWN as int)
    } else {
        rest
    }
}

/// What processes are.
pub open spec fn process_trees(list: Seq<Process>) -> Seq<ProcessTree> {
    list.map_values(|p: Process| p@)
}

fn split_fields(s: &str, n: usize) -> (r: Vec<String>)
    ensures
        texts(r@) == fields_of(s@, n as nat),
    decreases n,
{
    let t = trim_start(s);
    let mut out: Vec<String> = Vec::new();
    if t.as_str().is_empty() {
        proof {
            assert(texts(out@) =~= Seq::empty());
        }
        return out;
    }
    if n > 1 {
        if let Some((first, rest)) = split_once_blank(t.as_str()) {
            let mut more = split_fields(rest.as_str(), n - 1);
            let ghost tail = texts(more@);
            out.push(first);
            out.append(&mut more);
            proof {
                assert(texts(out@) =~= seq![first@] + tail);
            }
            return out;
        }
    }
    out.push(t);
    proof {
        assert(texts(out@) =~= seq![t@]);
    }
    out
}

fn number_or_zero(s: &str, limit: u64) -> (r: u64)
    ensures
        r == or_zero(parsed_number(s@, limit as nat)),
        r <= limit,
{
    match parse_number(s, limit) {
        Some(n) => n,
        None => 0,
    }
}

fn read_process(line: &str) -> (r: Option<Process>)
    ensures
        match r {
            Some(p) => process_in(line@) == Some(p@),
            None => process_in(line@) is None,
        },
{
    let parts = split_fields(line, PROCESS_FIELDS);
    let ghost ps = texts(parts@);
    proof {
        assert(ps.len() == parts@.len());
    }
    if parts.len() < PROCESS_FIELDS {
        return None;
    }
    proof {
        assert forall|i: int| 0 <= i < parts@.len() implies ps[i] == (#[trigger] parts@[i])@ by {
        }
    }
    Some(
        Process {
            pid: number_or_zero(parts[1].as_str(), u32::MAX as u64) as u32,
            user: parts[0].clone(),
            cpu: parts[2].clone(),
            mem: parts[3].clone(),
            vsz: number_or_zero(parts[4].as_str(), u64::MAX),
            rss: number_or_zero(parts[5].as_str(), u64::MAX),
            command: take_chars(parts[10].as_str(), COMMAND_LENGTH),
        },
    )
}

/// Reads the processes that are shown.
pub fn top_processes(text: &str) -> (r: Vec<Process>)
    ensures
        process_trees(r@) == processes_in(process_lines(lines_of(text@))),
{
    let list = lines(text);
    let ghost whole = texts(list@);
    let ghost shown = process_lines(whole);
    let mut out: Vec<Process> = Vec::new();
    let mut i: usize = 1;
    proof {
        assert(process_trees(out@) =~= processes_in(shown.take(0)));
        assert(whole.len() == list@.len());
    }
    while i < list.len() && i <= PROCESSES_SHOWN
        invariant
            1 <= i,
            i <= list@.len() || list@.len() == 0,
            list@.len() == 0 ==> i == 1,
            i <= PROCESSES_SHOWN + 1,
            whole == texts(list@),
            shown == process_lines(whole),
            process_trees(out@) == processes_in(shown.take(i - 1)),
        decreases list@.len() - i,
    {
        let ghost out0 = out@;
        proof {
            assert(shown.take(i as int).drop_last() =~= shown.take(i - 1));
            assert(shown.take(i as int).last() == whole[i as int]);
            assert(whole[i as int] == list@[i as int]@);
        }
        if let Some(p) = read_process(list[i].as_str()) {
            out.push(p);
            proof {
                assert(process_trees(out@) =~= process_trees(out0).push(p@));
            }
        }
        i += 1;
    }
    proof {
        assert(shown.take(i - 1) =~= shown);
    }
    out
}

/// Shows a process, given its shares as numbers.
pub fn process_row(p: &Process, cpu: Number, mem: Number) -> (r: Json)
    ensures
        r@ == Tree::object().with("pid"@, count(p.pid as u64)).with("user"@, Tree::Text(p.user@)).with(
            "cpu"@,
            Tree::Number(cpu),
        ).with("mem"@, Tree::Number(mem)).with("vsz"@, count(p.vsz)).with("rss"@, count(p.rss)).with(
            "command"@,
            Tree::Text(p.command@),
        ),
{
    Json::object()
        .with("pid", Json::unsigned(p.pid as u64))
        .with("user", Json::text(p.user.as_str()))
        .with("cpu", Json::Number(cpu))
        .with("mem", Json::Number(mem))
        .with("vsz", Json::unsigned(p.vsz))
        .with("rss", Json::unsigned(p.rss))
        .with("command", Json::text(p.command.as_str()))
}

// ---------------------------------------------------------------------------
// The whole state
// ---------------------------------------------------------------------------

/// What is found out about the machine for its whole state.
#[derive(Debug, PartialEq, Eq)]
pub struct Findings {
    /// When the processor, memory and disk were measured.
    pub measured_at: u64,
    pub services: Json,
    pub cpu: Number,
    pub memory: Json,
    pub disk: Json,
    pub users: Vec<Json>,
    pub aliases: Json,
    pub queue: Json,
    pub errors: Json,
    pub health: Json,
}

/// A state with what was found out put into it, before the policy is
/// summarised.
pub open spec fn status_before(data: Tree, f: Findings) -> Tree {
    with_metrics(data.with("services"@, f.services@), f.measured_at, f.cpu, f.memory@, f.disk@).with(
        "metrics"@,
        metrics_of(f.measured_at, f.cpu, f.memory@, f.disk@),
    ).with("users"@, Tree::Array(trees(f.users@))).with("aliases"@, f.aliases@).with("queue"@, f.queue@).with(
        "deliveryErrors"@,
        f.errors@,
    ).with("dnsHealth"@, f.health@)
}

/// A state with what was found out put into it.
pub open spec fn status_of(data: Tree, f: Findings, counts: Seq<SpamCount>, at: u64) -> Tree {
    let before = status_before(data, f);
    with_policy(before).with("antiSpam"@, spam_summary_of(before, counts)).with("generatedAt"@, count(at))
}

/// Puts what was found out about the machine into a state.
pub fn build_status(data: &mut Json, f: Findings, counts: &Vec<SpamCount>, at: u64)
    requires
        old(data)@.settable(),
        total_spam(counts@) <= u64::MAX,
    ensures
        final(data)@ == status_of(old(data)@, f, counts@, at),
{
    data.set("services", f.services);
    let metrics = vm_metrics(data, f.measured_at, f.cpu, f.memory, f.disk);
    data.set("metrics", metrics);
    data.set("users", Json::array(f.users));
    data.set("aliases", f.aliases);
    data.set("queue", f.queue);
    data.set("deliveryErrors", f.errors);
    data.set("dnsHealth", f.health);
    let summary = spam_summary(data, counts);
    data.set("antiSpam", summary);
    data.set("generatedAt", Json::unsigned(at));
}

/// Answers with a measurement, the services and the processes.
pub fn metrics(measured: Json, running: Json, processes: Vec<Json>, at: u64) -> (r: Json)
    ensures
        r@ == Tree::object().with("metrics"@, measured@).with("services"@, running@).with(
            "processes"@,
            Tree::Array(trees(processes@)),
        ).with("at"@, count(at)),
{
    Json::object()
        .with("metrics", measured)
        .with("services", running)
        .with("processes", Json::array(processes))
        .with("at", Json::unsigned(at))
}

/// A value that is kept for a while.
pub struct Slot {
    entry: Option<(u64, Json)>,
}

impl Slot {
    /// The value that is kept, and since when.
    pub closed spec fn held(self) -> Option<(u64, Tree)> {
        match self.entry {
            Some((at, j)) => Some((at, j@)),
            None => None,
        }
    }

    /// Nothing is kept.
    pub fn new() -> (r: Slot)
        ensures
            r.held() is None,
    {
        Slot { entry: None }
    }

    /// The value that is kept, unless it has been kept for too long.
    pub fn cached(&self, now: u64, ttl: u64) -> (r: Option<Json>)
        ensures
            match r {
                Some(j) => self.held() matches Some((at, t)) && j@ == t && crate::limit::age(now, at) < ttl,
                None => self.held() matches Some((at, t)) ==> crate::limit::age(now, at) >= ttl,
            },
    {
        match &self.entry {
            Some((at, j)) => {
                let age: u64 = if *at <= now {
                    now - *at
                } else {
                    0
                };
                if age < ttl {
                    Some(j.copy())
                } else {
                    None
                }
            },
            None => None,
        }
    }

    /// Keeps a value from now on.
    pub fn put(&mut self, now: u64, value: Json)
        ensures
            final(self).held() == Some((now, value@)),
    {
        self.entry = Some((now, value));
    }

    /// Keeps nothing any more.
    pub fn clear(&mut self)
        ensures
            final(self).held() is None,
    {
        self.entry = None;
    }
}

} // verus!
