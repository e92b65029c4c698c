//! What is read and shown of the machine.
use crate::antispam::{total_spam, SpamCount};
use crate::json::{trees, Number, Tree};
use crate::outside::regex_match;
use crate::spam::{count, policy_of};
use crate::system::{
    disk_fields_of, errors_shown, fields_of, history_row, labelled, last_items, last_labelled, memory_of,
    metrics_of, numbers_in, of_message, process_in, process_lines, processes_in, processor_change,
    processor_numbers, processor_of, queue_of, service_names, services_of, status_of, sum_of, tail_of,
    troubled, with_metrics, Findings, ProcessTree,
};
use crate::text::{
    blank, first_at, first_chars, has_text, lemma_first_at, lemma_run_end, lines_of, parsed_number, parted,
    run_end, trimmed, white_space, without_start, words_of,
};
use vstd::prelude::*;

verus! {

// ---------------------------------------------------------------------------
// Services
// ---------------------------------------------------------------------------

proof fn lemma_services(statuses: Seq<Seq<char>>, n: nat, i: int)
    requires
        n <= 6,
        0 <= i < n,
    ensures
        services_of(statuses, n).at(service_names()[i]) == Tree::Text(trimmed(statuses[i])),
    decreases n,
{
    reveal_strlit("postfix");
    reveal_strlit("dovecot");
    reveal_strlit("opendkim");
    reveal_strlit("nginx");
    reveal_strlit("akurai-mail-ui");
    reveal_strlit("fail2ban");
    assert("postfix"@[0] == 'p' && "dovecot"@[0] == 'd' && "opendkim"@[0] == 'o' && "nginx"@[0] == 'n'
        && "akurai-mail-ui"@[0] == 'a' && "fail2ban"@[0] == 'f');
    if i < n - 1 {
        lemma_services(statuses, (n - 1) as nat, i);
    }
}

/// Every service is shown under its name with what was said of it, without the
/// white space around that.
pub proof fn law_services_are_shown(statuses: Seq<Seq<char>>)
    requires
        statuses.len() == 6,
    ensures
        service_names().len() == 6,
        services_of(statuses, 6).at("postfix"@) == Tree::Text(trimmed(statuses[0])),
        services_of(statuses, 6).at("dovecot"@) == Tree::Text(trimmed(statuses[1])),
        services_of(statuses, 6).at("opendkim"@) == Tree::Text(trimmed(statuses[2])),
        services_of(statuses, 6).at("nginx"@) == Tree::Text(trimmed(statuses[3])),
        services_of(statuses, 6).at("akurai-mail-ui"@) == Tree::Text(trimmed(statuses[4])),
        services_of(statuses, 6).at("fail2ban"@) == Tree::Text(trimmed(statuses[5])),
{
    lemma_services(statuses, 6, 0);
    lemma_services(statuses, 6, 1);
    lemma_services(statuses, 6, 2);
    lemma_services(statuses, 6, 3);
    lemma_services(statuses, 6, 4);
    lemma_services(statuses, 6, 5);
}

// ---------------------------------------------------------------------------
// Memory, processor and disk
// ---------------------------------------------------------------------------

/// A line that starts with a label gives the number in the first word behind it;
/// other lines give nothing.
pub proof fn law_labelled_line_gives_its_number(label: Seq<char>, rest: Seq<char>, line: Seq<char>, default: nat)
    ensures
        words_of(rest).len() > 0 ==> (parsed_number(words_of(rest)[0], u64::MAX as nat) matches Some(n)
            ==> labelled(label + rest, label, default) == Some(n)),
        words_of(rest).len() == 0 ==> labelled(label + rest, label, default) == Some(default),
        words_of(rest).len() > 0 && parsed_number(words_of(rest)[0], u64::MAX as nat) is None ==> labelled(
            label + rest,
            label,
            default,
        ) == Some(default),
        !label.is_prefix_of(line) ==> labelled(line, label, default) is None,
{
    let all = label + rest;
    assert(all.subrange(0, label.len() as int) =~= label);
    assert(label.is_prefix_of(all));
    assert(all.skip(label.len() as int) =~= rest);
}

/// The memory in use is what is left of all memory without what is available;
/// of two lines with the same label the later one counts.
pub proof fn law_memory_in_use_is_not_available(text: Seq<char>, list: Seq<Seq<char>>, line: Seq<char>, label: Seq<char>, n: nat, default: nat)
    ensures
        ({
            let total = last_labelled(lines_of(text), "MemTotal:"@, 1);
            let available = last_labelled(lines_of(text), "MemAvailable:"@, 0);
            &&& memory_of(text).0 == total
            &&& available <= total ==> memory_of(text).1 + available == total
            &&& available > total ==> memory_of(text).1 == 0
        }),
        last_labelled(Seq::empty(), label, default) == default,
        labelled(line, label, default) == Some(n) ==> last_labelled(list.push(line), label, default) == n,
        labelled(line, label, default) is None ==> last_labelled(list.push(line), label, default)
            == last_labelled(list, label, default),
{
    assert(list.push(line).drop_last() =~= list);
}

/// The numbers among words are all that are numbers, in their order, and their
/// sum adds them all.
pub proof fn law_numbers_are_read_and_added(list: Seq<Seq<char>>, word: Seq<char>, nums: Seq<nat>, n: nat)
    ensures
        numbers_in(Seq::empty()) == Seq::<nat>::empty(),
        parsed_number(word, u64::MAX as nat) matches Some(v) ==> numbers_in(list.push(word)) == numbers_in(
            list,
        ).push(v),
        parsed_number(word, u64::MAX as nat) is None ==> numbers_in(list.push(word)) == numbers_in(list),
        sum_of(Seq::empty()) == 0,
        sum_of(nums.push(n)) == sum_of(nums) + n,
{
    assert(list.push(word).drop_last() =~= list);
    assert(nums.push(n).drop_last() =~= nums);
}

/// The processor ran for the sum of the numbers in the first line, and was idle
/// for the fourth and the fifth of them; its first word is its name.
pub proof fn law_processor_is_read_from_the_first_line(text: Seq<char>, name: Seq<char>, words: Seq<Seq<char>>)
    requires
        lines_of(text).len() > 0,
        words_of(lines_of(text)[0]) == seq![name] + words,
    ensures
        processor_numbers(text) == numbers_in(words),
        processor_of(text).0 == sum_of(numbers_in(words)),
        numbers_in(words).len() > 4 ==> processor_of(text).1 == numbers_in(words)[3] + numbers_in(words)[4],
        numbers_in(words).len() == 4 ==> processor_of(text).1 == numbers_in(words)[3],
        numbers_in(words).len() < 4 ==> processor_of(text).1 == 0,
{
    assert((seq![name] + words).skip(1) =~= words);
}

/// The processor is measured from the last measurement on: by how much its idle
/// time and its whole time grew. Without one, nothing has passed; the whole time
/// is at least one.
pub proof fn law_processor_is_measured_since_last_time(
    data: Tree,
    last_total: u64,
    last_idle: u64,
    total: u64,
    idle: u64,
)
    requires
        last_total <= total,
        last_idle <= idle,
    ensures
        data.at("lastCpu"@).at("total"@) == count(last_total) && data.at("lastCpu"@).at("idle"@) == count(
            last_idle,
        ) ==> {
            &&& processor_change(data, total, idle).0 == idle - last_idle
            &&& last_total < total ==> processor_change(data, total, idle).1 == total - last_total
            &&& last_total == total ==> processor_change(data, total, idle).1 == 1
        },
        data.at("lastCpu"@).at("total"@) == Tree::Null && data.at("lastCpu"@).at("idle"@) == Tree::Null
            ==> processor_change(data, total, idle) == (0u64, 1u64),
        data.at("lastCpu"@).at("total"@).unsigned_or(total) > total ==> processor_change(data, total, idle).1
            == 1,
        data.at("lastCpu"@).at("idle"@).unsigned_or(idle) > idle ==> processor_change(data, total, idle).0 == 0,
{
}

/// The size of the disk and what is in use stand in the second and the third
/// word of the second line.
pub proof fn law_disk_is_read_from_the_second_line(text: Seq<char>)
    ensures
        ({
            let list = lines_of(text);
            let words = words_of(list[1]);
            &&& list.len() > 1 && words.len() > 1 ==> disk_fields_of(text).0 == Some(words[1])
            &&& list.len() > 1 && words.len() > 2 ==> disk_fields_of(text).1 == Some(words[2])
            &&& list.len() > 1 && words.len() <= 1 ==> disk_fields_of(text).0 is None
            &&& list.len() > 1 && words.len() <= 2 ==> disk_fields_of(text).1 is None
            &&& list.len() <= 1 ==> disk_fields_of(text) == (None::<Seq<char>>, None::<Seq<char>>)
        }),
{
}

proof fn lemma_metrics_keys()
    ensures
        "at"@.len() == 2,
        "cpu"@.len() == 3,
        "memory"@.len() == 6,
        "disk"@.len() == 4,
{
    reveal_strlit("at");
    reveal_strlit("cpu");
    reveal_strlit("memory");
    reveal_strlit("disk");
}

/// A measurement holds its time, the processor, the memory and the disk; it is
/// kept as the last of a list, with the shares in use, and the list holds the
/// last forty-eight.
pub proof fn law_measurements_are_kept(data: Tree, at: u64, cpu: Number, memory: Tree, disk: Tree, other: Seq<char>)
    ensures
        metrics_of(at, cpu, memory, disk).at("at"@) == count(at),
        metrics_of(at, cpu, memory, disk).at("cpu"@) == Tree::Number(cpu),
        metrics_of(at, cpu, memory, disk).at("memory"@) == memory,
        metrics_of(at, cpu, memory, disk).at("disk"@) == disk,
        ({
            let held = data.at("metricsHistory"@).items();
            let now = with_metrics(data, at, cpu, memory, disk);
            let rows = now.at("metricsHistory"@).items();
            &&& rows.len() > 0
            &&& rows.last().at("at"@) == count(at)
            &&& rows.last().at("cpu"@) == Tree::Number(cpu)
            &&& rows.last().at("memory"@) == memory.at("percent"@)
            &&& rows.last().at("disk"@) == disk.at("percent"@)
            &&& held.len() < 48 ==> rows.drop_last() == held
            &&& held.len() >= 48 ==> rows.len() == 48 && rows.drop_last() == held.skip(held.len() - 47)
            &&& data is Object && other != "metricsHistory"@ ==> now.get(other) == data.get(other)
        }),
{
    lemma_metrics_keys();
    let held = data.at("metricsHistory"@).items();
    let row = history_row(at, cpu, memory, disk);
    let all = held.push(row);
    let rows = with_metrics(data, at, cpu, memory, disk).at("metricsHistory"@).items();
    assert(rows == last_items(all, 48));
    if held.len() < 48 {
        assert(rows.drop_last() =~= held);
    } else {
        assert(rows.drop_last() =~= held.skip(held.len() - 47));
    }
    assert(rows.last() == row);
}

// ---------------------------------------------------------------------------
// Mail queue and errors
// ---------------------------------------------------------------------------

/// An empty queue is shown as empty. A queue with messages is shown with as many
/// as there are lines that start with a hexadecimal digit, and its last line.
pub proof fn law_queue_is_counted(text: Seq<char>)
    ensures
        ({
            let t = trimmed(text);
            let messages = lines_of(t).filter(
                |l: Seq<char>|
                    l.len() > 0 && (('0' <= l[0] && l[0] <= '9') || ('a' <= l[0] && l[0] <= 'f') || ('A' <= l[0]
                        && l[0] <= 'F')),
            );
            let empty = t.len() == 0 || has_text(t, "Mail queue is empty"@);
            &&& empty ==> queue_of(text).at("count"@) == count(0) && queue_of(text).at("summary"@) == Tree::Text(
                "Mail queue is empty"@,
            )
            &&& !empty && messages.len() <= u64::MAX ==> queue_of(text).at("count"@).unsigned_or(0)
                == messages.len()
            &&& !empty && lines_of(t).len() > 0 ==> queue_of(text).at("summary"@) == Tree::Text(
                lines_of(t).last(),
            )
        }),
{
    reveal_strlit("count");
    reveal_strlit("summary");
    assert("count"@.len() == 5 && "summary"@.len() == 7);
    let kind = |l: Seq<char>|
        l.len() > 0 && (('0' <= l[0] && l[0] <= '9') || ('a' <= l[0] && l[0] <= 'f') || ('A' <= l[0] && l[0]
            <= 'F'));
    assert(of_message() =~= kind);
}

/// Of errors the last twelve are shown, in their order, each with its end.
pub proof fn law_last_errors_are_shown(list: Seq<Seq<char>>, i: int)
    ensures
        ({
            let rows = errors_shown(list).items();
            &&& list.len() <= 12 ==> rows.len() == list.len()
            &&& list.len() > 12 ==> rows.len() == 12
            &&& 0 <= i < rows.len() ==> rows[i] == Tree::Text(tail_of(list[list.len() - rows.len() + i], 240))
        }),
{
    let rows = errors_shown(list).items();
    let all = list.map_values(crate::system::tail_row());
    assert(rows == last_items(all, 12));
}

/// A line of the log reports trouble if it names one of the words of trouble.
pub proof fn law_trouble_is_named(line: Seq<char>)
    ensures
        troubled()(line) == regex_match("(?i)\\b(reject|warning|error|fatal|bounced)\\b"@, line),
{
}

// ---------------------------------------------------------------------------
// Processes
// ---------------------------------------------------------------------------

/// Fields are read one by one: a word, then those behind the white space that
/// follows it. The last field is all that is left.
pub proof fn law_fields_are_read_one_by_one(
    space: Seq<char>,
    word: Seq<char>,
    mark: char,
    rest: Seq<char>,
    n: nat,
)
    requires
        forall|i: int| 0 <= i < space.len() ==> white_space(#[trigger] space[i]),
        forall|i: int| 0 <= i < word.len() ==> !white_space(#[trigger] word[i]),
        word.len() > 0,
        white_space(mark),
        n > 1,
    ensures
        fields_of(space + word.push(mark) + rest, n) == seq![word] + fields_of(rest, (n - 1) as nat),
        fields_of(space + word.push(mark) + rest, 1) == seq![word.push(mark) + rest],
        fields_of(space + word, n) == seq![word],
        fields_of(space, n) == Seq::<Seq<char>>::empty(),
{
    let kind = blank();
    let line = space + word.push(mark) + rest;
    let tail = word.push(mark) + rest;
    lemma_run_end(line, kind, 0);
    let k = run_end(line, kind, 0);
    assert(line[space.len() as int] == word[0]);
    assert(!kind(line[space.len() as int]));
    assert forall|i: int| 0 <= i < space.len() implies kind(#[trigger] line[i]) by {
        assert(line[i] == space[i]);
    }
    assert(k == space.len());
    assert(line.skip(k) =~= tail);
    assert(without_start(line, kind) == tail);
    lemma_first_at(tail, kind, 0);
    let m = first_at(tail, kind, 0);
    assert(tail[word.len() as int] == mark);
    assert(kind(tail[word.len() as int]));
    assert forall|i: int| 0 <= i < word.len() implies !kind(#[trigger] tail[i]) by {
        assert(tail[i] == word[i]);
    }
    assert(m == word.len());
    assert(tail.take(m) =~= word);
    assert(tail.skip(m + 1) =~= rest);
    assert(parted(tail, kind) == Some((word, rest)));
    let short = space + word;
    lemma_run_end(short, kind, 0);
    let j = run_end(short, kind, 0);
    assert(short[space.len() as int] == word[0]);
    assert forall|i: int| 0 <= i < space.len() implies kind(#[trigger] short[i]) by {
        assert(short[i] == space[i]);
    }
    assert(j == space.len());
    assert(short.skip(j) =~= word);
    lemma_first_at(word, kind, 0);
    assert(first_at(word, kind, 0) == word.len());
    lemma_run_end(space, kind, 0);
    let e = run_end(space, kind, 0);
    assert(e == space.len());
    assert(space.skip(e) =~= Seq::<char>::empty());
}

/// A process is read from a line of eleven fields: its user, its number, its
/// shares of the processor and of memory, its two sizes, and its command, cut to
/// a hundred and twenty characters. A line with fewer fields shows none.
pub proof fn law_process_is_read_from_its_fields(line: Seq<char>, pid: nat, vsz: nat, rss: nat)
    ensures
        ({
            let parts = fields_of(line, 11);
            &&& parts.len() < 11 ==> process_in(line) is None
            &&& parts.len() >= 11 ==> {
                &&& process_in(line) matches Some(p)
                &&& p.user == parts[0]
                &&& p.cpu == parts[2]
                &&& p.mem == parts[3]
                &&& p.command == first_chars(parts[10], 120)
                &&& parsed_number(parts[1], u32::MAX as nat) == Some(pid) ==> p.pid == pid
                &&& parsed_number(parts[1], u32::MAX as nat) is None ==> p.pid == 0
                &&& parsed_number(parts[4], u64::MAX as nat) == Some(vsz) ==> p.vsz == vsz
                &&& parsed_number(parts[4], u64::MAX as nat) is None ==> p.vsz == 0
                &&& parsed_number(parts[5], u64::MAX as nat) == Some(rss) ==> p.rss == rss
                &&& parsed_number(parts[5], u64::MAX as nat) is None ==> p.rss == 0
            }
        }),
{
}

/// The processes of the fifteen lines behind the heading are shown, in their
/// order.
pub proof fn law_first_processes_are_shown(heading: Seq<char>, list: Seq<Seq<char>>, line: Seq<char>)
    ensures
        list.len() <= 15 ==> process_lines(seq![heading] + list) == list,
        list.len() > 15 ==> process_lines(seq![heading] + list) == list.take(15),
        process_lines(Seq::empty()) == Seq::<Seq<char>>::empty(),
        processes_in(Seq::empty()) == Seq::<ProcessTree>::empty(),
        process_in(line) matches Some(p) ==> processes_in(list.push(line)) == processes_in(list).push(p),
        process_in(line) is None ==> processes_in(list.push(line)) == processes_in(list),
{
    assert((seq![heading] + list).skip(1) =~= list);
    assert(list.push(line).drop_last() =~= list);
}

// ---------------------------------------------------------------------------
// The whole state
// ---------------------------------------------------------------------------

proof fn lemma_status_keys()
    ensures
        "services"@.len() == 8,
        "metricsHistory"@.len() == 14 && "metricsHistory"@[0] == 'm',
        "metrics"@.len() == 7 && "metrics"@[0] == 'm',
        "users"@.len() == 5 && "users"@[0] == 'u',
        "aliases"@.len() == 7 && "aliases"@[0] == 'a',
        "queue"@.len() == 5 && "queue"@[0] == 'q',
        "deliveryErrors"@.len() == 14 && "deliveryErrors"@[0] == 'd',
        "dnsHealth"@.len() == 9,
        "spamPolicy"@.len() == 10,
        "antiSpam"@.len() == 8 && "antiSpam"@[0] == 'a' && "services"@[0] == 's',
        "generatedAt"@.len() == 11,
{
    reveal_strlit("services");
    reveal_strlit("metricsHistory");
    reveal_strlit("metrics");
    reveal_strlit("users");
    reveal_strlit("aliases");
    reveal_strlit("queue");
    reveal_strlit("deliveryErrors");
    reveal_strlit("dnsHealth");
    reveal_strlit("spamPolicy");
    reveal_strlit("antiSpam");
    reveal_strlit("generatedAt");
}

/// The state of the platform shows everything that was found out, each under its
/// name, with the time; what else it holds stays.
pub proof fn law_state_shows_what_was_found(
    data: Tree,
    f: Findings,
    counts: Seq<SpamCount>,
    at: u64,
    other: Seq<char>,
)
    requires
        data is Object,
    ensures
        ({
            let now = status_of(data, f, counts, at);
            &&& now.at("services"@) == f.services@
            &&& now.at("users"@) == Tree::Array(trees(f.users@))
            &&& now.at("aliases"@) == f.aliases@
            &&& now.at("queue"@) == f.queue@
            &&& now.at("deliveryErrors"@) == f.errors@
            &&& now.at("dnsHealth"@) == f.health@
            &&& now.at("metrics"@).at("at"@) == count(f.measured_at)
            &&& now.at("metrics"@).at("cpu"@) == Tree::Number(f.cpu)
            &&& now.at("metrics"@).at("memory"@) == f.memory@
            &&& now.at("metrics"@).at("disk"@) == f.disk@
            &&& now.at("metricsHistory"@).items().last().at("at"@) == count(f.measured_at)
            &&& now.at("spamPolicy"@) == policy_of(data)
            &&& now.at("antiSpam"@).at("policy"@) == policy_of(data)
            &&& total_spam(counts) <= u64::MAX ==> now.at("antiSpam"@).at("totalSpam"@).unsigned_or(0)
                == total_spam(counts)
            &&& now.at("generatedAt"@) == count(at)
            &&& other != "services"@ && other != "users"@ && other != "aliases"@ && other != "queue"@ && other
                != "deliveryErrors"@ && other != "dnsHealth"@ && other != "metrics"@ && other
                != "metricsHistory"@ && other != "spamPolicy"@ && other != "antiSpam"@ && other
                != "generatedAt"@ ==> now.get(other) == data.get(other)
        }),
{
    lemma_status_keys();
    lemma_metrics_keys();
    let one = data.with("services"@, f.services@);
    law_measurements_are_kept(one, f.measured_at, f.cpu, f.memory@, f.disk@, other);
    let before = crate::system::status_before(data, f);
    assert(before.get("spamPolicy"@) == data.get("spamPolicy"@));
    assert(policy_of(before) == policy_of(data));
    reveal_strlit("policy");
    reveal_strlit("mailboxes");
    reveal_strlit("totalSpam");
    assert("policy"@.len() == 6 && "mailboxes"@.len() == 9 && "totalSpam"@.len() == 9 && "mailboxes"@[0] == 'm'
        && "totalSpam"@[0] == 't');
}

} // verus!
