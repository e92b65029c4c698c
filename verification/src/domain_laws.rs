//! What adding and removing a domain means for reading the lists back.
use crate::domains::{
    addition_of, domain_steps_of, has_domain, is_row, key_line_of, key_steps_of, lacking, last_steps_of,
    listed_once, other_domain, signing_line_of, table_steps_of, trimmed_lines, trusted_text, with_domain,
    with_line_for, without_domain, Addition, DomainFiles, OPENDKIM_KEYTABLE, OPENDKIM_SIGNINGTABLE,
    OPENDKIM_TRUSTEDHOSTS, VMAILBOX_DOMAINS,
};
use crate::json::Tree;
use crate::mailbox_laws::{lemma_filter_from, lemma_lines_have_no_feed, lemma_one_line, one_line};
use crate::mailboxes::{known_of, known_with};
use crate::outside::domain_char;
use crate::site::DOMAIN;
use crate::state::domain_entry;
use crate::steps::{file_of, law_file_lines, Deed};
use crate::text::{
    has_text, joined, lemma_trimmed, lemma_trimmed_fixed, lines_of, stands_at, trimmed, white_space,
    without_return,
};
use vstd::prelude::*;

verus! {

/// What was known stays known, and the domain of every row is known.
pub proof fn lemma_known(start: Seq<Seq<char>>, rows: Seq<Tree>, domain: Seq<char>)
    ensures
        known_with(start, rows).contains(domain) == (start.contains(domain) || has_domain(rows, domain)),
    decreases rows.len(),
{
    if rows.len() > 0 {
        let init = rows.drop_last();
        lemma_known(start, init, domain);
        let before = known_with(start, init);
        let now = known_with(start, rows);
        assert(has_domain(rows, domain) == (has_domain(init, domain) || is_row(rows.last(), domain))) by {
            if has_domain(init, domain) {
                let i = choose|i: int| 0 <= i < init.len() && is_row(#[trigger] init[i], domain);
                assert(is_row(rows[i], domain));
            }
            if has_domain(rows, domain) {
                let i = choose|i: int| 0 <= i < rows.len() && is_row(#[trigger] rows[i], domain);
                if i < init.len() {
                    assert(is_row(init[i], domain));
                }
            }
            if is_row(rows.last(), domain) {
                assert(is_row(rows[rows.len() - 1], domain));
            }
        }
        if let Tree::Text(d) = rows.last().at("domain"@) {
            if !before.contains(d) {
                assert(now == before.push(d));
                if before.contains(domain) {
                    let k = choose|k: int| 0 <= k < before.len() && before[k] == domain;
                    assert(now[k] == domain);
                }
                if now.contains(domain) && !before.contains(domain) {
                    let k = choose|k: int| 0 <= k < now.len() && now[k] == domain;
                    if k < before.len() {
                        assert(before[k] == domain);
                    }
                }
                assert(now[before.len() as int] == d);
            }
        }
    }
}

/// A domain that was added is managed, and mailboxes can be in it.
pub proof fn law_added_domain_is_known(data: Tree, domain: Seq<char>, at: u64)
    ensures
        addition_of(with_domain(data, domain, at), domain) == Addition::Known,
        known_of(with_domain(data, domain, at)).contains(domain),
{
    let rows = data.at("domains"@).items();
    let entry = domain_entry(domain, at);
    let now = rows.push(entry);
    lemma_entry(domain, at);
    assert(with_domain(data, domain, at).at("domains"@) == Tree::Array(now));
    assert(is_row(now[rows.len() as int], domain));
    assert(has_domain(now, domain));
    lemma_known(seq![DOMAIN@], now, domain);
}

proof fn lemma_entry(domain: Seq<char>, at: u64)
    ensures
        is_row(domain_entry(domain, at), domain),
        forall|other: Seq<char>| is_row(domain_entry(domain, at), other) ==> other == domain,
{
    reveal_strlit("domain");
    reveal_strlit("addedAt");
    reveal_strlit("status");
    assert("domain"@[0] == 'd' && "addedAt"@[0] == 'a' && "status"@[0] == 's');
    assert(domain_entry(domain, at).at("domain"@) == Tree::Text(domain));
}

/// A domain that was removed is not managed any more, and mailboxes cannot be
/// in it unless it is the primary one.
pub proof fn law_removed_domain_is_gone(data: Tree, domain: Seq<char>)
    ensures
        addition_of(without_domain(data, domain), domain) != Addition::Known,
        domain != DOMAIN@ ==> !known_of(without_domain(data, domain)).contains(domain),
{
    let now = without_domain(data, domain).at("domains"@);
    let rows = now.items();
    if let Tree::Array(before) = data.at("domains"@) {
        assert(rows == before.filter(other_domain(domain)));
        assert forall|i: int| 0 <= i < rows.len() implies !is_row(#[trigger] rows[i], domain) by {
            before.lemma_filter_pred(other_domain(domain), i);
        }
    }
    assert(!has_domain(rows, domain));
    lemma_known(seq![DOMAIN@], rows, domain);
    assert(!seq![DOMAIN@].contains(domain) || domain == DOMAIN@);
}

/// Removing a domain leaves the others managed, and mailboxes can be in them.
pub proof fn law_removal_keeps_others(data: Tree, domain: Seq<char>, other: Seq<char>)
    requires
        other != domain,
    ensures
        addition_of(without_domain(data, domain), other) == addition_of(data, other),
        known_of(without_domain(data, domain)).contains(other) == known_of(data).contains(other),
{
    let now = without_domain(data, domain).at("domains"@).items();
    let rows = data.at("domains"@).items();
    let kind = other_domain(domain);
    if let Tree::Array(before) = data.at("domains"@) {
        assert(now == before.filter(kind));
        if has_domain(before, other) {
            let i = choose|i: int| 0 <= i < before.len() && is_row(#[trigger] before[i], other);
            assert(kind(before[i]));
            before.lemma_filter_contains(kind, i);
            let k = now.index_of(before[i]);
            assert(is_row(now[k], other));
        }
        if has_domain(now, other) {
            let i = choose|i: int| 0 <= i < now.len() && is_row(#[trigger] now[i], other);
            before.lemma_filter_contains_rev(kind, now[i]);
            let k = before.index_of(now[i]);
            assert(is_row(before[k], other));
        }
    }
    lemma_known(seq![DOMAIN@], now, other);
    lemma_known(seq![DOMAIN@], rows, other);
}

/// Removing a domain undoes adding it.
pub proof fn law_removal_undoes_addition(data: Tree, domain: Seq<char>, at: u64)
    requires
        addition_of(data, domain) == Addition::Free,
    ensures
        without_domain(with_domain(data, domain, at), domain) == data,
{
    let rows = data.at("domains"@)->Array_0;
    let kind = other_domain(domain);
    let now = rows.push(domain_entry(domain, at));
    lemma_entry(domain, at);
    assert(rows.filter(kind) == rows) by {
        lemma_keep_all(rows, kind);
    }
    reveal(Seq::filter);
    assert(now.drop_last() =~= rows);
    assert(now.filter(kind) == rows);
    if let Tree::Object(m) = data {
        let key = "domains"@;
        assert(m.insert(key, Tree::Array(now)).insert(key, Tree::Array(rows)) =~= m);
    }
}

proof fn lemma_keep_all<A>(rows: Seq<A>, kind: spec_fn(A) -> bool)
    requires
        forall|i: int| 0 <= i < rows.len() ==> kind(#[trigger] rows[i]),
    ensures
        rows.filter(kind) == rows,
    decreases rows.len(),
{
    reveal(Seq::filter);
    if rows.len() > 0 {
        let init = rows.drop_last();
        assert forall|i: int| 0 <= i < init.len() implies kind(#[trigger] init[i]) by {
            assert(init[i] == rows[i]);
        }
        lemma_keep_all(init, kind);
        assert(kind(rows[rows.len() - 1]));
        assert(init.push(rows.last()) =~= rows);
    }
}

/// A text that stands in a line without its carriage return stands in the line.
proof fn lemma_return_hides_nothing(l: Seq<char>, needle: Seq<char>)
    requires
        has_text(without_return(l), needle),
    ensures
        has_text(l, needle),
{
    let w = without_return(l);
    let i = choose|i: int| stands_at(w, needle, i);
    assert(l.subrange(i, i + needle.len()) =~= w.subrange(i, i + needle.len()));
    assert(stands_at(l, needle, i));
}

/// The lines that a file of kept lines gives back hold a text only if one of
/// the kept lines does.
proof fn lemma_kept_lines(text: Seq<char>, needle: Seq<char>)
    requires
        needle.len() > 0,
    ensures
        ({
            let kept = lines_of(text).filter(lacking(needle));
            forall|i: int|
                0 <= i < kept.len() ==> one_line(#[trigger] kept[i]) && !has_text(
                    without_return(kept[i]),
                    needle,
                )
        }),
{
    let all = lines_of(text);
    let kind = lacking(needle);
    let kept = all.filter(kind);
    lemma_lines_have_no_feed(text);
    lemma_filter_from(all, kind);
    assert forall|i: int| 0 <= i < kept.len() implies one_line(#[trigger] kept[i]) && !has_text(
        without_return(kept[i]),
        needle,
    ) by {
        assert(all.contains(kept[i]));
        let k = choose|k: int| 0 <= k < all.len() && all[k] == kept[i];
        assert(one_line(all[k]));
        all.lemma_filter_pred(kind, i);
        if has_text(without_return(kept[i]), needle) {
            lemma_return_hides_nothing(kept[i], needle);
        }
    }
}

/// A table in which a line took the place of those that hold a domain has that
/// line as its last, and no other line of it holds the domain.
pub proof fn law_table_holds_domain_once(text: Seq<char>, domain: Seq<char>, line: Seq<char>)
    requires
        domain.len() > 0,
        one_line(line),
        line.len() > 0,
        line.last() != '\r',
    ensures
        ({
            let now = lines_of(with_line_for(text, domain, line));
            &&& now.len() > 0
            &&& now.last() == line
            &&& forall|i: int| 0 <= i < now.len() - 1 ==> !has_text(#[trigger] now[i], domain)
        }),
{
    let kept = lines_of(text).filter(lacking(domain));
    let list = kept.push(line);
    lemma_kept_lines(text, domain);
    assert forall|i: int, j: int| 0 <= i < list.len() && 0 <= j < list[i].len() implies (#[trigger] list[i][j])
        != '\n' by {
        if i < kept.len() {
            assert(one_line(kept[i]));
            assert(kept[i].contains(kept[i][j]));
        } else {
            assert(line.contains(line[j]));
        }
    }
    law_file_lines(list);
    let now = lines_of(with_line_for(text, domain, line));
    assert forall|i: int| 0 <= i < now.len() - 1 implies !has_text(#[trigger] now[i], domain) by {
        assert(now[i] == without_return(kept[i]));
        assert(one_line(kept[i]));
    }
}

/// A table from which a domain was taken out holds it in no line.
pub proof fn law_removed_from_table(text: Seq<char>, domain: Seq<char>)
    requires
        domain.len() > 0,
    ensures
        ({
            let now = lines_of(file_of(lines_of(text).filter(lacking(domain))));
            forall|i: int| 0 <= i < now.len() ==> !has_text(#[trigger] now[i], domain)
        }),
{
    let kept = lines_of(text).filter(lacking(domain));
    let now = lines_of(file_of(kept));
    lemma_kept_lines(text, domain);
    if kept.len() == 0 {
        let blank = Seq::<char>::empty();
        let one = seq![blank];
        assert(joined(one, "\n"@) == joined(kept, "\n"@));
        law_file_lines(one);
        assert(file_of(kept) == file_of(one));
        assert(!has_text(blank, domain)) by {
            if has_text(blank, domain) {
                let i = choose|i: int| stands_at(blank, domain, i);
                assert(false);
            }
        }
        assert forall|i: int| 0 <= i < now.len() implies !has_text(#[trigger] now[i], domain) by {
            assert(now[i] == without_return(one[i]));
        }
    } else {
        assert forall|i: int, j: int| 0 <= i < kept.len() && 0 <= j < kept[i].len() implies (
        #[trigger] kept[i][j]) != '\n' by {
            assert(one_line(kept[i]));
            assert(kept[i].contains(kept[i][j]));
        }
        law_file_lines(kept);
        assert forall|i: int| 0 <= i < now.len() implies !has_text(#[trigger] now[i], domain) by {
            assert(now[i] == without_return(kept[i]));
            assert(one_line(kept[i]));
        }
    }
}

/// Whether a text is one word: it is not empty and holds no white space.
pub open spec fn one_word(s: Seq<char>) -> bool {
    s.len() > 0 && forall|i: int| 0 <= i < s.len() ==> !white_space(#[trigger] s[i])
}

/// A domain name is one word.
pub proof fn law_domain_is_one_word(domain: Seq<char>)
    requires
        domain.len() > 0,
        forall|i: int| 0 <= i < domain.len() ==> domain_char(#[trigger] domain[i]),
    ensures
        one_word(domain),
{
    assert forall|i: int| 0 <= i < domain.len() implies !white_space(#[trigger] domain[i]) by {
        assert(domain_char(domain[i]));
    }
}

/// The lines that are written for a domain hold it, and each is one line that
/// reads back as it is.
pub proof fn law_domain_lines_read_back(domain: Seq<char>)
    requires
        one_word(domain),
    ensures
        has_text(key_line_of(domain), domain),
        one_line(key_line_of(domain)),
        key_line_of(domain).last() != '\r',
        has_text(signing_line_of(domain), domain),
        one_line(signing_line_of(domain)),
        signing_line_of(domain).last() != '\r',
{
    assert(one_line(domain)) by {
        if domain.contains('\n') {
            let k = choose|k: int| 0 <= k < domain.len() && domain[k] == '\n';
            assert(!white_space(domain[k]));
        }
    }
    assert(!white_space(domain[domain.len() - 1]));
    let key = key_line_of(domain);
    let dir = crate::domains::key_dir_of(domain);
    assert(one_line(dir)) by {
        reveal_strlit("/etc/opendkim/keys");
        reveal_strlit("/");
        assert(one_line("/etc/opendkim/keys"@));
        assert(one_line("/"@));
        lemma_one_line("/etc/opendkim/keys"@, "/"@);
        lemma_one_line("/etc/opendkim/keys"@ + "/"@, domain);
        lemma_one_line("/etc/opendkim/keys"@, domain);
    }
    assert(one_line("mail._domainkey."@)) by {
        reveal_strlit("mail._domainkey.");
    }
    assert(one_line(" "@)) by {
        reveal_strlit(" ");
    }
    assert(one_line(":mail:"@)) by {
        reveal_strlit(":mail:");
    }
    assert(one_line("/mail.private"@)) by {
        reveal_strlit("/mail.private");
    }
    assert(one_line("*@"@)) by {
        reveal_strlit("*@");
    }
    assert(one_line(" mail._domainkey."@)) by {
        reveal_strlit(" mail._domainkey.");
    }
    let a = "mail._domainkey."@ + domain;
    lemma_one_line("mail._domainkey."@, domain);
    lemma_one_line(a, " "@);
    lemma_one_line(a + " "@, domain);
    lemma_one_line(a + " "@ + domain, ":mail:"@);
    lemma_one_line(a + " "@ + domain + ":mail:"@, dir);
    lemma_one_line(a + " "@ + domain + ":mail:"@ + dir, "/mail.private"@);
    let n = "mail._domainkey."@.len() as int;
    assert(key.subrange(n, n + domain.len()) =~= domain);
    assert(stands_at(key, domain, n));
    assert(key.last() == 'e') by {
        reveal_strlit("/mail.private");
        assert("/mail.private"@.last() == 'e');
    }
    let signing = signing_line_of(domain);
    lemma_one_line("*@"@, domain);
    lemma_one_line("*@"@ + domain, " mail._domainkey."@);
    lemma_one_line("*@"@ + domain + " mail._domainkey."@, domain);
    let m = "*@"@.len() as int;
    assert(signing.subrange(m, m + domain.len()) =~= domain);
    assert(stands_at(signing, domain, m));
    assert(signing.last() == domain.last());
}

/// Whether the lines of a table that do not hold a text read back as they are:
/// none of them ends in a carriage return.
pub open spec fn kept_as_is(text: Seq<char>, needle: Seq<char>) -> bool {
    forall|i: int|
        0 <= i < lines_of(text).len() && !has_text(lines_of(text)[i], needle) ==> without_return(
            #[trigger] lines_of(text)[i],
        ) == lines_of(text)[i]
}

/// Entering a line into a table again changes nothing.
pub proof fn law_table_stays(text: Seq<char>, domain: Seq<char>, line: Seq<char>)
    requires
        domain.len() > 0,
        kept_as_is(text, domain),
        has_text(line, domain),
        one_line(line),
        line.len() > 0,
        line.last() != '\r',
    ensures
        with_line_for(with_line_for(text, domain, line), domain, line) == with_line_for(text, domain, line),
{
    let all = lines_of(text);
    let kind = lacking(domain);
    let kept = all.filter(kind);
    let list = kept.push(line);
    lemma_kept_lines(text, domain);
    lemma_filter_from(all, kind);
    assert forall|i: int| 0 <= i < kept.len() implies kind(#[trigger] kept[i]) && without_return(kept[i])
        == kept[i] by {
        all.lemma_filter_pred(kind, i);
        assert(all.contains(kept[i]));
        let k = choose|k: int| 0 <= k < all.len() && all[k] == kept[i];
        assert(without_return(all[k]) == all[k]);
    }
    assert forall|i: int, j: int| 0 <= i < list.len() && 0 <= j < list[i].len() implies (#[trigger] list[i][j])
        != '\n' by {
        if i < kept.len() {
            assert(one_line(kept[i]));
            assert(kept[i].contains(kept[i][j]));
        } else {
            assert(line.contains(line[j]));
        }
    }
    law_file_lines(list);
    let now = lines_of(with_line_for(text, domain, line));
    assert(now =~= list) by {
        assert forall|i: int| 0 <= i < list.len() implies now[i] == #[trigger] list[i] by {
            assert(now[i] == without_return(list[i]));
            if i < kept.len() {
                assert(list[i] == kept[i]);
            }
        }
    }
    reveal(Seq::filter);
    assert(list.drop_last() =~= kept);
    assert(!kind(line));
    lemma_keep_all(kept, kind);
    assert(list.filter(kind) == kept);
}

/// The text of a file after steps, given its text before them.
pub open spec fn text_after(steps: Seq<Deed>, path: Seq<char>, before: Seq<char>) -> Seq<char>
    decreases steps.len(),
{
    if steps.len() == 0 {
        before
    } else {
        match steps.last() {
            Deed::Write(p, text) => if p == path {
                text
            } else {
                text_after(steps.drop_last(), path, before)
            },
            _ => text_after(steps.drop_last(), path, before),
        }
    }
}

proof fn lemma_text_after(a: Seq<Deed>, b: Seq<Deed>, path: Seq<char>, before: Seq<char>)
    ensures
        text_after(a + b, path, before) == text_after(b, path, text_after(a, path, before)),
    decreases b.len(),
{
    if b.len() == 0 {
        assert(a + b =~= a);
    } else {
        assert((a + b).drop_last() =~= a + b.drop_last());
        assert((a + b).last() == b.last());
        lemma_text_after(a, b.drop_last(), path, before);
    }
}

/// Steps that do not write a file leave its text.
proof fn lemma_text_left(steps: Seq<Deed>, path: Seq<char>, before: Seq<char>)
    requires
        forall|i: int| 0 <= i < steps.len() ==> !((#[trigger] steps[i]) is Write) || steps[i]->Write_0 != path,
    ensures
        text_after(steps, path, before) == before,
    decreases steps.len(),
{
    if steps.len() > 0 {
        let init = steps.drop_last();
        assert forall|i: int| 0 <= i < init.len() implies !((#[trigger] init[i]) is Write) || init[i]->Write_0
            != path by {
            assert(init[i] == steps[i]);
        }
        lemma_text_left(init, path, before);
        assert(steps.last() == steps[steps.len() - 1]);
    }
}

/// The text of a file in which a line is listed once.
pub open spec fn listed_text(text: Seq<char>, list: Seq<Seq<char>>, line: Seq<char>) -> Seq<char> {
    if list.contains(line) {
        text
    } else {
        file_of(list.push(line))
    }
}

/// The paths of the files that adding a domain changes differ.
proof fn lemma_paths_differ()
    ensures
        VMAILBOX_DOMAINS@ != OPENDKIM_KEYTABLE@,
        VMAILBOX_DOMAINS@ != OPENDKIM_SIGNINGTABLE@,
        VMAILBOX_DOMAINS@ != OPENDKIM_TRUSTEDHOSTS@,
        OPENDKIM_KEYTABLE@ != OPENDKIM_SIGNINGTABLE@,
        OPENDKIM_KEYTABLE@ != OPENDKIM_TRUSTEDHOSTS@,
        OPENDKIM_SIGNINGTABLE@ != OPENDKIM_TRUSTEDHOSTS@,
{
    reveal_strlit("/etc/postfix/vmailbox_domains");
    reveal_strlit("/etc/opendkim/KeyTable");
    reveal_strlit("/etc/opendkim/SigningTable");
    reveal_strlit("/etc/opendkim/TrustedHosts");
    assert("/etc/postfix/vmailbox_domains"@[5] == 'p');
    assert("/etc/opendkim/KeyTable"@[5] == 'o' && "/etc/opendkim/KeyTable"@[14] == 'K');
    assert("/etc/opendkim/SigningTable"@[5] == 'o' && "/etc/opendkim/SigningTable"@[14] == 'S');
    assert("/etc/opendkim/TrustedHosts"@[5] == 'o' && "/etc/opendkim/TrustedHosts"@[14] == 'T');
}

/// What the steps that add a domain write into the files.
proof fn lemma_files_after(domain: Seq<char>, files: DomainFiles)
    ensures
        ({
            let steps = domain_steps_of(domain, files);
            let trusted = trusted_text(files.trusted_hosts);
            &&& text_after(steps, VMAILBOX_DOMAINS@, files.domains@) == listed_text(
                files.domains@,
                trimmed_lines(lines_of(files.domains@)),
                domain,
            )
            &&& text_after(steps, OPENDKIM_KEYTABLE@, files.key_table@) == with_line_for(
                files.key_table@,
                domain,
                key_line_of(domain),
            )
            &&& text_after(steps, OPENDKIM_SIGNINGTABLE@, files.signing_table@) == with_line_for(
                files.signing_table@,
                domain,
                signing_line_of(domain),
            )
            &&& text_after(steps, OPENDKIM_TRUSTEDHOSTS@, trusted) == listed_text(
                trusted,
                lines_of(trusted),
                domain,
            )
        }),
{
    let a = listed_once(VMAILBOX_DOMAINS@, trimmed_lines(lines_of(files.domains@)), domain);
    let b = if files.has_key {
        Seq::empty()
    } else {
        key_steps_of(domain)
    };
    let c = table_steps_of(domain, files.key_table@, files.signing_table@);
    let trusted = trusted_text(files.trusted_hosts);
    let d = listed_once(OPENDKIM_TRUSTEDHOSTS@, lines_of(trusted), domain);
    let e = last_steps_of(domain);
    lemma_paths_differ();
    lemma_parts(a, b, c, d, e, VMAILBOX_DOMAINS@, files.domains@);
    lemma_parts(a, b, c, d, e, OPENDKIM_KEYTABLE@, files.key_table@);
    lemma_parts(a, b, c, d, e, OPENDKIM_SIGNINGTABLE@, files.signing_table@);
    lemma_parts(a, b, c, d, e, OPENDKIM_TRUSTEDHOSTS@, trusted);
    reveal_with_fuel(text_after, 3);
    lemma_text_left(d, VMAILBOX_DOMAINS@, text_after(a, VMAILBOX_DOMAINS@, files.domains@));
    lemma_text_left(c, VMAILBOX_DOMAINS@, text_after(a, VMAILBOX_DOMAINS@, files.domains@));
    lemma_text_left(a, OPENDKIM_KEYTABLE@, files.key_table@);
    lemma_text_left(a, OPENDKIM_SIGNINGTABLE@, files.signing_table@);
    lemma_text_left(a, OPENDKIM_TRUSTEDHOSTS@, trusted);
    lemma_text_left(c, OPENDKIM_TRUSTEDHOSTS@, trusted);
    let key = text_after(c, OPENDKIM_KEYTABLE@, files.key_table@);
    assert(c.drop_last() =~= seq![c[0]]);
    assert(c.drop_last().last() == c[0]);
    lemma_text_left(d, OPENDKIM_KEYTABLE@, key);
    let signing = text_after(c, OPENDKIM_SIGNINGTABLE@, files.signing_table@);
    lemma_text_left(d, OPENDKIM_SIGNINGTABLE@, signing);
}

/// Of five runs of steps, of which the second and the last write no file, the
/// others decide on the text of a file.
proof fn lemma_parts(
    a: Seq<Deed>,
    b: Seq<Deed>,
    c: Seq<Deed>,
    d: Seq<Deed>,
    e: Seq<Deed>,
    path: Seq<char>,
    before: Seq<char>,
)
    requires
        forall|i: int| 0 <= i < b.len() ==> !((#[trigger] b[i]) is Write),
        forall|i: int| 0 <= i < e.len() ==> !((#[trigger] e[i]) is Write),
    ensures
        text_after(a + b + c + d + e, path, before) == text_after(
            d,
            path,
            text_after(c, path, text_after(a, path, before)),
        ),
{
    lemma_text_after(a + b + c + d, e, path, before);
    lemma_text_after(a + b + c, d, path, before);
    lemma_text_after(a + b, c, path, before);
    lemma_text_after(a, b, path, before);
    lemma_text_left(b, path, text_after(a, path, before));
    lemma_text_left(e, path, text_after(a + b + c + d, path, before));
}

/// A file in which a word was listed once has it as a line.
proof fn lemma_listed_line(text: Seq<char>, list: Seq<Seq<char>>, word: Seq<char>)
    requires
        one_word(word),
        !list.contains(word),
        forall|i: int| 0 <= i < list.len() ==> one_line(#[trigger] list[i]),
    ensures
        lines_of(listed_text(text, list, word)).contains(word),
{
    let now = list.push(word);
    assert forall|i: int, j: int| 0 <= i < now.len() && 0 <= j < now[i].len() implies (#[trigger] now[i][j])
        != '\n' by {
        if i < list.len() {
            assert(one_line(list[i]));
            assert(list[i].contains(list[i][j]));
        } else {
            assert(!white_space(word[j]));
        }
    }
    law_file_lines(now);
    assert(!white_space(word[word.len() - 1]));
    assert(lines_of(file_of(now))[list.len() as int] == without_return(now[list.len() as int]));
}

/// A line that is one word is among the trimmed lines.
proof fn lemma_word_is_trimmed_line(list: Seq<Seq<char>>, word: Seq<char>)
    requires
        one_word(word),
        list.contains(word),
    ensures
        trimmed_lines(list).contains(word),
    decreases list.len(),
{
    let k = choose|k: int| 0 <= k < list.len() && list[k] == word;
    let init = list.drop_last();
    let before = trimmed_lines(init);
    let now = trimmed_lines(list);
    if k < init.len() {
        assert(init[k] == word);
        lemma_word_is_trimmed_line(init, word);
        let m = choose|m: int| 0 <= m < before.len() && before[m] == word;
        assert(now[m] == word);
    } else {
        assert(!white_space(word[0]) && !white_space(word[word.len() - 1]));
        lemma_trimmed_fixed(word);
        assert(now[before.len() as int] == word);
    }
}

/// Trimmed lines are single lines.
proof fn lemma_trimmed_lines_are_lines(list: Seq<Seq<char>>)
    requires
        forall|i: int| 0 <= i < list.len() ==> one_line(#[trigger] list[i]),
    ensures
        forall|i: int| 0 <= i < trimmed_lines(list).len() ==> one_line(#[trigger] trimmed_lines(list)[i]),
    decreases list.len(),
{
    if list.len() > 0 {
        let init = list.drop_last();
        let last = list[list.len() - 1];
        assert forall|i: int| 0 <= i < init.len() implies one_line(#[trigger] init[i]) by {
            assert(init[i] == list[i]);
        }
        lemma_trimmed_lines_are_lines(init);
        assert(one_line(last));
        let t = trimmed(last);
        lemma_trimmed(last);
        let k = choose|k: int|
            0 <= k <= last.len() - t.len() && t == #[trigger] last.subrange(k, k + t.len());
        if t.contains('\n') {
            let m = choose|m: int| 0 <= m < t.len() && t[m] == '\n';
            assert(last[k + m] == '\n');
        }
        let before = trimmed_lines(init);
        let now = trimmed_lines(list);
        assert forall|i: int| 0 <= i < now.len() implies one_line(#[trigger] now[i]) by {
            if i < before.len() {
                assert(one_line(before[i]));
            }
        }
    }
}

/// Having mail taken and signed for a domain a second time makes no key, writes
/// neither the file of domains nor that of trusted hosts, and writes the tables
/// as they are: `after` are the files as the first time leaves them.
pub proof fn law_second_configuration_changes_nothing(
    domain: Seq<char>,
    files: DomainFiles,
    after: DomainFiles,
)
    requires
        one_word(domain),
        kept_as_is(files.key_table@, domain),
        kept_as_is(files.signing_table@, domain),
        ({
            let steps = domain_steps_of(domain, files);
            &&& after.has_key
            &&& after.domains@ == text_after(steps, VMAILBOX_DOMAINS@, files.domains@)
            &&& after.key_table@ == text_after(steps, OPENDKIM_KEYTABLE@, files.key_table@)
            &&& after.signing_table@ == text_after(steps, OPENDKIM_SIGNINGTABLE@, files.signing_table@)
            &&& trusted_text(after.trusted_hosts) == text_after(
                steps,
                OPENDKIM_TRUSTEDHOSTS@,
                trusted_text(files.trusted_hosts),
            )
        }),
    ensures
        domain_steps_of(domain, after) == seq![
            Deed::Write(OPENDKIM_KEYTABLE@, after.key_table@),
            Deed::Write(OPENDKIM_SIGNINGTABLE@, after.signing_table@),
        ] + last_steps_of(domain),
{
    lemma_files_after(domain, files);
    assert(with_line_for(after.key_table@, domain, key_line_of(domain)) == after.key_table@ && with_line_for(
        after.signing_table@,
        domain,
        signing_line_of(domain),
    ) == after.signing_table@) by {
        law_domain_lines_read_back(domain);
        law_table_stays(files.key_table@, domain, key_line_of(domain));
        law_table_stays(files.signing_table@, domain, signing_line_of(domain));
    }
    lemma_domain_is_listed(files.domains@, domain);
    lemma_host_is_trusted(trusted_text(files.trusted_hosts), domain);
    lemma_only_tables(domain, after);
}

/// The domain is among the trimmed lines of a file in which it was listed.
proof fn lemma_domain_is_listed(text: Seq<char>, domain: Seq<char>)
    requires
        one_word(domain),
    ensures
        trimmed_lines(
            lines_of(listed_text(text, trimmed_lines(lines_of(text)), domain)),
        ).contains(domain),
{
    let held = trimmed_lines(lines_of(text));
    if !held.contains(domain) {
        lemma_lines_have_no_feed(text);
        lemma_trimmed_lines_are_lines(lines_of(text));
        lemma_listed_line(text, held, domain);
        lemma_word_is_trimmed_line(lines_of(listed_text(text, held, domain)), domain);
    }
}

/// The domain is among the lines of a file in which it was listed.
proof fn lemma_host_is_trusted(text: Seq<char>, domain: Seq<char>)
    requires
        one_word(domain),
    ensures
        lines_of(listed_text(text, lines_of(text), domain)).contains(domain),
{
    if !lines_of(text).contains(domain) {
        lemma_lines_have_no_feed(text);
        lemma_listed_line(text, lines_of(text), domain);
    }
}

/// Where a domain has a key and is listed, only the tables are written.
proof fn lemma_only_tables(domain: Seq<char>, files: DomainFiles)
    requires
        files.has_key,
        trimmed_lines(lines_of(files.domains@)).contains(domain),
        lines_of(trusted_text(files.trusted_hosts)).contains(domain),
    ensures
        domain_steps_of(domain, files) == table_steps_of(
            domain,
            files.key_table@,
            files.signing_table@,
        ) + last_steps_of(domain),
{
    let none = Seq::<Deed>::empty();
    let tables = table_steps_of(domain, files.key_table@, files.signing_table@);
    assert(none + none + tables + none =~= tables);
}

} // verus!
