//! What is said of a value is said of the fields it is made of, each in its
//! place.
use crate::checks::{Check, Expect, ExpectTree};
use crate::config::Config;
use crate::domains::{Refusal, RefusalTree};
use crate::json::Json;
use crate::mailboxes::MailboxPlace;
use crate::order::{Newest, TextKey};
use crate::reply::{Reply, ReplyTree};
use crate::routes::{Command, CommandTree, Decision, DecisionTree};
use crate::steps::{Deed, Step};
use crate::system::Process;
use crate::text::{opt_text, texts};
use crate::users::MailUser;
use crate::webmail::{ActionTree, MessageAction};
use vstd::prelude::*;

verus! {

/// The commands of administrators name what they are about, in this order.
pub proof fn law_administrative_commands_name_their_objects(a: String, b: String, value: Json, named: Option<String>)
    ensures
        Command::AddUser(a)@ == CommandTree::AddUser(a@),
        Command::SetPassword(a)@ == CommandTree::SetPassword(a@),
        Command::AddAlias(a, b)@ == CommandTree::AddAlias(a@, b@),
        Command::AntiSpamConfig(value)@ == CommandTree::AntiSpamConfig(value@),
        Command::AntiSpamScan(named)@ == CommandTree::AntiSpamScan(opt_text(named)),
        Command::DomainAdd(a)@ == CommandTree::DomainAdd(a@),
        Command::DomainCheck(a)@ == CommandTree::DomainCheck(a@),
        Command::DomainRemove(a)@ == CommandTree::DomainRemove(a@),
{
}

/// The commands of users of webmail name the mailbox, and then what they are
/// about, in this order.
pub proof fn law_webmail_commands_name_their_objects(a: String, b: String, c: String, d: String, value: Json)
    ensures
        Command::WebmailState(a, b, c)@ == CommandTree::WebmailState(a@, b@, c@),
        Command::WebmailRead(a, b)@ == CommandTree::WebmailRead(a@, b@),
        Command::WebmailSend(a, value)@ == CommandTree::WebmailSend(a@, value@),
        Command::WebmailDraft(a, value)@ == CommandTree::WebmailDraft(a@, value@),
        Command::WebmailAction(a, b, c, d)@ == CommandTree::WebmailAction(a@, b@, c@, d@),
        Command::WebmailConfig(a, b, value)@ == CommandTree::WebmailConfig(a@, b@, value@),
        Command::WebmailApplyRules(a, b)@ == CommandTree::WebmailApplyRules(a@, b@),
        Command::WebmailExport(a)@ == CommandTree::WebmailExport(a@),
        Command::WebmailImport(a, value)@ == CommandTree::WebmailImport(a@, value@),
        Command::WebmailAttachment(a, b, c)@ == CommandTree::WebmailAttachment(a@, b@, c@),
{
}

/// An answer is its status, its content and its cookies; a decision is the
/// answer or the command it holds.
pub proof fn law_answers_are_what_they_hold(
    status: u16,
    body: Json,
    text: String,
    cookies: Vec<String>,
    reply: Reply,
    command: Command,
)
    ensures
        Reply::Data(status, body, cookies)@ == ReplyTree::Data(status, body@, texts(cookies@)),
        Reply::Text(status, text)@ == ReplyTree::Text(status, text@),
        Reply::Redirect(status, text, cookies)@ == ReplyTree::Redirect(status, text@, texts(cookies@)),
        Decision::Answer(reply)@ == DecisionTree::Answer(reply@),
        Decision::Perform(command)@ == DecisionTree::Perform(command@),
        Refusal::Answer(body)@ == RefusalTree::Answer(body@),
        Refusal::Fault(text)@ == RefusalTree::Fault(text@),
{
}

/// A step does what it is called, to the path or with the command it names.
pub proof fn law_steps_do_what_they_are_called(path: String, text: String, arguments: Vec<String>, i: int)
    ensures
        Step::MakeDir(path)@ == Deed::MakeDir(path@),
        Step::Run(path, arguments)@ == Deed::Run(path@, texts(arguments@)),
        Step::Check(path, arguments)@ == Deed::Check(path@, texts(arguments@)),
        Step::Write(path, text)@ == Deed::Write(path@, text@),
        texts(arguments@).len() == arguments@.len(),
        0 <= i < arguments@.len() ==> texts(arguments@)[i] == arguments@[i]@,
        opt_text(Some(path)) == Some(path@),
        opt_text(None) is None,
{
}

/// Records are what their fields hold.
pub proof fn law_records_are_their_fields(
    user: MailUser,
    place: MailboxPlace,
    check: Check,
    process: Process,
    cfg: Config,
    key: TextKey,
    time: Newest,
)
    ensures
        user@.email == user.email@ && user@.home == user.home@,
        place@.local == place.local@ && place@.domain == place.domain@ && place@.root == place.root@,
        check@.name == check.name@ && check@.kind == check.kind@,
        check.expect matches Expect::Exactly(s) ==> check@.expect == ExpectTree::Exactly(s@),
        check.expect matches Expect::Containing(s) ==> check@.expect == ExpectTree::Containing(s@),
        process@.pid == process.pid && process@.vsz == process.vsz && process@.rss == process.rss,
        process@.user == process.user@ && process@.cpu == process.cpu@ && process@.mem == process.mem@
            && process@.command == process.command@,
        cfg@.admin_user == cfg.admin_user@ && cfg@.admin_password == cfg.admin_password@,
        cfg@.listen_addr == cfg.listen_addr@ && cfg@.static_dir == cfg.static_dir@ && cfg@.base_url
            == cfg.base_url@,
        cfg@.oidc_issuer == cfg.oidc_issuer@ && cfg@.oidc_client_id == cfg.oidc_client_id@
            && cfg@.oidc_client_secret == cfg.oidc_client_secret@,
        key@ == opt_text(key.0),
        time@ == time.0,
{
}

/// An action on a message is the one it is called.
pub proof fn law_actions_are_what_they_are_called(folder: String, on: bool)
    ensures
        MessageAction::MoveTo(folder)@ == ActionTree::MoveTo(folder@),
        MessageAction::Spam@ == ActionTree::Spam,
        MessageAction::MarkRead@ == ActionTree::MarkRead,
        MessageAction::MarkUnread@ == ActionTree::MarkUnread,
        MessageAction::Star(on)@ == ActionTree::Star(on),
{
}

} // verus!
