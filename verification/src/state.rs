//! The states that the platform keeps, as they are at first.
use crate::json::{Json, Tree};
use crate::site::{DOMAIN, HOSTNAME, PUBLIC_IP};
use crate::spam::{count, policy_default, spam_policy_default};
use vstd::prelude::*;

verus! {

/// How many events of the platform are kept.
pub const EVENTS_KEPT: usize = 40;

/// How many entries of the audit of webmail are kept.
pub const AUDIT_KEPT: usize = 100;

/// The array without items.
pub open spec fn no_items() -> Tree {
    Tree::Array(Seq::empty())
}

/// The array without items.
pub fn empty_array() -> (r: Json)
    ensures
        r@ == no_items(),
{
    let none: Vec<Json> = Vec::new();
    proof {
        assert(crate::json::trees(none@) =~= Seq::<Tree>::empty());
    }
    Json::array(none)
}

/// The state of the platform at first.
pub open spec fn first_state() -> Tree {
    Tree::object()
        .with("domain"@, Tree::Text(DOMAIN@))
        .with("hostname"@, Tree::Text(HOSTNAME@))
        .with("publicIp"@, Tree::Text(PUBLIC_IP@))
        .with("users"@, no_items())
        .with("aliases"@, no_items())
        .with("events"@, no_items())
        .with("metricsHistory"@, no_items())
        .with("spamPolicy"@, policy_default())
}

/// The state of the platform at first.
pub fn state_default() -> (r: Json)
    ensures
        r@ == first_state(),
{
    Json::object()
        .with("domain", Json::text(DOMAIN))
        .with("hostname", Json::text(HOSTNAME))
        .with("publicIp", Json::text(PUBLIC_IP))
        .with("users", empty_array())
        .with("aliases", empty_array())
        .with("events", empty_array())
        .with("metricsHistory", empty_array())
        .with("spamPolicy", spam_policy_default())
}

/// The state of webmail at first.
pub open spec fn first_webmail() -> Tree {
    Tree::object()
        .with("contacts"@, no_items())
        .with("signatures"@, Tree::object())
        .with("vacation"@, Tree::object())
        .with("vacationSent"@, Tree::object())
        .with("rules"@, no_items())
        .with(
            "preferences"@,
            Tree::object().with("density"@, Tree::Text("comfortable"@)).with("theme"@, Tree::Text("light"@)),
        )
        .with("audit"@, no_items())
}

/// The state of webmail at first.
pub fn webmail_default() -> (r: Json)
    ensures
        r@ == first_webmail(),
{
    let preferences = Json::object()
        .with("density", Json::text("comfortable"))
        .with("theme", Json::text("light"));
    Json::object()
        .with("contacts", empty_array())
        .with("signatures", Json::object())
        .with("vacation", Json::object())
        .with("vacationSent", Json::object())
        .with("rules", empty_array())
        .with("preferences", preferences)
        .with("audit", empty_array())
}

/// The row of a managed domain.
pub open spec fn domain_entry(domain: Seq<char>, at: u64) -> Tree {
    Tree::object().with("domain"@, Tree::Text(domain)).with("addedAt"@, count(at)).with(
        "status"@,
        Tree::Text("active"@),
    )
}

/// Writes the row of a managed domain.
pub fn new_domain_entry(domain: &str, at: u64) -> (r: Json)
    ensures
        r@ == domain_entry(domain@, at),
{
    Json::object()
        .with("domain", Json::text(domain))
        .with("addedAt", Json::unsigned(at))
        .with("status", Json::text("active"))
}

/// The managed domains at first: the primary one.
pub open spec fn first_domains() -> Tree {
    Tree::object().with("domains"@, Tree::Array(seq![domain_entry(DOMAIN@, 0)]))
}

/// The managed domains at first.
pub fn domains_default() -> (r: Json)
    ensures
        r@ == first_domains(),
{
    let rows = vec![new_domain_entry(DOMAIN, 0)];
    proof {
        assert(crate::json::trees(rows@) =~= seq![domain_entry(DOMAIN@, 0)]);
    }
    Json::object().with("domains", Json::array(rows))
}

} // verus!
