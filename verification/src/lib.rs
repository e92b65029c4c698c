pub mod address;
pub mod antispam;
pub mod auth;
pub mod checks;
pub mod compose;
pub mod compose_laws;
pub mod config;
pub mod dns;
pub mod domain_laws;
pub mod domains;
pub mod file_laws;
pub mod folder_laws;
pub mod json;
pub mod limit;
pub mod machine_laws;
pub mod mail;
pub mod mailbox_laws;
pub mod mailboxes;
pub mod maildir;
pub mod maildir_laws;
pub mod message_laws;
pub mod messages;
pub mod model_laws;
pub mod oidc;
pub mod order;
pub mod outside;
pub mod place_laws;
pub mod policy_laws;
pub mod record_laws;
pub mod reply;
pub mod route_laws;
pub mod routes;
pub mod rule_laws;
pub mod score;
pub mod score_laws;
pub mod site;
pub mod spam;
pub mod spam_laws;
pub mod split_laws;
pub mod state;
pub mod steps;
pub mod system;
pub mod text;
pub mod text_laws;
pub mod users;
pub mod value_laws;
pub mod webmail;
pub mod webmail_laws;
pub mod zone_laws;
