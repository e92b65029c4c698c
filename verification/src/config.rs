//! The configuration, read from the environment.
use crate::text::text_or;
use vstd::prelude::*;

verus! {

/// The variables of the environment that configure the platform.
#[derive(Debug, PartialEq, Eq)]
pub struct Environment {
    /// `AKURAI_ADMIN_USER`
    pub admin_user: Option<String>,
    /// `AKURAI_ADMIN_PASSWORD`
    pub admin_password: Option<String>,
    /// `AKURAI_LISTEN`
    pub listen_addr: Option<String>,
    /// `AKURAI_STATIC_DIR`
    pub static_dir: Option<String>,
    /// `AKURAI_BASE_URL`
    pub base_url: Option<String>,
    /// `AKURAI_OIDC_ISSUER`
    pub oidc_issuer: Option<String>,
    /// `AKURAI_OIDC_CLIENT_ID`
    pub oidc_client_id: Option<String>,
    /// `AKURAI_OIDC_CLIENT_SECRET`
    pub oidc_client_secret: Option<String>,
}

/// The configuration.
#[derive(Debug, PartialEq, Eq)]
pub struct Config {
    pub admin_user: String,
    pub admin_password: String,
    pub listen_addr: String,
    pub static_dir: String,
    pub base_url: String,
    pub oidc_issuer: String,
    pub oidc_client_id: String,
    pub oidc_client_secret: String,
}

fn or_default(value: &Option<String>, default: &str) -> (r: String)
    ensures
        r@ == text_or(*value, default@),
{
    match value {
        Some(s) => s.clone(),
        None => default.to_owned(),
    }
}

/// What a configuration holds.
pub ghost struct ConfigTree {
    pub admin_user: Seq<char>,
    pub admin_password: Seq<char>,
    pub listen_addr: Seq<char>,
    pub static_dir: Seq<char>,
    pub base_url: Seq<char>,
    pub oidc_issuer: Seq<char>,
    pub oidc_client_id: Seq<char>,
    pub oidc_client_secret: Seq<char>,
}

impl View for Config {
    type V = ConfigTree;

    open spec fn view(&self) -> ConfigTree {
        ConfigTree {
            admin_user: self.admin_user@,
            admin_password: self.admin_password@,
            listen_addr: self.listen_addr@,
            static_dir: self.static_dir@,
            base_url: self.base_url@,
            oidc_issuer: self.oidc_issuer@,
            oidc_client_id: self.oidc_client_id@,
            oidc_client_secret: self.oidc_client_secret@,
        }
    }
}

/// The configuration that an environment gives: what it leaves open has a
/// default.
pub open spec fn config_of(env: Environment) -> ConfigTree {
    ConfigTree {
        admin_user: text_or(env.admin_user, "admin"@),
        admin_password: text_or(env.admin_password, ""@),
        listen_addr: text_or(env.listen_addr, "127.0.0.1:3000"@),
        static_dir: text_or(env.static_dir, "./static"@),
        base_url: text_or(env.base_url, "https://mail.olibuijr.com"@),
        oidc_issuer: text_or(env.oidc_issuer, "https://auth.olibuijr.com"@),
        oidc_client_id: text_or(env.oidc_client_id, ""@),
        oidc_client_secret: text_or(env.oidc_client_secret, ""@),
    }
}

/// Reads the configuration from an environment.
pub fn get(env: &Environment) -> (r: Config)
    ensures
        r@ == config_of(*env),
{
    Config {
        admin_user: or_default(&env.admin_user, "admin"),
        admin_password: or_default(&env.admin_password, ""),
        listen_addr: or_default(&env.listen_addr, "127.0.0.1:3000"),
        static_dir: or_default(&env.static_dir, "./static"),
        base_url: or_default(&env.base_url, "https://mail.olibuijr.com"),
        oidc_issuer: or_default(&env.oidc_issuer, "https://auth.olibuijr.com"),
        oidc_client_id: or_default(&env.oidc_client_id, ""),
        oidc_client_secret: or_default(&env.oidc_client_secret, ""),
    }
}

impl Config {
    /// Another configuration with the same values.
    pub fn copy(&self) -> (r: Config)
        ensures
            r@ == self@,
    {
        Config {
            admin_user: self.admin_user.clone(),
            admin_password: self.admin_password.clone(),
            listen_addr: self.listen_addr.clone(),
            static_dir: self.static_dir.clone(),
            base_url: self.base_url.clone(),
            oidc_issuer: self.oidc_issuer.clone(),
            oidc_client_id: self.oidc_client_id.clone(),
            oidc_client_secret: self.oidc_client_secret.clone(),
        }
    }
}

/// The configuration in use: it is read once, when it is first asked for.
pub struct Settings {
    kept: Option<Config>,
}

impl View for Settings {
    type V = Option<ConfigTree>;

    closed spec fn view(&self) -> Option<ConfigTree> {
        match self.kept {
            Some(c) => Some(c@),
            None => None,
        }
    }
}

/// The configuration that is in use once it was asked for.
pub open spec fn in_use(kept: Option<ConfigTree>, env: Environment) -> ConfigTree {
    match kept {
        Some(c) => c,
        None => config_of(env),
    }
}

impl Settings {
    /// No configuration yet.
    pub fn new() -> (r: Settings)
        ensures
            r@ is None,
    {
        Settings { kept: None }
    }

    /// The configuration in use, which is read from the environment if it was
    /// not read before.
    pub fn get(&mut self, env: &Environment) -> (r: Config)
        ensures
            r@ == in_use(old(self)@, *env),
            final(self)@ == Some(r@),
    {
        let found = match &self.kept {
            Some(c) => c.copy(),
            None => get(env),
        };
        self.kept = Some(found.copy());
        found
    }
}

/// The configuration in use after it was asked for in environments, one after
/// another.
pub open spec fn in_use_after(envs: Seq<Environment>) -> Option<ConfigTree>
    decreases envs.len(),
{
    if envs.len() == 0 {
        None
    } else {
        Some(in_use(in_use_after(envs.drop_last()), envs.last()))
    }
}

/// The configuration stays what the environment gave when it was first asked
/// for, whatever the environment is later.
pub proof fn law_configuration_stays(envs: Seq<Environment>)
    requires
        envs.len() > 0,
    ensures
        in_use_after(envs) == Some(config_of(envs[0])),
    decreases envs.len(),
{
    if envs.len() > 1 {
        law_configuration_stays(envs.drop_last());
    } else {
        assert(in_use_after(envs.drop_last()) is None);
    }
}

/// Where the identity provider sends users back to.
pub open spec fn redirect_uri_of(cfg: Config) -> Seq<char> {
    cfg.base_url@ + "/auth/oidc/callback"@
}

/// Where the identity provider sends users back to.
pub fn oidc_redirect_uri(cfg: &Config) -> (r: String)
    ensures
        r@ == redirect_uri_of(*cfg),
{
    let mut out = cfg.base_url.clone();
    out.append("/auth/oidc/callback");
    out
}

/// Whether an identity provider is configured.
pub fn oidc_enabled(cfg: &Config) -> (r: bool)
    ensures
        r == (cfg.oidc_client_id@.len() > 0),
{
    !cfg.oidc_client_id.as_str().is_empty()
}

} // verus!
