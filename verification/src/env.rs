use vstd::prelude::*;

verus! {

/// The process configuration, read once at start and passed to whatever
/// needs it: no ambient global state.
#[derive(Debug)]
pub struct Env {
    pub database_url: String,
    pub stripe_secret: String,
    /// The webhook signing secret the verifier checks signatures with.
    pub stripe_key: String,
    pub completion_redirect: String,
    pub mail_user: String,
    pub mail_pass: String,
    pub admin_pass: String,
}

impl Env {
    /// Bundles the configuration values the process was started with.
    pub fn new(
        database_url: String,
        stripe_secret: String,
        stripe_key: String,
        completion_redirect: String,
        mail_user: String,
        mail_pass: String,
        admin_pass: String,
    ) -> (r: Env)
        ensures
            r.database_url == database_url,
            r.stripe_secret == stripe_secret,
            r.stripe_key == stripe_key,
            r.completion_redirect == completion_redirect,
            r.mail_user == mail_user,
            r.mail_pass == mail_pass,
            r.admin_pass == admin_pass,
    {
        Env {
            database_url,
            stripe_secret,
            stripe_key,
            completion_redirect,
            mail_user,
            mail_pass,
            admin_pass,
        }
    }
}

/// Is `pass` the admin password the configuration holds?
pub fn is_valid_password(pass: &str, env: &Env) -> (r: bool)
    ensures
        r == (pass@ == env.admin_pass@),
{
    let owned: String = pass.to_owned();
    env.admin_pass.eq(&owned)
}

} // verus!
