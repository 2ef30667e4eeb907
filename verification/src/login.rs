//! The login screen's state: the fields a user fills in and the connect
//! attempt's progress. Rendering it is a presentation concern outside this
//! crate.
use vstd::prelude::*;

verus! {

/// What the login screen holds between frames.
#[derive(Debug)]
pub struct LoginScreen {
    server_url: String,
    username: String,
    password: String,
    remember_credentials: bool,
    error_message: Option<String>,
    connecting: bool,
}

impl LoginScreen {
    /// A fresh login screen, prefilled from the stored configuration.
    pub fn new(server_url: String, username: Option<String>, remember_credentials: bool) -> (r:
        LoginScreen)
        ensures
            r.server_url_spec() == server_url@,
            !r.is_connecting_spec(),
            r.error_spec() is None,
    {
        let name = match username {
            Some(n) => n,
            None => String::new(),
        };
        LoginScreen {
            server_url,
            username: name,
            password: String::new(),
            remember_credentials,
            error_message: None,
            connecting: false,
        }
    }

    /// The server address field, abstractly.
    pub closed spec fn server_url_spec(&self) -> Seq<char> {
        self.server_url@
    }

    /// Whether a connect attempt is in flight.
    pub closed spec fn is_connecting_spec(&self) -> bool {
        self.connecting
    }

    /// The error banner, abstractly.
    pub closed spec fn error_spec(&self) -> Option<Seq<char>> {
        crate::models::opt_str_view(self.error_message)
    }

    /// The credential fields, abstractly.
    pub closed spec fn credentials_spec(&self) -> (Seq<char>, Seq<char>, bool) {
        (self.username@, self.password@, self.remember_credentials)
    }

    /// Shows an error banner and ends the connect attempt.
    pub fn set_error(&mut self, error: String)
        ensures
            final(self).error_spec() == Some(error@),
            !final(self).is_connecting_spec(),
            final(self).server_url_spec() == old(self).server_url_spec(),
            final(self).credentials_spec() == old(self).credentials_spec(),
    {
        self.error_message = Some(error);
        self.connecting = false;
    }

    /// Whether a connect attempt is in flight.
    pub fn is_connecting(&self) -> (r: bool)
        ensures
            r == self.is_connecting_spec(),
    {
        self.connecting
    }

    /// The entered username, password, and whether to remember them.
    pub fn get_credentials(&self) -> (r: (String, String, bool))
        ensures
            (r.0@, r.1@, r.2) == self.credentials_spec(),
    {
        (self.username.clone(), self.password.clone(), self.remember_credentials)
    }

    /// The entered server address.
    pub fn get_server_url(&self) -> (r: &str)
        ensures
            r@ == self.server_url_spec(),
    {
        self.server_url.as_str()
    }
}

} // verus!
