//! Remote host records: the label, address, account and way of
//! authenticating that the backend reads to establish a session.  The
//! backend never mutates a host record; the surrounding application owns
//! the collection and its persistence.

use vstd::prelude::*;

verus! {

/// How a remote host authenticates: a password asked for on demand, or a
/// key read from its default place or from an explicit path.
#[derive(Clone, Debug)]
pub enum AuthType {
    Password,
    Key { path: Option<String> },
}

impl AuthType {
    /// A short human-readable rendering of the authentication method.
    pub fn label(&self) -> (r: String)
        ensures
            (match self {
                AuthType::Password => r@ == "Password"@,
                AuthType::Key { path: Some(p) } => r@ == "SSH Key ("@ + p@ + ")"@,
                AuthType::Key { path: None } => r@ == "SSH Key (default)"@,
            }),
    {
        match self {
            AuthType::Password => "Password".to_owned(),
            AuthType::Key { path: Some(p) } => {
                let mut r = "SSH Key (".to_owned();
                r.append(p.as_str());
                r.append(")");
                proof {
                    assert(("SSH Key ("@ + p@) + ")"@ =~= "SSH Key ("@ + p@ + ")"@);
                }
                r
            },
            AuthType::Key { path: None } => "SSH Key (default)".to_owned(),
        }
    }
}

/// A remote host: unique user-chosen label, address, account name, and
/// authentication method.
#[derive(Clone, Debug)]
pub struct RemoteHost {
    pub name: String,
    pub hostname: String,
    pub username: String,
    pub auth_type: AuthType,
}

impl RemoteHost {
    /// Builds a host record from its parts, unchanged.
    pub fn new(name: String, hostname: String, username: String, auth_type: AuthType) -> (r:
        RemoteHost)
        ensures
            r.name == name,
            r.hostname == hostname,
            r.username == username,
            r.auth_type == auth_type,
    {
        RemoteHost { name, hostname, username, auth_type }
    }

    /// The `user@host` form used to open a connection.
    pub fn connection_string(&self) -> (r: String)
        ensures
            r@ == self.username@ + "@"@ + self.hostname@,
    {
        let mut r = self.username.clone();
        r.append("@");
        r.append(self.hostname.as_str());
        proof {
            assert((self.username@ + "@"@) + self.hostname@ =~= self.username@ + "@"@
                + self.hostname@);
        }
        r
    }

    /// The label with the connection target in parentheses.
    pub fn display_name(&self) -> (r: String)
        ensures
            r@ == self.name@ + " ("@ + self.username@ + "@"@ + self.hostname@ + ")"@,
    {
        let mut r = self.name.clone();
        r.append(" (");
        let conn = self.connection_string();
        r.append(conn.as_str());
        r.append(")");
        proof {
            assert(((self.name@ + " ("@) + (self.username@ + "@"@ + self.hostname@)) + ")"@
                =~= self.name@ + " ("@ + self.username@ + "@"@ + self.hostname@ + ")"@);
        }
        r
    }

    /// Whether this host authenticates with a password.
    pub fn is_password_auth(&self) -> (r: bool)
        ensures
            r == (self.auth_type is Password),
    {
        matches!(self.auth_type, AuthType::Password)
    }

    /// Whether this host authenticates with a key.
    pub fn is_key_auth(&self) -> (r: bool)
        ensures
            r == (self.auth_type is Key),
    {
        matches!(self.auth_type, AuthType::Key { .. })
    }

    /// The explicit key path, when key authentication names one.
    pub fn key_path(&self) -> (r: Option<&String>)
        ensures
            (match self.auth_type {
                AuthType::Key { path: Some(p) } => (r matches Some(q) && q@ == p@),
                _ => r is None,
            }),
    {
        match &self.auth_type {
            AuthType::Key { path } => path.as_ref(),
            _ => None,
        }
    }
}

} // verus!
