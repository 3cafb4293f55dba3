//! The URL-shortener's startup configuration. Reading the process
//! environment is I/O and happens outside the library; `from_env`
//! takes the variables' values as read — `None` where a variable is
//! unset — validates them in the order the service reads them, and
//! assembles the connection string for the document store.

use vstd::prelude::*;
use vstd::string::StringExecFns;
use crate::text::decimal;
use crate::text::parse_u16;
use crate::text::spec_parse_u16;
use crate::text::u64_to_string;

verus! {

/// The environment variables the service consumes, in the values they
/// had when read.
#[derive(Debug, PartialEq, Eq)]
pub struct EnvValues {
    pub server_port: Option<String>,
    pub server_base_url: Option<String>,
    pub mongo_database: Option<String>,
    pub mongo_username: Option<String>,
    pub mongo_password: Option<String>,
    pub mongo_base_url: Option<String>,
    pub mongo_port: Option<String>,
}

/// Why configuration loading failed.
#[derive(Debug, Clone, Copy, PartialEq, Eq)]
pub enum ConfigError {
    /// A required environment variable was unset.
    MissingVariable,
    /// A port variable was set but is not a 16-bit decimal number.
    InvalidPort,
}

/// The settings the service runs with.
#[derive(Debug, PartialEq, Eq)]
pub struct Config {
    pub server_base_url: String,
    pub server_port: u16,
    pub mongo_uri: String,
    pub mongo_database: String,
}

impl Clone for Config {
    fn clone(&self) -> (res: Config)
        ensures
            res == *self,
    {
        Config {
            server_base_url: self.server_base_url.clone(),
            server_port: self.server_port,
            mongo_uri: self.mongo_uri.clone(),
            mongo_database: self.mongo_database.clone(),
        }
    }
}

/// The document-store connection string assembled from its parts.
pub open spec fn spec_mongo_uri(
    user: Seq<char>,
    pass: Seq<char>,
    host: Seq<char>,
    port: nat,
    db: Seq<char>,
) -> Seq<char> {
    "mongodb://"@ + user + ":"@ + pass + "@"@ + host + ":"@ + decimal(port) + "/"@ + db
}

impl Config {
    /// Validate the environment values in the order the service reads
    /// them: the server port first (missing, then malformed), then the
    /// remaining variables for presence, then the store port's number.
    pub fn from_env(vars: EnvValues) -> (r: Result<Config, ConfigError>)
        ensures
            ({
                let sp = vars.server_port;
                let burl = vars.server_base_url;
                let db = vars.mongo_database;
                let user = vars.mongo_username;
                let pass = vars.mongo_password;
                let mhost = vars.mongo_base_url;
                let mp = vars.mongo_port;
                let rest_present = burl is Some && db is Some && user is Some && pass is Some
                    && mhost is Some && mp is Some;
                match r {
                    Ok(c) => sp is Some && spec_parse_u16(sp.unwrap()@) is Some && rest_present
                        && spec_parse_u16(mp.unwrap()@) is Some && c.server_port
                        == spec_parse_u16(sp.unwrap()@).unwrap() && c.server_base_url@
                        == burl.unwrap()@ && c.mongo_database@ == db.unwrap()@ && c.mongo_uri@
                        == spec_mongo_uri(
                        user.unwrap()@,
                        pass.unwrap()@,
                        mhost.unwrap()@,
                        spec_parse_u16(mp.unwrap()@).unwrap() as nat,
                        db.unwrap()@,
                    ),
                    Err(ConfigError::MissingVariable) => sp is None || (spec_parse_u16(
                        sp.unwrap()@,
                    ) is Some && !rest_present),
                    Err(ConfigError::InvalidPort) => (sp is Some && spec_parse_u16(
                        sp.unwrap()@,
                    ) is None) || (sp is Some && spec_parse_u16(sp.unwrap()@) is Some
                        && rest_present && spec_parse_u16(mp.unwrap()@) is None),
                }
            }),
    {
        let sp = match vars.server_port {
            Some(v) => v,
            None => {
                return Err(ConfigError::MissingVariable);
            },
        };
        let server_port = match parse_u16(sp.as_str()) {
            Some(p) => p,
            None => {
                return Err(ConfigError::InvalidPort);
            },
        };
        let server_base_url = match vars.server_base_url {
            Some(v) => v,
            None => {
                return Err(ConfigError::MissingVariable);
            },
        };
        let mongo_database = match vars.mongo_database {
            Some(v) => v,
            None => {
                return Err(ConfigError::MissingVariable);
            },
        };
        let mongo_username = match vars.mongo_username {
            Some(v) => v,
            None => {
                return Err(ConfigError::MissingVariable);
            },
        };
        let mongo_password = match vars.mongo_password {
            Some(v) => v,
            None => {
                return Err(ConfigError::MissingVariable);
            },
        };
        let mongo_base_url = match vars.mongo_base_url {
            Some(v) => v,
            None => {
                return Err(ConfigError::MissingVariable);
            },
        };
        let mp = match vars.mongo_port {
            Some(v) => v,
            None => {
                return Err(ConfigError::MissingVariable);
            },
        };
        let mongo_port = match parse_u16(mp.as_str()) {
            Some(p) => p,
            None => {
                return Err(ConfigError::InvalidPort);
            },
        };
        let mut mongo_uri = "mongodb://".to_owned();
        mongo_uri.append(mongo_username.as_str());
        mongo_uri.append(":");
        mongo_uri.append(mongo_password.as_str());
        mongo_uri.append("@");
        mongo_uri.append(mongo_base_url.as_str());
        mongo_uri.append(":");
        let port_text = u64_to_string(mongo_port as u64);
        mongo_uri.append(port_text.as_str());
        mongo_uri.append("/");
        mongo_uri.append(mongo_database.as_str());
        proof {
            assert(mongo_uri@ =~= spec_mongo_uri(
                vars.mongo_username.unwrap()@,
                vars.mongo_password.unwrap()@,
                vars.mongo_base_url.unwrap()@,
                spec_parse_u16(vars.mongo_port.unwrap()@).unwrap() as nat,
                vars.mongo_database.unwrap()@,
            ));
        }
        Ok(Config { server_base_url, server_port, mongo_uri, mongo_database })
    }
}

} // verus!
