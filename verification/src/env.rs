//! The service's configuration, read from environment variables.
//!
//! The values of the variables are handed in as text (`None` where a variable is not
//! set); each setting either takes the value written there or falls back to its default.

use vstd::prelude::*;
use std::path::PathBuf;
use crate::num::{parse_unsigned, parse_unsigned_spec};
use crate::result::Error;
use crate::text::{comma_count, join_commas, lemma_split_join, split_commas, split_commas_exec};

verus! {

pub const BLOCK_TIME: &'static str = "BLOCK_TIME";
pub const CHECKING_INTERVAL: &'static str = "CHECKING_INTERVAL";
pub const DB_PATH: &'static str = "DB_PATH";
pub const ENDPOINTS: &'static str = "ENDPOINTS";
pub const POLLING_BATCH_BLOCKS: &'static str = "POLLING_BATCH_BLOCKS";
pub const POLLING_RETRY_TIMES: &'static str = "POLLING_RETRY_TIMES";
pub const POLLING_SAFE_BLOCKS: &'static str = "POLLING_SAFE_BLOCKS";
pub const POLLING_TIMEOUT: &'static str = "POLLING_TIMEOUT";

/// The storage path below the user's data directory that is used when `DB_PATH` is not set;
/// the caller joins it onto the data directory (the separator depends on the platform).
pub const DEFAULT_DB_PATH: &'static str = "thegarii/thegarii.db";

/// The endpoint that is used when `ENDPOINTS` is not set.
pub const DEFAULT_ENDPOINTS: &'static str = "https://arweave.net";

/// `std::path::PathBuf`, carried through the configuration as it is.
#[verifier::external_type_specification]
#[verifier::external_body]
pub struct ExPathBuf(PathBuf);

/// The path that `PathBuf::from` makes of a text.
pub uninterp spec fn path_from_text(s: Seq<char>) -> PathBuf;

/// `PathBuf::from(s)`: the path is a function of the text alone.
#[verifier::external_body]
fn path_from(s: &str) -> (p: PathBuf)
    ensures
        p == path_from_text(s@),
{
    PathBuf::from(s)
}

/// The text of an environment variable, where it is set.
pub open spec fn raw_view(raw: Option<&str>) -> Option<Seq<char>> {
    match raw {
        Some(t) => Some(t@),
        None => None,
    }
}

/// A numeric setting: the default where the variable is not set, else the value written
/// there, read as an unsigned integer no larger than `max`.
pub open spec fn numeric_setting(raw: Option<Seq<char>>, default: nat, max: nat) -> Result<nat, Error> {
    match raw {
        None => Ok(default),
        Some(t) => match parse_unsigned_spec(t, max) {
            Ok(v) => Ok(v),
            Err(e) => Err(Error::ParseInt(e)),
        },
    }
}

/// The text of the endpoints: `ENDPOINTS`, or the default endpoint.
pub open spec fn endpoints_text(raw: Option<Seq<char>>) -> Seq<char> {
    match raw {
        Some(t) => t,
        None => DEFAULT_ENDPOINTS@,
    }
}

/// The endpoints: the pieces between commas of their text.
pub open spec fn endpoints_setting(raw: Option<Seq<char>>) -> Seq<Seq<char>> {
    split_commas(endpoints_text(raw))
}

/// Reads a numeric setting.
fn numeric(raw: Option<&str>, default: u64, max: u64) -> (res: Result<u64, Error>)
    requires
        default <= max,
    ensures
        numeric_setting(raw_view(raw), default as nat, max as nat) == (match res {
            Ok(v) => Ok(v as nat),
            Err(e) => Err(e),
        }),
        res matches Ok(v) ==> v <= max,
{
    match raw {
        None => Ok(default),
        Some(t) => match parse_unsigned(t, max) {
            Ok(v) => {
                proof {
                    crate::num::lemma_parse_unsigned_bound(t@, max as nat);
                }
                Ok(v)
            },
            Err(e) => Err(Error::ParseInt(e)),
        },
    }
}

/// The raw values of the environment variables that configure the service; `None` where
/// a variable is not set.
pub struct EnvVars {
    pub block_time: Option<String>,
    pub checking_interval: Option<String>,
    pub db_path: Option<String>,
    pub endpoints: Option<String>,
    pub polling_batch_blocks: Option<String>,
    pub polling_retry_times: Option<String>,
    pub polling_safe_blocks: Option<String>,
    pub polling_timeout: Option<String>,
}

/// The text of an optional `String`.
pub open spec fn string_view(raw: Option<String>) -> Option<Seq<char>> {
    match raw {
        Some(t) => Some(t@),
        None => None,
    }
}

fn as_str_opt(raw: &Option<String>) -> (res: Option<&str>)
    ensures
        raw_view(res) == string_view(*raw),
{
    match raw {
        Some(s) => Some(s.as_str()),
        None => None,
    }
}

/// environments
pub struct Env {
    /// time cost for producing a new block in arweave
    pub block_time: u64,
    /// inverval for checking missed blocks
    pub checking_interval: u64,
    /// storage db path
    pub db_path: PathBuf,
    /// client endpoints
    pub endpoints: Vec<String>,
    /// how many blocks polling at one time
    pub polling_batch_blocks: u16,
    /// safe blocks against to reorg in polling
    pub polling_safe_blocks: u64,
    /// timeout of polling service
    pub polling_timeout: u64,
    /// retry times when failed on http requests
    pub polling_retry_times: u8,
}


/// The setting that `Env::new` fails on first, in the order in which the settings are
/// read, or `None` where every setting can be read.
pub open spec fn first_env_error(vars: EnvVars, has_default_db_path: bool) -> Option<Error> {
    if numeric_setting(string_view(vars.block_time), 10_000, u64::MAX as nat) is Err {
        Some(numeric_setting(string_view(vars.block_time), 10_000, u64::MAX as nat)->Err_0)
    } else if numeric_setting(string_view(vars.checking_interval), 7_200_000, u64::MAX as nat) is Err {
        Some(numeric_setting(string_view(vars.checking_interval), 7_200_000, u64::MAX as nat)->Err_0)
    } else if vars.db_path is None && !has_default_db_path {
        Some(Error::NoDataDirectory)
    } else if numeric_setting(string_view(vars.polling_batch_blocks), 50, u16::MAX as nat) is Err {
        Some(numeric_setting(string_view(vars.polling_batch_blocks), 50, u16::MAX as nat)->Err_0)
    } else if numeric_setting(string_view(vars.polling_retry_times), 20, u8::MAX as nat) is Err {
        Some(numeric_setting(string_view(vars.polling_retry_times), 20, u8::MAX as nat)->Err_0)
    } else if numeric_setting(string_view(vars.polling_safe_blocks), 20, u64::MAX as nat) is Err {
        Some(numeric_setting(string_view(vars.polling_safe_blocks), 20, u64::MAX as nat)->Err_0)
    } else if numeric_setting(string_view(vars.polling_timeout), 30_000, u64::MAX as nat) is Err {
        Some(numeric_setting(string_view(vars.polling_timeout), 30_000, u64::MAX as nat)->Err_0)
    } else {
        None
    }
}

impl Env {
    /// get $BLOCK_TIME from env or use `10_000`
    pub fn block_time(raw: Option<&str>) -> (res: Result<u64, Error>)
        ensures
            numeric_setting(raw_view(raw), 10_000, u64::MAX as nat) == (match res {
                Ok(v) => Ok(v as nat),
                Err(e) => Err(e),
            }),
    {
        numeric(raw, 10_000, u64::MAX)
    }

    /// get $CHECKING_INTERVAL from env or use `7_200_000`
    pub fn checking_interval(raw: Option<&str>) -> (res: Result<u64, Error>)
        ensures
            numeric_setting(raw_view(raw), 7_200_000, u64::MAX as nat) == (match res {
                Ok(v) => Ok(v as nat),
                Err(e) => Err(e),
            }),
    {
        numeric(raw, 7_200_000, u64::MAX)
    }

    /// get $DB_PATH from env or use `$DATA_DIR/thegarii/thegarii.db`; `default_path` is
    /// that path, where the machine has a data directory
    pub fn db_path(raw: Option<&str>, default_path: Option<PathBuf>) -> (res: Result<PathBuf, Error>)
        ensures
            res == (match raw {
                Some(t) => Ok(path_from_text(t@)),
                None => match default_path {
                    Some(p) => Ok(p),
                    None => Err(Error::NoDataDirectory),
                },
            }),
    {
        match raw {
            Some(t) => Ok(path_from(t)),
            None => match default_path {
                Some(p) => Ok(p),
                None => Err(Error::NoDataDirectory),
            },
        }
    }

    /// get $ENDPOINTS from env or use `"https://arweave.net"`; the endpoints are separated
    /// by commas: joined back with commas they give the text, there is one more than there
    /// are commas, and none holds a comma
    pub fn endpoints(raw: Option<&str>) -> (res: Result<Vec<String>, Error>)
        ensures
            res matches Ok(v) && {
                let parts = v@.map_values(|e: String| e@);
                let text = endpoints_text(raw_view(raw));
                &&& parts == endpoints_setting(raw_view(raw))
                &&& join_commas(parts) == text
                &&& parts.len() == comma_count(text) + 1
                &&& forall|i: int, j: int|
                    0 <= i < parts.len() && 0 <= j < parts[i].len() ==> #[trigger] parts[i][j] != ','
            },
    {
        proof {
            lemma_split_join(endpoints_text(raw_view(raw)));
        }
        match raw {
            Some(t) => Ok(split_commas_exec(t)),
            None => Ok(split_commas_exec(DEFAULT_ENDPOINTS)),
        }
    }

    /// get $POLLING_BATCH_BLOCKS from env or use `50`
    pub fn polling_batch_blocks(raw: Option<&str>) -> (res: Result<u16, Error>)
        ensures
            numeric_setting(raw_view(raw), 50, u16::MAX as nat) == (match res {
                Ok(v) => Ok(v as nat),
                Err(e) => Err(e),
            }),
    {
        match numeric(raw, 50, u16::MAX as u64) {
            Ok(v) => Ok(v as u16),
            Err(e) => Err(e),
        }
    }

    /// get $POLLING_RETRY_TIMES from env or use `20`
    pub fn polling_retry_times(raw: Option<&str>) -> (res: Result<u8, Error>)
        ensures
            numeric_setting(raw_view(raw), 20, u8::MAX as nat) == (match res {
                Ok(v) => Ok(v as nat),
                Err(e) => Err(e),
            }),
    {
        match numeric(raw, 20, u8::MAX as u64) {
            Ok(v) => Ok(v as u8),
            Err(e) => Err(e),
        }
    }

    /// get $POLLING_SAFE_BLOCKS from env or use `20`
    pub fn polling_safe_blocks(raw: Option<&str>) -> (res: Result<u64, Error>)
        ensures
            numeric_setting(raw_view(raw), 20, u64::MAX as nat) == (match res {
                Ok(v) => Ok(v as nat),
                Err(e) => Err(e),
            }),
    {
        numeric(raw, 20, u64::MAX)
    }

    /// get $POLLING_TIMEOUT from env or use `30_000`
    pub fn polling_timeout(raw: Option<&str>) -> (res: Result<u64, Error>)
        ensures
            numeric_setting(raw_view(raw), 30_000, u64::MAX as nat) == (match res {
                Ok(v) => Ok(v as nat),
                Err(e) => Err(e),
            }),
    {
        numeric(raw, 30_000, u64::MAX)
    }

    /// new environments, from the raw values of the environment variables and the default
    /// storage path (`$DATA_DIR/thegarii/thegarii.db`, where the machine has a data
    /// directory); the settings are read in the order of the fields of `Env`, and the first
    /// that cannot be read gives the error
    pub fn new(vars: &EnvVars, default_db_path: Option<PathBuf>) -> (res: Result<Self, Error>)
        ensures
            res is Err <==> first_env_error(*vars, default_db_path is Some) is Some,
            res matches Err(e) ==> first_env_error(*vars, default_db_path is Some) == Some(e),
            res matches Ok(env) ==> {
                &&& numeric_setting(string_view(vars.block_time), 10_000, u64::MAX as nat)
                    == Ok::<nat, Error>(env.block_time as nat)
                &&& numeric_setting(string_view(vars.checking_interval), 7_200_000, u64::MAX as nat)
                    == Ok::<nat, Error>(env.checking_interval as nat)
                &&& env.db_path == (match vars.db_path {
                    Some(t) => path_from_text(t@),
                    None => default_db_path.unwrap(),
                })
                &&& env.endpoints@.map_values(|e: String| e@) == endpoints_setting(string_view(vars.endpoints))
                &&& numeric_setting(string_view(vars.polling_batch_blocks), 50, u16::MAX as nat)
                    == Ok::<nat, Error>(env.polling_batch_blocks as nat)
                &&& numeric_setting(string_view(vars.polling_retry_times), 20, u8::MAX as nat)
                    == Ok::<nat, Error>(env.polling_retry_times as nat)
                &&& numeric_setting(string_view(vars.polling_safe_blocks), 20, u64::MAX as nat)
                    == Ok::<nat, Error>(env.polling_safe_blocks as nat)
                &&& numeric_setting(string_view(vars.polling_timeout), 30_000, u64::MAX as nat)
                    == Ok::<nat, Error>(env.polling_timeout as nat)
            },
    {
        let block_time = match Self::block_time(as_str_opt(&vars.block_time)) {
            Ok(v) => v,
            Err(e) => return Err(e),
        };
        let checking_interval = match Self::checking_interval(as_str_opt(&vars.checking_interval)) {
            Ok(v) => v,
            Err(e) => return Err(e),
        };
        let db_path = match Self::db_path(as_str_opt(&vars.db_path), default_db_path) {
            Ok(v) => v,
            Err(e) => return Err(e),
        };
        let endpoints = match Self::endpoints(as_str_opt(&vars.endpoints)) {
            Ok(v) => v,
            Err(e) => return Err(e),
        };
        let polling_batch_blocks = match Self::polling_batch_blocks(as_str_opt(&vars.polling_batch_blocks)) {
            Ok(v) => v,
            Err(e) => return Err(e),
        };
        let polling_retry_times = match Self::polling_retry_times(as_str_opt(&vars.polling_retry_times)) {
            Ok(v) => v,
            Err(e) => return Err(e),
        };
        let polling_safe_blocks = match Self::polling_safe_blocks(as_str_opt(&vars.polling_safe_blocks)) {
            Ok(v) => v,
            Err(e) => return Err(e),
        };
        let polling_timeout = match Self::polling_timeout(as_str_opt(&vars.polling_timeout)) {
            Ok(v) => v,
            Err(e) => return Err(e),
        };
        Ok(Env {
            block_time,
            checking_interval,
            db_path,
            endpoints,
            polling_batch_blocks,
            polling_retry_times,
            polling_safe_blocks,
            polling_timeout,
        })
    }

    /// set db path
    pub fn with_db_path(&mut self, db_path: PathBuf) -> (ret: &mut Self)
        ensures
            *ret == (Env { db_path, ..*old(self) }),
            *final(self) == *final(ret),
    {
        self.db_path = db_path;
        self
    }

    /// set endpoints
    pub fn with_endpoints(&mut self, endpoints: Vec<String>) -> (ret: &mut Self)
        ensures
            *ret == (Env { endpoints, ..*old(self) }),
            *final(self) == *final(ret),
    {
        self.endpoints = endpoints;
        self
    }
}

} // verus!
