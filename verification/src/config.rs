//! Server configuration.

use crate::text::{parse_unsigned, unsigned_text_value};
use vstd::prelude::*;

verus! {

/// Where the collection is, the port to listen on, and the window length used when a
/// request names none.
#[derive(Debug, Clone)]
pub struct Config {
    pub collection_path: String,
    pub port: u16,
    pub default_days: u32,
}

/// The number a variable's value gives when it is a valid number no greater than `max`,
/// else `default`.
pub open spec fn number_or(value: Option<Seq<char>>, max: nat, default: nat) -> nat {
    match value {
        Some(text) => match unsigned_text_value(text) {
            Some(n) => if n <= max {
                n
            } else {
                default
            },
            None => default,
        },
        None => default,
    }
}

fn number_or_default(value: Option<&str>, max: u32, default: u32) -> (n: u32)
    requires
        default <= max,
    ensures
        n == number_or(
            match value {
                Some(v) => Some(v@),
                None => None,
            },
            max as nat,
            default as nat,
        ),
        n <= max,
{
    match value {
        Some(v) => match parse_unsigned(v, max) {
            Some(n) => n,
            None => default,
        },
        None => default,
    }
}

impl Config {
    /// The configuration from the values of the variables `ANKI_COLLECTION_PATH`, `PORT`
    /// and `DEFAULT_DAYS` (`None` for an unset one): by default "collection.anki2", port
    /// 8080 and 30 days; a port or day count that is not a valid number in range counts as
    /// unset.
    pub fn from_env(
        collection_path: Option<String>,
        port: Option<&str>,
        default_days: Option<&str>,
    ) -> (config: Config)
        ensures
            config.collection_path@ == match collection_path {
                Some(p) => p@,
                None => "collection.anki2"@,
            },
            config.port == number_or(
                match port {
                    Some(v) => Some(v@),
                    None => None,
                },
                u16::MAX as nat,
                8080,
            ),
            config.default_days == number_or(
                match default_days {
                    Some(v) => Some(v@),
                    None => None,
                },
                u32::MAX as nat,
                30,
            ),
    {
        let collection_path = match collection_path {
            Some(p) => p,
            None => String::from_str("collection.anki2"),
        };
        let port = number_or_default(port, 65535, 8080) as u16;
        let default_days = number_or_default(default_days, 4294967295, 30);
        Config { collection_path, port, default_days }
    }
}

} // verus!
