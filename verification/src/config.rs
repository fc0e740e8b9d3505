//! The server's settings.

use crate::text::{
    copy_texts, lemma_texts_push, parse_unsigned, split, split_text, text_of, texts, to_chars,
    trim, trimmed, unsigned_of,
};
use vstd::prelude::*;

verus! {

/// Where the job store lies unless the environment says otherwise.
pub const DEFAULT_DB_PATH: &'static str = "data/jobs.sqlite";

/// The port that the server listens on unless the environment says otherwise.
pub const DEFAULT_SERVER_PORT: u16 = 4697;

/// The server's settings.
#[derive(Debug, PartialEq, Eq)]
pub struct Config {
    pub db_path: String,
    pub server_port: u16,
    pub allowed_origins: Vec<String>,
}

/// The settings as plain values.
pub ghost struct ConfigView {
    pub db_path: Seq<char>,
    pub server_port: nat,
    pub allowed_origins: Seq<Seq<char>>,
}

impl View for Config {
    type V = ConfigView;

    open spec fn view(&self) -> ConfigView {
        ConfigView {
            db_path: self.db_path@,
            server_port: self.server_port as nat,
            allowed_origins: texts(self.allowed_origins@),
        }
    }
}

/// The port that a text names: a decimal number of at most 16 bits.
pub open spec fn port_of(text: Seq<char>) -> Option<nat> {
    match unsigned_of(text) {
        Some(v) => if v <= u16::MAX {
            Some(v)
        } else {
            None
        },
        None => None,
    }
}

/// Each of `items` without the white space around it, except those that are empty then.
pub open spec fn named_items(items: Seq<Seq<char>>) -> Seq<Seq<char>>
    decreases items.len(),
{
    if items.len() == 0 {
        Seq::<Seq<char>>::empty()
    } else if trimmed(items.last()).len() == 0 {
        named_items(items.drop_last())
    } else {
        named_items(items.drop_last()).push(trimmed(items.last()))
    }
}

/// The origins that a list with commas names.
pub open spec fn origins_of(list: Seq<char>) -> Seq<Seq<char>> {
    named_items(split_text(list, ','))
}

/// The settings that the values of the environment give: a value that is
/// not set stands for its default, and no origin is allowed unless it is
/// listed. `None` where the port is set and is no port.
pub open spec fn settings_of(
    db_path: Option<Seq<char>>,
    server_port: Option<Seq<char>>,
    allowed_origins: Option<Seq<char>>,
) -> Option<ConfigView> {
    let port = match server_port {
        Some(text) => port_of(text),
        None => Some(DEFAULT_SERVER_PORT as nat),
    };
    match port {
        Some(p) => Some(
            ConfigView {
                db_path: match db_path {
                    Some(path) => path,
                    None => DEFAULT_DB_PATH@,
                },
                server_port: p,
                allowed_origins: match allowed_origins {
                    Some(list) => origins_of(list),
                    None => origins_of(Seq::<char>::empty()),
                },
            },
        ),
        None => None,
    }
}

/// The settings as plain values, if there are any.
pub open spec fn config_of(config: Option<Config>) -> Option<ConfigView> {
    match config {
        Some(c) => Some(c@),
        None => None,
    }
}

impl Clone for Config {
    fn clone(&self) -> (copy: Config)
        ensures
            copy@ == self@,
    {
        Config {
            db_path: self.db_path.clone(),
            server_port: self.server_port,
            allowed_origins: copy_texts(&self.allowed_origins),
        }
    }
}

impl Config {
    /// The settings that the values of `DB_PATH`, `SERVER_PORT` and
    /// `ALLOWED_ORIGINS` give, each `None` where the variable is not set.
    pub fn from_values(
        db_path: Option<String>,
        server_port: Option<String>,
        allowed_origins: Option<String>,
    ) -> (config: Option<Config>)
        ensures
            config_of(config) == settings_of(
                text_of(db_path),
                text_of(server_port),
                text_of(allowed_origins),
            ),
    {
        let port: u16 = match server_port {
            Some(text) => match parse_unsigned(text.as_str(), 0xffff) {
                Some(p) => p as u16,
                None => {
                    return None;
                },
            },
            None => DEFAULT_SERVER_PORT,
        };
        let path: String = match db_path {
            Some(path) => path,
            None => DEFAULT_DB_PATH.to_owned(),
        };
        let list: String = match allowed_origins {
            Some(list) => list,
            None => String::new(),
        };
        let items = split(list.as_str(), ',');
        let mut origins: Vec<String> = Vec::new();
        let n: usize = items.len();
        let ghost all = texts(items@);
        let mut i: usize = 0;
        proof {
            assert(all.take(0) =~= Seq::<Seq<char>>::empty());
            assert(texts(origins@) =~= Seq::<Seq<char>>::empty());
        }
        while i < n
            invariant
                i <= n,
                n == items.len(),
                all == texts(items@),
                texts(origins@) == named_items(all.take(i as int)),
            decreases n - i,
        {
            proof {
                assert(all.take(i + 1).drop_last() =~= all.take(i as int));
                assert(all.take(i + 1).last() == items@[i as int]@);
            }
            let origin = trim(items[i].as_str());
            let chars = to_chars(origin.as_str());
            if chars.len() > 0 {
                let ghost before = origins@;
                origins.push(origin);
                proof {
                    lemma_texts_push(before, origin);
                }
            }
            i = i + 1;
        }
        proof {
            assert(all.take(n as int) =~= all);
        }
        Some(Config { db_path: path, server_port: port, allowed_origins: origins })
    }
}

} // verus!
