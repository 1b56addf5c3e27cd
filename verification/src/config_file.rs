//! Resolution of the run configuration from command-line options and an
//! optional configuration file.
//!
//! Reading the file itself is the caller's concern; the resolution here is
//! pure: every option set on the command line wins over the file's value,
//! and without a file the host, port and language options are required.

use vstd::prelude::*;

use crate::args::Args;
use crate::check_file::opt_strings_view;
use crate::{LanguageToolConfig, SpellcheckConfig};

verus! {

/// The run's full configuration.
#[derive(Debug, Clone, Default)]
pub struct Config {
    pub languagetool_config: LanguageToolConfig,
    pub spellcheck_config: SpellcheckConfig,
}

/// Why a configuration cannot be resolved: without a configuration file
/// the host, port and language options are required.
#[derive(Debug, Clone, Copy, PartialEq, Eq, Structural)]
pub enum ConfigError {
    RequiredOptions,
}

impl Config {
    /// Resolve the run configuration: each command-line option overrides
    /// the file's value; a missing file stands for an empty one, but then
    /// host, port and language must all be given on the command line.
    pub fn from_args_and_file(args: Args, config_file: Option<Config>) -> (r: Result<
        Config,
        ConfigError,
    >)
        ensures
            r is Ok <==> (config_file is Some || (args.host is Some && args.port is Some
                && args.language is Some)),
            r matches Ok(c) ==> {
                &&& c.languagetool_config.host@ == (match args.host {
                    Some(h) => h@,
                    None => file_host_view(config_file),
                })
                &&& c.languagetool_config.port == (match args.port {
                    Some(p) => p,
                    None => file_port(config_file),
                })
                &&& c.languagetool_config.language@ == (match args.language {
                    Some(l) => l@,
                    None => file_language_view(config_file),
                })
                &&& opt_strings_view(c.languagetool_config.disabled_rules) == (match args
                    .disabed_rules {
                    Some(v) => opt_strings_view(Some(v)),
                    None => file_disabled_rules_view(config_file),
                })
                &&& opt_strings_view(c.languagetool_config.disabled_categories) == (match args
                    .disabed_categories {
                    Some(v) => opt_strings_view(Some(v)),
                    None => file_disabled_categories_view(config_file),
                })
                &&& c.languagetool_config.picky == (match args.picky {
                    Some(p) => Some(p),
                    None => file_picky(config_file),
                })
                &&& opt_strings_view(c.spellcheck_config.ignore_words) == (match args
                    .ignore_words {
                    Some(v) => opt_strings_view(Some(v)),
                    None => file_ignore_words_view(config_file),
                })
            },
    {
        let file = match config_file {
            Some(c) => c,
            None => {
                // Without a file, host, port and language must be given.
                if args.host.is_none() || args.port.is_none() || args.language.is_none() {
                    return Err(ConfigError::RequiredOptions);
                }
                empty_config()
            },
        };

        let languagetool_config = LanguageToolConfig {
            host: match args.host {
                Some(h) => h,
                None => file.languagetool_config.host,
            },
            port: match args.port {
                Some(p) => p,
                None => file.languagetool_config.port,
            },
            language: match args.language {
                Some(l) => l,
                None => file.languagetool_config.language,
            },
            disabled_rules: match args.disabed_rules {
                Some(v) => Some(v),
                None => file.languagetool_config.disabled_rules,
            },
            disabled_categories: match args.disabed_categories {
                Some(v) => Some(v),
                None => file.languagetool_config.disabled_categories,
            },
            picky: match args.picky {
                Some(p) => Some(p),
                None => file.languagetool_config.picky,
            },
        };

        let spellcheck_config = SpellcheckConfig {
            ignore_words: match args.ignore_words {
                Some(v) => Some(v),
                None => file.spellcheck_config.ignore_words,
            },
        };

        Ok(Config { languagetool_config, spellcheck_config })
    }
}

/// The host an absent or present file supplies: empty when absent.
pub open spec fn file_host_view(cf: Option<Config>) -> Seq<char> {
    match cf {
        Some(f) => f.languagetool_config.host@,
        None => Seq::empty(),
    }
}

/// The port an absent or present file supplies: zero when absent.
pub open spec fn file_port(cf: Option<Config>) -> u16 {
    match cf {
        Some(f) => f.languagetool_config.port,
        None => 0,
    }
}

/// The language an absent or present file supplies: empty when absent.
pub open spec fn file_language_view(cf: Option<Config>) -> Seq<char> {
    match cf {
        Some(f) => f.languagetool_config.language@,
        None => Seq::empty(),
    }
}

/// The disabled-rule list an absent or present file supplies.
pub open spec fn file_disabled_rules_view(cf: Option<Config>) -> Option<Seq<Seq<char>>> {
    match cf {
        Some(f) => opt_strings_view(f.languagetool_config.disabled_rules),
        None => None,
    }
}

/// The disabled-category list an absent or present file supplies.
pub open spec fn file_disabled_categories_view(cf: Option<Config>) -> Option<Seq<Seq<char>>> {
    match cf {
        Some(f) => opt_strings_view(f.languagetool_config.disabled_categories),
        None => None,
    }
}

/// The strictness flag an absent or present file supplies.
pub open spec fn file_picky(cf: Option<Config>) -> Option<bool> {
    match cf {
        Some(f) => f.languagetool_config.picky,
        None => None,
    }
}

/// The ignore-word list an absent or present file supplies.
pub open spec fn file_ignore_words_view(cf: Option<Config>) -> Option<Seq<Seq<char>>> {
    match cf {
        Some(f) => opt_strings_view(f.spellcheck_config.ignore_words),
        None => None,
    }
}

/// Build the configuration an absent file stands for.
fn empty_config() -> (r: Config)
    ensures
        r.languagetool_config.host@ == Seq::<char>::empty(),
        r.languagetool_config.port == 0,
        r.languagetool_config.language@ == Seq::<char>::empty(),
        r.languagetool_config.disabled_rules is None,
        r.languagetool_config.disabled_categories is None,
        r.languagetool_config.picky is None,
        r.spellcheck_config.ignore_words is None,
{
    Config {
        languagetool_config: LanguageToolConfig {
            host: String::new(),
            port: 0,
            language: String::new(),
            disabled_rules: None,
            disabled_categories: None,
            picky: None,
        },
        spellcheck_config: SpellcheckConfig { ignore_words: None },
    }
}

} // verus!
