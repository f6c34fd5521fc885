//! The resolution policy: which settings apply to a launch request.
//!
//! A request names an alias and a program. An alias other than the reserved
//! one is looked up in the local configuration and nowhere else. The
//! reserved alias asks for dynamic resolution: the remote configuration is
//! consulted if the last refresh is more than an hour ago, and the fallback
//! decides where the remote configuration has nothing to say.

use crate::config::{PoliteConfig, DYNAMIC_ALIAS};
use crate::mapping::ConfigMapping;
use crate::number::{append_decimal, decimal};
use crate::oracle::{fallback_config, mock_llm_decision};
use vstd::prelude::*;
use vstd::string::StringExecFns;

verus! {

/// How long a remote configuration stays fresh, in seconds.
pub const REFRESH_INTERVAL_SECS: u64 = 3600;

/// The alias that is looked up in a remote configuration.
pub const WELL_KNOWN_ALIAS: i8 = 65;

/// Where the settings of a request are looked for first.
#[derive(Clone, Copy, Debug, PartialEq, Eq, Structural)]
pub enum Source {
    /// In the local configuration.
    Local,
    /// In the remote configuration, which is to be fetched.
    Remote,
    /// Nowhere: the fallback decides.
    Fallback,
}

/// Tells whether the remote configuration is due for a refresh at time
/// `now`: it was never fetched, or more than the refresh interval has gone
/// by since. Times are in seconds.
pub open spec fn refresh_is_due(now: u64, last_fetch: Option<u64>) -> bool {
    match last_fetch {
        None => true,
        Some(then) => now - then > REFRESH_INTERVAL_SECS,
    }
}

/// Where the settings for `alias` are looked for first.
pub open spec fn source_for(alias: i8, now: u64, last_fetch: Option<u64>) -> Source {
    if alias != DYNAMIC_ALIAS {
        Source::Local
    } else if refresh_is_due(now, last_fetch) {
        Source::Remote
    } else {
        Source::Fallback
    }
}

/// Decides where the settings for `alias` are looked for first, at time
/// `now` and with the remote configuration last fetched at `last_fetch`.
pub fn choose_source(alias: i8, now: u64, last_fetch: Option<u64>) -> (s: Source)
    ensures
        s == source_for(alias, now, last_fetch),
{
    if alias != DYNAMIC_ALIAS {
        return Source::Local;
    }
    let due = match last_fetch {
        None => true,
        Some(then) => now > then && now - then > REFRESH_INTERVAL_SECS,
    };
    if due {
        Source::Remote
    } else {
        Source::Fallback
    }
}

/// The reserved alias is never looked up in the local configuration, and
/// every other alias is looked up there and nowhere else, at whatever time.
pub proof fn lemma_reserved_alias_is_dynamic(alias: i8, now: u64, last_fetch: Option<u64>)
    ensures
        source_for(alias, now, last_fetch) == Source::Local <==> alias != DYNAMIC_ALIAS,
{
}

/// Why a request could not be resolved.
#[derive(Clone, Copy, Debug, PartialEq, Eq, Structural)]
pub enum ResolutionError {
    /// The local configuration has no record for the alias.
    AliasNotFound(i8),
}

impl ResolutionError {
    /// The message of the error.
    pub open spec fn text(self) -> Seq<char> {
        match self {
            ResolutionError::AliasNotFound(alias) => "Alias "@ + decimal(alias as int)
                + " not found"@,
        }
    }

    /// The message of the error.
    pub fn message(&self) -> (s: String)
        ensures
            s@ == self.text(),
    {
        match self {
            ResolutionError::AliasNotFound(alias) => {
                let mut s = String::from_str("Alias ");
                append_decimal(&mut s, *alias as i32);
                s.append(" not found");
                s
            },
        }
    }
}

/// Resolves `alias` in the local configuration. The local configuration is
/// authoritative: where it has no record, the request fails, and nothing
/// else is tried.
pub fn resolve_local(configs: &ConfigMapping, alias: i8) -> (r: Result<
    PoliteConfig,
    ResolutionError,
>)
    ensures
        r == if configs@.contains_key(alias) {
            Ok::<PoliteConfig, ResolutionError>(configs@[alias])
        } else {
            Err::<PoliteConfig, ResolutionError>(ResolutionError::AliasNotFound(alias))
        },
        r matches Ok(config) ==> config.valid(),
{
    match configs.get(alias) {
        Some(config) => Ok(config),
        None => Err(ResolutionError::AliasNotFound(alias)),
    }
}

/// Who decided on the settings of a dynamic resolution.
#[derive(Clone, Copy, Debug, PartialEq, Eq, Structural)]
pub enum Origin {
    /// The remote configuration had a record.
    Remote,
    /// The fallback decided.
    Fallback,
}

/// The outcome of a dynamic resolution.
#[derive(Clone, Copy, Debug, PartialEq, Eq, Structural)]
pub struct Resolution {
    /// The settings that apply.
    pub config: PoliteConfig,
    /// Who decided on them.
    pub origin: Origin,
}

/// What dynamic resolution gives for `program`, with `fetched` the remote
/// configuration, or nothing where it was not fetched or the fetch failed:
/// the record of the well-known alias where there is one, else what the
/// fallback decides.
pub open spec fn dynamic_resolution(
    fetched: Option<Map<i8, PoliteConfig>>,
    program: Seq<char>,
) -> Resolution {
    match fetched {
        Some(m) if m.contains_key(WELL_KNOWN_ALIAS) => Resolution {
            config: m[WELL_KNOWN_ALIAS],
            origin: Origin::Remote,
        },
        _ => Resolution { config: fallback_config(program), origin: Origin::Fallback },
    }
}

/// The keys and values of a mapping that may be missing.
pub open spec fn fetched_view(fetched: Option<&ConfigMapping>) -> Option<Map<i8, PoliteConfig>> {
    match fetched {
        Some(m) => Some(m@),
        None => None,
    }
}

/// Resolves the reserved alias for `program`. `fetched` is the remote
/// configuration; it is missing where the refresh was not due or the fetch
/// failed. There is always an outcome.
pub fn resolve_dynamic(fetched: Option<&ConfigMapping>, program: &str) -> (r: Resolution)
    ensures
        r == dynamic_resolution(fetched_view(fetched), program@),
        r.config.valid(),
{
    if let Some(configs) = fetched {
        if let Some(config) = configs.get(WELL_KNOWN_ALIAS) {
            return Resolution { config, origin: Origin::Remote };
        }
    }
    Resolution { config: mock_llm_decision(program), origin: Origin::Fallback }
}

} // verus!
