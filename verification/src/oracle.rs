//! The fallback decision: settings for a program for which none are recorded.

use crate::config::PoliteConfig;
use crate::text::{chars_of, contains, occurs_in};
use vstd::prelude::*;

verus! {

/// The name by which a background computing client is known.
pub open spec fn background_name() -> Seq<char> {
    "boinc"@
}

/// The settings that the fallback decides on for a program: a program whose
/// path holds the name of the background computing client is run at
/// niceness 5, any other at niceness 0; either is given an out-of-memory
/// adjustment of 100.
pub open spec fn fallback_config(program: Seq<char>) -> PoliteConfig {
    PoliteConfig::of(
        if occurs_in(background_name(), program) {
            5
        } else {
            0
        },
        100,
    )
}

/// Decides on settings for `program`. There is no program for which it
/// gives none.
pub fn mock_llm_decision(program: &str) -> (c: PoliteConfig)
    ensures
        c == fallback_config(program@),
        c.valid(),
{
    let hay = chars_of(program);
    let needle = chars_of("boinc");
    let niceness: i32 = if contains(hay.as_slice(), needle.as_slice()) {
        5
    } else {
        0
    };
    let c = PoliteConfig::within(niceness, 100);
    proof {
        PoliteConfig::lemma_fields(niceness as int, 100);
    }
    c
}

} // verus!
