//! The settings pair and the grammar of one configuration line:
//! `<alias>;<niceness>;<oom priority>`.

use crate::number::{
    decimal, lemma_decimal_chars, lemma_parsed_in_range, lemma_read_back, parse_i32, parse_i8,
    parsed, NumberError,
};
use crate::text::{
    chars_of, lemma_position_of, lemma_split_has_a_piece, lemma_split_head, lemma_split_whole,
    position_of, split, split_on,
};
use vstd::prelude::*;
use vstd::string::StringExecFns;

verus! {

/// The smallest niceness.
pub const NICENESS_MIN: i32 = -20;

/// The largest niceness.
pub const NICENESS_MAX: i32 = 19;

/// The smallest adjustment of the out-of-memory score.
pub const OOM_SCORE_ADJ_MIN: i32 = -1000;

/// The largest adjustment of the out-of-memory score.
pub const OOM_SCORE_ADJ_MAX: i32 = 1000;

/// The alias that names no profile: it asks for the settings to be worked
/// out when the program is launched.
pub const DYNAMIC_ALIAS: i8 = 0;

/// Tells whether a niceness and an out-of-memory adjustment lie in their ranges.
pub open spec fn in_range(niceness: int, oom_score_adj: int) -> bool {
    &&& NICENESS_MIN <= niceness <= NICENESS_MAX
    &&& OOM_SCORE_ADJ_MIN <= oom_score_adj <= OOM_SCORE_ADJ_MAX
}

/// A scheduling niceness and an adjustment of the out-of-memory score, both
/// within their ranges. A value of this type cannot be made or changed into
/// one that is out of range.
#[derive(Clone, Copy, Debug, PartialEq, Eq, Structural)]
pub struct PoliteConfig {
    niceness: i32,
    oom_score_adj: i32,
}

impl PoliteConfig {
    /// The pair with the given fields.
    pub closed spec fn of(niceness: int, oom_score_adj: int) -> PoliteConfig {
        PoliteConfig { niceness: niceness as i32, oom_score_adj: oom_score_adj as i32 }
    }

    /// The niceness of the pair.
    pub closed spec fn spec_niceness(&self) -> i32 {
        self.niceness
    }

    /// The out-of-memory adjustment of the pair.
    pub closed spec fn spec_oom_score_adj(&self) -> i32 {
        self.oom_score_adj
    }

    /// Tells whether both fields lie in their ranges. This holds of every
    /// value that a program can hold.
    #[verifier::type_invariant]
    pub open spec fn valid(self) -> bool {
        in_range(self.spec_niceness() as int, self.spec_oom_score_adj() as int)
    }

    /// The pair made of two numbers has them as its fields.
    pub proof fn lemma_fields(niceness: int, oom_score_adj: int)
        requires
            i32::MIN <= niceness <= i32::MAX,
            i32::MIN <= oom_score_adj <= i32::MAX,
        ensures
            PoliteConfig::of(niceness, oom_score_adj).spec_niceness() == niceness,
            PoliteConfig::of(niceness, oom_score_adj).spec_oom_score_adj() == oom_score_adj,
    {
    }

    /// Makes the pair, or nothing where a field is out of range.
    pub fn new(niceness: i32, oom_score_adj: i32) -> (r: Option<PoliteConfig>)
        ensures
            r == if in_range(niceness as int, oom_score_adj as int) {
                Some(PoliteConfig::of(niceness as int, oom_score_adj as int))
            } else {
                None
            },
    {
        if NICENESS_MIN <= niceness && niceness <= NICENESS_MAX && OOM_SCORE_ADJ_MIN
            <= oom_score_adj && oom_score_adj <= OOM_SCORE_ADJ_MAX {
            Some(PoliteConfig { niceness, oom_score_adj })
        } else {
            None
        }
    }

    /// Makes the pair from fields that are known to lie in their ranges.
    pub(crate) fn within(niceness: i32, oom_score_adj: i32) -> (c: PoliteConfig)
        requires
            in_range(niceness as int, oom_score_adj as int),
        ensures
            c == PoliteConfig::of(niceness as int, oom_score_adj as int),
    {
        PoliteConfig { niceness, oom_score_adj }
    }

    /// The niceness.
    #[verifier::when_used_as_spec(spec_niceness)]
    pub fn niceness(&self) -> (n: i32)
        ensures
            n == self.spec_niceness(),
            self.valid(),
    {
        proof {
            use_type_invariant(self);
        }
        self.niceness
    }

    /// The out-of-memory adjustment.
    #[verifier::when_used_as_spec(spec_oom_score_adj)]
    pub fn oom_score_adj(&self) -> (o: i32)
        ensures
            o == self.spec_oom_score_adj(),
            self.valid(),
    {
        proof {
            use_type_invariant(self);
        }
        self.oom_score_adj
    }
}

/// Why a line is no configuration record.
#[derive(Clone, Copy, Debug, PartialEq, Eq, Structural)]
pub enum ParseError {
    /// The line has fewer than three fields.
    InvalidConfig,
    /// A field is not an integer of its width.
    Number(NumberError),
    /// The alias is the one that is reserved for dynamic resolution.
    AliasReserved,
    /// The niceness or the out-of-memory adjustment is out of range.
    OutOfRange,
}

impl ParseError {
    /// The message of the error.
    pub open spec fn text(self) -> Seq<char> {
        match self {
            ParseError::InvalidConfig => "Invalid config"@,
            ParseError::Number(e) => e.text(),
            ParseError::AliasReserved => "Alias 0 reserved"@,
            ParseError::OutOfRange => "Value out of range"@,
        }
    }

    /// The message of the error.
    pub fn message(&self) -> (s: String)
        ensures
            s@ == self.text(),
    {
        match self {
            ParseError::InvalidConfig => String::from_str("Invalid config"),
            ParseError::Number(e) => e.message(),
            ParseError::AliasReserved => String::from_str("Alias 0 reserved"),
            ParseError::OutOfRange => String::from_str("Value out of range"),
        }
    }
}

/// What a line is as a configuration record.
///
/// The line is cut at every `;`. The first three fields are the alias, an
/// integer of eight bits, and the niceness and the out-of-memory adjustment,
/// integers of thirty-two bits; further fields are not looked at. The faults
/// are found in this order: too few fields, the alias no integer, the alias
/// reserved, the niceness no integer, the adjustment no integer, a value out
/// of range.
pub open spec fn parsed_line(line: Seq<char>) -> Result<(i8, PoliteConfig), ParseError> {
    let fields = split_on(line, ';');
    if fields.len() < 3 {
        Err(ParseError::InvalidConfig)
    } else {
        match parsed(fields[0], i8::MIN as int, i8::MAX as int) {
            Err(e) => Err(ParseError::Number(e)),
            Ok(alias) => if alias == DYNAMIC_ALIAS {
                Err(ParseError::AliasReserved)
            } else {
                match parsed(fields[1], i32::MIN as int, i32::MAX as int) {
                    Err(e) => Err(ParseError::Number(e)),
                    Ok(niceness) => match parsed(fields[2], i32::MIN as int, i32::MAX as int) {
                        Err(e) => Err(ParseError::Number(e)),
                        Ok(oom_score_adj) => if in_range(niceness, oom_score_adj) {
                            Ok((alias as i8, PoliteConfig::of(niceness, oom_score_adj)))
                        } else {
                            Err(ParseError::OutOfRange)
                        },
                    },
                }
            },
        }
    }
}

/// Reads one configuration line, given as characters.
pub fn parse_config_chars(line: &[char]) -> (r: Result<(i8, PoliteConfig), ParseError>)
    ensures
        r == parsed_line(line@),
{
    let parts = split(line, ';');
    assert(parts@.len() == split_on(line@, ';').len());
    if parts.len() < 3 {
        return Err(ParseError::InvalidConfig);
    }
    assert(parts@[0]@ == split_on(line@, ';')[0]);
    assert(parts@[1]@ == split_on(line@, ';')[1]);
    assert(parts@[2]@ == split_on(line@, ';')[2]);
    let alias = match parse_i8(parts[0]) {
        Ok(v) => v,
        Err(e) => {
            return Err(ParseError::Number(e));
        },
    };
    if alias == DYNAMIC_ALIAS {
        return Err(ParseError::AliasReserved);
    }
    let niceness = match parse_i32(parts[1]) {
        Ok(v) => v,
        Err(e) => {
            return Err(ParseError::Number(e));
        },
    };
    let oom_score_adj = match parse_i32(parts[2]) {
        Ok(v) => v,
        Err(e) => {
            return Err(ParseError::Number(e));
        },
    };
    match PoliteConfig::new(niceness, oom_score_adj) {
        Some(config) => Ok((alias, config)),
        None => Err(ParseError::OutOfRange),
    }
}

/// Reads one configuration line.
pub fn parse_config_line(line: &str) -> (r: Result<(i8, PoliteConfig), ParseError>)
    ensures
        r == parsed_line(line@),
{
    let chars = chars_of(line);
    parse_config_chars(chars.as_slice())
}

/// The line that records the three numbers: each written in decimal, with
/// `;` between them.
pub open spec fn written_line(alias: int, niceness: int, oom_score_adj: int) -> Seq<char> {
    decimal(alias) + seq![';'] + decimal(niceness) + seq![';'] + decimal(oom_score_adj)
}

/// A line written from an alias other than the reserved one and from a
/// niceness and an out-of-memory adjustment within their ranges is read, and
/// gives back exactly that alias and those settings.
pub proof fn lemma_written_line_is_read(alias: int, niceness: int, oom_score_adj: int)
    requires
        i8::MIN <= alias <= i8::MAX,
        alias != DYNAMIC_ALIAS,
        in_range(niceness, oom_score_adj),
    ensures
        parsed_line(written_line(alias, niceness, oom_score_adj)) == Ok::<
            (i8, PoliteConfig),
            ParseError,
        >((alias as i8, PoliteConfig::of(niceness, oom_score_adj))),
{
    let a = decimal(alias);
    let n = decimal(niceness);
    let o = decimal(oom_score_adj);
    lemma_decimal_chars(alias);
    lemma_decimal_chars(niceness);
    lemma_decimal_chars(oom_score_adj);
    let tail = n + seq![';'] + o;
    assert(written_line(alias, niceness, oom_score_adj) =~= a + seq![';'] + tail);
    lemma_split_head(a, ';', tail);
    lemma_split_head(n, ';', o);
    lemma_split_whole(o, ';');
    assert(split_on(written_line(alias, niceness, oom_score_adj), ';') =~= seq![a, n, o]);
    lemma_read_back(alias, i8::MIN as int, i8::MAX as int);
    lemma_read_back(niceness, i32::MIN as int, i32::MAX as int);
    lemma_read_back(oom_score_adj, i32::MIN as int, i32::MAX as int);
}

/// A line of three or more fields whose alias is the reserved one is refused
/// as such, whatever the other fields hold.
pub proof fn lemma_reserved_alias_is_refused(line: Seq<char>)
    requires
        split_on(line, ';').len() >= 3,
        parsed(split_on(line, ';')[0], i8::MIN as int, i8::MAX as int) == Ok::<int, NumberError>(
            DYNAMIC_ALIAS as int,
        ),
    ensures
        parsed_line(line) == Err::<(i8, PoliteConfig), ParseError>(ParseError::AliasReserved),
{
}

/// A line that is written with the reserved alias and two more fields is
/// refused as reserved, whatever stands in those fields and after them.
pub proof fn lemma_reserved_alias_line_is_refused(second: Seq<char>, rest: Seq<char>)
    ensures
        parsed_line(decimal(DYNAMIC_ALIAS as int) + seq![';'] + second + seq![';'] + rest) == Err::<
            (i8, PoliteConfig),
            ParseError,
        >(ParseError::AliasReserved),
{
    let alias = decimal(DYNAMIC_ALIAS as int);
    let tail = second + seq![';'] + rest;
    let line = alias + seq![';'] + second + seq![';'] + rest;
    lemma_decimal_chars(DYNAMIC_ALIAS as int);
    assert(line =~= alias + seq![';'] + tail);
    lemma_split_head(alias, ';', tail);
    lemma_position_of(tail, ';');
    assert(position_of(tail, ';') <= second.len()) by {
        assert(tail[second.len() as int] == ';');
    }
    lemma_split_has_a_piece(tail.skip(position_of(tail, ';') as int + 1), ';');
    assert(split_on(tail, ';').len() >= 2);
    assert(split_on(line, ';')[0] == alias);
    lemma_read_back(DYNAMIC_ALIAS as int, i8::MIN as int, i8::MAX as int);
    lemma_reserved_alias_is_refused(line);
}

/// A line whose three fields are integers of their widths, with an alias
/// other than the reserved one, is refused as out of range whenever the
/// niceness or the out-of-memory adjustment lies outside its range.
pub proof fn lemma_out_of_range_is_refused(line: Seq<char>, alias: int, niceness: int, oom_score_adj: int)
    requires
        split_on(line, ';').len() >= 3,
        parsed(split_on(line, ';')[0], i8::MIN as int, i8::MAX as int) == Ok::<int, NumberError>(
            alias,
        ),
        alias != DYNAMIC_ALIAS,
        parsed(split_on(line, ';')[1], i32::MIN as int, i32::MAX as int) == Ok::<
            int,
            NumberError,
        >(niceness),
        parsed(split_on(line, ';')[2], i32::MIN as int, i32::MAX as int) == Ok::<
            int,
            NumberError,
        >(oom_score_adj),
        !in_range(niceness, oom_score_adj),
    ensures
        parsed_line(line) == Err::<(i8, PoliteConfig), ParseError>(ParseError::OutOfRange),
{
}

/// A line that is read gives an alias other than the reserved one and
/// settings within their ranges.
pub proof fn lemma_parsed_line_is_valid(line: Seq<char>)
    ensures
        parsed_line(line) matches Ok((alias, config)) ==> alias != DYNAMIC_ALIAS && config.valid(),
{
    let fields = split_on(line, ';');
    if fields.len() >= 3 {
        lemma_parsed_in_range(fields[0], i8::MIN as int, i8::MAX as int);
        lemma_parsed_in_range(fields[1], i32::MIN as int, i32::MAX as int);
        lemma_parsed_in_range(fields[2], i32::MIN as int, i32::MAX as int);
    }
}

} // verus!
