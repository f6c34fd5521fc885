//! The remote configuration: every line of the fetched document that is a
//! record counts, and the others are passed over.

use crate::config::{
    lemma_parsed_line_is_valid, parse_config_chars, parsed_line, ParseError, PoliteConfig,
};
use crate::mapping::{is_mapping, ConfigMapping};
use crate::number::parsed;
use crate::store::COMMENT_MARK;
use crate::text::{
    chars_of, is_whitespace, lemma_position_of, lines, lines_of, pieces, position_of, split_on,
    trim, trimmed, trimmed_end, trimmed_start,
};
use vstd::prelude::*;
use vstd::string::StringExecFns;

verus! {

/// Where the remote configuration document is fetched from.
pub const REMOTE_CONFIG_URL: &'static str =
    "https://raw.githubusercontent.com/username/repo/main/polite_config.csv";

/// Why no remote configuration could be had.
#[derive(Clone, Copy, Debug, PartialEq, Eq, Structural)]
pub enum FetchError {
    /// The document could not be requested.
    Connect,
    /// The answer could not be read as text.
    Body,
    /// The document was fetched, and no line of it is a record.
    NoValidConfigs,
}

impl FetchError {
    /// The message of the error, with `cause` what the transport said of it.
    pub open spec fn text(self, cause: Seq<char>) -> Seq<char> {
        match self {
            FetchError::Connect => "Fetch error: "@ + cause,
            FetchError::Body => cause,
            FetchError::NoValidConfigs => "No valid online configs"@,
        }
    }

    /// The message of the error. `cause` is what the transport said of it;
    /// an empty document has no cause, and none is looked at.
    pub fn message(&self, cause: &str) -> (s: String)
        ensures
            s@ == self.text(cause@),
    {
        match self {
            FetchError::Connect => {
                let mut s = String::from_str("Fetch error: ");
                s.append(cause);
                s
            },
            FetchError::Body => String::from_str(cause),
            FetchError::NoValidConfigs => String::from_str("No valid online configs"),
        }
    }
}

/// The mapping `acc` after the records among `lines` have been entered, in
/// order: a later record for an alias replaces an earlier one, and a line
/// that is no record changes nothing.
pub open spec fn gathered(acc: Map<i8, PoliteConfig>, lines: Seq<Seq<char>>) -> Map<
    i8,
    PoliteConfig,
>
    decreases lines.len(),
{
    if lines.len() == 0 {
        acc
    } else {
        let next = match parsed_line(lines[0]) {
            Ok((alias, config)) => acc.insert(alias, config),
            Err(_) => acc,
        };
        gathered(next, lines.skip(1))
    }
}

/// The mapping that a remote document holds: that of its lines that are
/// records, taken as they stand. A document without any is a failure.
pub open spec fn online_config(text: Seq<char>) -> Option<Map<i8, PoliteConfig>> {
    let m = gathered(Map::empty(), lines_of(text));
    if m == Map::<i8, PoliteConfig>::empty() {
        None
    } else {
        Some(m)
    }
}

/// Tells whether a line of the document is looked at: it is not blank, and
/// it does not begin with the comment mark.
pub open spec fn is_candidate(raw: Seq<char>) -> bool {
    trimmed(raw).len() > 0 && !(raw.len() > 0 && raw[0] == COMMENT_MARK)
}

/// A text that does not begin with white space keeps its first character
/// when it is trimmed.
proof fn lemma_trimmed_keeps_start(s: Seq<char>)
    requires
        s.len() > 0,
        !is_whitespace(s[0]),
    ensures
        trimmed(s).len() > 0,
{
    assert(trimmed_start(s) == s);
    lemma_trimmed_end_keeps_start(s);
}

proof fn lemma_trimmed_end_keeps_start(s: Seq<char>)
    requires
        s.len() > 0,
        !is_whitespace(s[0]),
    ensures
        trimmed_end(s).len() > 0,
    decreases s.len(),
{
    if is_whitespace(s.last()) {
        assert(s.len() > 1);
        assert(s.drop_last()[0] == s[0]);
        lemma_trimmed_end_keeps_start(s.drop_last());
    }
}

/// A line that is not looked at is no record: to pass over blank lines and
/// comments loses nothing.
pub proof fn lemma_skipped_line_is_no_record(raw: Seq<char>)
    requires
        !is_candidate(raw),
    ensures
        parsed_line(raw) is Err,
{
    let fields = split_on(raw, ';');
    if fields.len() >= 3 {
        lemma_position_of(raw, ';');
        let first = fields[0];
        assert(first == raw.take(position_of(raw, ';') as int));
        if parsed(first, i8::MIN as int, i8::MAX as int) is Ok {
            assert(first.len() > 0);
            assert(first[0] == raw[0]);
            let body = if first[0] == '+' || first[0] == '-' {
                first.skip(1)
            } else {
                first
            };
            if !(first[0] == '+' || first[0] == '-') {
                crate::number::lemma_digit_run(first);
                assert(crate::number::is_digit(first[0]));
            }
            assert(!is_whitespace(raw[0]));
            assert(raw[0] != COMMENT_MARK);
            lemma_trimmed_keeps_start(raw);
        }
    }
}

/// Reads the remote configuration out of the fetched document.
///
/// Gives the mapping of all lines that are records. Where there is none the
/// document counts as not fetched.
pub fn parse_online_config(text: &str) -> (r: Result<ConfigMapping, FetchError>)
    ensures
        match r {
            Ok(m) => online_config(text@) == Some(m@),
            Err(e) => online_config(text@) is None && e == FetchError::NoValidConfigs,
        },
{
    let chars = chars_of(text);
    let all = lines(chars.as_slice());
    let mut configs = ConfigMapping::new();
    let mut i: usize = 0;
    assert(pieces(all@).skip(0) =~= pieces(all@));
    while i < all.len()
        invariant
            i <= all@.len(),
            pieces(all@) == lines_of(text@),
            gathered(Map::empty(), lines_of(text@)) == gathered(
                configs@,
                pieces(all@).skip(i as int),
            ),
        decreases all@.len() - i,
    {
        let raw = all[i];
        let ghost rest = pieces(all@).skip(i as int);
        assert(rest[0] == raw@);
        assert(rest.skip(1) =~= pieces(all@).skip(i + 1));
        proof {
            if !is_candidate(raw@) {
                lemma_skipped_line_is_no_record(raw@);
            }
        }
        if trim(raw).len() > 0 && !(raw.len() > 0 && raw[0] == COMMENT_MARK) {
            if let Ok((alias, config)) = parse_config_chars(raw) {
                proof {
                    lemma_parsed_line_is_valid(raw@);
                }
                configs.insert(alias, config);
            }
        }
        i += 1;
    }
    if configs.is_empty() {
        Err(FetchError::NoValidConfigs)
    } else {
        Ok(configs)
    }
}

/// Tells whether `line` is a record for `alias`.
pub open spec fn records(line: Seq<char>, alias: i8) -> bool {
    parsed_line(line) matches Ok((a, _)) && a == alias
}

/// Entering a run of lines and then another is entering the two in a row.
pub proof fn lemma_gathered_concat(
    acc: Map<i8, PoliteConfig>,
    first: Seq<Seq<char>>,
    second: Seq<Seq<char>>,
)
    ensures
        gathered(acc, first + second) == gathered(gathered(acc, first), second),
    decreases first.len(),
{
    if first.len() == 0 {
        assert(first + second =~= second);
    } else {
        assert((first + second)[0] == first[0]);
        assert((first + second).skip(1) =~= first.skip(1) + second);
        let next = match parsed_line(first[0]) {
            Ok((alias, config)) => acc.insert(alias, config),
            Err(_) => acc,
        };
        lemma_gathered_concat(next, first.skip(1), second);
    }
}

/// After lines have been entered, an alias is a key exactly if it was one
/// before or one of the lines is a record for it; and lines none of which
/// is a record for it leave its settings as they were.
pub proof fn lemma_gathered_keys(acc: Map<i8, PoliteConfig>, lines: Seq<Seq<char>>, alias: i8)
    ensures
        gathered(acc, lines).contains_key(alias) <==> acc.contains_key(alias) || exists|i: int|
            0 <= i < lines.len() && records(#[trigger] lines[i], alias),
        (forall|i: int| 0 <= i < lines.len() ==> !records(#[trigger] lines[i], alias))
            ==> gathered(acc, lines)[alias] == acc[alias],
    decreases lines.len(),
{
    if lines.len() > 0 {
        let next = match parsed_line(lines[0]) {
            Ok((a, config)) => acc.insert(a, config),
            Err(_) => acc,
        };
        let rest = lines.skip(1);
        lemma_gathered_keys(next, rest, alias);
        assert forall|i: int| 0 <= i < rest.len() implies rest[i] == lines[i + 1] by {}
        if gathered(acc, lines).contains_key(alias) && !acc.contains_key(alias) {
            if next.contains_key(alias) {
                assert(records(lines[0], alias));
            } else {
                let i = choose|i: int| 0 <= i < rest.len() && records(#[trigger] rest[i], alias);
                assert(records(lines[i + 1], alias));
            }
        }
        if exists|i: int| 0 <= i < lines.len() && records(#[trigger] lines[i], alias) {
            let i = choose|i: int| 0 <= i < lines.len() && records(#[trigger] lines[i], alias);
            if i > 0 {
                assert(records(rest[i - 1], alias));
            }
        }
        if forall|i: int| 0 <= i < lines.len() ==> !records(#[trigger] lines[i], alias) {
            assert(!records(lines[0], alias));
            assert forall|i: int| 0 <= i < rest.len() implies !records(
                #[trigger] rest[i],
                alias,
            ) by {
                assert(!records(lines[i + 1], alias));
            }
        }
    }
}

/// The last line that is a record for an alias decides its settings.
pub proof fn lemma_last_record_is_kept(lines: Seq<Seq<char>>, i: int, alias: i8)
    requires
        0 <= i < lines.len(),
        records(lines[i], alias),
        forall|j: int| i < j < lines.len() ==> !records(#[trigger] lines[j], alias),
    ensures
        gathered(Map::empty(), lines).contains_key(alias),
        Ok::<(i8, PoliteConfig), ParseError>((alias, gathered(Map::empty(), lines)[alias]))
            == parsed_line(lines[i]),
{
    let before = lines.take(i);
    let after = lines.skip(i + 1);
    assert(lines =~= before + seq![lines[i]] + after);
    let start = Map::<i8, PoliteConfig>::empty();
    lemma_gathered_concat(start, before + seq![lines[i]], after);
    lemma_gathered_concat(start, before, seq![lines[i]]);
    let at = gathered(start, before);
    let one = seq![lines[i]];
    assert(one[0] == lines[i]);
    assert(one.skip(1) =~= Seq::<Seq<char>>::empty());
    let config = match parsed_line(lines[i]) {
        Ok((_, config)) => config,
        Err(_) => arbitrary(),
    };
    assert(gathered(at.insert(alias, config), one.skip(1)) == at.insert(alias, config));
    assert(gathered(at, one) == at.insert(alias, config));
    assert forall|j: int| 0 <= j < after.len() implies !records(#[trigger] after[j], alias) by {
        assert(after[j] == lines[i + 1 + j]);
    }
    lemma_gathered_keys(at.insert(alias, config), after, alias);
}

/// Entering lines into a mapping in which the reserved alias is no key and
/// all settings lie within their ranges gives such a mapping again.
pub proof fn lemma_gathered_is_mapping(acc: Map<i8, PoliteConfig>, lines: Seq<Seq<char>>)
    requires
        is_mapping(acc),
    ensures
        is_mapping(gathered(acc, lines)),
    decreases lines.len(),
{
    if lines.len() > 0 {
        lemma_parsed_line_is_valid(lines[0]);
        let next = match parsed_line(lines[0]) {
            Ok((alias, config)) => acc.insert(alias, config),
            Err(_) => acc,
        };
        lemma_gathered_is_mapping(next, lines.skip(1));
    }
}

/// A fetched document gives a mapping exactly if one of its lines is a
/// record. The mapping then holds the aliases for which there is a record,
/// and no others; lines that are no records do not enter it.
pub proof fn lemma_online_config_holds_the_records(text: Seq<char>)
    ensures
        match online_config(text) {
            Some(m) => forall|alias: i8|
                m.contains_key(alias) <==> exists|i: int|
                    0 <= i < lines_of(text).len() && records(#[trigger] lines_of(text)[i], alias),
            None => forall|i: int|
                0 <= i < lines_of(text).len() ==> parsed_line(#[trigger] lines_of(text)[i]) is Err,
        },
{
    let lines = lines_of(text);
    let m = gathered(Map::empty(), lines);
    assert forall|alias: i8|
        m.contains_key(alias) <==> exists|i: int|
            0 <= i < lines.len() && records(#[trigger] lines[i], alias) by {
        lemma_gathered_keys(Map::empty(), lines, alias);
    }
    if m == Map::<i8, PoliteConfig>::empty() {
        assert forall|i: int| 0 <= i < lines.len() implies parsed_line(#[trigger] lines[i]) is Err by {
            if parsed_line(lines[i]) is Ok {
                let alias = match parsed_line(lines[i]) {
                    Ok((alias, _)) => alias,
                    Err(_) => arbitrary(),
                };
                assert(records(lines[i], alias));
                assert(m.contains_key(alias));
            }
        }
    }
}

} // verus!
