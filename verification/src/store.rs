//! The local configuration: the records between a start marker and an end
//! marker in a text of lines.

use crate::config::{lemma_parsed_line_is_valid, parse_config_chars, parsed_line, ParseError, PoliteConfig};
use crate::mapping::{is_mapping, ConfigMapping};
use crate::text::{
    chars_of, lemma_lines_of_concat, lemma_lines_of_first, lines, lines_of, pieces, same_chars,
    strip_cr, trim, trimmed,
};
use vstd::prelude::*;

verus! {

/// The line that opens the section of records.
pub const START_MARKER: &'static str = "-START-";

/// The line that ends the section of records, and the reading.
pub const END_MARKER: &'static str = "-END-";

/// The characters of the line that opens the section of records.
pub open spec fn start_marker() -> Seq<char> {
    START_MARKER@
}

/// The characters of the line that ends the section of records.
pub open spec fn end_marker() -> Seq<char> {
    END_MARKER@
}

/// The character that a comment line begins with.
pub const COMMENT_MARK: char = '#';

/// Tells whether a line is neither blank nor a comment, given without the
/// white space around it.
pub open spec fn is_record_line(line: Seq<char>) -> bool {
    line.len() > 0 && line[0] != COMMENT_MARK
}

/// How far a reading of the local configuration has come.
pub struct Scan {
    /// A start marker has been read.
    pub in_section: bool,
    /// The end marker has been read: no further line counts.
    pub finished: bool,
    /// The records read so far.
    pub configs: Map<i8, PoliteConfig>,
}

/// The reading before its first line.
pub open spec fn scan_start() -> Scan {
    Scan { in_section: false, finished: false, configs: Map::empty() }
}

/// The reading after one more line, or the fault that ends it.
///
/// The white space around the line is dropped first. A start marker opens
/// the section, wherever it stands. An end marker ends the reading, whether
/// or not the section was open. Inside the section a line that is neither
/// blank nor a comment must be a record, and a later record for an alias
/// replaces an earlier one. Any other line is passed over.
pub open spec fn scan_step(scan: Scan, raw: Seq<char>) -> Result<Scan, ParseError> {
    let line = trimmed(raw);
    if scan.finished {
        Ok(scan)
    } else if line == start_marker() {
        Ok(Scan { in_section: true, ..scan })
    } else if line == end_marker() {
        Ok(Scan { finished: true, ..scan })
    } else if scan.in_section && is_record_line(line) {
        match parsed_line(line) {
            Ok((alias, config)) => Ok(Scan { configs: scan.configs.insert(alias, config), ..scan }),
            Err(e) => Err(e),
        }
    } else {
        Ok(scan)
    }
}

/// The reading after all of `lines`, or the first fault.
pub open spec fn scan_all(scan: Scan, lines: Seq<Seq<char>>) -> Result<Scan, ParseError>
    decreases lines.len(),
{
    if lines.len() == 0 {
        Ok(scan)
    } else {
        match scan_step(scan, lines[0]) {
            Ok(next) => scan_all(next, lines.skip(1)),
            Err(e) => Err(e),
        }
    }
}

/// The mapping that the lines of a local configuration hold, or the fault
/// of the first line of the section that is no record.
pub open spec fn local_config_of_lines(lines: Seq<Seq<char>>) -> Result<
    Map<i8, PoliteConfig>,
    ParseError,
> {
    match scan_all(scan_start(), lines) {
        Ok(scan) => Ok(scan.configs),
        Err(e) => Err(e),
    }
}

/// The mapping that a local configuration text holds.
pub open spec fn local_config(text: Seq<char>) -> Result<Map<i8, PoliteConfig>, ParseError> {
    local_config_of_lines(lines_of(text))
}

/// A reader of the local configuration that takes one line at a time.
pub struct LocalScanner {
    in_section: bool,
    finished: bool,
    configs: ConfigMapping,
}

impl View for LocalScanner {
    type V = Scan;

    closed spec fn view(&self) -> Scan {
        Scan { in_section: self.in_section, finished: self.finished, configs: self.configs@ }
    }
}

impl LocalScanner {
    /// The reader before its first line.
    pub fn new() -> (scanner: LocalScanner)
        ensures
            scanner@ == scan_start(),
    {
        LocalScanner { in_section: false, finished: false, configs: ConfigMapping::new() }
    }

    /// Takes the next line, given as characters. Returns whether the end
    /// marker has been read, after which no line needs to be handed in. On a
    /// fault the reader stays as it was.
    pub fn feed_chars(&mut self, raw: &[char]) -> (r: Result<bool, ParseError>)
        ensures
            match scan_step(old(self)@, raw@) {
                Ok(next) => r == Ok::<bool, ParseError>(next.finished) && final(self)@ == next,
                Err(e) => r == Err::<bool, ParseError>(e) && final(self)@ == old(self)@,
            },
    {
        if self.finished {
            return Ok(true);
        }
        let line = trim(raw);
        let start = chars_of(START_MARKER);
        let end = chars_of(END_MARKER);
        if same_chars(line, start.as_slice()) {
            self.in_section = true;
            return Ok(false);
        }
        if same_chars(line, end.as_slice()) {
            self.finished = true;
            return Ok(true);
        }
        if self.in_section && line.len() > 0 && line[0] != COMMENT_MARK {
            match parse_config_chars(line) {
                Ok((alias, config)) => {
                    proof {
                        lemma_parsed_line_is_valid(line@);
                    }
                    self.configs.insert(alias, config);
                    Ok(false)
                },
                Err(e) => Err(e),
            }
        } else {
            Ok(false)
        }
    }

    /// Takes the next line.
    pub fn feed(&mut self, raw: &str) -> (r: Result<bool, ParseError>)
        ensures
            match scan_step(old(self)@, raw@) {
                Ok(next) => r == Ok::<bool, ParseError>(next.finished) && final(self)@ == next,
                Err(e) => r == Err::<bool, ParseError>(e) && final(self)@ == old(self)@,
            },
    {
        let chars = chars_of(raw);
        self.feed_chars(chars.as_slice())
    }

    /// The records that were read.
    pub fn finish(self) -> (m: ConfigMapping)
        ensures
            m@ == self@.configs,
    {
        self.configs
    }
}

/// What a load gave, with the mapping taken as the keys and values it holds.
pub open spec fn outcome(r: Result<ConfigMapping, ParseError>) -> Result<
    Map<i8, PoliteConfig>,
    ParseError,
> {
    match r {
        Ok(m) => Ok(m@),
        Err(e) => Err(e),
    }
}

/// Once the end marker has been read, further lines change nothing.
pub proof fn lemma_finished_scan_stays(scan: Scan, lines: Seq<Seq<char>>)
    requires
        scan.finished,
    ensures
        scan_all(scan, lines) == Ok::<Scan, ParseError>(scan),
    decreases lines.len(),
{
    if lines.len() > 0 {
        lemma_finished_scan_stays(scan, lines.skip(1));
    }
}

/// Reads the local configuration out of its text.
///
/// Gives the mapping of the records between the start marker and the end
/// marker, or the fault of the first line there that is no record; in that
/// case no mapping is given at all.
pub fn load_local_config(text: &str) -> (r: Result<ConfigMapping, ParseError>)
    ensures
        outcome(r) == local_config(text@),
{
    let chars = chars_of(text);
    let all = lines(chars.as_slice());
    let mut scanner = LocalScanner::new();
    let mut i: usize = 0;
    assert(pieces(all@).skip(0) =~= pieces(all@));
    while i < all.len()
        invariant
            i <= all@.len(),
            pieces(all@) == lines_of(text@),
            scan_all(scan_start(), lines_of(text@)) == scan_all(scanner@, pieces(all@).skip(i as int)),
        decreases all@.len() - i,
    {
        let ghost rest = pieces(all@).skip(i as int);
        assert(rest[0] == all@[i as int]@);
        assert(rest.skip(1) =~= pieces(all@).skip(i + 1));
        match scanner.feed_chars(all[i]) {
            Ok(finished) => {
                if finished {
                    proof {
                        lemma_finished_scan_stays(scanner@, rest.skip(1));
                    }
                    return Ok(scanner.finish());
                }
            },
            Err(e) => {
                return Err(e);
            },
        }
        i += 1;
    }
    Ok(scanner.finish())
}

/// A reading that holds a mapping holds one after any further lines.
pub proof fn lemma_scan_keeps_mapping(scan: Scan, lines: Seq<Seq<char>>)
    requires
        is_mapping(scan.configs),
    ensures
        scan_all(scan, lines) matches Ok(after) ==> is_mapping(after.configs),
    decreases lines.len(),
{
    if lines.len() > 0 {
        lemma_parsed_line_is_valid(trimmed(lines[0]));
        match scan_step(scan, lines[0]) {
            Ok(next) => lemma_scan_keeps_mapping(next, lines.skip(1)),
            Err(e) => {},
        }
    }
}

/// What a local configuration holds is a mapping in which the reserved
/// alias is no key and all settings lie within their ranges.
pub proof fn lemma_local_config_is_mapping(text: Seq<char>)
    ensures
        local_config(text) matches Ok(m) ==> is_mapping(m),
{
    lemma_scan_keeps_mapping(scan_start(), lines_of(text));
}

/// Reading a single line is one step.
pub proof fn lemma_scan_one(scan: Scan, line: Seq<char>)
    ensures
        scan_all(scan, seq![line]) == scan_step(scan, line),
{
    let one = seq![line];
    assert(one[0] == line);
    assert(one.skip(1) =~= Seq::<Seq<char>>::empty());
    match scan_step(scan, line) {
        Ok(next) => {
            assert(scan_all(next, one.skip(1)) == Ok::<Scan, ParseError>(next));
        },
        Err(e) => {},
    }
}

/// Reading a run of lines and then another is reading the two in a row.
pub proof fn lemma_scan_all_concat(scan: Scan, first: Seq<Seq<char>>, second: Seq<Seq<char>>)
    ensures
        scan_all(scan, first + second) == match scan_all(scan, first) {
            Ok(next) => scan_all(next, second),
            Err(e) => Err(e),
        },
    decreases first.len(),
{
    if first.len() == 0 {
        assert(first + second =~= second);
    } else {
        assert((first + second)[0] == first[0]);
        assert((first + second).skip(1) =~= first.skip(1) + second);
        match scan_step(scan, first[0]) {
            Ok(next) => lemma_scan_all_concat(next, first.skip(1), second),
            Err(e) => {},
        }
    }
}

/// Two loads of one text give the same outcome: the same fault, or mappings
/// with the same keys and the same settings under each key.
pub proof fn lemma_load_is_repeatable(
    text: Seq<char>,
    first: Result<ConfigMapping, ParseError>,
    second: Result<ConfigMapping, ParseError>,
)
    requires
        outcome(first) == local_config(text),
        outcome(second) == local_config(text),
    ensures
        outcome(first) == outcome(second),
        first matches Ok(a) ==> second matches Ok(b) && a@.dom() == b@.dom() && forall|alias: i8|
            a@.contains_key(alias) ==> a@[alias] == b@[alias],
{
}

/// The lines after an end marker never count: with them or without them the
/// load gives the same outcome, whatever they hold.
pub proof fn lemma_lines_after_end_are_not_read(
    before: Seq<Seq<char>>,
    end: Seq<char>,
    after: Seq<Seq<char>>,
)
    requires
        trimmed(end) == end_marker(),
    ensures
        local_config_of_lines(before + seq![end] + after) == local_config_of_lines(
            before + seq![end],
        ),
{
    let upto = before + seq![end];
    lemma_scan_all_concat(scan_start(), upto, after);
    lemma_scan_all_concat(scan_start(), before, seq![end]);
    match scan_all(scan_start(), before) {
        Ok(scan) => {
            lemma_markers_differ();
            lemma_scan_one(scan, end);
            let next = scan_step(scan, end)->Ok_0;
            assert(next.finished);
            lemma_finished_scan_stays(next, after);
        },
        Err(e) => {},
    }
}

/// What follows the line of the end marker in a text never counts: with it
/// or without it the load gives the same outcome.
pub proof fn lemma_text_after_end_is_not_read(head: Seq<char>, tail: Seq<char>)
    requires
        head.len() == 0 || head.last() == '\n',
    ensures
        local_config(head + end_marker() + seq!['\n'] + tail) == local_config(
            head + end_marker(),
        ),
{
    let end = end_marker();
    lemma_markers_differ();
    reveal_strlit("-END-");
    assert(strip_cr(end) == end);
    lemma_lines_of_first(end, tail);
    lemma_lines_of_concat(head, end + seq!['\n'] + tail);
    lemma_lines_of_concat(head, end);
    assert(head + end + seq!['\n'] + tail =~= head + (end + seq!['\n'] + tail));
    assert(lines_of(head + end + seq!['\n'] + tail) =~= lines_of(head) + seq![end] + lines_of(
        tail,
    ));
    lemma_lines_after_end_are_not_read(lines_of(head), end, lines_of(tail));
}

/// The two markers are different lines, and neither is blank, a comment or
/// changed by trimming.
pub proof fn lemma_markers_differ()
    ensures
        start_marker() != end_marker(),
        is_record_line(start_marker()),
        is_record_line(end_marker()),
        trimmed(start_marker()) == start_marker(),
        trimmed(end_marker()) == end_marker(),
{
    reveal_strlit("-START-");
    reveal_strlit("-END-");
    assert(start_marker().len() == 7);
    assert(end_marker().len() == 5);
}

/// Tells whether line `i` lies in the section that is read: a start marker
/// stands before it, and no end marker does.
pub open spec fn in_open_section(lines: Seq<Seq<char>>, i: int) -> bool {
    &&& exists|j: int| 0 <= j < i && trimmed(#[trigger] lines[j]) == start_marker()
    &&& forall|j: int| 0 <= j < i ==> trimmed(#[trigger] lines[j]) != end_marker()
}

/// The reading of the lines before line `k`, where none of them is an end
/// marker: it has faulted, or it has not finished and the section is open
/// exactly if a start marker was among them.
proof fn lemma_scan_before_end(lines: Seq<Seq<char>>, k: int)
    requires
        0 <= k <= lines.len(),
        forall|j: int| 0 <= j < k ==> trimmed(#[trigger] lines[j]) != end_marker(),
    ensures
        scan_all(scan_start(), lines.take(k)) matches Ok(scan) ==> !scan.finished && (
        scan.in_section <==> exists|j: int|
            0 <= j < k && trimmed(#[trigger] lines[j]) == start_marker()),
    decreases k,
{
    if k == 0 {
        assert(lines.take(0) =~= Seq::<Seq<char>>::empty());
    } else {
        lemma_scan_before_end(lines, k - 1);
        assert(lines.take(k) =~= lines.take(k - 1) + seq![lines[k - 1]]);
        lemma_scan_all_concat(scan_start(), lines.take(k - 1), seq![lines[k - 1]]);
        match scan_all(scan_start(), lines.take(k - 1)) {
            Ok(scan) => {
                lemma_scan_one(scan, lines[k - 1]);
                match scan_step(scan, lines[k - 1]) {
                    Ok(next) => {
                        if trimmed(lines[k - 1]) == start_marker() {
                            assert(next.in_section);
                        } else {
                            assert(next.in_section == scan.in_section);
                            if next.in_section {
                                let j = choose|j: int|
                                    0 <= j < k - 1 && trimmed(#[trigger] lines[j])
                                        == start_marker();
                                assert(0 <= j < k && trimmed(lines[j]) == start_marker());
                            }
                        }
                    },
                    Err(e) => {},
                }
            },
            Err(e) => {},
        }
    }
}

/// A line in the open section that is neither blank, nor a comment, nor a
/// marker, and that is no record, makes the whole load fail: no mapping is
/// given, not even of the records before it.
pub proof fn lemma_bad_record_fails_load(lines: Seq<Seq<char>>, i: int)
    requires
        0 <= i < lines.len(),
        in_open_section(lines, i),
        is_record_line(trimmed(lines[i])),
        trimmed(lines[i]) != start_marker(),
        trimmed(lines[i]) != end_marker(),
        parsed_line(trimmed(lines[i])) is Err,
    ensures
        local_config_of_lines(lines) is Err,
{
    lemma_scan_before_end(lines, i);
    let rest = lines.skip(i);
    assert(lines =~= lines.take(i) + rest);
    lemma_scan_all_concat(scan_start(), lines.take(i), rest);
    match scan_all(scan_start(), lines.take(i)) {
        Ok(scan) => {
            assert(rest[0] == lines[i]);
            assert(scan_step(scan, lines[i]) is Err);
        },
        Err(e) => {},
    }
}

} // verus!
