//! Loading a raw history log into the canonical list of entries.
//!
//! A log is a sequence of lines. Lines are assembled into records (one command
//! each, a zsh record may span several lines), records are deduplicated so that
//! each command stands where it was last used, and the result is listed most
//! recent first, without the tool's own invocations and without the commands
//! the user has deleted.

use vstd::prelude::*;
use crate::text::{
    chars_of, contains, decimal_i64, find_char, first_index, is_prefix, is_substring,
    parse_decimal, starts_with, string_of, trim, trim_bounds,
};

verus! {

/// One command of the history.
#[derive(Debug)]
pub struct HistoryEntry {
    pub command: String,
    pub timestamp: Option<i64>,
    pub raw_line: Option<String>,
}

/// What an entry holds, as plain values.
pub struct EntryModel {
    pub command: Seq<char>,
    pub timestamp: Option<i64>,
    pub raw_line: Option<Seq<char>>,
}

impl View for HistoryEntry {
    type V = EntryModel;

    open spec fn view(&self) -> EntryModel {
        EntryModel {
            command: self.command@,
            timestamp: self.timestamp,
            raw_line: match self.raw_line {
                Some(raw) => Some(raw@),
                None => None,
            },
        }
    }
}

impl Clone for HistoryEntry {
    fn clone(&self) -> (out: Self)
        ensures
            out@ == self@,
    {
        HistoryEntry {
            command: self.command.clone(),
            timestamp: self.timestamp,
            raw_line: match &self.raw_line {
                Some(raw) => Some(raw.clone()),
                None => None,
            },
        }
    }
}

/// The models of a list of entries.
pub open spec fn models(entries: Seq<HistoryEntry>) -> Seq<EntryModel> {
    entries.map_values(|e: HistoryEntry| e@)
}

/// The texts of a list of strings.
pub open spec fn texts(lines: Seq<String>) -> Seq<Seq<char>> {
    lines.map_values(|s: String| s@)
}

/// One line of a zsh history, read as the start of a record.
#[derive(Debug)]
pub struct ParsedZshLine {
    pub command: String,
    pub timestamp: Option<i64>,
    pub raw_line: String,
}

impl View for ParsedZshLine {
    type V = EntryModel;

    open spec fn view(&self) -> EntryModel {
        EntryModel {
            command: self.command@,
            timestamp: self.timestamp,
            raw_line: Some(self.raw_line@),
        }
    }
}

pub open spec fn zsh_name() -> Seq<char> {
    seq!['z', 's', 'h']
}

/// The short name under which the tool is invoked.
pub open spec fn short_name() -> Seq<char> {
    seq!['i', 'h']
}

/// The full name under which the tool is invoked.
pub open spec fn long_name() -> Seq<char> {
    seq!['i', 'h', 'i', 's', 't', 'o', 'r', 'y']
}

/// A command that invokes the tool itself: one of its names alone, or
/// followed by a space and anything.
pub open spec fn self_command(command: Seq<char>) -> bool {
    ||| command == short_name()
    ||| command == long_name()
    ||| is_prefix(short_name().push(' '), command)
    ||| is_prefix(long_name().push(' '), command)
}

/// The mark that opens a line of zsh's extended history.
pub open spec fn extended_mark() -> Seq<char> {
    seq![':', ' ']
}

/// The epoch of an extended line's metadata `<epoch>:<duration>`: the text
/// before the first colon, read as a decimal number.
pub open spec fn epoch_of(meta: Seq<char>) -> Option<i64> {
    decimal_i64(meta.take(first_index(meta, ':')))
}

/// A record without a timestamp.
pub open spec fn plain_record(command: Seq<char>, line: Seq<char>) -> EntryModel {
    EntryModel { command, timestamp: None, raw_line: Some(line) }
}

/// What one line of a zsh history says when it starts a record.
///
/// After the extended mark, the metadata runs up to the first `;` and the
/// command is what follows it; an empty command is no record. An extended line
/// without `;` is a command without a timestamp. Any other line is a command
/// as it stands. An empty line is no record.
pub open spec fn zsh_line(line: Seq<char>) -> Option<EntryModel> {
    if is_prefix(extended_mark(), line) {
        let rest = line.skip(2);
        let semi = first_index(rest, ';');
        if semi < rest.len() {
            let command = rest.skip(semi + 1);
            if command.len() == 0 {
                None
            } else {
                Some(
                    EntryModel {
                        command,
                        timestamp: epoch_of(rest.take(semi)),
                        raw_line: Some(line),
                    },
                )
            }
        } else if rest.len() > 0 {
            Some(plain_record(rest, line))
        } else {
            None
        }
    } else if line.len() > 0 {
        Some(plain_record(line, line))
    } else {
        None
    }
}

/// What one line of a plain history says: the line without the whitespace
/// around it, unless nothing is left.
pub open spec fn plain_line(line: Seq<char>) -> Option<Seq<char>> {
    if trim(line).len() > 0 {
        Some(trim(line))
    } else {
        None
    }
}

/// Whether a history file at `path` is read as a zsh history: its path
/// holds `zsh`.
pub fn is_zsh_format(path: &str) -> (zsh: bool)
    ensures
        zsh == is_substring(zsh_name(), path@),
{
    let name: Vec<char> = vec!['z', 's', 'h'];
    assert(name@ =~= zsh_name());
    let chars = chars_of(path);
    contains(&chars, &name)
}

/// Whether `cmd` invokes the tool itself.
pub fn is_self_command(cmd: &str) -> (own: bool)
    ensures
        own == self_command(cmd@),
{
    let chars = chars_of(cmd);
    let short: Vec<char> = vec!['i', 'h'];
    let long: Vec<char> = vec!['i', 'h', 'i', 's', 't', 'o', 'r', 'y'];
    let short_space: Vec<char> = vec!['i', 'h', ' '];
    let long_space: Vec<char> = vec!['i', 'h', 'i', 's', 't', 'o', 'r', 'y', ' '];
    assert(short@ =~= short_name());
    assert(long@ =~= long_name());
    assert(short_space@ =~= short_name().push(' '));
    assert(long_space@ =~= long_name().push(' '));
    let is_short = chars.len() == short.len() && starts_with(&chars, &short);
    let is_long = chars.len() == long.len() && starts_with(&chars, &long);
    proof {
        if chars.len() == short.len() {
            assert(chars@.subrange(0, short@.len() as int) =~= chars@);
        }
        if chars.len() == long.len() {
            assert(chars@.subrange(0, long@.len() as int) =~= chars@);
        }
    }
    is_short || is_long || starts_with(&chars, &short_space) || starts_with(&chars, &long_space)
}

/// Reads one line of a zsh history as the start of a record.
pub fn parse_zsh_line(line: &str) -> (out: Option<ParsedZshLine>)
    ensures
        match out {
            Some(parsed) => zsh_line(line@) == Some(parsed@),
            None => zsh_line(line@) is None,
        },
{
    let chars = chars_of(line);
    let n = chars.len();
    if n >= 2 && chars[0] == ':' && chars[1] == ' ' {
        assert(line@.subrange(0, 2) =~= extended_mark());
        let ghost rest = line@.skip(2);
        assert(rest =~= chars@.subrange(2, n as int));
        let semi = find_char(&chars, 2, n, ';');
        if semi < n - 2 {
            let start = 2 + semi + 1;
            assert(rest.skip(semi + 1) =~= chars@.subrange(start as int, n as int));
            if start == n {
                return None;
            }
            let ghost meta = rest.take(semi as int);
            assert(meta =~= chars@.subrange(2, 2 + semi));
            let colon = find_char(&chars, 2, 2 + semi, ':');
            assert(meta.take(colon as int) =~= chars@.subrange(2, 2 + colon));
            let timestamp = parse_decimal(&chars, 2, 2 + colon);
            Some(
                ParsedZshLine {
                    command: string_of(&chars, start, n),
                    timestamp,
                    raw_line: line.to_owned(),
                },
            )
        } else if n > 2 {
            Some(
                ParsedZshLine {
                    command: string_of(&chars, 2, n),
                    timestamp: None,
                    raw_line: line.to_owned(),
                },
            )
        } else {
            None
        }
    } else if n > 0 {
        proof {
            if n >= 2 {
                assert(line@.subrange(0, 2)[0] == line@[0]);
                assert(line@.subrange(0, 2)[1] == line@[1]);
                assert(extended_mark()[0] == ':' && extended_mark()[1] == ' ');
            }
        }
        Some(ParsedZshLine { command: line.to_owned(), timestamp: None, raw_line: line.to_owned() })
    } else {
        None
    }
}

/// Reads one line of a plain history: the command on it, if any.
pub fn parse_bash_line(line: &str) -> (out: Option<String>)
    ensures
        match out {
            Some(command) => plain_line(line@) == Some(command@),
            None => plain_line(line@) is None,
        },
{
    let chars = chars_of(line);
    let (from, to) = trim_bounds(&chars);
    if from < to {
        Some(string_of(&chars, from, to))
    } else {
        None
    }
}

/// What `String::from_utf8_lossy` returns for these bytes.
pub uninterp spec fn lossy_text(bytes: Seq<u8>) -> Seq<char>;

/// `String::from_utf8_lossy`: the text that `bytes` encode in UTF-8, with
/// U+FFFD in place of what is not valid UTF-8. Valid UTF-8 is decoded as it
/// stands.
#[verifier::external_body]
fn decode_lossy(bytes: &[u8]) -> (out: String)
    ensures
        out@ == lossy_text(bytes@),
        vstd::utf8::valid_utf8(bytes@) ==> out@ == vstd::utf8::decode_utf8(bytes@),
{
    String::from_utf8_lossy(bytes).into_owned()
}

/// The byte that ends a line.
pub open spec fn newline() -> u8 {
    0x0A
}

/// The lines of a log: the stretches of bytes between line ends. A log with
/// `n` line ends has `n + 1` lines, the last of them empty when the log ends
/// with a line end.
pub open spec fn split_lines(bytes: Seq<u8>) -> Seq<Seq<u8>>
    decreases bytes.len(),
{
    let end = first_index(bytes, newline());
    if end < bytes.len() && 0 <= end {
        seq![bytes.take(end)] + split_lines(bytes.skip(end + 1))
    } else {
        seq![bytes]
    }
}

/// The lines of a log as text.
pub open spec fn log_lines(bytes: Seq<u8>) -> Seq<Seq<char>> {
    split_lines(bytes).map_values(|line: Seq<u8>| lossy_text(line))
}

/// Splits a log into its lines and decodes each. A line that is valid UTF-8
/// is decoded as it stands.
pub fn read_lines(content: &[u8]) -> (lines: Vec<String>)
    ensures
        texts(lines@) == log_lines(content@),
        lines.len() == split_lines(content@).len(),
        forall|i: int|
            0 <= i < lines.len() && vstd::utf8::valid_utf8(#[trigger] split_lines(content@)[i])
                ==> lines[i]@ == vstd::utf8::decode_utf8(split_lines(content@)[i]),
{
    let mut lines: Vec<String> = Vec::new();
    let n = content.len();
    let mut start: usize = 0;
    let mut i: usize = 0;
    let ghost mut parts: Seq<Seq<u8>> = Seq::empty();
    assert(content@.skip(0) =~= content@);
    assert(parts + split_lines(content@) =~= split_lines(content@));
    while i < n
        invariant
            n == content.len(),
            start <= i <= n,
            forall|k: int| start <= k < i ==> content@[k] != newline(),
            split_lines(content@) == parts + split_lines(content@.skip(start as int)),
            parts.len() == lines.len(),
            forall|k: int| 0 <= k < lines.len() ==> (#[trigger] lines[k])@ == lossy_text(parts[k]),
            forall|k: int|
                0 <= k < lines.len() && vstd::utf8::valid_utf8(#[trigger] parts[k]) ==> lines[k]@
                    == vstd::utf8::decode_utf8(parts[k]),
        decreases n - i,
    {
        if content[i] == 0x0Au8 {
            let line = decode_lossy(vstd::slice::slice_subrange(content, start, i));
            proof {
                let rest = content@.skip(start as int);
                let part = content@.subrange(start as int, i as int);
                crate::text::lemma_first_index_is(rest, newline(), i - start);
                assert(rest.take(i - start) =~= part);
                assert(rest.skip(i - start + 1) =~= content@.skip(i + 1));
                let tail = split_lines(content@.skip(i + 1));
                assert(split_lines(rest) == seq![part] + tail);
                assert(parts + (seq![part] + tail) =~= parts.push(part) + tail);
                parts = parts.push(part);
            }
            lines.push(line);
            start = i + 1;
        }
        i += 1;
    }
    let line = decode_lossy(vstd::slice::slice_subrange(content, start, n));
    proof {
        let rest = content@.skip(start as int);
        crate::text::lemma_first_index_is(rest, newline(), n - start);
        assert(rest =~= content@.subrange(start as int, n as int));
        assert(split_lines(rest) =~= seq![rest]);
        parts = parts.push(rest);
        assert(split_lines(content@) =~= parts);
    }
    lines.push(line);
    assert(texts(lines@) =~= log_lines(content@));
    lines
}

/// Where the assembly of records stands after some lines: the records that are
/// complete, and the record that a continuation has left open.
pub struct Assembly {
    pub records: Seq<EntryModel>,
    pub open: Option<EntryModel>,
}

/// The text ends with the continuation marker.
pub open spec fn is_continued(text: Seq<char>) -> bool {
    text.len() > 0 && text.last() == '\\'
}

/// An open record with one more line: the line is appended as it stands, after
/// a line break, to the command and to the raw text. The timestamp stays that
/// of the line that opened the record.
pub open spec fn extended(open: EntryModel, line: Seq<char>) -> EntryModel {
    EntryModel {
        command: open.command.push('\n') + line,
        timestamp: open.timestamp,
        raw_line: match open.raw_line {
            Some(raw) => Some(raw.push('\n') + line),
            None => None,
        },
    }
}

/// A record, complete or not, taken into the assembly.
pub open spec fn taken(state: Assembly, record: EntryModel, continued: bool) -> Assembly {
    if continued {
        Assembly { records: state.records, open: Some(record) }
    } else {
        Assembly { records: state.records.push(record), open: None }
    }
}

/// One line of a zsh history. While a record is open the line continues it,
/// and closes it unless the line itself ends with the continuation marker.
/// Otherwise the line starts a record, which stays open if its command ends
/// with the marker; a line that holds no command is passed over.
pub open spec fn feed_zsh(state: Assembly, line: Seq<char>) -> Assembly {
    match state.open {
        Some(open) => taken(state, extended(open, line), is_continued(line)),
        None => match zsh_line(line) {
            Some(record) => taken(state, record, is_continued(record.command)),
            None => state,
        },
    }
}

/// One line of a plain history: a record of its own, or nothing.
pub open spec fn feed_plain(state: Assembly, line: Seq<char>) -> Assembly {
    match plain_line(line) {
        Some(command) => taken(state, plain_record(command, line), false),
        None => state,
    }
}

/// The assembly after all of `lines`, read in order.
pub open spec fn assemble(lines: Seq<Seq<char>>, is_zsh: bool) -> Assembly
    decreases lines.len(),
{
    if lines.len() == 0 {
        Assembly { records: Seq::empty(), open: None }
    } else {
        let state = assemble(lines.drop_last(), is_zsh);
        if is_zsh {
            feed_zsh(state, lines.last())
        } else {
            feed_plain(state, lines.last())
        }
    }
}

/// The complete records of a log, oldest first. A record still open at the end
/// of the log is dropped.
pub open spec fn records_of(lines: Seq<Seq<char>>, is_zsh: bool) -> Seq<EntryModel> {
    assemble(lines, is_zsh).records
}

/// The entries whose command is not `command`.
pub open spec fn other_than(command: Seq<char>) -> spec_fn(EntryModel) -> bool {
    |e: EntryModel| e.command != command
}

/// A record taken into the order of commands: an earlier entry with the same
/// command leaves, and the record goes to the end.
pub open spec fn promote(order: Seq<EntryModel>, record: EntryModel) -> Seq<EntryModel> {
    order.filter(other_than(record.command)).push(record)
}

/// The order of commands after all of `records`, oldest first.
pub open spec fn promoted(records: Seq<EntryModel>) -> Seq<EntryModel>
    decreases records.len(),
{
    if records.len() == 0 {
        Seq::empty()
    } else {
        promote(promoted(records.drop_last()), records.last())
    }
}

/// The canonical history of a sequence of records: one entry for each command,
/// most recently used first.
pub open spec fn canonical(records: Seq<EntryModel>) -> Seq<EntryModel> {
    promoted(records).reverse()
}

/// No two entries have the same command.
pub open spec fn distinct_commands(entries: Seq<EntryModel>) -> bool {
    forall|i: int, j: int|
        0 <= i < j < entries.len() ==> (#[trigger] entries[i]).command != (
        #[trigger] entries[j]).command
}

/// The entries that are shown: not an invocation of the tool itself, and not
/// deleted by the user.
pub open spec fn shown(blocklist: Seq<Seq<char>>) -> spec_fn(EntryModel) -> bool {
    |e: EntryModel| !blocklist.contains(e.command) && !self_command(e.command)
}

/// The first `limit` entries; all of them if `limit` is 0.
pub open spec fn truncated(entries: Seq<EntryModel>, limit: nat) -> Seq<EntryModel> {
    if 0 < limit < entries.len() {
        entries.take(limit as int)
    } else {
        entries
    }
}

/// The history that a log gives: its records in canonical order, without what
/// is not shown, cut to `limit` entries.
pub open spec fn history_of(
    lines: Seq<Seq<char>>,
    is_zsh: bool,
    blocklist: Seq<Seq<char>>,
    limit: nat,
) -> Seq<EntryModel> {
    truncated(canonical(records_of(lines, is_zsh)).filter(shown(blocklist)), limit)
}

/// Whether `text` ends with the continuation marker.
fn ends_with_backslash(text: &str) -> (continued: bool)
    ensures
        continued == is_continued(text@),
{
    let chars = chars_of(text);
    chars.len() > 0 && chars[chars.len() - 1] == '\\'
}

/// The assembly that the loader holds in its variables.
spec fn assembly_of(
    records: Seq<HistoryEntry>,
    is_open: bool,
    command: Seq<char>,
    timestamp: Option<i64>,
    raw: Seq<char>,
) -> Assembly {
    Assembly {
        records: models(records),
        open: if is_open {
            Some(EntryModel { command, timestamp, raw_line: Some(raw) })
        } else {
            None
        },
    }
}

/// Assembles the lines of a log into records, oldest first.
pub fn assemble_records(lines: &Vec<String>, is_zsh: bool) -> (records: Vec<HistoryEntry>)
    ensures
        models(records@) == records_of(texts(lines@), is_zsh),
{
    let mut records: Vec<HistoryEntry> = Vec::new();
    let mut is_open = false;
    let mut open_command = String::new();
    let mut open_timestamp: Option<i64> = None;
    let mut open_raw = String::new();
    let ghost all = texts(lines@);
    assert(models(records@) =~= Seq::<EntryModel>::empty());
    assert(all.take(0) =~= Seq::<Seq<char>>::empty());
    let mut i: usize = 0;
    while i < lines.len()
        invariant
            i <= lines.len(),
            all == texts(lines@),
            is_open ==> is_zsh,
            assemble(all.take(i as int), is_zsh) == assembly_of(
                records@,
                is_open,
                open_command@,
                open_timestamp,
                open_raw@,
            ),
        decreases lines.len() - i,
    {
        let line: &String = &lines[i];
        let ghost before = models(records@);
        let ghost state = assemble(all.take(i as int), is_zsh);
        proof {
            assert(all.take(i + 1).drop_last() =~= all.take(i as int));
            assert(all.take(i + 1).last() == line@);
            assert(assemble(all.take(i + 1), is_zsh) == if is_zsh {
                feed_zsh(state, line@)
            } else {
                feed_plain(state, line@)
            });
        }
        if is_zsh {
            if is_open {
                open_command.push('\n');
                open_command.append(line.as_str());
                open_raw.push('\n');
                open_raw.append(line.as_str());
                if !ends_with_backslash(line.as_str()) {
                    let record = HistoryEntry {
                        command: open_command.clone(),
                        timestamp: open_timestamp,
                        raw_line: Some(open_raw.clone()),
                    };
                    assert(models(records@.push(record)) =~= before.push(record@));
                    records.push(record);
                    is_open = false;
                }
            } else {
                match parse_zsh_line(line.as_str()) {
                    Some(parsed) => {
                        if ends_with_backslash(parsed.command.as_str()) {
                            is_open = true;
                            open_command = parsed.command;
                            open_timestamp = parsed.timestamp;
                            open_raw = parsed.raw_line;
                        } else {
                            let record = HistoryEntry {
                                command: parsed.command,
                                timestamp: parsed.timestamp,
                                raw_line: Some(parsed.raw_line),
                            };
                            assert(models(records@.push(record)) =~= before.push(record@));
                            records.push(record);
                        }
                    },
                    None => {},
                }
            }
        } else {
            match parse_bash_line(line.as_str()) {
                Some(command) => {
                    let record = HistoryEntry {
                        command,
                        timestamp: None,
                        raw_line: Some(line.clone()),
                    };
                    assert(models(records@.push(record)) =~= before.push(record@));
                    records.push(record);
                },
                None => {},
            }
        }
        i += 1;
    }
    assert(all.take(lines.len() as int) =~= all);
    records
}

/// Removes from `order` every entry whose command is `command`.
pub fn remove_command(order: &mut Vec<HistoryEntry>, command: &String)
    ensures
        models(final(order)@) == models(old(order)@).filter(other_than(command@)),
{
    let ghost before = models(order@);
    let ghost keep = other_than(command@);
    let ghost mut seen: int = 0;
    let mut i: usize = 0;
    proof {
        reveal(Seq::filter);
        assert(before.take(0) =~= Seq::<EntryModel>::empty());
        assert(models(order@).take(0) =~= before.take(0).filter(keep));
        assert(models(order@).skip(0) =~= before.skip(0));
    }
    while i < order.len()
        invariant
            i <= order.len(),
            0 <= seen <= before.len(),
            keep == other_than(command@),
            models(order@).take(i as int) == before.take(seen).filter(keep),
            models(order@).skip(i as int) == before.skip(seen),
        decreases order.len() - i,
    {
        let ghost current = models(order@);
        proof {
            reveal(Seq::filter);
            assert(current.skip(i as int)[0] == before.skip(seen)[0]);
            assert(current.skip(i as int).len() == before.skip(seen).len());
            assert(before.take(seen + 1).drop_last() =~= before.take(seen));
            assert(before.take(seen + 1).last() == before[seen]);
            assert(current[i as int] == before[seen]);
        }
        if order[i].command == *command {
            order.remove(i);
            proof {
                let after = models(order@);
                assert(after.take(i as int) =~= current.take(i as int));
                assert(after.skip(i as int) =~= current.skip(i as int).skip(1));
                assert(before.skip(seen).skip(1) =~= before.skip(seen + 1));
                seen = seen + 1;
            }
        } else {
            proof {
                assert(current.take(i + 1) =~= current.take(i as int).push(current[i as int]));
                assert(current.skip(i + 1) =~= current.skip(i as int).skip(1));
                assert(before.skip(seen).skip(1) =~= before.skip(seen + 1));
                seen = seen + 1;
            }
            i += 1;
        }
    }
    proof {
        let current = models(order@);
        assert(current.skip(i as int).len() == 0);
        assert(before.take(seen) =~= before);
        assert(current.take(i as int) =~= current);
    }
}

/// Takes `record` into `order`: entries with the same command leave, and the
/// record goes to the end.
fn promote_entry(order: &mut Vec<HistoryEntry>, record: HistoryEntry)
    ensures
        models(final(order)@) == promote(models(old(order)@), record@),
{
    remove_command(order, &record.command);
    assert(models(order@.push(record)) =~= models(order@).push(record@));
    order.push(record);
}

/// The order of commands after all of `records`, oldest first: each command
/// once, where it was last used.
pub fn promote_all(records: &Vec<HistoryEntry>) -> (order: Vec<HistoryEntry>)
    ensures
        models(order@) == promoted(models(records@)),
{
    let mut order: Vec<HistoryEntry> = Vec::new();
    let ghost all = models(records@);
    assert(models(order@) =~= Seq::<EntryModel>::empty());
    assert(all.take(0) =~= Seq::<EntryModel>::empty());
    let mut i: usize = 0;
    while i < records.len()
        invariant
            i <= records.len(),
            all == models(records@),
            models(order@) == promoted(all.take(i as int)),
        decreases records.len() - i,
    {
        proof {
            assert(all.take(i + 1).drop_last() =~= all.take(i as int));
            assert(all.take(i + 1).last() == records@[i as int]@);
        }
        promote_entry(&mut order, records[i].clone());
        i += 1;
    }
    assert(all.take(records.len() as int) =~= all);
    order
}

/// Whether the user has deleted `command`.
pub fn is_blocked(blocklist: &Vec<String>, command: &String) -> (blocked: bool)
    ensures
        blocked == texts(blocklist@).contains(command@),
{
    let mut i: usize = 0;
    while i < blocklist.len()
        invariant
            i <= blocklist.len(),
            forall|k: int| 0 <= k < i ==> texts(blocklist@)[k] != command@,
        decreases blocklist.len() - i,
    {
        if blocklist[i] == *command {
            assert(texts(blocklist@)[i as int] == command@);
            return true;
        }
        i += 1;
    }
    false
}

/// Whether `entry` is shown: no invocation of the tool itself, and not deleted.
fn is_shown(entry: &HistoryEntry, blocklist: &Vec<String>) -> (keep: bool)
    ensures
        keep == shown(texts(blocklist@))(entry@),
{
    !is_blocked(blocklist, &entry.command) && !is_self_command(entry.command.as_str())
}

/// Lists an order of commands most recent first, without what is not shown,
/// cut to `limit` entries.
fn select_shown(order: Vec<HistoryEntry>, blocklist: &Vec<String>, limit: usize) -> (entries: Vec<
    HistoryEntry,
>)
    ensures
        models(entries@) == truncated(
            models(order@).reverse().filter(shown(texts(blocklist@))),
            limit as nat,
        ),
{
    let ghost newest = models(order@).reverse();
    let ghost keep = shown(texts(blocklist@));
    let mut order = order;
    let mut entries: Vec<HistoryEntry> = Vec::new();
    let ghost mut seen: int = 0;
    proof {
        reveal(Seq::filter);
        assert(newest.take(0) =~= Seq::<EntryModel>::empty());
        assert(models(entries@) =~= newest.take(0).filter(keep));
    }
    while order.len() > 0 && (limit == 0 || entries.len() < limit)
        invariant
            0 <= seen <= newest.len(),
            order@.len() + seen == newest.len(),
            keep == shown(texts(blocklist@)),
            forall|k: int| 0 <= k < order@.len() ==> (#[trigger] order@[k])@ == newest[newest.len() - 1 - k],
            models(entries@) == newest.take(seen).filter(keep),
            limit > 0 ==> entries.len() <= limit,
        decreases order.len(),
    {
        let ghost last = order@.len() - 1;
        let ghost before = models(entries@);
        let ghost rest = order@.drop_last();
        assert(order@[last]@ == newest[seen]);
        let entry = order.pop().unwrap();
        proof {
            reveal(Seq::filter);
            assert(newest.take(seen + 1).drop_last() =~= newest.take(seen));
            assert(newest.take(seen + 1).last() == entry@);
            assert forall|k: int| 0 <= k < order@.len() implies (#[trigger] order@[k])@
                == newest[newest.len() - 1 - k] by {
                assert(order@[k] == rest[k]);
            }
        }
        if is_shown(&entry, blocklist) {
            assert(models(entries@.push(entry)) =~= before.push(entry@));
            entries.push(entry);
        }
        proof {
            seen = seen + 1;
        }
    }
    proof {
        let whole = newest.filter(keep);
        Seq::filter_distributes_over_add(newest.take(seen), newest.skip(seen), keep);
        assert(newest.take(seen) + newest.skip(seen) =~= newest);
        if order.len() == 0 {
            assert(newest.take(seen) =~= newest);
        } else {
            assert(models(entries@) =~= whole.take(limit as int));
        }
    }
    entries
}

/// The history that the lines of a log give.
///
/// `is_zsh` says whether the log is a zsh history, `blocklist` holds the
/// commands the user has deleted, and `limit`, unless it is 0, is the largest
/// number of entries to load. The entries come most recently used first, and
/// no two of them have the same command.
pub fn history_from_lines(
    lines: &Vec<String>,
    is_zsh: bool,
    blocklist: &Vec<String>,
    limit: usize,
) -> (entries: Vec<HistoryEntry>)
    ensures
        models(entries@) == history_of(texts(lines@), is_zsh, texts(blocklist@), limit as nat),
        distinct_commands(models(entries@)),
{
    proof {
        crate::canonical::lemma_history_distinct(
            texts(lines@),
            is_zsh,
            texts(blocklist@),
            limit as nat,
        );
    }
    let records = assemble_records(lines, is_zsh);
    let order = promote_all(&records);
    select_shown(order, blocklist, limit)
}

/// Loads the history from the content of a log: the history that its lines
/// give, each line decoded as text.
pub fn load_history(content: &[u8], is_zsh: bool, blocklist: &Vec<String>, limit: usize) -> (entries:
    Vec<HistoryEntry>)
    ensures
        models(entries@) == history_of(
            log_lines(content@),
            is_zsh,
            texts(blocklist@),
            limit as nat,
        ),
        distinct_commands(models(entries@)),
{
    let lines = read_lines(content);
    history_from_lines(&lines, is_zsh, blocklist, limit)
}

/// A character of a command as it stands in a record of the deletion log: a
/// line break becomes the sentinel NUL, so that a record is a single line.
pub open spec fn sealed(c: char) -> char {
    if c == '\n' {
        '\0'
    } else {
        c
    }
}

/// A character of a record as it stands in the command: the sentinel becomes
/// a line break again.
pub open spec fn unsealed(c: char) -> char {
    if c == '\0' {
        '\n'
    } else {
        c
    }
}

/// The record of the deletion log that stands for `command`.
pub open spec fn record_of(command: Seq<char>) -> Seq<char> {
    command.map_values(|c: char| sealed(c))
}

/// The command that a record of the deletion log stands for.
pub open spec fn command_of(record: Seq<char>) -> Seq<char> {
    record.map_values(|c: char| unsealed(c))
}

/// The commands that the records of a deletion log stand for.
pub open spec fn blocklist_of(records: Seq<Seq<char>>) -> Seq<Seq<char>> {
    records.map_values(|record: Seq<char>| command_of(record))
}

/// A record is a single line, and a command without the sentinel comes back
/// from its record unchanged.
pub proof fn lemma_record_round_trip(command: Seq<char>)
    ensures
        !record_of(command).contains('\n'),
        !command.contains('\0') ==> command_of(record_of(command)) == command,
{
    let record = record_of(command);
    if record.contains('\n') {
        let i = choose|i: int| 0 <= i < record.len() && record[i] == '\n';
        assert(record[i] == sealed(command[i]));
    }
    if !command.contains('\0') {
        assert forall|i: int| 0 <= i < command.len() implies command_of(record)[i]
            == command[i] by {
            assert(command.contains(command[i]));
        }
        assert(command_of(record) =~= command);
    }
}

/// The record that stands for `command` in the deletion log.
pub fn encode_record(command: &str) -> (record: String)
    ensures
        record@ == record_of(command@),
{
    let chars = chars_of(command);
    let mut record = String::new();
    let mut i: usize = 0;
    while i < chars.len()
        invariant
            i <= chars.len(),
            record@ == record_of(chars@.take(i as int)),
        decreases chars.len() - i,
    {
        let c = chars[i];
        assert(record_of(chars@.take(i + 1)) =~= record_of(chars@.take(i as int)).push(sealed(c)));
        record.push(if c == '\n' { '\0' } else { c });
        i += 1;
    }
    assert(chars@.take(chars.len() as int) =~= chars@);
    record
}

/// The command that `record` of the deletion log stands for.
pub fn decode_record(record: &str) -> (command: String)
    ensures
        command@ == command_of(record@),
{
    let chars = chars_of(record);
    let mut command = String::new();
    let mut i: usize = 0;
    while i < chars.len()
        invariant
            i <= chars.len(),
            command@ == command_of(chars@.take(i as int)),
        decreases chars.len() - i,
    {
        let c = chars[i];
        assert(command_of(chars@.take(i + 1)) =~= command_of(chars@.take(i as int)).push(
            unsealed(c),
        ));
        command.push(if c == '\0' { '\n' } else { c });
        i += 1;
    }
    assert(chars@.take(chars.len() as int) =~= chars@);
    command
}

/// The deleted commands, from the lines of the deletion log.
pub fn load_blocklist(records: &Vec<String>) -> (blocklist: Vec<String>)
    ensures
        texts(blocklist@) == blocklist_of(texts(records@)),
{
    let mut blocklist: Vec<String> = Vec::new();
    let mut i: usize = 0;
    while i < records.len()
        invariant
            i <= records.len(),
            blocklist.len() == i,
            forall|k: int| 0 <= k < i ==> (#[trigger] blocklist[k])@ == command_of(records[k]@),
        decreases records.len() - i,
    {
        blocklist.push(decode_record(records[i].as_str()));
        i += 1;
    }
    assert(texts(blocklist@) =~= blocklist_of(texts(records@)));
    blocklist
}

/// Deletes `entry` from view: returns the record to append, as a line of its
/// own, to the deletion log. Once the record is in the log, the history is
/// loaded without the entry.
pub fn delete_entry(entry: &HistoryEntry) -> (record: String)
    ensures
        record@ == record_of(entry@.command),
{
    encode_record(entry.command.as_str())
}

/// The history files that are looked for where none is named.
#[derive(Clone, Copy, Debug, PartialEq, Eq, Structural)]
pub enum HistoryFile {
    Zsh,
    Bash,
}

pub open spec fn bash_name() -> Seq<char> {
    seq!['b', 'a', 's', 'h']
}

/// The history file to read. The shell named by the environment decides where
/// its file exists: zsh if the name holds `zsh`, else bash if it holds `bash`.
/// Otherwise the zsh history is taken if it exists, then the bash history.
pub open spec fn detected(shell: Option<Seq<char>>, has_zsh: bool, has_bash: bool) -> Option<
    HistoryFile,
> {
    let prefers_bash = match shell {
        Some(name) => !is_substring(zsh_name(), name) && is_substring(bash_name(), name),
        None => false,
    };
    if prefers_bash && has_bash {
        Some(HistoryFile::Bash)
    } else if has_zsh {
        Some(HistoryFile::Zsh)
    } else if has_bash {
        Some(HistoryFile::Bash)
    } else {
        None
    }
}

/// Picks the history file to read from what the environment shows: the name
/// of the user's shell, if it is known, and which of the two conventional
/// history files exist in the home directory.
pub fn detect_history_file(shell: Option<&str>, has_zsh: bool, has_bash: bool) -> (file: Option<
    HistoryFile,
>)
    ensures
        file == detected(
            match shell {
                Some(name) => Some(name@),
                None => None,
            },
            has_zsh,
            has_bash,
        ),
{
    if let Some(name) = shell {
        if is_zsh_format(name) {
            if has_zsh {
                return Some(HistoryFile::Zsh);
            }
        } else {
            let bash: Vec<char> = vec!['b', 'a', 's', 'h'];
            assert(bash@ =~= bash_name());
            let chars = chars_of(name);
            if contains(&chars, &bash) && has_bash {
                return Some(HistoryFile::Bash);
            }
        }
    }
    if has_zsh {
        Some(HistoryFile::Zsh)
    } else if has_bash {
        Some(HistoryFile::Bash)
    } else {
        None
    }
}

impl HistoryFile {
    /// The name of the file in the home directory.
    pub fn file_name(self) -> (name: &'static str)
        ensures
            name@ == match self {
                HistoryFile::Zsh => ".zsh_history"@,
                HistoryFile::Bash => ".bash_history"@,
            },
    {
        match self {
            HistoryFile::Zsh => ".zsh_history",
            HistoryFile::Bash => ".bash_history",
        }
    }
}

} // verus!
