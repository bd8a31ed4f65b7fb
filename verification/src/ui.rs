//! What is shown of a session.
//!
//! The list of results is shown through a window of `visible` rows that starts
//! at an offset. The window follows the selection, and never runs past the end
//! of the list where that can be helped. Each result has a line: a marker, the
//! command with the matched characters set apart, and the time of use in
//! words. The selected command is shown once more, wrapped, in a preview.

use vstd::prelude::*;
use crate::history::texts;
use crate::text::{chars_of, decimal_string, decimal_text, string_of};

verus! {

/// The rows, and the columns, that a frame takes from its area: one at each
/// edge.
pub const FRAME_EDGES: u16 = 2;

/// The columns of its area that the line of a result leaves free.
pub const LINE_MARGIN: u16 = 4;

/// The presentation of a session.
#[derive(Clone, Copy, Debug)]
pub struct UI;

/// The offset after the window has followed the selection: the selection
/// itself if it stands above the window, the offset that puts it on the last
/// row if it stands below, else the offset as it was.
pub open spec fn followed(selected: int, offset: int, visible: int) -> int {
    if selected < offset {
        selected
    } else if selected >= offset + visible {
        selected - visible + 1
    } else {
        offset
    }
}

/// The largest offset at which a window of `visible` rows does not run past
/// the end of `count` results.
pub open spec fn last_offset(count: int, visible: int) -> int {
    if count > visible {
        count - visible
    } else {
        0
    }
}

/// The offset of the window: it follows the selection, and is then held
/// within `0 ..= last_offset`.
pub open spec fn viewport_offset(selected: int, offset: int, count: int, visible: int) -> int {
    let moved = followed(selected, offset, visible);
    let last = last_offset(count, visible);
    if moved > last {
        last
    } else if moved < 0 {
        0
    } else {
        moved
    }
}

/// The selection is one of the results, or 0 where there are none.
pub open spec fn selection_in_bounds(selected: int, count: int) -> bool {
    0 <= selected && (selected < count || selected == 0)
}

/// The window shows the selection and does not run past the end of the list.
pub open spec fn window_holds(selected: int, offset: int, count: int, visible: int) -> bool {
    &&& offset <= selected < offset + visible
    &&& 0 <= offset <= last_offset(count, visible)
}

/// The results that the window shows: those from the first position up to,
/// and without, the second.
pub open spec fn shown_rows(offset: int, count: int, visible: int) -> (int, int) {
    let start = if offset < count {
        offset
    } else {
        count
    };
    let end = if start + visible < count {
        start + visible
    } else {
        count
    };
    (start, end)
}

/// A window of one row or more, once its offset is computed, shows the
/// selection and stays within the list, wherever it stood before.
pub proof fn lemma_viewport_holds(selected: int, offset: int, count: int, visible: int)
    requires
        visible >= 1,
        offset >= 0,
        selection_in_bounds(selected, count),
    ensures
        window_holds(selected, viewport_offset(selected, offset, count, visible), count, visible),
{
}

/// The offset is within the list whatever the height of the window.
pub proof fn lemma_viewport_in_list(selected: int, offset: int, count: int, visible: int)
    requires
        visible >= 0,
        count >= 0,
    ensures
        0 <= viewport_offset(selected, offset, count, visible) <= last_offset(count, visible),
{
}

/// A window that holds stays where it is.
pub proof fn lemma_viewport_settled(selected: int, offset: int, count: int, visible: int)
    requires
        window_holds(selected, offset, count, visible),
    ensures
        viewport_offset(selected, offset, count, visible) == offset,
{
}

impl UI {
    pub fn new() -> (ui: Self)
        ensures
            ui == UI,
    {
        UI
    }

    /// The rows of results that fit in an area of `area_height` rows, which
    /// the frame shares.
    pub fn visible_height(&self, area_height: u16) -> (rows: usize)
        ensures
            rows == if area_height >= FRAME_EDGES {
                area_height - FRAME_EDGES
            } else {
                0
            },
    {
        if area_height >= FRAME_EDGES {
            (area_height - FRAME_EDGES) as usize
        } else {
            0
        }
    }

    /// The offset of the window onto `count` results after the selection has
    /// moved to `selected`, for a window that stood at `offset`.
    pub fn viewport(&self, selected: usize, offset: usize, count: usize, visible: usize) -> (out:
        usize)
        ensures
            out == viewport_offset(selected as int, offset as int, count as int, visible as int),
    {
        let last: usize = if count > visible {
            count - visible
        } else {
            0
        };
        if selected < offset {
            if selected > last {
                last
            } else {
                selected
            }
        } else if selected - offset >= visible {
            let below: usize = selected - visible;
            if below >= last {
                last
            } else {
                below + 1
            }
        } else if offset > last {
            last
        } else {
            offset
        }
    }
}

impl UI {
    /// The results that a window of `visible` rows at `offset` shows of
    /// `count` results: those from the first position returned up to, and
    /// without, the second.
    pub fn window_rows(&self, offset: usize, count: usize, visible: usize) -> (rows: (
        usize,
        usize,
    ))
        ensures
            (rows.0 as int, rows.1 as int) == shown_rows(
                offset as int,
                count as int,
                visible as int,
            ),
    {
        let start: usize = if offset < count {
            offset
        } else {
            count
        };
        let end: usize = if visible < count - start {
            start + visible
        } else {
            count
        };
        (start, end)
    }

    /// The row of the window on which the selection stands, for a window at
    /// `offset`.
    pub fn selected_row(&self, selected: usize, offset: usize) -> (row: usize)
        ensures
            row == if selected >= offset {
                selected - offset
            } else {
                0
            },
    {
        if selected >= offset {
            selected - offset
        } else {
            0
        }
    }

    /// The columns that the line of a result has in an area of `area_width`
    /// columns.
    pub fn line_width(&self, area_width: u16) -> (width: usize)
        ensures
            width == if area_width >= LINE_MARGIN {
                area_width - LINE_MARGIN
            } else {
                0
            },
    {
        if area_width >= LINE_MARGIN {
            (area_width - LINE_MARGIN) as usize
        } else {
            0
        }
    }
}

impl Default for UI {
    fn default() -> (ui: Self)
        ensures
            ui == UI,
    {
        UI::new()
    }
}

/// How long ago a command was used, as it is shown beside the command.
#[derive(Clone, Copy, Debug, PartialEq, Eq, Structural)]
pub enum Age {
    /// The time of use lies after now.
    Future,
    /// Less than a minute.
    JustNow,
    /// Whole minutes, less than an hour.
    Minutes(u64),
    /// Whole hours, less than a day.
    Hours(u64),
    /// One day.
    Yesterday,
    /// Two to six days.
    Days(u64),
    /// One week.
    LastWeek,
    /// Two weeks or more, less than thirty days.
    Weeks(u64),
    /// Thirty days or more, less than a year: shown as month and day.
    MonthDay,
    /// A year or more: shown as month and year.
    MonthYear,
}

/// The age of a use at `timestamp`, seen from `now`, both in seconds of the
/// epoch.
pub open spec fn age_between(timestamp: int, now: int) -> Age {
    let seconds = now - timestamp;
    let days = seconds / 86_400;
    if seconds < 0 {
        Age::Future
    } else if seconds < 60 {
        Age::JustNow
    } else if seconds / 60 < 60 {
        Age::Minutes((seconds / 60) as u64)
    } else if seconds / 3_600 < 24 {
        Age::Hours((seconds / 3_600) as u64)
    } else if days == 1 {
        Age::Yesterday
    } else if days < 7 {
        Age::Days(days as u64)
    } else if days < 30 {
        if days / 7 == 1 {
            Age::LastWeek
        } else {
            Age::Weeks((days / 7) as u64)
        }
    } else if days < 365 {
        Age::MonthDay
    } else {
        Age::MonthYear
    }
}

/// The words for an age; `None` where the age is shown as a date.
pub open spec fn age_text(age: Age) -> Option<Seq<char>> {
    match age {
        Age::Future => Some("future"@),
        Age::JustNow => Some("just now"@),
        Age::Minutes(n) => Some(decimal_text(n as nat) + "m ago"@),
        Age::Hours(n) => Some(decimal_text(n as nat) + "h ago"@),
        Age::Yesterday => Some("yesterday"@),
        Age::Days(n) => Some(decimal_text(n as nat) + " days"@),
        Age::LastWeek => Some("last week"@),
        Age::Weeks(n) => Some(decimal_text(n as nat) + " weeks"@),
        Age::MonthDay => None,
        Age::MonthYear => None,
    }
}

/// The first second, counted from the epoch, of which chrono makes a date:
/// the start of the year -262143.
pub const FIRST_DATE_SECOND: i64 = -8_334_601_228_800;

/// The last second, counted from the epoch, of which chrono makes a date: the
/// end of the year 262142.
pub const LAST_DATE_SECOND: i64 = 8_210_266_876_799;

/// chrono makes a date of these seconds of the epoch.
pub open spec fn datable(seconds: i64) -> bool {
    FIRST_DATE_SECOND <= seconds <= LAST_DATE_SECOND
}

/// `chrono::DateTime::from_timestamp`, asked whether it returns a date: it
/// does for the seconds of the years that chrono holds, from -262143 to
/// 262142, and for no others.
#[verifier::external_body]
fn is_datable(seconds: i64) -> (can: bool)
    ensures
        can == datable(seconds),
{
    chrono::DateTime::from_timestamp(seconds, 0).is_some()
}

/// The pattern of a date shown as month and day.
pub open spec fn month_day_pattern() -> Seq<char> {
    "%b %d"@
}

/// The pattern of a date shown as month and year.
pub open spec fn month_year_pattern() -> Seq<char> {
    "%b %Y"@
}

/// `chrono::DateTime::format` on the date of `seconds` in the local time
/// zone, with one of the two patterns above. What it gives depends on the
/// time zone of the machine, so nothing is stated of the text. chrono reads
/// the zone from the machine's zone data, and relies on that data to hold
/// offsets of less than a day.
#[verifier::external_body]
fn local_date(seconds: i64, pattern: &str) -> (text: String)
    requires
        datable(seconds),
        pattern@ == month_day_pattern() || pattern@ == month_year_pattern(),
{
    let local: chrono::DateTime<chrono::Local> = chrono::DateTime::from_timestamp(seconds, 0)
        .unwrap_or_default()
        .into();
    format!("{}", local.format(pattern))
}

/// The age of a use at `timestamp`, seen from `now`.
pub fn age_of(timestamp: i64, now: i64) -> (age: Age)
    ensures
        age == age_between(timestamp as int, now as int),
{
    let seconds: i128 = now as i128 - timestamp as i128;
    if seconds < 0 {
        return Age::Future;
    }
    let minutes: i128 = seconds / 60;
    let hours: i128 = seconds / 3_600;
    let days: i128 = seconds / 86_400;
    if seconds < 60 {
        Age::JustNow
    } else if minutes < 60 {
        Age::Minutes(minutes as u64)
    } else if hours < 24 {
        Age::Hours(hours as u64)
    } else if days == 1 {
        Age::Yesterday
    } else if days < 7 {
        Age::Days(days as u64)
    } else if days < 30 {
        let weeks: i128 = days / 7;
        if weeks == 1 {
            Age::LastWeek
        } else {
            Age::Weeks(weeks as u64)
        }
    } else if days < 365 {
        Age::MonthDay
    } else {
        Age::MonthYear
    }
}

/// A number followed by a unit.
fn counted(n: u64, unit: &str) -> (text: String)
    ensures
        text@ == decimal_text(n as nat) + unit@,
{
    let mut text = decimal_string(n);
    text.append(unit);
    text
}

/// The words for `age`, where it is shown in words.
pub fn age_label(age: Age) -> (label: Option<String>)
    ensures
        match label {
            Some(text) => age_text(age) == Some(text@),
            None => age_text(age) is None,
        },
{
    match age {
        Age::Future => Some(String::from_str("future")),
        Age::JustNow => Some(String::from_str("just now")),
        Age::Minutes(n) => Some(counted(n, "m ago")),
        Age::Hours(n) => Some(counted(n, "h ago")),
        Age::Yesterday => Some(String::from_str("yesterday")),
        Age::Days(n) => Some(counted(n, " days")),
        Age::LastWeek => Some(String::from_str("last week")),
        Age::Weeks(n) => Some(counted(n, " weeks")),
        Age::MonthDay => None,
        Age::MonthYear => None,
    }
}

/// How long ago a command was used, as text: in words up to thirty days, as
/// a date in the local time zone beyond. There is no text where the command
/// has no timestamp, or where the timestamp or `now` is no date.
pub fn format_relative_time(timestamp: Option<i64>, now: i64) -> (out: Option<String>)
    ensures
        out is Some <==> (timestamp matches Some(seconds) && datable(seconds)
            && datable(now)),
        match (out, timestamp) {
            (Some(text), Some(seconds)) => match age_text(
                age_between(seconds as int, now as int),
            ) {
                Some(words) => text@ == words,
                None => true,
            },
            _ => true,
        },
{
    match timestamp {
        None => None,
        Some(seconds) => {
            if !is_datable(seconds) || !is_datable(now) {
                return None;
            }
            let age = age_of(seconds, now);
            match age_label(age) {
                Some(text) => Some(text),
                None => {
                    let pattern = if age == Age::MonthYear {
                        "%b %Y"
                    } else {
                        "%b %d"
                    };
                    Some(local_date(seconds, pattern))
                },
            }
        },
    }
}

/// The kinds of text that make up the line of a result.
#[derive(Clone, Copy, Debug, PartialEq, Eq, Structural)]
pub enum SegmentKind {
    /// The mark before the command: it points at the selected result.
    Marker,
    /// Text of the command that the query did not match.
    Plain,
    /// A character of the command that the query matched.
    Match,
    /// The blanks between the command and the time.
    Padding,
    /// The time of use.
    Time,
}

/// A run of text of one kind.
#[derive(Debug)]
pub struct Segment {
    pub kind: SegmentKind,
    pub text: String,
}

/// What a segment holds, as plain values.
pub struct SegmentModel {
    pub kind: SegmentKind,
    pub text: Seq<char>,
}

impl View for Segment {
    type V = SegmentModel;

    open spec fn view(&self) -> SegmentModel {
        SegmentModel { kind: self.kind, text: self.text@ }
    }
}

/// The models of a list of segments.
pub open spec fn segment_models(segments: Seq<Segment>) -> Seq<SegmentModel> {
    segments.map_values(|s: Segment| s@)
}

/// The columns that the marker takes.
pub const MARKER_WIDTH: usize = 2;

/// The columns that the sign of a cut command takes.
pub const ELLIPSIS_WIDTH: usize = 3;

/// The columns that are kept free before the time.
pub const TIME_GAP: usize = 2;

/// The lines of the preview.
pub const PREVIEW_LINES: usize = 6;

/// The marker of a result.
pub open spec fn marker_text(selected: bool) -> Seq<char> {
    if selected {
        seq!['>', ' ']
    } else {
        seq![' ', ' ']
    }
}

/// The sign of a cut command.
pub open spec fn ellipsis_text() -> Seq<char> {
    seq!['.', '.', '.']
}

/// The columns left for the command and the sign that it is cut, in a line of
/// `width` columns that shows a time of `time` characters, if any.
pub open spec fn command_room(width: int, time: Option<int>) -> int {
    let taken = MARKER_WIDTH + match time {
        Some(len) => len + TIME_GAP,
        None => 0,
    };
    if width > taken {
        width - taken
    } else {
        0
    }
}

/// The characters that are shown of a command of `len` characters.
pub open spec fn shown_length(len: int, room: int) -> int {
    let most = if room > ELLIPSIS_WIDTH {
        room - ELLIPSIS_WIDTH
    } else {
        0
    };
    if len < most {
        len
    } else {
        most
    }
}

/// Whether a command of `len` characters is cut.
pub open spec fn is_cut(len: int, room: int) -> bool {
    len > shown_length(len, room)
}

/// The first `shown` characters of the command from `last_end` on, with the
/// matched positions `indices[from..]` set apart: up to each position the text
/// between is plain, the character at it is a match. The walk ends at the
/// first position that is not shown.
pub open spec fn highlighted(
    command: Seq<char>,
    indices: Seq<usize>,
    shown: int,
    from: int,
    last_end: int,
) -> Seq<SegmentModel>
    decreases indices.len() - from,
{
    if from < 0 || from >= indices.len() || indices[from] >= shown {
        if last_end < shown {
            seq![SegmentModel { kind: SegmentKind::Plain, text: command.subrange(last_end, shown) }]
        } else {
            Seq::empty()
        }
    } else {
        let at = indices[from] as int;
        let gap = if at > last_end {
            seq![SegmentModel { kind: SegmentKind::Plain, text: command.subrange(last_end, at) }]
        } else {
            Seq::empty()
        };
        gap + seq![SegmentModel { kind: SegmentKind::Match, text: command.subrange(at, at + 1) }]
            + highlighted(command, indices, shown, from + 1, at + 1)
    }
}

/// No matched position is shown.
pub open spec fn none_shown(indices: Seq<usize>, shown: int) -> bool {
    forall|i: int| 0 <= i < indices.len() ==> #[trigger] indices[i] >= shown
}

/// The segments of the shown part of a command.
pub open spec fn command_segments(command: Seq<char>, indices: Seq<usize>, shown: int) -> Seq<
    SegmentModel,
> {
    if none_shown(indices, shown) {
        seq![SegmentModel { kind: SegmentKind::Plain, text: command.take(shown) }]
    } else {
        highlighted(command, indices, shown, 0, 0)
    }
}

/// The characters of a list of segments.
pub open spec fn total_length(segments: Seq<SegmentModel>) -> int
    decreases segments.len(),
{
    if segments.len() == 0 {
        0
    } else {
        total_length(segments.drop_last()) + segments.last().text.len()
    }
}

/// The line up to the time: the marker, the command, and the sign that the
/// command is cut.
pub open spec fn line_start(
    command: Seq<char>,
    indices: Seq<usize>,
    selected: bool,
    room: int,
) -> Seq<SegmentModel> {
    let shown = shown_length(command.len() as int, room);
    let body = seq![SegmentModel { kind: SegmentKind::Marker, text: marker_text(selected) }]
        + command_segments(command, indices, shown);
    if is_cut(command.len() as int, room) {
        body.push(SegmentModel { kind: SegmentKind::Plain, text: ellipsis_text() })
    } else {
        body
    }
}

/// The blanks that move the time to the right edge of a line of `width`
/// columns.
pub open spec fn padding_length(width: int, used: int, time: int) -> int {
    if width > used + time {
        width - (used + time)
    } else {
        0
    }
}

/// The line of a result: the marker, the command with the matched characters
/// set apart and cut to the room there is, and the time of use at the right
/// edge.
pub open spec fn result_line(
    command: Seq<char>,
    indices: Seq<usize>,
    time: Option<Seq<char>>,
    selected: bool,
    width: int,
) -> Seq<SegmentModel> {
    let room = command_room(
        width,
        match time {
            Some(text) => Some(text.len() as int),
            None => None,
        },
    );
    let start = line_start(command, indices, selected, room);
    match time {
        None => start,
        Some(text) => {
            let blanks = padding_length(width, total_length(start), text.len() as int);
            let padded = if blanks > 0 {
                start.push(
                    SegmentModel {
                        kind: SegmentKind::Padding,
                        text: Seq::new(blanks as nat, |i: int| ' '),
                    },
                )
            } else {
                start
            };
            padded.push(SegmentModel { kind: SegmentKind::Time, text })
        },
    }
}

/// The sum of two lengths, held at the largest length there is.
fn capped_sum(a: usize, b: usize) -> (sum: usize)
    ensures
        sum == if a + b > usize::MAX {
            usize::MAX as int
        } else {
            a + b
        },
{
    if a > usize::MAX - b {
        usize::MAX
    } else {
        a + b
    }
}

/// A length held at the largest length there is.
spec fn capped(len: int) -> int {
    if len > usize::MAX {
        usize::MAX as int
    } else {
        len
    }
}

/// The length of a list with one more segment.
proof fn lemma_total_push(segments: Seq<SegmentModel>, segment: SegmentModel)
    ensures
        total_length(segments.push(segment)) == total_length(segments) + segment.text.len(),
        total_length(segments) >= 0,
    decreases segments.len(),
{
    assert(segments.push(segment).drop_last() =~= segments);
    if segments.len() > 0 {
        lemma_total_push(segments.drop_last(), segments.last());
        assert(segments.drop_last().push(segments.last()) =~= segments);
    }
}

/// Appends a segment of `chars[from..to]`, and counts its characters.
fn push_segment(
    line: &mut Vec<Segment>,
    used: &mut usize,
    kind: SegmentKind,
    chars: &Vec<char>,
    from: usize,
    to: usize,
)
    requires
        from <= to <= chars.len(),
        *old(used) == capped(total_length(segment_models(old(line)@))),
    ensures
        segment_models(final(line)@) == segment_models(old(line)@).push(
            SegmentModel { kind, text: chars@.subrange(from as int, to as int) },
        ),
        *final(used) == capped(total_length(segment_models(final(line)@))),
{
    let segment = Segment { kind, text: string_of(chars, from, to) };
    proof {
        lemma_total_push(segment_models(line@), segment@);
        assert(segment_models(line@.push(segment)) =~= segment_models(line@).push(segment@));
    }
    *used = capped_sum(*used, to - from);
    line.push(segment);
}

/// Whether no matched position is shown.
fn no_index_shown(indices: &Vec<usize>, shown: usize) -> (none: bool)
    ensures
        none == none_shown(indices@, shown as int),
{
    let mut i: usize = 0;
    while i < indices.len()
        invariant
            i <= indices.len(),
            forall|k: int| 0 <= k < i ==> #[trigger] indices@[k] >= shown,
        decreases indices.len() - i,
    {
        if indices[i] < shown {
            return false;
        }
        i += 1;
    }
    true
}

/// Appends the shown part of a command, with the matched positions set
/// apart.
fn push_command(
    line: &mut Vec<Segment>,
    used: &mut usize,
    chars: &Vec<char>,
    indices: &Vec<usize>,
    shown: usize,
)
    requires
        shown <= chars.len(),
        *old(used) == capped(total_length(segment_models(old(line)@))),
    ensures
        segment_models(final(line)@) == segment_models(old(line)@) + command_segments(
            chars@,
            indices@,
            shown as int,
        ),
        *final(used) == capped(total_length(segment_models(final(line)@))),
{
    let ghost head = segment_models(line@);
    if no_index_shown(indices, shown) {
        push_segment(line, used, SegmentKind::Plain, chars, 0, shown);
        assert(chars@.subrange(0, shown as int) =~= chars@.take(shown as int));
        assert(segment_models(line@) =~= head + command_segments(chars@, indices@, shown as int));
        return ;
    }
    let mut i: usize = 0;
    let mut last_end: usize = 0;
    let ghost whole = highlighted(chars@, indices@, shown as int, 0, 0);
    while i < indices.len() && indices[i] < shown
        invariant
            i <= indices.len(),
            last_end <= shown <= chars.len(),
            *used == capped(total_length(segment_models(line@))),
            segment_models(line@) + highlighted(
                chars@,
                indices@,
                shown as int,
                i as int,
                last_end as int,
            ) == head + whole,
        decreases indices.len() - i,
    {
        let at = indices[i];
        let ghost before = segment_models(line@);
        let ghost rest = highlighted(chars@, indices@, shown as int, i + 1, at + 1);
        let ghost gap = if at > last_end {
            seq![
                SegmentModel {
                    kind: SegmentKind::Plain,
                    text: chars@.subrange(last_end as int, at as int),
                },
            ]
        } else {
            Seq::<SegmentModel>::empty()
        };
        let ghost hit = seq![
            SegmentModel { kind: SegmentKind::Match, text: chars@.subrange(at as int, at + 1) },
        ];
        assert(highlighted(chars@, indices@, shown as int, i as int, last_end as int) == gap + hit
            + rest);
        if at > last_end {
            push_segment(line, used, SegmentKind::Plain, chars, last_end, at);
        }
        assert(segment_models(line@) =~= before + gap);
        push_segment(line, used, SegmentKind::Match, chars, at, at + 1);
        proof {
            assert(segment_models(line@) =~= before + gap + hit);
            assert(before + (gap + hit + rest) =~= (before + gap + hit) + rest);
        }
        last_end = at + 1;
        i += 1;
    }
    let ghost before = segment_models(line@);
    if last_end < shown {
        push_segment(line, used, SegmentKind::Plain, chars, last_end, shown);
        assert(segment_models(line@) =~= before + seq![
            SegmentModel {
                kind: SegmentKind::Plain,
                text: chars@.subrange(last_end as int, shown as int),
            },
        ]);
    } else {
        assert(before + Seq::<SegmentModel>::empty() =~= before);
    }
}

/// Appends the time of use, moved to the right edge of the line.
fn push_time(line: &mut Vec<Segment>, used: usize, time: &Vec<char>, width: usize)
    requires
        used == capped(total_length(segment_models(old(line)@))),
    ensures
        ({
            let start = segment_models(old(line)@);
            let blanks = padding_length(width as int, total_length(start), time@.len() as int);
            let padded = if blanks > 0 {
                start.push(
                    SegmentModel {
                        kind: SegmentKind::Padding,
                        text: Seq::new(blanks as nat, |i: int| ' '),
                    },
                )
            } else {
                start
            };
            segment_models(final(line)@) == padded.push(
                SegmentModel { kind: SegmentKind::Time, text: time@ },
            )
        }),
{
    let total = capped_sum(used, time.len());
    let blanks: usize = if width > total {
        width - total
    } else {
        0
    };
    if blanks > 0 {
        let mut padding = String::new();
        let mut k: usize = 0;
        assert(padding@ =~= Seq::new(0nat, |i: int| ' '));
        while k < blanks
            invariant
                k <= blanks,
                padding@ == Seq::new(k as nat, |i: int| ' '),
            decreases blanks - k,
        {
            padding.push(' ');
            k += 1;
            assert(padding@ =~= Seq::new(k as nat, |i: int| ' '));
        }
        let segment = Segment { kind: SegmentKind::Padding, text: padding };
        assert(segment_models(line@.push(segment)) =~= segment_models(line@).push(segment@));
        line.push(segment);
    }
    let segment = Segment { kind: SegmentKind::Time, text: string_of(time, 0, time.len()) };
    assert(time@.subrange(0, time.len() as int) =~= time@);
    assert(segment_models(line@.push(segment)) =~= segment_models(line@).push(segment@));
    line.push(segment);
}

/// The characters that are shown of a command of `len` characters, in a line
/// of `width` columns that shows a time of `time` characters, if any.
fn shown_of(len: usize, width: usize, time: Option<usize>) -> (shown: usize)
    ensures
        shown == shown_length(
            len as int,
            command_room(
                width as int,
                match time {
                    Some(n) => Some(n as int),
                    None => None,
                },
            ),
        ),
        shown <= len,
{
    let taken: usize = match time {
        Some(n) => capped_sum(MARKER_WIDTH, capped_sum(n, TIME_GAP)),
        None => MARKER_WIDTH,
    };
    let room: usize = if width > taken {
        width - taken
    } else {
        0
    };
    let most: usize = if room > ELLIPSIS_WIDTH {
        room - ELLIPSIS_WIDTH
    } else {
        0
    };
    if len < most {
        len
    } else {
        most
    }
}

impl UI {
    /// The line of a result, as segments of text to be styled by their kind.
    pub fn render_command_line(
        &self,
        command: &str,
        match_indices: &Vec<usize>,
        time: Option<&str>,
        is_selected: bool,
        available_width: usize,
    ) -> (line: Vec<Segment>)
        ensures
            segment_models(line@) == result_line(
                command@,
                match_indices@,
                match time {
                    Some(text) => Some(text@),
                    None => None,
                },
                is_selected,
                available_width as int,
            ),
    {
        let chars = chars_of(command);
        let time_chars: Option<Vec<char>> = match time {
            Some(text) => Some(chars_of(text)),
            None => None,
        };
        let shown = shown_of(
            chars.len(),
            available_width,
            match &time_chars {
                Some(text) => Some(text.len()),
                None => None,
            },
        );
        let marker: Vec<char> = if is_selected {
            vec!['>', ' ']
        } else {
            vec![' ', ' ']
        };
        assert(marker@.subrange(0, 2) =~= marker_text(is_selected));
        let mut line: Vec<Segment> = Vec::new();
        let mut used: usize = 0;
        assert(segment_models(line@) =~= Seq::<SegmentModel>::empty());
        push_segment(&mut line, &mut used, SegmentKind::Marker, &marker, 0, 2);
        assert(segment_models(line@) =~= seq![
            SegmentModel { kind: SegmentKind::Marker, text: marker_text(is_selected) },
        ]);
        push_command(&mut line, &mut used, &chars, match_indices, shown);
        if chars.len() > shown {
            let dots: Vec<char> = vec!['.', '.', '.'];
            assert(dots@.subrange(0, 3) =~= ellipsis_text());
            push_segment(&mut line, &mut used, SegmentKind::Plain, &dots, 0, 3);
        }
        match time_chars {
            None => {},
            Some(text) => {
                push_time(&mut line, used, &text, available_width);
            },
        }
        line
    }
}

/// What `textwrap::wrap` returns for a text and a width, with the options
/// that a plain width stands for: the lines of the text, wrapped at word
/// boundaries so that none is wider than the width where that can be done.
pub uninterp spec fn wrapped_lines(text: Seq<char>, width: u16) -> Seq<Seq<char>>;

/// `textwrap::wrap`, with a plain width for its options. The lines depend on
/// the text and the width alone.
#[verifier::external_body]
fn wrap_text(text: &str, width: u16) -> (lines: Vec<String>)
    ensures
        texts(lines@) == wrapped_lines(text@, width),
{
    textwrap::wrap(text, usize::from(width)).into_iter().map(|line| line.into_owned()).collect()
}

/// The first `most` of `lines`; all of them if there are no more.
pub fn first_lines(lines: Vec<String>, most: usize) -> (out: Vec<String>)
    ensures
        out@ == if lines.len() > most {
            lines@.take(most as int)
        } else {
            lines@
        },
{
    let mut out = lines;
    if out.len() > most {
        out.truncate(most);
    }
    out
}

/// The title of the results list: the status message where there is one,
/// else the number of results.
pub open spec fn title_text(count: nat, status: Option<Seq<char>>) -> Seq<char> {
    match status {
        Some(message) => seq![' '] + message + seq![' '],
        None => seq![' '] + decimal_text(count) + " results "@,
    }
}

impl UI {
    /// The lines of the preview of `command` in an area of `area_width`
    /// columns, which the frame shares: the command wrapped to the width
    /// within the frame, and of that the first `PREVIEW_LINES` lines.
    pub fn preview_lines(&self, command: &str, area_width: u16) -> (lines: Vec<String>)
        ensures
            ({
                let inner: u16 = if area_width >= FRAME_EDGES {
                    (area_width - FRAME_EDGES) as u16
                } else {
                    0
                };
                let all = wrapped_lines(command@, inner);
                texts(lines@) == if all.len() > PREVIEW_LINES {
                    all.take(PREVIEW_LINES as int)
                } else {
                    all
                }
            }),
    {
        let inner: u16 = if area_width >= FRAME_EDGES {
            area_width - FRAME_EDGES
        } else {
            0
        };
        let all = wrap_text(command, inner);
        let ghost wrapped = texts(all@);
        let lines = first_lines(all, PREVIEW_LINES);
        assert(texts(lines@) =~= if wrapped.len() > PREVIEW_LINES {
            wrapped.take(PREVIEW_LINES as int)
        } else {
            wrapped
        });
        lines
    }

    /// The title of the results list.
    pub fn results_title(&self, count: usize, status: Option<&str>) -> (title: String)
        ensures
            title@ == title_text(
                count as nat,
                match status {
                    Some(message) => Some(message@),
                    None => None,
                },
            ),
    {
        let mut title = String::new();
        title.push(' ');
        match status {
            Some(message) => {
                title.append(message);
                title.push(' ');
                assert(title@ =~= seq![' '] + message@ + seq![' ']);
            },
            None => {
                let number = decimal_string(count as u64);
                title.append(number.as_str());
                title.append(" results ");
                assert(title@ =~= seq![' '] + decimal_text(count as nat) + " results "@);
            },
        }
        title
    }
}

} // verus!
