//! The time rule of a timetable row: blocks such as
//! `Từ 30/05/2022 đến 05/06/2022: (1) Thứ 4 tiết 9,10,11,12 (TH)`, each a date
//! range and the weekdays and periods on which the class meets in it.

use vstd::prelude::*;

use crate::calendar::{dmy_day_number, parse_date, weekday_of_chars, weekday_of_code, Date, Weekday};
use crate::place::{close_paren, open_paren};
use crate::text::{
    chars_of, find_exec, find_from, first_run, split_exec, split_on, split_once, split_once_exec,
    sub_chars, trim_chars, trimmed, uint_list, uint_list_of, views,
};

verus! {

/// A date range; its end is exclusive when the range is expanded.
#[derive(Clone, Copy, Debug, PartialEq, Eq, Structural)]
pub struct DateRange {
    pub start: Date,
    pub end: Date,
}

/// A weekday and the first and last period of the class on it.
#[derive(Clone, Copy, Debug, PartialEq, Eq, Structural)]
pub struct WeekdayPeriod {
    pub weekday: Weekday,
    pub period_start: u32,
    pub period_end: u32,
}

/// One block of a time rule: a date range, its weekday entries, and the group
/// index that links it to a place.
#[derive(Clone, Debug, PartialEq, Eq)]
pub struct TimeBlock {
    pub group_index: u64,
    pub range: DateRange,
    pub entries: Vec<WeekdayPeriod>,
}

/// The mathematical content of a `TimeBlock`.
pub struct TimeBlockView {
    pub group_index: int,
    pub range: DateRange,
    pub entries: Seq<WeekdayPeriod>,
}

impl View for TimeBlock {
    type V = TimeBlockView;

    open spec fn view(&self) -> TimeBlockView {
        TimeBlockView {
            group_index: self.group_index as int,
            range: self.range,
            entries: self.entries@,
        }
    }
}

/// Why a row could not be read.
#[derive(Clone, Copy, Debug, PartialEq, Eq, Structural)]
pub enum ParseError {
    /// A block has no colon after its date range, or the range is not two
    /// `day/month/year` dates around the word `đến`.
    MalformedRange,
}

/// The marker that opens a block: `Từ ` ("from").
pub open spec fn block_marker() -> Seq<char> {
    seq!['T', '\u{1eeb}', ' ']
}

/// The marker between the two dates of a range: `đến` ("to").
pub open spec fn range_marker() -> Seq<char> {
    seq!['\u{111}', '\u{1ebf}', 'n']
}

/// The marker that opens a weekday entry: `Thứ` ("weekday").
pub open spec fn weekday_marker() -> Seq<char> {
    seq!['T', 'h', '\u{1ee9}']
}

/// The marker between a weekday code and its periods: `tiết` ("period").
pub open spec fn period_marker() -> Seq<char> {
    seq!['t', 'i', '\u{1ebf}', 't']
}

/// The separator between the date range and the entries of a block.
pub open spec fn colon() -> Seq<char> {
    seq![':']
}

/// The smallest of `s[i..]` and `cur`.
pub open spec fn min_from(s: Seq<u32>, i: int, cur: u32) -> u32
    decreases s.len() - i,
{
    if 0 <= i < s.len() {
        min_from(s, i + 1, if s[i] < cur { s[i] } else { cur })
    } else {
        cur
    }
}

/// The largest of `s[i..]` and `cur`.
pub open spec fn max_from(s: Seq<u32>, i: int, cur: u32) -> u32
    decreases s.len() - i,
{
    if 0 <= i < s.len() {
        max_from(s, i + 1, if s[i] > cur { s[i] } else { cur })
    } else {
        cur
    }
}

/// The first and last period of a period list: its minimum and maximum, or
/// periods 1 to 16 where the list is empty.
pub open spec fn period_span(ps: Seq<u32>) -> (u32, u32) {
    if ps.len() == 0 {
        (1, 16)
    } else {
        (min_from(ps, 1, ps[0]), max_from(ps, 1, ps[0]))
    }
}

proof fn lemma_min_le_max(s: Seq<u32>, i: int, lo: u32, hi: u32)
    requires
        lo <= hi,
    ensures
        min_from(s, i, lo) <= max_from(s, i, hi),
    decreases s.len() - i,
{
    if 0 <= i < s.len() {
        lemma_min_le_max(
            s,
            i + 1,
            if s[i] < lo {
                s[i]
            } else {
                lo
            },
            if s[i] > hi {
                s[i]
            } else {
                hi
            },
        );
    }
}

/// The first period of a span never comes after its last.
pub proof fn lemma_span_ordered(ps: Seq<u32>)
    ensures
        period_span(ps).0 <= period_span(ps).1,
{
    if ps.len() > 0 {
        lemma_min_le_max(ps, 1, ps[0], ps[0]);
    }
}

/// A weekday entry such as `4 tiết 9,10,11,12`: the code before `tiết` names
/// the weekday, the digit runs after it are the periods. Without `tiết` the
/// whole text is the code and the period list is empty.
pub open spec fn entry_of(frag: Seq<char>) -> WeekdayPeriod {
    let (code, periods) = match split_once(frag, period_marker()) {
        Some((a, b)) => (a, b),
        None => (frag, Seq::empty()),
    };
    let span = period_span(uint_list(periods));
    WeekdayPeriod {
        weekday: weekday_of_code(first_run(code)),
        period_start: span.0,
        period_end: span.1,
    }
}

/// The entries read from the pieces `frags[i..]`, after those in `acc`; a
/// piece that is blank once trimmed gives none.
pub open spec fn entries_from(frags: Seq<Seq<char>>, i: int, acc: Seq<WeekdayPeriod>) -> Seq<
    WeekdayPeriod,
>
    decreases frags.len() - i,
{
    if 0 <= i < frags.len() {
        let t = trimmed(frags[i]);
        entries_from(
            frags,
            i + 1,
            if t.len() == 0 {
                acc
            } else {
                acc.push(entry_of(t))
            },
        )
    } else {
        acc
    }
}

/// The weekday entries of a text: one for each piece between the `Thứ`
/// markers (the piece before the first marker included) that is not blank.
pub open spec fn entries_of(seg: Seq<char>) -> Seq<WeekdayPeriod> {
    entries_from(split_on(seg, weekday_marker()), 0, Seq::empty())
}

/// The weekday entries of the text after a block's colon: those of the text
/// after its first `Thứ`, none where it has no `Thứ`.
pub open spec fn block_entries(rest: Seq<char>) -> Seq<WeekdayPeriod> {
    match split_once(rest, weekday_marker()) {
        Some((_, after)) => entries_of(after),
        None => Seq::empty(),
    }
}

/// `s` up to the first occurrence of `m`, or all of `s`.
pub open spec fn before(s: Seq<char>, m: Seq<char>) -> Seq<char> {
    match find_from(s, m, 0) {
        Some(j) => s.subrange(0, j),
        None => s,
    }
}

/// The group index that a block names itself, as in `: (2) Thứ ...`: the
/// first number in the parentheses that come before the first `Thứ`.
pub open spec fn explicit_group(seg: Seq<char>) -> Option<int> {
    match split_once(before(seg, weekday_marker()), open_paren()) {
        Some((_, after)) => {
            let l = uint_list(before(after, close_paren()));
            if l.len() > 0 {
                Some(l[0] as int)
            } else {
                None
            }
        },
        None => None,
    }
}

/// The date range `start đến end`, each side a `day/month/year` date.
pub open spec fn date_range_of(r: Seq<char>) -> Option<DateRange> {
    match split_once(r, range_marker()) {
        Some((f, t)) => match (dmy_day_number(trimmed(f)), dmy_day_number(trimmed(t))) {
            (Some(a), Some(b)) => Some(DateRange { start: Date { day: a }, end: Date { day: b } }),
            _ => None,
        },
        None => None,
    }
}

/// The block read from the text after a `Từ ` marker, at position `pos`
/// (1 for the first block): the range before the first colon, the entries
/// after it, and the group index that the block names, else `pos`.
pub open spec fn block_of(b: Seq<char>, pos: int) -> Option<TimeBlockView> {
    match split_once(b, colon()) {
        Some((r, rest)) => match date_range_of(r) {
            Some(range) => Some(
                TimeBlockView {
                    group_index: match explicit_group(rest) {
                        Some(g) => g,
                        None => pos,
                    },
                    range,
                    entries: block_entries(rest),
                },
            ),
            None => None,
        },
        None => None,
    }
}

/// The blocks read from the pieces `frags[i..]`, after those in `acc`.
pub open spec fn blocks_from(frags: Seq<Seq<char>>, i: int, acc: Seq<TimeBlockView>) -> Result<
    Seq<TimeBlockView>,
    ParseError,
>
    decreases frags.len() - i,
{
    if 0 <= i < frags.len() {
        match block_of(frags[i], i) {
            Some(b) => blocks_from(frags, i + 1, acc.push(b)),
            None => Err(ParseError::MalformedRange),
        }
    } else {
        Ok(acc)
    }
}

/// What a time rule says: its blocks in order, the text before the first
/// `Từ ` left out; any malformed block makes the whole rule malformed.
pub open spec fn time_rule(s: Seq<char>) -> Result<Seq<TimeBlockView>, ParseError> {
    blocks_from(split_on(s, block_marker()), 1, Seq::empty())
}

/// The views of a sequence of blocks.
pub open spec fn block_views(v: Seq<TimeBlock>) -> Seq<TimeBlockView> {
    v.map_values(|b: TimeBlock| b@)
}

fn period_marker_exec() -> (r: Vec<char>)
    ensures
        r@ == period_marker(),
{
    let r = vec!['t', 'i', '\u{1ebf}', 't'];
    assert(r@ =~= period_marker());
    r
}

fn weekday_marker_exec() -> (r: Vec<char>)
    ensures
        r@ == weekday_marker(),
{
    let r = vec!['T', 'h', '\u{1ee9}'];
    assert(r@ =~= weekday_marker());
    r
}

/// The first and last period of a period list.
fn span_of(ps: &Vec<u32>) -> (r: (u32, u32))
    ensures
        r == period_span(ps@),
{
    if ps.len() == 0 {
        return (1, 16);
    }
    let mut lo = ps[0];
    let mut hi = ps[0];
    let mut i: usize = 1;
    while i < ps.len()
        invariant
            1 <= i <= ps@.len(),
            min_from(ps@, i as int, lo) == min_from(ps@, 1, ps@[0]),
            max_from(ps@, i as int, hi) == max_from(ps@, 1, ps@[0]),
        decreases ps@.len() - i,
    {
        if ps[i] < lo {
            lo = ps[i];
        }
        if ps[i] > hi {
            hi = ps[i];
        }
        i += 1;
    }
    (lo, hi)
}

/// Reads one weekday entry.
fn entry_exec(frag: &Vec<char>) -> (r: WeekdayPeriod)
    ensures
        r == entry_of(frag@),
{
    let tiet = period_marker_exec();
    let (code, periods) = match split_once_exec(frag, &tiet) {
        Some((a, b)) => (a, b),
        None => (sub_chars(frag, 0, frag.len()), Vec::new()),
    };
    assert(frag@.subrange(0, frag@.len() as int) =~= frag@);
    let span = span_of(&uint_list_of(&periods));
    WeekdayPeriod { weekday: weekday_of_chars(&code), period_start: span.0, period_end: span.1 }
}

/// The weekday entries of a text.
fn entries_exec(seg: &Vec<char>) -> (r: Vec<WeekdayPeriod>)
    ensures
        r@ == entries_of(seg@),
{
    let thu = weekday_marker_exec();
    let frags = split_exec(seg, &thu);
    let ghost fv = views(frags@);
    let mut acc: Vec<WeekdayPeriod> = Vec::new();
    let mut i: usize = 0;
    while i < frags.len()
        invariant
            fv == views(frags@),
            fv == split_on(seg@, weekday_marker()),
            entries_from(fv, i as int, acc@) == entries_of(seg@),
        decreases frags@.len() - i,
    {
        assert(fv[i as int] == frags@[i as int]@);
        let t = trim_chars(&frags[i]);
        if t.len() > 0 {
            acc.push(entry_exec(&t));
        }
        i += 1;
    }
    acc
}

/// Reads weekday entries such as `4 tiết 9,10,11,12 (TH) Thứ 6 tiết 1,2`: one
/// for each non-blank piece between the `Thứ` markers, the first piece
/// included. A weekday without a code is Sunday, and one without periods
/// spans periods 1 to 16.
pub fn parse_weekday_and_period(all: &str) -> (r: Vec<WeekdayPeriod>)
    ensures
        r@ == entries_of(all@),
{
    let s = chars_of(all);
    entries_exec(&s)
}

/// `s` up to the first occurrence of `m`, or all of `s`.
pub(crate) fn before_exec(s: &Vec<char>, m: &Vec<char>) -> (r: Vec<char>)
    ensures
        r@ == before(s@, m@),
{
    match find_exec(s, m, 0) {
        Some(j) => sub_chars(s, 0, j),
        None => {
            let r = sub_chars(s, 0, s.len());
            assert(r@ =~= s@);
            r
        },
    }
}

/// The group index that a block names itself.
fn explicit_group_exec(seg: &Vec<char>) -> (r: Option<u32>)
    ensures
        match r {
            Some(g) => explicit_group(seg@) == Some(g as int),
            None => explicit_group(seg@) is None,
        },
{
    let thu = weekday_marker_exec();
    let open: Vec<char> = vec!['('];
    let close: Vec<char> = vec![')'];
    assert(open@ =~= open_paren());
    assert(close@ =~= close_paren());
    let prefix = before_exec(seg, &thu);
    match split_once_exec(&prefix, &open) {
        Some((_, after)) => {
            let l = uint_list_of(&before_exec(&after, &close));
            if l.len() > 0 {
                Some(l[0])
            } else {
                None
            }
        },
        None => None,
    }
}

/// The date range of a block.
fn date_range_exec(r: &Vec<char>) -> (res: Result<DateRange, ParseError>)
    ensures
        match res {
            Ok(d) => date_range_of(r@) == Some(d),
            Err(e) => date_range_of(r@) is None && e == ParseError::MalformedRange,
        },
{
    let den: Vec<char> = vec!['\u{111}', '\u{1ebf}', 'n'];
    assert(den@ =~= range_marker());
    match split_once_exec(r, &den) {
        Some((f, t)) => {
            let a = parse_date(&trim_chars(&f));
            let b = parse_date(&trim_chars(&t));
            match (a, b) {
                (Some(start), Some(end)) => Ok(DateRange { start, end }),
                _ => Err(ParseError::MalformedRange),
            }
        },
        None => Err(ParseError::MalformedRange),
    }
}

/// Reads a date range `dd/mm/yyyy đến dd/mm/yyyy`.
pub fn parse_date_range(range: &str) -> (res: Result<DateRange, ParseError>)
    ensures
        match res {
            Ok(d) => date_range_of(range@) == Some(d),
            Err(e) => date_range_of(range@) is None && e == ParseError::MalformedRange,
        },
{
    let s = chars_of(range);
    date_range_exec(&s)
}

/// Reads one block at position `pos`.
fn block_exec(b: &Vec<char>, pos: usize) -> (res: Result<TimeBlock, ParseError>)
    ensures
        match res {
            Ok(blk) => block_of(b@, pos as int) == Some(blk@),
            Err(e) => block_of(b@, pos as int) is None && e == ParseError::MalformedRange,
        },
{
    let colon_m: Vec<char> = vec![':'];
    assert(colon_m@ =~= colon());
    match split_once_exec(b, &colon_m) {
        Some((r, rest)) => {
            let range = date_range_exec(&r)?;
            let group_index = match explicit_group_exec(&rest) {
                Some(g) => g as u64,
                None => pos as u64,
            };
            let thu = weekday_marker_exec();
            let entries = match split_once_exec(&rest, &thu) {
                Some((_, after)) => entries_exec(&after),
                None => Vec::new(),
            };
            Ok(TimeBlock { group_index, range, entries })
        },
        None => Err(ParseError::MalformedRange),
    }
}

/// Reads a time rule into its blocks, in order of appearance.
pub fn parse_time_rule(times: &str) -> (res: Result<Vec<TimeBlock>, ParseError>)
    ensures
        match res {
            Ok(v) => time_rule(times@) == Ok::<Seq<TimeBlockView>, ParseError>(block_views(v@)),
            Err(e) => time_rule(times@) == Err::<Seq<TimeBlockView>, ParseError>(e),
        },
{
    let s = chars_of(times);
    let tu: Vec<char> = vec!['T', '\u{1eeb}', ' '];
    assert(tu@ =~= block_marker());
    let frags = split_exec(&s, &tu);
    let ghost fv = views(frags@);
    let mut acc: Vec<TimeBlock> = Vec::new();
    assert(block_views(acc@) =~= Seq::<TimeBlockView>::empty());
    let mut i: usize = 1;
    while i < frags.len()
        invariant
            fv == views(frags@),
            fv == split_on(s@, block_marker()),
            s@ == times@,
            1 <= i,
            blocks_from(fv, i as int, block_views(acc@)) == time_rule(s@),
        decreases frags@.len() - i,
    {
        assert(fv[i as int] == frags@[i as int]@);
        match block_exec(&frags[i], i) {
            Ok(blk) => {
                proof {
                    assert(block_views(acc@.push(blk)) =~= block_views(acc@).push(blk@));
                }
                acc.push(blk);
            },
            Err(e) => {
                return Err(e);
            },
        }
        i += 1;
    }
    Ok(acc)
}

} // verus!
