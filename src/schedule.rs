//! Weekly expansion of time blocks and assembly of the class occurrences of
//! a timetable row.

use vstd::arithmetic::div_mod::{lemma_fundamental_div_mod, lemma_mod_multiples_vanish};
use vstd::prelude::*;

use crate::text::trimmed;

use crate::calendar::{
    get_period_time, local_secs, local_time, period_bounds, to_utc, utc_of_local, weekday_index,
    weekday_of_day, Date, Weekday,
};
use crate::place::{
    lemma_place_rule_form, parse_place_rule, place_of, place_rule, PlaceResolution, PlaceView,
};
use crate::rule::{
    block_views, parse_time_rule, time_rule, DateRange, ParseError, TimeBlock, TimeBlockView,
    WeekdayPeriod,
};

verus! {

/// One meeting of a class: its name, its start and end as seconds since the
/// Unix epoch, and its place.
#[derive(Clone, Debug, PartialEq, Eq)]
pub struct Data {
    pub class: String,
    pub time_begin: i64,
    pub time_end: i64,
    pub place: String,
}

/// The mathematical content of a `Data`.
pub struct DataView {
    pub class: Seq<char>,
    pub time_begin: int,
    pub time_end: int,
    pub place: Seq<char>,
}

impl View for Data {
    type V = DataView;

    open spec fn view(&self) -> DataView {
        DataView {
            class: self.class@,
            time_begin: self.time_begin as int,
            time_end: self.time_end as int,
            place: self.place@,
        }
    }
}

impl Data {
    /// The name of the class.
    pub fn class(&self) -> (r: String)
        ensures
            r@ == self.class@,
    {
        self.class.clone()
    }

    /// The place of the class.
    pub fn place(&self) -> (r: String)
        ensures
            r@ == self.place@,
    {
        self.place.clone()
    }
}

/// The views of a sequence of occurrences.
pub open spec fn data_views(s: Seq<Data>) -> Seq<DataView> {
    s.map_values(|d: Data| d@)
}

/// The day numbers of a sequence of days.
pub open spec fn day_numbers(s: Seq<Date>) -> Seq<int> {
    s.map_values(|d: Date| d.day as int)
}

/// The first day at or after `start` that falls on `wd`.
pub open spec fn first_day(start: int, wd: Weekday) -> int {
    start + (wd.index() - weekday_index(start)) % 7
}

/// The days `d`, `d + 7`, ... before `end`, after those in `acc`.
pub open spec fn weekly_from(d: int, end: int, acc: Seq<int>) -> Seq<int>
    decreases (if d < end {
        end - d
    } else {
        0
    }),
{
    if d < end {
        weekly_from(d + 7, end, acc.push(d))
    } else {
        acc
    }
}

/// Every day of `range` (its end excluded) that falls on `wd`, in order.
pub open spec fn weekly_days(range: DateRange, wd: Weekday) -> Seq<int> {
    weekly_from(first_day(range.start.day as int, wd), range.end.day as int, Seq::empty())
}

/// The wall-clock start and end of an entry on a day: the start of its first
/// period and the end of its last.
pub open spec fn local_pair(day: int, e: WeekdayPeriod) -> (int, int) {
    (
        local_secs(day, period_bounds(e.period_start).0),
        local_secs(day, period_bounds(e.period_end).1),
    )
}

/// The wall-clock start and end of every meeting of an entry in a range.
pub open spec fn expansion(range: DateRange, e: WeekdayPeriod) -> Seq<(int, int)> {
    weekly_days(range, e.weekday).map_values(|d: int| local_pair(d, e))
}

/// The integer view of a sequence of wall-clock pairs.
pub open spec fn pair_views(s: Seq<(i64, i64)>) -> Seq<(int, int)> {
    s.map_values(|p: (i64, i64)| (p.0 as int, p.1 as int))
}

/// The occurrence of a class at a wall-clock pair, in a place.
pub open spec fn occurrence(class: Seq<char>, p: (int, int), place: Seq<char>) -> DataView {
    DataView { class, time_begin: utc_of_local(p.0), time_end: utc_of_local(p.1), place }
}

/// The occurrences of the entries `b.entries[i..]` of a block, after those in `acc`.
pub open spec fn entries_occ_from(
    class: Seq<char>,
    b: TimeBlockView,
    place: Seq<char>,
    i: int,
    acc: Seq<DataView>,
) -> Seq<DataView>
    decreases b.entries.len() - i,
{
    if 0 <= i < b.entries.len() {
        entries_occ_from(
            class,
            b,
            place,
            i + 1,
            acc + expansion(b.range, b.entries[i]).map_values(
                |p: (int, int)| occurrence(class, p, place),
            ),
        )
    } else {
        acc
    }
}

/// The occurrences of the blocks `bs[i..]`, after those in `acc`; each block
/// takes the place that the place rule gives its group index.
pub open spec fn blocks_occ_from(
    class: Seq<char>,
    bs: Seq<TimeBlockView>,
    p: PlaceView,
    i: int,
    acc: Seq<DataView>,
) -> Seq<DataView>
    decreases bs.len() - i,
{
    if 0 <= i < bs.len() {
        blocks_occ_from(
            class,
            bs,
            p,
            i + 1,
            entries_occ_from(class, bs[i], place_of(p, bs[i].group_index), 0, acc),
        )
    } else {
        acc
    }
}

/// The occurrences of a timetable row, block by block and entry by entry, or
/// the error of its time rule.
pub open spec fn row_occurrences(class: Seq<char>, times: Seq<char>, places: Seq<char>) -> Result<
    Seq<DataView>,
    ParseError,
> {
    match time_rule(times) {
        Ok(bs) => Ok(blocks_occ_from(class, bs, place_rule(places), 0, Seq::empty())),
        Err(e) => Err(e),
    }
}

/// `r` is what a row with these three texts gives: its occurrences, or the
/// error of its time rule.
pub open spec fn row_result(
    class: Seq<char>,
    times: Seq<char>,
    places: Seq<char>,
    r: Result<Vec<Data>, ParseError>,
) -> bool {
    match r {
        Ok(v) => row_occurrences(class, times, places) == Ok::<Seq<DataView>, ParseError>(
            data_views(v@),
        ),
        Err(e) => row_occurrences(class, times, places) == Err::<Seq<DataView>, ParseError>(e),
    }
}

/// Reading the same row twice gives the same outcome: both fail with the same
/// error, or both succeed with occurrence lists that agree field by field.
pub proof fn lemma_row_deterministic(
    class: Seq<char>,
    times: Seq<char>,
    places: Seq<char>,
    r1: Result<Vec<Data>, ParseError>,
    r2: Result<Vec<Data>, ParseError>,
)
    requires
        row_result(class, times, places, r1),
        row_result(class, times, places, r2),
    ensures
        r1 is Ok <==> r2 is Ok,
        r1 is Ok ==> data_views(r1->Ok_0@) == data_views(r2->Ok_0@),
        r1 is Err ==> r1->Err_0 == r2->Err_0,
{
}

/// A range whose start is its end holds no day, whatever the weekday.
pub proof fn lemma_empty_range(range: DateRange, wd: Weekday)
    requires
        range.start == range.end,
    ensures
        weekly_days(range, wd).len() == 0,
{
    lemma_first_day(range.start.day as int, wd);
}

/// The days `d`, `d + 7`, ... before `end` follow those in `acc`: as many as
/// there are weeks from `d` up to `end`, each seven days after the one before.
pub proof fn lemma_weekly_from(d: int, end: int, acc: Seq<int>)
    ensures
        weekly_from(d, end, acc).len() == acc.len() + (if d < end {
            (end - d - 1) / 7 + 1
        } else {
            0
        }),
        forall|i: int| 0 <= i < acc.len() ==> #[trigger] weekly_from(d, end, acc)[i] == acc[i],
        forall|i: int|
            acc.len() <= i < weekly_from(d, end, acc).len() ==> #[trigger] weekly_from(
                d,
                end,
                acc,
            )[i] == d + 7 * (i - acc.len()),
    decreases (if d < end {
        end - d
    } else {
        0
    }),
{
    if d < end {
        lemma_weekly_from(d + 7, end, acc.push(d));
        let r = weekly_from(d, end, acc);
        assert forall|i: int| 0 <= i < acc.len() implies #[trigger] r[i] == acc[i] by {
            assert(acc.push(d)[i] == acc[i]);
        }
        assert forall|i: int| acc.len() <= i < r.len() implies #[trigger] r[i] == d + 7 * (i
            - acc.len()) by {
            if i == acc.len() {
                assert(acc.push(d)[i] == d);
            }
        }
    }
}

/// The first day at or after `s` that falls on `wd` lies within the week from `s`,
/// and falls on `wd`.
pub proof fn lemma_first_day(s: int, wd: Weekday)
    ensures
        s <= first_day(s, wd) < s + 7,
        weekday_index(first_day(s, wd)) == wd.index(),
        weekday_of_day(first_day(s, wd)) == wd,
{
    let w = (s - 1) % 7;
    let t = wd.index();
    let k = (t - w) % 7;
    lemma_fundamental_div_mod(s - 1, 7);
    lemma_fundamental_div_mod(t - w, 7);
    let q = (s - 1) / 7;
    let m = (t - w) / 7;
    assert(first_day(s, wd) - 1 == 7 * (q - m) + t);
    lemma_mod_multiples_vanish(q - m, t, 7);
}

/// Every day that the weekly expansion of a range gives lies in the range, its
/// end excluded, and falls on the weekday asked for.
pub proof fn lemma_weekly_days_bounds(range: DateRange, wd: Weekday)
    ensures
        forall|i: int|
            0 <= i < weekly_days(range, wd).len() ==> range.start.day <= #[trigger] weekly_days(
                range,
                wd,
            )[i] < range.end.day && weekday_of_day(weekly_days(range, wd)[i]) == wd,
{
    let first = first_day(range.start.day as int, wd);
    let end = range.end.day as int;
    lemma_weekly_from(first, end, Seq::empty());
    lemma_first_day(range.start.day as int, wd);
    assert forall|i: int| 0 <= i < weekly_days(range, wd).len() implies range.start.day
        <= #[trigger] weekly_days(range, wd)[i] < range.end.day && weekday_of_day(
        weekly_days(range, wd)[i],
    ) == wd by {
        assert(weekly_days(range, wd)[i] == first + 7 * i);
        assert(7 * i <= end - first - 1);
        lemma_mod_multiples_vanish(i, first - 1, 7);
        assert(weekday_index(first + 7 * i) == weekday_index(first));
    }
}

/// Weekly expansion of a range `start < end` on a weekday: with `first` the
/// first day at or after `start` on that weekday, there are no days when
/// `first` is not before `end`, and `(end - first - 1) / 7 + 1` days otherwise,
/// which is `(end - first) / 7 + 1` whenever `end - first` is not a whole number
/// of weeks; every day lies in `start..end` and falls on the weekday.
pub proof fn lemma_weekly_expansion(range: DateRange, wd: Weekday)
    requires
        range.start.day < range.end.day,
    ensures
        ({
            let days = weekly_days(range, wd);
            let first = first_day(range.start.day as int, wd);
            let end = range.end.day as int;
            &&& first >= end ==> days.len() == 0
            &&& first < end ==> days.len() == (end - first - 1) / 7 + 1
            &&& first < end && (end - first) % 7 != 0 ==> days.len() == (end - first) / 7 + 1
            &&& forall|i: int|
                0 <= i < days.len() ==> range.start.day <= #[trigger] days[i] < end
                    && weekday_of_day(days[i]) == wd
            &&& forall|i: int, j: int| 0 <= i < j < days.len() ==> days[i] < days[j]
            &&& forall|d: int|
                range.start.day <= d < end && weekday_of_day(d) == wd ==> days.contains(d)
        }),
{
    lemma_weekly_from(first_day(range.start.day as int, wd), range.end.day as int, Seq::empty());
    lemma_weekly_days_bounds(range, wd);
    lemma_weekly_days_complete(range, wd);
}

/// The weekly expansion of a range goes up strictly, and holds every day of
/// the range (its end excluded) that falls on the weekday.
pub proof fn lemma_weekly_days_complete(range: DateRange, wd: Weekday)
    ensures
        forall|i: int, j: int|
            0 <= i < j < weekly_days(range, wd).len() ==> weekly_days(range, wd)[i]
                < weekly_days(range, wd)[j],
        forall|d: int|
            range.start.day <= d < range.end.day && weekday_of_day(d) == wd ==> weekly_days(
                range,
                wd,
            ).contains(d),
{
    let first = first_day(range.start.day as int, wd);
    let end = range.end.day as int;
    let days = weekly_days(range, wd);
    lemma_weekly_from(first, end, Seq::empty());
    lemma_first_day(range.start.day as int, wd);
    assert forall|i: int, j: int| 0 <= i < j < days.len() implies days[i] < days[j] by {
        assert(days[i] == first + 7 * i);
        assert(days[j] == first + 7 * j);
    }
    assert forall|d: int|
        range.start.day <= d < end && weekday_of_day(d) == wd implies days.contains(d) by {
        assert(weekday_index(d) == wd.index()) by {
            lemma_fundamental_div_mod(d - 1, 7);
        }
        lemma_fundamental_div_mod(d - 1, 7);
        lemma_fundamental_div_mod(first - 1, 7);
        let q1 = (d - 1) / 7;
        let q0 = (first - 1) / 7;
        assert(d - first == 7 * (q1 - q0));
        let m = q1 - q0;
        assert(m >= 0);
        assert(7 * m <= end - first - 1);
        assert(m <= (end - first - 1) / 7);
        assert(days[m] == first + 7 * m);
        assert(days[m] == d);
    }
}

/// `o` is a meeting of one of the entries of block `b`, at `place`: on a day
/// of the block's range (its end excluded) that falls on the entry's weekday,
/// from the start of the entry's first period to the end of its last.
pub open spec fn from_entry(class: Seq<char>, b: TimeBlockView, place: Seq<char>, o: DataView) -> bool {
    exists|j: int, d: int|
        0 <= j < b.entries.len() && b.range.start.day <= d < b.range.end.day
            && weekday_of_day(d) == #[trigger] b.entries[j].weekday && o == occurrence(
            class,
            #[trigger] local_pair(d, b.entries[j]),
            place,
        )
}

/// `o` is a meeting of one of the blocks `bs`, at the place that the place
/// rule `p` gives that block's group index.
pub open spec fn from_block(class: Seq<char>, bs: Seq<TimeBlockView>, p: PlaceView, o: DataView) -> bool {
    exists|k: int|
        0 <= k < bs.len() && from_entry(class, #[trigger] bs[k], place_of(p, bs[k].group_index), o)
}

proof fn lemma_entries_occ(
    class: Seq<char>,
    b: TimeBlockView,
    place: Seq<char>,
    i: int,
    acc: Seq<DataView>,
)
    requires
        0 <= i,
    ensures
        entries_occ_from(class, b, place, i, acc).len() >= acc.len(),
        forall|n: int|
            0 <= n < acc.len() ==> #[trigger] entries_occ_from(class, b, place, i, acc)[n]
                == acc[n],
        forall|n: int|
            acc.len() <= n < entries_occ_from(class, b, place, i, acc).len() ==> from_entry(
                class,
                b,
                place,
                #[trigger] entries_occ_from(class, b, place, i, acc)[n],
            ),
    decreases b.entries.len() - i,
{
    if i < b.entries.len() {
        let e = b.entries[i];
        let f = |p: (int, int)| occurrence(class, p, place);
        let x = expansion(b.range, e).map_values(f);
        let acc2 = acc + x;
        lemma_entries_occ(class, b, place, i + 1, acc2);
        lemma_weekly_days_bounds(b.range, e.weekday);
        let r = entries_occ_from(class, b, place, i, acc);
        assert(r == entries_occ_from(class, b, place, i + 1, acc2));
        assert forall|n: int| 0 <= n < acc.len() implies #[trigger] r[n] == acc[n] by {
            assert(acc2[n] == acc[n]);
        }
        assert forall|n: int| acc.len() <= n < r.len() implies from_entry(
            class,
            b,
            place,
            #[trigger] r[n],
        ) by {
            if n < acc2.len() {
                let m = n - acc.len();
                let d = weekly_days(b.range, e.weekday)[m];
                assert(r[n] == acc2[n]);
                assert(acc2[n] == x[m]);
                assert(x[m] == occurrence(class, local_pair(d, e), place));
                assert(b.range.start.day <= d < b.range.end.day && weekday_of_day(d)
                    == b.entries[i].weekday);
                assert(r[n] == occurrence(class, local_pair(d, b.entries[i]), place));
            }
        }
    }
}

proof fn lemma_blocks_occ(
    class: Seq<char>,
    bs: Seq<TimeBlockView>,
    p: PlaceView,
    i: int,
    acc: Seq<DataView>,
)
    requires
        0 <= i,
    ensures
        blocks_occ_from(class, bs, p, i, acc).len() >= acc.len(),
        forall|n: int|
            0 <= n < acc.len() ==> #[trigger] blocks_occ_from(class, bs, p, i, acc)[n] == acc[n],
        forall|n: int|
            acc.len() <= n < blocks_occ_from(class, bs, p, i, acc).len() ==> from_block(
                class,
                bs,
                p,
                #[trigger] blocks_occ_from(class, bs, p, i, acc)[n],
            ),
    decreases bs.len() - i,
{
    if i < bs.len() {
        let place = place_of(p, bs[i].group_index);
        let acc2 = entries_occ_from(class, bs[i], place, 0, acc);
        lemma_entries_occ(class, bs[i], place, 0, acc);
        lemma_blocks_occ(class, bs, p, i + 1, acc2);
        let r = blocks_occ_from(class, bs, p, i, acc);
        assert(r == blocks_occ_from(class, bs, p, i + 1, acc2));
        assert forall|n: int| 0 <= n < acc.len() implies #[trigger] r[n] == acc[n] by {
            assert(acc2[n] == acc[n]);
        }
        assert forall|n: int| acc.len() <= n < r.len() implies from_block(
            class,
            bs,
            p,
            #[trigger] r[n],
        ) by {
            if n < acc2.len() {
                assert(r[n] == acc2[n]);
                assert(from_entry(class, bs[i], place, acc2[n]));
            }
        }
    }
}

/// Every occurrence of a row is a meeting of one of its blocks: on a day of
/// the block's range (its end excluded) that falls on the weekday of one of the
/// block's entries, from the start of that entry's first period to the end of
/// its last, at the place that the place rule gives the block. Where the place
/// rule has no opening parenthesis, that place is the trimmed rule, for every
/// occurrence.
pub proof fn lemma_row_occurrences(class: Seq<char>, times: Seq<char>, places: Seq<char>)
    requires
        time_rule(times) is Ok,
    ensures
        ({
            let bs = time_rule(times)->Ok_0;
            let occ = row_occurrences(class, times, places)->Ok_0;
            &&& row_occurrences(class, times, places) is Ok
            &&& forall|n: int|
                0 <= n < occ.len() ==> from_block(class, bs, place_rule(places), #[trigger] occ[n])
            &&& (forall|j: int| 0 <= j < places.len() ==> places[j] != '(') ==> forall|n: int|
                0 <= n < occ.len() ==> (#[trigger] occ[n]).place == trimmed(places)
        }),
{
    let bs = time_rule(times)->Ok_0;
    let p = place_rule(places);
    let occ = row_occurrences(class, times, places)->Ok_0;
    lemma_blocks_occ(class, bs, p, 0, Seq::empty());
    lemma_place_rule_form(places);
    if forall|j: int| 0 <= j < places.len() ==> places[j] != '(' {
        assert(p == PlaceView::Default(trimmed(places)));
        assert forall|n: int| 0 <= n < occ.len() implies (#[trigger] occ[n]).place == trimmed(
            places,
        ) by {
            assert(from_block(class, bs, p, occ[n]));
            let k = choose|k: int|
                0 <= k < bs.len() && from_entry(
                    class,
                    #[trigger] bs[k],
                    place_of(p, bs[k].group_index),
                    occ[n],
                );
            assert(place_of(p, bs[k].group_index) == trimmed(places));
        }
    }
}

/// Every day of a range (its end excluded) that falls on a weekday, in order.
pub fn weekly_dates(range: DateRange, wd: Weekday) -> (r: Vec<Date>)
    ensures
        day_numbers(r@) == weekly_days(range, wd),
{
    let ws = range.start.weekday().num_days_from_monday();
    let target = wd.num_days_from_monday();
    let shift = (target + 7 - ws) % 7;
    assert(shift as int == (wd.index() - weekday_index(range.start.day as int)) % 7) by {
        lemma_mod_multiples_vanish(1, wd.index() - weekday_index(range.start.day as int), 7);
    }
    let end = range.end.day as i64;
    let mut d: i64 = range.start.day as i64 + shift as i64;
    let mut v: Vec<Date> = Vec::new();
    assert(day_numbers(v@) =~= Seq::<int>::empty());
    while d < end
        invariant
            d >= range.start.day,
            end == range.end.day,
            weekly_from(d as int, end as int, day_numbers(v@)) == weekly_days(range, wd),
        decreases (if d < end {
            end - d
        } else {
            0
        }),
    {
        let day = Date { day: d as i32 };
        proof {
            assert(day_numbers(v@.push(day)) =~= day_numbers(v@).push(d as int));
        }
        v.push(day);
        d = d + 7;
    }
    v
}

/// The wall-clock start and end, as seconds since 1970-01-01 00:00 on the
/// timetable's clock, of every meeting of an entry in a range: one per week,
/// on the entry's weekday, from the start of its first period to the end of
/// its last.
pub fn expand(range: DateRange, e: WeekdayPeriod) -> (r: Vec<(i64, i64)>)
    ensures
        pair_views(r@) == expansion(range, e),
{
    let days = weekly_dates(range, e.weekday);
    let (begin, _) = get_period_time(e.period_start);
    let (_, finish) = get_period_time(e.period_end);
    let ghost f = |d: int| local_pair(d, e);
    let mut out: Vec<(i64, i64)> = Vec::new();
    let mut j: usize = 0;
    while j < days.len()
        invariant
            j <= days@.len(),
            day_numbers(days@) == weekly_days(range, e.weekday),
            begin == period_bounds(e.period_start).0,
            finish == period_bounds(e.period_end).1,
            f == (|d: int| local_pair(d, e)),
            pair_views(out@) == day_numbers(days@).take(j as int).map_values(f),
        decreases days@.len() - j,
    {
        let d = days[j];
        let p = (local_time(d, begin), local_time(d, finish));
        proof {
            assert(day_numbers(days@)[j as int] == d.day as int);
            assert(f(d.day as int) == local_pair(d.day as int, e));
            assert(f(d.day as int) == (p.0 as int, p.1 as int));
            assert(pair_views(out@.push(p)) =~= pair_views(out@).push((p.0 as int, p.1 as int)));
            assert(day_numbers(days@).take(j + 1).map_values(f) =~= day_numbers(days@).take(
                j as int,
            ).map_values(f).push(f(d.day as int)));
        }
        out.push(p);
        j += 1;
    }
    assert(day_numbers(days@).take(j as int) =~= day_numbers(days@));
    out
}

/// Appends the occurrences of one entry of a block.
fn push_entry(
    out: &mut Vec<Data>,
    class: &String,
    range: DateRange,
    e: WeekdayPeriod,
    place: &String,
)
    ensures
        data_views(final(out)@) == data_views(old(out)@) + expansion(range, e).map_values(
            |p: (int, int)| occurrence(class@, p, place@),
        ),
{
    let pairs = expand(range, e);
    let ghost f = |p: (int, int)| occurrence(class@, p, place@);
    let ghost start = data_views(out@);
    let mut j: usize = 0;
    assert(pair_views(pairs@).take(0).map_values(f) =~= Seq::<DataView>::empty());
    assert(start + Seq::<DataView>::empty() =~= start);
    while j < pairs.len()
        invariant
            j <= pairs@.len(),
            pair_views(pairs@) == expansion(range, e),
            f == (|p: (int, int)| occurrence(class@, p, place@)),
            start == data_views(old(out)@),
            data_views(out@) == start + pair_views(pairs@).take(j as int).map_values(f),
        decreases pairs@.len() - j,
    {
        let (lb, le) = pairs[j];
        proof {
            lemma_weekly_days_bounds(range, e.weekday);
            assert(pair_views(pairs@).len() == pairs@.len());
            assert(expansion(range, e).len() == weekly_days(range, e.weekday).len());
            let day = weekly_days(range, e.weekday)[j as int];
            assert(pair_views(pairs@)[j as int] == local_pair(day, e));
            assert(day >= i32::MIN);
        }
        let o = Data {
            class: class.clone(),
            time_begin: to_utc(lb),
            time_end: to_utc(le),
            place: place.clone(),
        };
        proof {
            assert(pair_views(pairs@)[j as int] == (lb as int, le as int));
            assert(data_views(out@.push(o)) =~= data_views(out@).push(o@));
            assert(pair_views(pairs@).take(j + 1).map_values(f) =~= pair_views(pairs@).take(
                j as int,
            ).map_values(f).push(f((lb as int, le as int))));
            assert(start + pair_views(pairs@).take(j + 1).map_values(f) =~= (start + pair_views(
                pairs@,
            ).take(j as int).map_values(f)).push(f((lb as int, le as int))));
        }
        out.push(o);
        j += 1;
    }
    assert(pair_views(pairs@).take(j as int) =~= pair_views(pairs@));
}

/// Appends the occurrences of one block, at the given place.
fn push_block(out: &mut Vec<Data>, class: &String, b: &TimeBlock, place: &String)
    ensures
        data_views(final(out)@) == entries_occ_from(class@, b@, place@, 0, data_views(old(out)@)),
{
    let mut i: usize = 0;
    while i < b.entries.len()
        invariant
            entries_occ_from(class@, b@, place@, i as int, data_views(out@)) == entries_occ_from(
                class@,
                b@,
                place@,
                0,
                data_views(old(out)@),
            ),
        decreases b.entries@.len() - i,
    {
        push_entry(out, class, b.range, b.entries[i], place);
        i += 1;
    }
}

/// The occurrences of a row whose time rule has been read into blocks and
/// whose place rule has been resolved.
pub fn assemble(class: &str, blocks: &Vec<TimeBlock>, places: &PlaceResolution) -> (r: Vec<Data>)
    ensures
        data_views(r@) == blocks_occ_from(
            class@,
            block_views(blocks@),
            places@,
            0,
            Seq::empty(),
        ),
{
    let name = class.to_owned();
    let ghost bv = block_views(blocks@);
    let mut out: Vec<Data> = Vec::new();
    assert(data_views(out@) =~= Seq::<DataView>::empty());
    let mut i: usize = 0;
    while i < blocks.len()
        invariant
            bv == block_views(blocks@),
            name@ == class@,
            blocks_occ_from(class@, bv, places@, i as int, data_views(out@)) == blocks_occ_from(
                class@,
                bv,
                places@,
                0,
                Seq::empty(),
            ),
        decreases blocks@.len() - i,
    {
        assert(bv[i as int] == blocks@[i as int]@);
        let place = places.place_for(blocks[i].group_index);
        push_block(&mut out, &name, &blocks[i], &place);
        i += 1;
    }
    out
}

/// Turns one timetable row (class name, time rule, place rule) into its class
/// occurrences, block by block in order; a malformed date range anywhere in the
/// time rule fails the whole row.
pub fn parse_table_row(class: &str, times: &str, places: &str) -> (r: Result<
    Vec<Data>,
    ParseError,
>)
    ensures
        row_result(class@, times@, places@, r),
{
    let blocks = parse_time_rule(times)?;
    let resolution = parse_place_rule(places);
    Ok(assemble(class, &blocks, &resolution))
}

/// The texts of report rows (class, time rule, place rule).
pub open spec fn row_texts(rows: Seq<(String, String, String)>) -> Seq<
    (Seq<char>, Seq<char>, Seq<char>),
> {
    rows.map_values(|r: (String, String, String)| (r.0@, r.1@, r.2@))
}

/// The occurrences of the rows `rows[i..]` that parse, after those in `acc`,
/// and the positions of the rows that do not, after those in `failed`.
pub open spec fn report_from(
    rows: Seq<(Seq<char>, Seq<char>, Seq<char>)>,
    i: int,
    acc: Seq<DataView>,
    failed: Seq<int>,
) -> (Seq<DataView>, Seq<int>)
    decreases rows.len() - i,
{
    if 0 <= i < rows.len() {
        match row_occurrences(rows[i].0, rows[i].1, rows[i].2) {
            Ok(o) => report_from(rows, i + 1, acc + o, failed),
            Err(_) => report_from(rows, i + 1, acc, failed.push(i)),
        }
    } else {
        (acc, failed)
    }
}

/// The integer view of a sequence of positions.
pub open spec fn positions(v: Seq<usize>) -> Seq<int> {
    v.map_values(|i: usize| i as int)
}

/// Reads every row of a report: the occurrences of the rows that parse, in
/// row order, and the positions of the rows that fail, which add nothing and
/// do not stop the others.
pub fn parse_rows(rows: &Vec<(String, String, String)>) -> (r: (Vec<Data>, Vec<usize>))
    ensures
        (data_views(r.0@), positions(r.1@)) == report_from(
            row_texts(rows@),
            0,
            Seq::empty(),
            Seq::empty(),
        ),
{
    let ghost rt = row_texts(rows@);
    let mut out: Vec<Data> = Vec::new();
    let mut failed: Vec<usize> = Vec::new();
    assert(data_views(out@) =~= Seq::<DataView>::empty());
    assert(positions(failed@) =~= Seq::<int>::empty());
    let mut i: usize = 0;
    while i < rows.len()
        invariant
            rt == row_texts(rows@),
            report_from(rt, i as int, data_views(out@), positions(failed@)) == report_from(
                rt,
                0,
                Seq::empty(),
                Seq::empty(),
            ),
        decreases rows@.len() - i,
    {
        let row = &rows[i];
        assert(rt[i as int] == (row.0@, row.1@, row.2@));
        match parse_table_row(row.0.as_str(), row.1.as_str(), row.2.as_str()) {
            Ok(mut v) => {
                let ghost before = out@;
                let ghost added = v@;
                out.append(&mut v);
                assert(data_views(out@) =~= data_views(before) + data_views(added));
            },
            Err(_) => {
                proof {
                    assert(positions(failed@.push(i)) =~= positions(failed@).push(i as int));
                }
                failed.push(i);
            },
        }
        i += 1;
    }
    (out, failed)
}

} // verus!
