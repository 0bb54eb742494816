//! What the graph endpoint decides: the request's parameters, the layout of the heatmap,
//! its month labels and the widget title.

use crate::anki::AnkiStats;
use crate::calendar::{month_number, month_of_day, parse_ymd, weekday_from_sunday, weekday_of_day, ymd_parse};
use crate::config::{number_or, Config};
use crate::templates::{AnkiSvgGraphTemplate, GraphCell};
use crate::text::{parse_unsigned, same_text};
use vstd::prelude::*;

verus! {

/// Rows of the heatmap: the days of a week.
pub const GRID_ROWS: usize = 7;

/// Side of a cell.
pub const CELL_SIZE: usize = 12;

/// Space between cells.
pub const CELL_GAP: usize = 2;

/// Room left of the grid for the weekday labels.
pub const LABEL_OFFSET: usize = 30;

/// Room above the grid for the month labels.
pub const TOP_OFFSET: usize = 20;

/// Corner radius of a cell.
pub const DEFAULT_CELL_RADIUS: u32 = 2;

/// The value of the last query parameter named `key`.
pub open spec fn query_value(params: Seq<(String, String)>, key: Seq<char>) -> Option<Seq<char>>
    decreases params.len(),
{
    if params.len() == 0 {
        None
    } else if params.last().0@ == key {
        Some(params.last().1@)
    } else {
        query_value(params.drop_last(), key)
    }
}

/// A text, when it is not empty.
pub open spec fn non_empty(value: Option<Seq<char>>) -> Option<Seq<char>> {
    match value {
        Some(text) => if text.len() > 0 {
            Some(text)
        } else {
            None
        },
        None => None,
    }
}

/// The characters of an optional text.
pub open spec fn text_of(value: Option<String>) -> Option<Seq<char>> {
    match value {
        Some(s) => Some(s@),
        None => None,
    }
}

fn query_get<'a>(params: &'a Vec<(String, String)>, key: &str) -> (value: Option<&'a String>)
    ensures
        match value {
            Some(v) => query_value(params@, key@) == Some(v@),
            None => query_value(params@, key@) is None,
        },
{
    let mut i: usize = params.len();
    assert(params@.subrange(0, i as int) =~= params@);
    while i > 0
        invariant
            i <= params@.len(),
            query_value(params@, key@) == query_value(params@.subrange(0, i as int), key@),
        decreases i,
    {
        let ghost prefix = params@.subrange(0, i as int);
        assert(prefix.drop_last() =~= params@.subrange(0, i - 1));
        assert(prefix.last() == params@[i - 1]);
        if same_text(params[i - 1].0.as_str(), key) {
            return Some(&params[i - 1].1);
        }
        i = i - 1;
    }
    None
}

fn non_empty_text(value: Option<&String>) -> (text: Option<String>)
    ensures
        text_of(text) == non_empty(
            match value {
                Some(v) => Some(v@),
                None => None,
            },
        ),
{
    match value {
        Some(v) => if v.as_str().unicode_len() > 0 {
            Some(v.clone())
        } else {
            None
        },
        None => None,
    }
}

/// The parameters of a graph request.
#[derive(Debug, Clone)]
pub struct WidgetParams {
    pub deck: Option<String>,
    pub days: u32,
    pub timezone: Option<String>,
}

impl WidgetParams {
    /// Reads the parameters `deck`, `days` and `timezone` of a request; an empty deck or
    /// time zone counts as none, and a missing or invalid day count as the configured one.
    pub fn from_query(params: &Vec<(String, String)>, config: &Config) -> (widget: WidgetParams)
        ensures
            text_of(widget.deck) == non_empty(query_value(params@, "deck"@)),
            widget.days == number_or(
                query_value(params@, "days"@),
                u32::MAX as nat,
                config.default_days as nat,
            ),
            text_of(widget.timezone) == non_empty(query_value(params@, "timezone"@)),
    {
        let deck = non_empty_text(query_get(params, "deck"));
        let days = match query_get(params, "days") {
            Some(v) => match parse_unsigned(v.as_str(), 4294967295) {
                Some(n) => n,
                None => config.default_days,
            },
            None => config.default_days,
        };
        let timezone = non_empty_text(query_get(params, "timezone"));
        WidgetParams { deck, days, timezone }
    }
}

/// Day of the week (from Sunday) of the first day shown, or 0 when its date cannot be read.
pub open spec fn spec_first_date_weekday(daily: Seq<(String, u32, String)>) -> int {
    if daily.len() == 0 {
        0
    } else {
        match ymd_parse(daily[0].0@) {
            Some(day) => weekday_from_sunday(day as int),
            None => 0,
        }
    }
}

/// Day of the week of the first day shown.
pub fn first_date_weekday(stats: &AnkiStats) -> (weekday: usize)
    ensures
        weekday == spec_first_date_weekday(stats.daily_reviews@),
        weekday < 7,
{
    if stats.daily_reviews.len() == 0 {
        return 0;
    }
    match parse_ymd(stats.daily_reviews[0].0.as_str()) {
        Some(day) => weekday_of_day(day) as usize,
        None => 0,
    }
}

/// The highest day total shown, or 0 when no day is shown.
pub open spec fn is_max_count(daily: Seq<(String, u32, String)>, max: u32) -> bool {
    &&& forall|i: int| 0 <= i < daily.len() ==> (#[trigger] daily[i]).1 <= max
    &&& daily.len() == 0 ==> max == 0
    &&& daily.len() > 0 ==> exists|i: int| 0 <= i < daily.len() && (#[trigger] daily[i]).1 == max
}

/// The highest day total shown, 0 when none is.
pub fn max_review_count(stats: &AnkiStats) -> (max: u32)
    ensures
        is_max_count(stats.daily_reviews@, max),
{
    let n = stats.daily_reviews.len();
    let mut max: u32 = 0;
    let mut i: usize = 0;
    while i < n
        invariant
            n == stats.daily_reviews@.len(),
            i <= n,
            forall|k: int| 0 <= k < i ==> (#[trigger] stats.daily_reviews@[k]).1 <= max,
            i == 0 ==> max == 0,
            i > 0 ==> exists|k: int| 0 <= k < i && (#[trigger] stats.daily_reviews@[k]).1 == max,
        decreases n - i,
    {
        let c = stats.daily_reviews[i].1;
        if i == 0 || c > max {
            max = c;
        }
        i = i + 1;
    }
    max
}

/// Whether the number of days shown leaves room for the layout arithmetic (always so for a
/// vector that fits in memory).
pub open spec fn layout_fits(daily: Seq<(String, u32, String)>) -> bool {
    daily.len() <= usize::MAX / 32
}

/// Week column of the `i`-th day shown.
pub open spec fn cell_col(first_weekday: int, i: int) -> int {
    (first_weekday + i) / (GRID_ROWS as int)
}

/// Row of a day: its day of the week, or its position modulo 7 when its date cannot be read.
pub open spec fn cell_row(date: Seq<char>, i: int) -> int {
    match ymd_parse(date) {
        Some(day) => weekday_from_sunday(day as int),
        None => i % (GRID_ROWS as int),
    }
}

/// Whether `cell` is the `i`-th day's square, with the given opacity.
pub open spec fn is_cell_of(
    cell: GraphCell,
    daily: Seq<(String, u32, String)>,
    i: int,
    opacity: Seq<char>,
) -> bool {
    &&& cell.date@ == daily[i].0@
    &&& cell.count == daily[i].1
    &&& cell.col == cell_col(spec_first_date_weekday(daily), i)
    &&& cell.row == cell_row(daily[i].0@, i)
    &&& cell.opacity@ == opacity
    &&& cell.hover_text@ == daily[i].2@
}

/// One square per day shown, placed by week and weekday, with the opacity given for it.
pub fn build_graph_cells(stats: &AnkiStats, opacities: &Vec<String>) -> (cells: Vec<GraphCell>)
    requires
        opacities@.len() == stats.daily_reviews@.len(),
        layout_fits(stats.daily_reviews@),
    ensures
        cells@.len() == stats.daily_reviews@.len(),
        forall|i: int|
            0 <= i < cells@.len() ==> is_cell_of(
                #[trigger] cells@[i],
                stats.daily_reviews@,
                i,
                opacities@[i]@,
            ),
{
    let first_weekday = first_date_weekday(stats);
    let n = stats.daily_reviews.len();
    let mut cells: Vec<GraphCell> = Vec::new();
    let mut i: usize = 0;
    while i < n
        invariant
            n == stats.daily_reviews@.len(),
            n == opacities@.len(),
            n <= usize::MAX / 32,
            first_weekday == spec_first_date_weekday(stats.daily_reviews@),
            first_weekday < 7,
            i <= n,
            cells@.len() == i,
            forall|k: int|
                0 <= k < i ==> is_cell_of(
                    #[trigger] cells@[k],
                    stats.daily_reviews@,
                    k,
                    opacities@[k]@,
                ),
        decreases n - i,
    {
        let (date, count, label) = &stats.daily_reviews[i];
        let row: usize = match parse_ymd(date.as_str()) {
            Some(day) => weekday_of_day(day) as usize,
            None => i % GRID_ROWS,
        };
        cells.push(
            GraphCell {
                date: date.clone(),
                count: *count,
                col: (first_weekday + i) / GRID_ROWS,
                row,
                opacity: opacities[i].clone(),
                hover_text: label.clone(),
            },
        );
        i = i + 1;
    }
    cells
}

/// English three-letter abbreviation of a month (1 to 12), as chrono's `%b` writes it.
pub open spec fn month_abbrev_text(month: u32) -> Seq<char> {
    if month == 1 {
        "Jan"@
    } else if month == 2 {
        "Feb"@
    } else if month == 3 {
        "Mar"@
    } else if month == 4 {
        "Apr"@
    } else if month == 5 {
        "May"@
    } else if month == 6 {
        "Jun"@
    } else if month == 7 {
        "Jul"@
    } else if month == 8 {
        "Aug"@
    } else if month == 9 {
        "Sep"@
    } else if month == 10 {
        "Oct"@
    } else if month == 11 {
        "Nov"@
    } else {
        "Dec"@
    }
}

fn month_abbrev(month: u32) -> (abbrev: &'static str)
    ensures
        abbrev@ == month_abbrev_text(month),
{
    if month == 1 {
        "Jan"
    } else if month == 2 {
        "Feb"
    } else if month == 3 {
        "Mar"
    } else if month == 4 {
        "Apr"
    } else if month == 5 {
        "May"
    } else if month == 6 {
        "Jun"
    } else if month == 7 {
        "Jul"
    } else if month == 8 {
        "Aug"
    } else if month == 9 {
        "Sep"
    } else if month == 10 {
        "Oct"
    } else if month == 11 {
        "Nov"
    } else {
        "Dec"
    }
}

/// Month labels of the days shown so far, and the month of the last day whose date could be
/// read: a label, at the day's week column, whenever the month differs from that last month.
pub open spec fn month_label_run(daily: Seq<(String, u32, String)>, first_weekday: int) -> (
    Seq<(usize, Seq<char>)>,
    Seq<char>,
)
    decreases daily.len(),
{
    if daily.len() == 0 {
        (Seq::empty(), Seq::empty())
    } else {
        let (labels, last_month) = month_label_run(daily.drop_last(), first_weekday);
        let i = daily.len() - 1;
        match ymd_parse(daily[i].0@) {
            Some(day) => {
                let month = month_abbrev_text(month_number(day));
                if month != last_month {
                    (labels.push((cell_col(first_weekday, i) as usize, month)), month)
                } else {
                    (labels, last_month)
                }
            },
            None => (labels, last_month),
        }
    }
}

/// The labels as plain values.
pub open spec fn labels_view(labels: Seq<(usize, String)>) -> Seq<(usize, Seq<char>)> {
    labels.map_values(|l: (usize, String)| (l.0, l.1@))
}

/// A label at the week column where each month begins.
pub fn build_month_labels(stats: &AnkiStats) -> (labels: Vec<(usize, String)>)
    requires
        layout_fits(stats.daily_reviews@),
    ensures
        labels_view(labels@) == month_label_run(
            stats.daily_reviews@,
            spec_first_date_weekday(stats.daily_reviews@),
        ).0,
{
    let first_weekday = first_date_weekday(stats);
    let mut labels: Vec<(usize, String)> = Vec::new();
    let mut last_month = String::new();
    let n = stats.daily_reviews.len();
    let mut i: usize = 0;
    while i < n
        invariant
            n == stats.daily_reviews@.len(),
            n <= usize::MAX / 32,
            first_weekday == spec_first_date_weekday(stats.daily_reviews@),
            first_weekday < 7,
            i <= n,
            labels_view(labels@) == month_label_run(
                stats.daily_reviews@.subrange(0, i as int),
                first_weekday as int,
            ).0,
            last_month@ == month_label_run(
                stats.daily_reviews@.subrange(0, i as int),
                first_weekday as int,
            ).1,
        decreases n - i,
    {
        let ghost prefix = stats.daily_reviews@.subrange(0, i as int);
        let ghost next = stats.daily_reviews@.subrange(0, i + 1);
        assert(next.drop_last() =~= prefix);
        assert(next[i as int] == stats.daily_reviews@[i as int]);
        match parse_ymd(stats.daily_reviews[i].0.as_str()) {
            Some(day) => {
                let month = month_abbrev(month_of_day(day));
                if !same_text(month, last_month.as_str()) {
                    let ghost before = labels@;
                    let col: usize = (first_weekday + i) / GRID_ROWS;
                    labels.push((col, String::from_str(month)));
                    assert(labels_view(labels@) =~= labels_view(before).push((col, month@)));
                    last_month = String::from_str(month);
                }
            },
            None => {},
        }
        i = i + 1;
    }
    assert(stats.daily_reviews@.subrange(0, n as int) =~= stats.daily_reviews@);
    labels
}

/// Number of week columns: one more than the last day's column, one when no day is shown.
pub open spec fn column_count(daily: Seq<(String, u32, String)>) -> int {
    if daily.len() == 0 {
        1
    } else {
        cell_col(spec_first_date_weekday(daily), daily.len() - 1) + 1
    }
}

/// The weekday labels, at rows 1, 3 and 5.
pub fn weekday_labels() -> (labels: Vec<(usize, &'static str)>)
    ensures
        labels@.len() == 3,
        labels@[0].0 == 1 && labels@[0].1@ == "Mon"@,
        labels@[1].0 == 3 && labels@[1].1@ == "Wed"@,
        labels@[2].0 == 5 && labels@[2].1@ == "Fri"@,
{
    let mut labels: Vec<(usize, &'static str)> = Vec::new();
    labels.push((1, "Mon"));
    labels.push((3, "Wed"));
    labels.push((5, "Fri"));
    labels
}

/// The heatmap image: its cells, a view box wide enough for every week column and tall
/// enough for a week, the month and weekday labels, and rounded corners.
pub fn build_svg_template(stats: &AnkiStats, opacities: &Vec<String>) -> (svg: AnkiSvgGraphTemplate)
    requires
        opacities@.len() == stats.daily_reviews@.len(),
        layout_fits(stats.daily_reviews@),
    ensures
        svg.cells@.len() == stats.daily_reviews@.len(),
        forall|i: int|
            0 <= i < svg.cells@.len() ==> is_cell_of(
                #[trigger] svg.cells@[i],
                stats.daily_reviews@,
                i,
                opacities@[i]@,
            ),
        svg.viewbox_width == column_count(stats.daily_reviews@) * (CELL_SIZE + CELL_GAP)
            + LABEL_OFFSET,
        svg.viewbox_height == TOP_OFFSET + GRID_ROWS * (CELL_SIZE + CELL_GAP),
        labels_view(svg.month_labels@) == month_label_run(
            stats.daily_reviews@,
            spec_first_date_weekday(stats.daily_reviews@),
        ).0,
        svg.weekday_labels@.len() == 3,
        svg.weekday_labels@[0].0 == 1 && svg.weekday_labels@[0].1@ == "Mon"@,
        svg.weekday_labels@[1].0 == 3 && svg.weekday_labels@[1].1@ == "Wed"@,
        svg.weekday_labels@[2].0 == 5 && svg.weekday_labels@[2].1@ == "Fri"@,
        svg.cell_radius == DEFAULT_CELL_RADIUS,
{
    let cells = build_graph_cells(stats, opacities);
    let n = cells.len();
    let mut max_col: usize = 0;
    let mut i: usize = 0;
    let ghost first_weekday = spec_first_date_weekday(stats.daily_reviews@);
    while i < n
        invariant
            n == cells@.len(),
            n == stats.daily_reviews@.len(),
            n <= usize::MAX / 32,
            0 <= first_weekday < 7,
            first_weekday == spec_first_date_weekday(stats.daily_reviews@),
            forall|k: int|
                0 <= k < n ==> is_cell_of(
                    #[trigger] cells@[k],
                    stats.daily_reviews@,
                    k,
                    opacities@[k]@,
                ),
            i <= n,
            i == 0 ==> max_col == 0,
            i > 0 ==> max_col == cell_col(first_weekday, i - 1),
        decreases n - i,
    {
        let col = cells[i].col;
        assert(is_cell_of(cells@[i as int], stats.daily_reviews@, i as int, opacities@[i as int]@));
        if i > 0 {
            assert(cell_col(first_weekday, i - 1) <= cell_col(first_weekday, i as int)) by (nonlinear_arith)
                requires
                    first_weekday >= 0,
                    i >= 1,
            ;
        }
        if col > max_col {
            max_col = col;
        }
        if i > 0 {
            assert(max_col == cell_col(first_weekday, i as int));
        }
        i = i + 1;
    }
    assert(max_col <= n);
    let num_cols = max_col + 1;
    AnkiSvgGraphTemplate {
        cells,
        viewbox_width: num_cols * (CELL_SIZE + CELL_GAP) + LABEL_OFFSET,
        viewbox_height: TOP_OFFSET + GRID_ROWS * (CELL_SIZE + CELL_GAP),
        month_labels: build_month_labels(stats),
        weekday_labels: weekday_labels(),
        cell_radius: DEFAULT_CELL_RADIUS,
    }
}

/// The title of the widget.
pub fn widget_title(deck: &str) -> (title: String)
    ensures
        title@ == "Anki – "@ + deck@,
{
    let mut title = String::from_str("Anki – ");
    title.append(deck);
    title
}

/// The day number of the `i`-th day shown, as its date text parses (0 when it does not).
pub open spec fn day_shown(daily: Seq<(String, u32, String)>, i: int) -> int {
    match ymd_parse(daily[i].0@) {
        Some(d) => d as int,
        None => 0,
    }
}

/// Whether the days shown have dates that parse and follow one another day by day.
pub open spec fn consecutive_dates(daily: Seq<(String, u32, String)>) -> bool {
    &&& forall|i: int| 0 <= i < daily.len() ==> (#[trigger] ymd_parse(daily[i].0@)) is Some
    &&& forall|i: int| 0 < i < daily.len() ==> #[trigger] day_shown(daily, i) == day_shown(daily, i - 1) + 1
}

proof fn lemma_consecutive_dates_from_first(daily: Seq<(String, u32, String)>, k: int)
    requires
        consecutive_dates(daily),
        0 <= k < daily.len(),
    ensures
        day_shown(daily, k) == day_shown(daily, 0) + k,
    decreases k,
{
    if k > 0 {
        lemma_consecutive_dates_from_first(daily, k - 1);
        assert(day_shown(daily, k) == day_shown(daily, k - 1) + 1);
    }
}

/// On consecutive dates the grid is filled in reading order: when the days shown have dates
/// that follow one another, each square's row is a weekday (below 7), and its column times 7
/// plus its row is the first day's weekday plus its index; so no two squares share a place,
/// and the columns never go back.
pub proof fn lemma_consecutive_dates_fill_grid_in_order(daily: Seq<(String, u32, String)>)
    requires
        daily.len() > 0,
        consecutive_dates(daily),
    ensures
        spec_first_date_weekday(daily) == weekday_from_sunday(day_shown(daily, 0)),
        forall|i: int|
            0 <= i < daily.len() ==> {
                &&& 0 <= cell_row(#[trigger] daily[i].0@, i) < 7
                &&& cell_col(spec_first_date_weekday(daily), i) * 7 + cell_row(daily[i].0@, i)
                    == weekday_from_sunday(day_shown(daily, 0)) + i
            },
{
    let first_day = day_shown(daily, 0);
    assert(ymd_parse(daily[0].0@) is Some);
    let w0 = weekday_from_sunday(first_day);
    assert forall|i: int| 0 <= i < daily.len() implies {
        &&& 0 <= cell_row(#[trigger] daily[i].0@, i) < 7
        &&& cell_col(spec_first_date_weekday(daily), i) * 7 + cell_row(daily[i].0@, i) == w0 + i
    } by {
        lemma_consecutive_dates_from_first(daily, i);
        assert(ymd_parse(daily[i].0@) is Some);
        assert(cell_row(daily[i].0@, i) == (first_day + i) % 7);
        assert(((w0 + i) / 7) * 7 + (first_day + i) % 7 == w0 + i) by (nonlinear_arith)
            requires
                w0 == first_day % 7,
                i >= 0,
        ;
    }
}

/// The month abbreviation of the `i`-th day shown (empty when its date does not parse).
pub open spec fn month_shown(daily: Seq<(String, u32, String)>, i: int) -> Seq<char> {
    match ymd_parse(daily[i].0@) {
        Some(d) => month_abbrev_text(month_number(d)),
        None => Seq::empty(),
    }
}

/// Whether a month begins with the `i`-th day shown: it is the first day, or the day before
/// it lies in another month.
pub open spec fn begins_month(daily: Seq<(String, u32, String)>) -> spec_fn(int) -> bool {
    |i: int| i == 0 || month_shown(daily, i) != month_shown(daily, i - 1)
}

/// The label of the `i`-th day: its week column and its month.
pub open spec fn label_of_day(daily: Seq<(String, u32, String)>, first_weekday: int) -> spec_fn(int) -> (
    usize,
    Seq<char>,
) {
    |i: int| (cell_col(first_weekday, i) as usize, month_shown(daily, i))
}

/// The indices `0 .. n`.
pub open spec fn day_indices(n: nat) -> Seq<int> {
    Seq::new(n, |i: int| i)
}

proof fn lemma_month_labels_of_prefix(daily: Seq<(String, u32, String)>, first_weekday: int, k: int)
    requires
        0 <= k <= daily.len(),
        forall|i: int| 0 <= i < daily.len() ==> (#[trigger] ymd_parse(daily[i].0@)) is Some,
    ensures
        month_label_run(daily.subrange(0, k), first_weekday).0 == day_indices(k as nat).filter(
            begins_month(daily),
        ).map_values(label_of_day(daily, first_weekday)),
        k > 0 ==> month_label_run(daily.subrange(0, k), first_weekday).1 == month_shown(daily, k - 1),
    decreases k,
{
    reveal(Seq::filter);
    let prefix = daily.subrange(0, k);
    if k == 0 {
        assert(day_indices(0) =~= Seq::<int>::empty());
        assert(day_indices(0).filter(begins_month(daily)).map_values(label_of_day(daily, first_weekday))
            =~= Seq::empty());
    } else {
        lemma_month_labels_of_prefix(daily, first_weekday, k - 1);
        assert(prefix.drop_last() =~= daily.subrange(0, k - 1));
        assert(prefix[k - 1] == daily[k - 1]);
        assert(ymd_parse(daily[k - 1].0@) is Some);
        assert(day_indices(k as nat).drop_last() =~= day_indices((k - 1) as nat));
        assert(day_indices(k as nat).last() == k - 1);
        let before = day_indices((k - 1) as nat).filter(begins_month(daily));
        let f = label_of_day(daily, first_weekday);
        assert(day_indices(k as nat).filter(begins_month(daily)) == if (begins_month(daily))(k - 1) {
            before.push(k - 1)
        } else {
            before
        });
        let (labels, last_month) = month_label_run(daily.subrange(0, k - 1), first_weekday);
        assert(labels == before.map_values(f));
        if k > 1 {
            assert(ymd_parse(daily[k - 2].0@) is Some);
            assert(last_month == month_shown(daily, k - 2));
        } else {
            assert(last_month == Seq::<char>::empty());
            lemma_month_abbrev_not_empty(month_number(ymd_parse(daily[0].0@)->0));
        }
        if (begins_month(daily))(k - 1) {
            assert(before.push(k - 1).map_values(f) =~= before.map_values(f).push(f(k - 1)));
        }
    }
}

proof fn lemma_month_abbrev_not_empty(month: u32)
    ensures
        month_abbrev_text(month).len() == 3,
{
    reveal_strlit("Jan");
    reveal_strlit("Feb");
    reveal_strlit("Mar");
    reveal_strlit("Apr");
    reveal_strlit("May");
    reveal_strlit("Jun");
    reveal_strlit("Jul");
    reveal_strlit("Aug");
    reveal_strlit("Sep");
    reveal_strlit("Oct");
    reveal_strlit("Nov");
    reveal_strlit("Dec");
}

/// Month labels mark where months begin: when every day shown has a date that parses, there
/// is one label for each day that begins a month (the first day, and each day whose month
/// differs from the day before), in the order of the days, at that day's week column and
/// with its month.
pub proof fn lemma_month_labels_mark_month_starts(daily: Seq<(String, u32, String)>, first_weekday: int)
    requires
        forall|i: int| 0 <= i < daily.len() ==> (#[trigger] ymd_parse(daily[i].0@)) is Some,
    ensures
        month_label_run(daily, first_weekday).0 == day_indices(daily.len()).filter(begins_month(daily)).map_values(
            label_of_day(daily, first_weekday),
        ),
{
    lemma_month_labels_of_prefix(daily, first_weekday, daily.len() as int);
    assert(daily.subrange(0, daily.len() as int) =~= daily);
}

} // verus!
