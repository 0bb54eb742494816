//! What the library decides about the collection's contents: how review-log rows are
//! tallied per day, which query text reads them, the day of a review, the rollover hour
//! and the decks a name selects. Reading the database itself is left to the caller.

use super::types::{DayReviews, MATURE_INTERVAL_DAYS, ReviewType, SECS_PER_DAY};
use crate::json::{json_of_bytes, json_of_text, parse_json, parse_json_bytes, JsonValue};
use crate::text::{append_signed_decimal, has_prefix, same_text, signed_decimal_text};
use std::collections::HashMap;
use vstd::prelude::*;

verus! {

/// A review-log row: the day offset of the review, its `type` and its `lastIvl`.
pub type RevlogRow = (i32, i32, i32);

/// The kinds of review that are tallied.
#[derive(Debug, Clone, Copy, PartialEq, Eq)]
pub enum ReviewCategory {
    Learn,
    Young,
    Mature,
    Relearn,
    Filtered,
}

/// The kind a review of `type` `rev_type` with previous interval `last_ivl` is tallied
/// under; rescheduled and manual entries are not tallied.
pub open spec fn category_of(rev_type: i32, last_ivl: i32) -> Option<ReviewCategory> {
    if rev_type == ReviewType::Learn.spec_code() {
        Some(ReviewCategory::Learn)
    } else if rev_type == ReviewType::Review.spec_code() && last_ivl < MATURE_INTERVAL_DAYS {
        Some(ReviewCategory::Young)
    } else if rev_type == ReviewType::Review.spec_code() {
        Some(ReviewCategory::Mature)
    } else if rev_type == ReviewType::Relearn.spec_code() {
        Some(ReviewCategory::Relearn)
    } else if rev_type == ReviewType::Filtered.spec_code() {
        Some(ReviewCategory::Filtered)
    } else {
        None
    }
}

/// Number of rows of day `day` tallied under `category`.
pub open spec fn tally(rows: Seq<RevlogRow>, day: i32, category: ReviewCategory) -> nat
    decreases rows.len(),
{
    if rows.len() == 0 {
        0
    } else {
        let row = rows.last();
        tally(rows.drop_last(), day, category) + if row.0 == day && category_of(row.1, row.2)
            == Some(category) {
            1nat
        } else {
            0nat
        }
    }
}

/// Number of rows of day `day` tallied under any kind.
pub open spec fn tallied_rows(rows: Seq<RevlogRow>, day: i32) -> nat
    decreases rows.len(),
{
    if rows.len() == 0 {
        0
    } else {
        let row = rows.last();
        tallied_rows(rows.drop_last(), day) + if row.0 == day && category_of(
            row.1,
            row.2,
        ) is Some {
            1nat
        } else {
            0nat
        }
    }
}

/// Whether some row belongs to day `day`.
pub open spec fn has_day(rows: Seq<RevlogRow>, day: i32) -> bool {
    exists|i: int| 0 <= i < rows.len() && #[trigger] rows[i].0 == day
}

/// Whether `reviews` holds the tallies of day `day`.
pub open spec fn is_tally_of(reviews: DayReviews, rows: Seq<RevlogRow>, day: i32) -> bool {
    &&& reviews.learn == tally(rows, day, ReviewCategory::Learn)
    &&& reviews.young == tally(rows, day, ReviewCategory::Young)
    &&& reviews.mature == tally(rows, day, ReviewCategory::Mature)
    &&& reviews.relearn == tally(rows, day, ReviewCategory::Relearn)
    &&& reviews.filtered == tally(rows, day, ReviewCategory::Filtered)
}

/// Whether every tally of every day fits in a `u32`.
pub open spec fn tallies_fit(rows: Seq<RevlogRow>) -> bool {
    forall|day: i32, category: ReviewCategory| #[trigger] tally(rows, day, category) <= u32::MAX
}

proof fn lemma_tally_prefix(rows: Seq<RevlogRow>, i: int, day: i32, category: ReviewCategory)
    requires
        0 <= i <= rows.len(),
    ensures
        tally(rows.subrange(0, i), day, category) <= tally(rows, day, category),
    decreases rows.len() - i,
{
    if i < rows.len() {
        lemma_tally_prefix(rows, i + 1, day, category);
        assert(rows.subrange(0, i + 1).drop_last() =~= rows.subrange(0, i));
    } else {
        assert(rows.subrange(0, i) =~= rows);
    }
}

/// Tallies review-log rows by day and kind. Every day that some row belongs to has an
/// entry, also when none of its rows is of a tallied kind.
pub fn aggregate_reviews_by_day(rows: &[RevlogRow]) -> (by_day: HashMap<i32, DayReviews>)
    requires
        tallies_fit(rows@),
    ensures
        forall|day: i32| #[trigger] by_day@.contains_key(day) <==> has_day(rows@, day),
        forall|day: i32| #[trigger] by_day@.contains_key(day) ==> is_tally_of(by_day@[day], rows@, day),
{
    let mut map: HashMap<i32, DayReviews> = HashMap::new();
    let n = rows.len();
    let mut i: usize = 0;
    while i < n
        invariant
            n == rows@.len(),
            i <= n,
            tallies_fit(rows@),
            forall|day: i32| #[trigger] map@.contains_key(day) <==> has_day(rows@.subrange(0, i as int), day),
            forall|day: i32| #[trigger] map@.contains_key(day) ==> is_tally_of(map@[day], rows@.subrange(0, i as int), day),
        decreases n - i,
    {
        let (anki_day, rev_type, last_ivl) = rows[i];
        let ghost prefix = rows@.subrange(0, i as int);
        let ghost next = rows@.subrange(0, i + 1);
        assert(next.drop_last() =~= prefix);
        assert(next.last() == rows@[i as int]);
        proof {
            lemma_tally_prefix(rows@, i + 1, anki_day, ReviewCategory::Learn);
            lemma_tally_prefix(rows@, i + 1, anki_day, ReviewCategory::Young);
            lemma_tally_prefix(rows@, i + 1, anki_day, ReviewCategory::Mature);
            lemma_tally_prefix(rows@, i + 1, anki_day, ReviewCategory::Relearn);
            lemma_tally_prefix(rows@, i + 1, anki_day, ReviewCategory::Filtered);
            assert(tally(rows@, anki_day, ReviewCategory::Learn) <= u32::MAX);
            assert(tally(rows@, anki_day, ReviewCategory::Young) <= u32::MAX);
            assert(tally(rows@, anki_day, ReviewCategory::Mature) <= u32::MAX);
            assert(tally(rows@, anki_day, ReviewCategory::Relearn) <= u32::MAX);
            assert(tally(rows@, anki_day, ReviewCategory::Filtered) <= u32::MAX);
        }
        let mut entry = match map.get(&anki_day) {
            Some(reviews) => *reviews,
            None => {
                assert forall|c: ReviewCategory| tally(prefix, anki_day, c) == 0 by {
                    lemma_tally_absent_day(prefix, anki_day, c);
                }
                DayReviews::default()
            },
        };
        if rev_type == ReviewType::Learn.code() {
            entry.learn = entry.learn + 1;
        } else if rev_type == ReviewType::Review.code() && last_ivl < MATURE_INTERVAL_DAYS {
            entry.young = entry.young + 1;
        } else if rev_type == ReviewType::Review.code() {
            entry.mature = entry.mature + 1;
        } else if rev_type == ReviewType::Relearn.code() {
            entry.relearn = entry.relearn + 1;
        } else if rev_type == ReviewType::Filtered.code() {
            entry.filtered = entry.filtered + 1;
        }
        map.insert(anki_day, entry);
        proof {
            assert forall|day: i32| #[trigger] map@.contains_key(day) <==> has_day(next, day) by {
                if has_day(prefix, day) {
                    let j = choose|j: int| 0 <= j < prefix.len() && #[trigger] prefix[j].0 == day;
                    assert(next[j].0 == day);
                }
                if has_day(next, day) && day != anki_day {
                    let j = choose|j: int| 0 <= j < next.len() && #[trigger] next[j].0 == day;
                    assert(j < prefix.len());
                    assert(prefix[j].0 == day);
                }
                assert(next[i as int].0 == anki_day);
            }
            assert(next =~= prefix.push(rows@[i as int]));
            assert forall|day: i32| #[trigger] map@.contains_key(day) implies is_tally_of(map@[day], next, day) by {
                lemma_tally_push(prefix, rows@[i as int], day, ReviewCategory::Learn);
                lemma_tally_push(prefix, rows@[i as int], day, ReviewCategory::Young);
                lemma_tally_push(prefix, rows@[i as int], day, ReviewCategory::Mature);
                lemma_tally_push(prefix, rows@[i as int], day, ReviewCategory::Relearn);
                lemma_tally_push(prefix, rows@[i as int], day, ReviewCategory::Filtered);
            }
        }
        i = i + 1;
    }
    assert(rows@.subrange(0, n as int) =~= rows@);
    map
}

proof fn lemma_tally_push(rows: Seq<RevlogRow>, row: RevlogRow, day: i32, category: ReviewCategory)
    ensures
        tally(rows.push(row), day, category) == tally(rows, day, category) + if row.0 == day
            && category_of(row.1, row.2) == Some(category) {
            1nat
        } else {
            0nat
        },
{
    assert(rows.push(row).drop_last() =~= rows);
}

pub proof fn lemma_tally_absent_day(rows: Seq<RevlogRow>, day: i32, category: ReviewCategory)
    requires
        !has_day(rows, day),
    ensures
        tally(rows, day, category) == 0,
    decreases rows.len(),
{
    if rows.len() > 0 {
        let rest = rows.drop_last();
        assert(!has_day(rest, day)) by {
            if has_day(rest, day) {
                let j = choose|j: int| 0 <= j < rest.len() && #[trigger] rest[j].0 == day;
                assert(rows[j].0 == day);
            }
        }
        assert(rows[rows.len() - 1].0 != day);
        lemma_tally_absent_day(rest, day, category);
    }
}

/// Whether `revlog_day_offset` computes without overflow: the start of the current day
/// and the difference to it fit in an `i64`.
pub open spec fn day_offset_computable(id_ms: i64, next_day_at: i64) -> bool {
    let last_day_at = next_day_at - SECS_PER_DAY;
    &&& i64::MIN <= last_day_at
    &&& i64::MIN <= truncated_div(id_ms as int, 1000) - last_day_at <= i64::MAX
}

/// Integer division rounded toward zero, as Rust's `/` on integers.
pub open spec fn truncated_div(a: int, b: int) -> int {
    if a >= 0 {
        a / b
    } else {
        -((-a) / b)
    }
}

/// The day, relative to the current Anki day (0), of a review logged at `id_ms`
/// milliseconds: whole days since the current day began (`next_day_at` minus a day),
/// rounded down, kept to its low 32 bits.
pub open spec fn spec_day_offset(id_ms: i64, next_day_at: i64) -> i32 {
    ((truncated_div(id_ms as int, 1000) - (next_day_at - SECS_PER_DAY)) / (SECS_PER_DAY as int)) as i32
}

/// The day offset of a review-log row, as the review log is read.
pub fn revlog_day_offset(id_ms: i64, next_day_at: i64) -> (offset: i32)
    requires
        day_offset_computable(id_ms, next_day_at),
    ensures
        offset == spec_day_offset(id_ms, next_day_at),
{
    let last_day_at = next_day_at - SECS_PER_DAY;
    let secs = id_ms / 1000 - last_day_at;
    let days = crate::calendar::whole_days(secs);
    days as i32
}

/// Review-log entry kinds that are read: all but rescheduled and manual ones.
pub open spec fn revlog_filter_text(cutoff_ms: i64) -> Seq<char> {
    "type NOT IN ("@ + signed_decimal_text(ReviewType::Rescheduled.spec_code() as int) + ", "@
        + signed_decimal_text(ReviewType::Manual.spec_code() as int) + ") AND id >= "@
        + signed_decimal_text(cutoff_ms as int)
}

/// Deck ids separated by commas.
pub open spec fn id_list_text(ids: Seq<i64>) -> Seq<char>
    decreases ids.len(),
{
    if ids.len() == 0 {
        Seq::empty()
    } else if ids.len() == 1 {
        signed_decimal_text(ids[0] as int)
    } else {
        id_list_text(ids.drop_last()) + ","@ + signed_decimal_text(ids.last() as int)
    }
}

/// The query that reads the review log from `cutoff_ms` on: each entry's id, type and
/// previous interval, limited to cards of the given decks when there are any.
pub open spec fn revlog_query_text(cutoff_ms: i64, deck_ids: Option<Seq<i64>>) -> Seq<char> {
    match deck_ids {
        Some(ids) => "SELECT r.id, r.type, r.lastIvl FROM revlog r\n                 JOIN cards c ON c.id = r.cid\n                 WHERE r."@
            + revlog_filter_text(cutoff_ms) + " AND c.did IN ("@ + id_list_text(ids) + ")"@,
        None => "SELECT id, type, lastIvl FROM revlog WHERE "@ + revlog_filter_text(cutoff_ms),
    }
}

fn append_revlog_filter(out: &mut String, cutoff_ms: i64)
    ensures
        final(out)@ == old(out)@ + revlog_filter_text(cutoff_ms),
{
    out.append("type NOT IN (");
    append_signed_decimal(out, ReviewType::Rescheduled.code() as i64);
    out.append(", ");
    append_signed_decimal(out, ReviewType::Manual.code() as i64);
    out.append(") AND id >= ");
    append_signed_decimal(out, cutoff_ms);
}

/// Appends the ids separated by commas.
pub fn append_id_list(out: &mut String, ids: &[i64])
    ensures
        final(out)@ == old(out)@ + id_list_text(ids@),
{
    let n = ids.len();
    let mut i: usize = 0;
    while i < n
        invariant
            n == ids@.len(),
            i <= n,
            out@ == old(out)@ + id_list_text(ids@.subrange(0, i as int)),
        decreases n - i,
    {
        if i > 0 {
            out.append(",");
        }
        append_signed_decimal(out, ids[i]);
        proof {
            let next = ids@.subrange(0, i + 1);
            assert(next.drop_last() =~= ids@.subrange(0, i as int));
            assert(out@ =~= old(out)@ + id_list_text(next));
        }
        i = i + 1;
    }
    assert(ids@.subrange(0, n as int) =~= ids@);
}

/// The text of the review-log query.
pub fn revlog_query(cutoff_ms: i64, deck_ids: Option<&[i64]>) -> (sql: String)
    ensures
        sql@ == revlog_query_text(
            cutoff_ms,
            match deck_ids {
                Some(ids) => Some(ids@),
                None => None,
            },
        ),
{
    let mut sql = String::new();
    match deck_ids {
        Some(ids) => {
            sql.append(
                "SELECT r.id, r.type, r.lastIvl FROM revlog r\n                 JOIN cards c ON c.id = r.cid\n                 WHERE r.",
            );
            append_revlog_filter(&mut sql, cutoff_ms);
            sql.append(" AND c.did IN (");
            append_id_list(&mut sql, ids);
            sql.append(")");
        },
        None => {
            sql.append("SELECT id, type, lastIvl FROM revlog WHERE ");
            append_revlog_filter(&mut sql, cutoff_ms);
        },
    }
    sql
}

/// Hour of the day at which Anki starts a new day, when the collection does not say.
pub const DEFAULT_ROLLOVER_HOUR: u32 = 4;

/// The rollover hour a config-table value holds: a non-negative integer, kept to its low
/// 32 bits.
pub open spec fn config_rollover(value: JsonValue) -> Option<u32> {
    match value.spec_as_u64() {
        Some(v) => Some(v as u32),
        None => None,
    }
}

/// The rollover hour the older configuration object holds: its member "rollover", when it
/// is a non-negative integer, kept to its low 32 bits.
pub open spec fn col_conf_rollover(conf: JsonValue) -> Option<u32> {
    match conf.spec_get("rollover"@) {
        Some(member) => config_rollover(member),
        None => None,
    }
}

/// The rollover hour stored in the config table's value.
pub fn rollover_from_config_value(value: &JsonValue) -> (hour: Option<u32>)
    ensures
        hour == config_rollover(*value),
{
    match value.as_u64() {
        Some(v) => Some(v as u32),
        None => None,
    }
}

/// The rollover hour of the collection's older configuration object.
pub fn rollover_from_col_conf(conf: &JsonValue) -> (hour: Option<u32>)
    ensures
        hour == col_conf_rollover(*conf),
{
    match conf.get("rollover") {
        Some(member) => rollover_from_config_value(member),
        None => None,
    }
}

/// The rollover hour stored as JSON bytes in the config table: none when the bytes are not
/// JSON.
pub fn rollover_from_config_bytes(bytes: &[u8]) -> (hour: Option<u32>)
    ensures
        hour == match json_of_bytes(bytes@) {
            Some(value) => config_rollover(value),
            None => None,
        },
{
    match parse_json_bytes(bytes) {
        Ok(value) => rollover_from_config_value(&value),
        Err(_) => None,
    }
}

/// The rollover hour of the older configuration text: none when it is empty or not JSON.
pub fn rollover_from_col_conf_text(conf: &str) -> (hour: Option<u32>)
    ensures
        hour == if conf@.len() == 0 {
            None
        } else {
            match json_of_text(conf@) {
                Some(value) => col_conf_rollover(value),
                None => None,
            }
        },
{
    if conf.unicode_len() == 0 {
        return None;
    }
    match parse_json(conf) {
        Ok(value) => rollover_from_col_conf(&value),
        Err(_) => None,
    }
}

/// The rollover hour: the config table's when it has one, else the older configuration
/// object's, else the default of 4.
pub fn read_rollover_hour(from_config_table: Option<u32>, from_col_conf: Option<u32>) -> (hour: u32)
    ensures
        hour == match from_config_table {
            Some(h) => h,
            None => match from_col_conf {
                Some(h) => h,
                None => DEFAULT_ROLLOVER_HOUR,
            },
        },
{
    match from_config_table {
        Some(h) => h,
        None => match from_col_conf {
            Some(h) => h,
            None => DEFAULT_ROLLOVER_HOUR,
        },
    }
}

/// The name of a deck object: its member "name" when that is a string, else the empty text.
pub open spec fn deck_name_of(deck: JsonValue) -> Seq<char> {
    match deck.spec_get("name"@) {
        Some(member) => match member.spec_as_str() {
            Some(name) => name,
            None => Seq::empty(),
        },
        None => Seq::empty(),
    }
}

/// Whether a deck named `name` is the deck `wanted` or one of its sub-decks.
pub open spec fn deck_selected(name: Seq<char>, wanted: Seq<char>) -> bool {
    name == wanted || (wanted + "::"@).is_prefix_of(name)
}

/// The id of a deck object: its member "id" when that is an integer that fits in an `i64`.
pub open spec fn deck_id_of(deck: JsonValue) -> Option<i64> {
    match deck.spec_get("id"@) {
        Some(member) => member.spec_as_i64(),
        None => None,
    }
}

/// The ids of the selected decks, in order, skipping decks without an id.
pub open spec fn selected_deck_ids(decks: Seq<JsonValue>, wanted: Seq<char>) -> Seq<i64>
    decreases decks.len(),
{
    if decks.len() == 0 {
        Seq::empty()
    } else {
        let rest = selected_deck_ids(decks.drop_last(), wanted);
        let deck = decks.last();
        if deck_selected(deck_name_of(deck), wanted) && deck_id_of(deck) is Some {
            rest.push(deck_id_of(deck)->0)
        } else {
            rest
        }
    }
}

/// The member values of an object, in order; nothing for any other value.
pub open spec fn object_values(value: JsonValue) -> Seq<JsonValue> {
    match value {
        JsonValue::Object(members) => members@.map_values(|m: (String, JsonValue)| m.1),
        _ => Seq::empty(),
    }
}

/// Why no deck ids could be given.
#[derive(Debug)]
pub enum DeckLookupError {
    /// No deck of the collection has the name asked for, nor has a sub-deck of it.
    NotFound,
    /// The collection's decks text is not JSON.
    InvalidJson(serde_json::Error),
}

/// The ids of the deck named `deck_name` and of its sub-decks, from the collection's decks
/// object; an error when there are none.
pub fn resolve_deck_ids(decks: &JsonValue, deck_name: &str) -> (ids: Result<Vec<i64>, DeckLookupError>)
    ensures
        match ids {
            Ok(ids) => ids@ == selected_deck_ids(object_values(*decks), deck_name@) && ids@.len() > 0,
            Err(e) => e is NotFound && selected_deck_ids(object_values(*decks), deck_name@).len() == 0,
        },
{
    let mut sub_deck_prefix = String::from_str(deck_name);
    sub_deck_prefix.append("::");
    let mut ids: Vec<i64> = Vec::new();
    match decks {
        JsonValue::Object(members) => {
            let ghost values = object_values(*decks);
            let n = members.len();
            let mut i: usize = 0;
            while i < n
                invariant
                    n == members@.len(),
                    i <= n,
                    values == members@.map_values(|m: (String, JsonValue)| m.1),
                    sub_deck_prefix@ == deck_name@ + "::"@,
                    ids@ == selected_deck_ids(values.subrange(0, i as int), deck_name@),
                decreases n - i,
            {
                let deck = &members[i].1;
                let ghost next = values.subrange(0, i + 1);
                assert(next.drop_last() =~= values.subrange(0, i as int));
                assert(next.last() == *deck);
                let name: &str = match deck.get("name") {
                    Some(member) => match member.as_str() {
                        Some(name) => name,
                        None => "",
                    },
                    None => "",
                };
                proof {
                    reveal_strlit("");
                }
                assert(name@ == deck_name_of(*deck));
                if same_text(name, deck_name) || has_prefix(name, sub_deck_prefix.as_str()) {
                    match deck.get("id") {
                        Some(member) => match member.as_i64() {
                            Some(id) => {
                                ids.push(id);
                            },
                            None => {},
                        },
                        None => {},
                    }
                }
                i = i + 1;
            }
            assert(values.subrange(0, n as int) =~= values);
        },
        _ => {},
    }
    if ids.len() == 0 {
        return Err(DeckLookupError::NotFound);
    }
    Ok(ids)
}

/// Every row of a tallied kind is counted once, under exactly one kind of its day: the
/// five tallies of a day add up to the number of its rows of a tallied kind.
pub proof fn lemma_day_tallies_count_each_row_once(rows: Seq<RevlogRow>, day: i32)
    ensures
        tally(rows, day, ReviewCategory::Learn) + tally(rows, day, ReviewCategory::Young)
            + tally(rows, day, ReviewCategory::Mature) + tally(rows, day, ReviewCategory::Relearn)
            + tally(rows, day, ReviewCategory::Filtered) == tallied_rows(rows, day),
    decreases rows.len(),
{
    if rows.len() > 0 {
        lemma_day_tallies_count_each_row_once(rows.drop_last(), day);
    }
}

/// A review logged (at a non-negative millisecond timestamp) during the current Anki day,
/// from its start (`next_day_at` minus a day) up to the next rollover, is on day offset 0.
pub proof fn lemma_review_today_has_offset_zero(id_ms: i64, next_day_at: i64)
    requires
        id_ms >= 0,
        day_offset_computable(id_ms, next_day_at),
        (next_day_at - SECS_PER_DAY) * 1000 <= id_ms < next_day_at * 1000,
    ensures
        spec_day_offset(id_ms, next_day_at) == 0,
{
    let secs = id_ms as int / 1000;
    let start = next_day_at - SECS_PER_DAY;
    assert(start <= secs < start + 86400) by (nonlinear_arith)
        requires
            secs == id_ms as int / 1000,
            start * 1000 <= id_ms < (start + 86400) * 1000,
            id_ms >= 0,
    ;
    assert((secs - start) / 86400 == 0);
}

/// Selecting a deck by name also selects each of its sub-decks.
pub proof fn lemma_sub_decks_selected(wanted: Seq<char>, child: Seq<char>)
    ensures
        deck_selected(wanted, wanted),
        deck_selected(wanted + "::"@ + child, wanted),
{
    let name = wanted + "::"@ + child;
    assert(name.subrange(0, (wanted + "::"@).len() as int) =~= wanted + "::"@);
}

/// No day has more rows of a kind, or of all tallied kinds, than there are rows.
pub proof fn lemma_tallies_within_row_count(rows: Seq<RevlogRow>, day: i32, category: ReviewCategory)
    ensures
        tally(rows, day, category) <= rows.len(),
        tallied_rows(rows, day) <= rows.len(),
    decreases rows.len(),
{
    if rows.len() > 0 {
        lemma_tallies_within_row_count(rows.drop_last(), day, category);
    }
}

/// Tallying two runs of rows together adds their tallies day by day and kind by kind, and
/// the days present are those present in either.
pub proof fn lemma_tally_concatenation(a: Seq<RevlogRow>, b: Seq<RevlogRow>, day: i32, category: ReviewCategory)
    ensures
        tally(a + b, day, category) == tally(a, day, category) + tally(b, day, category),
        has_day(a + b, day) <==> has_day(a, day) || has_day(b, day),
    decreases b.len(),
{
    if b.len() > 0 {
        lemma_tally_concatenation(a, b.drop_last(), day, category);
        assert((a + b).drop_last() =~= a + b.drop_last());
    } else {
        assert(a + b =~= a);
    }
    if has_day(a + b, day) {
        let i = choose|i: int| 0 <= i < (a + b).len() && #[trigger] (a + b)[i].0 == day;
        if i < a.len() {
            assert(a[i].0 == day);
        } else {
            assert(b[i - a.len()].0 == day);
        }
    }
    if has_day(a, day) {
        let i = choose|i: int| 0 <= i < a.len() && #[trigger] a[i].0 == day;
        assert((a + b)[i].0 == day);
    }
    if has_day(b, day) {
        let i = choose|i: int| 0 <= i < b.len() && #[trigger] b[i].0 == day;
        assert((a + b)[a.len() + i].0 == day);
    }
}

proof fn lemma_tally_remove(s: Seq<RevlogRow>, j: int, day: i32, category: ReviewCategory)
    requires
        0 <= j < s.len(),
    ensures
        tally(s, day, category) == tally(s.remove(j), day, category) + tally(seq![s[j]], day, category),
{
    let front = s.take(j);
    let back = s.skip(j + 1);
    assert(s =~= front + (seq![s[j]] + back));
    assert(s.remove(j) =~= front + back);
    lemma_tally_concatenation(front, seq![s[j]] + back, day, category);
    lemma_tally_concatenation(seq![s[j]], back, day, category);
    lemma_tally_concatenation(front, back, day, category);
}

/// The order of the rows makes no difference: rows that are a permutation of one another
/// have the same tallies and the same days.
pub proof fn lemma_tally_ignores_order(a: Seq<RevlogRow>, p: Seq<RevlogRow>, day: i32, category: ReviewCategory)
    requires
        a.to_multiset() == p.to_multiset(),
    ensures
        tally(a, day, category) == tally(p, day, category),
        has_day(a, day) <==> has_day(p, day),
    decreases a.len(),
{
    broadcast use vstd::seq_lib::group_to_multiset_ensures;

    vstd::seq_lib::to_multiset_len(a);
    vstd::seq_lib::to_multiset_len(p);
    if a.len() > 0 {
        let x = a.last();
        let rest = a.drop_last();
        assert(a =~= rest.push(x));
        assert(a.to_multiset().count(x) > 0);
        assert(p.contains(x));
        let j = choose|j: int| 0 <= j < p.len() && p[j] == x;
        vstd::seq_lib::to_multiset_remove(p, j);
        assert(rest.to_multiset() =~= a.to_multiset().remove(x));
        lemma_tally_ignores_order(rest, p.remove(j), day, category);
        lemma_tally_remove(p, j, day, category);
        assert(seq![x].drop_last() =~= Seq::<RevlogRow>::empty());
        assert(tally(Seq::<RevlogRow>::empty(), day, category) == 0);
        assert(rest.push(x).drop_last() =~= rest);
        assert(tally(a, day, category) == tally(rest, day, category) + tally(seq![x], day, category));
    } else {
        assert(p.len() == 0);
    }
    if has_day(a, day) {
        let i = choose|i: int| 0 <= i < a.len() && #[trigger] a[i].0 == day;
        assert(a.to_multiset().count(a[i]) > 0);
        assert(p.contains(a[i]));
        let j = choose|j: int| 0 <= j < p.len() && p[j] == a[i];
        assert(p[j].0 == day);
    }
    if has_day(p, day) {
        let i = choose|i: int| 0 <= i < p.len() && #[trigger] p[i].0 == day;
        assert(p.to_multiset().count(p[i]) > 0);
        assert(a.contains(p[i]));
        let j = choose|j: int| 0 <= j < a.len() && a[j] == p[i];
        assert(a[j].0 == day);
    }
}

/// The ids of the deck named `deck_name` and of its sub-decks, from the collection's decks
/// text: an error when the text is not JSON or no deck is selected.
pub fn deck_ids_from_text(decks_json: &str, deck_name: &str) -> (ids: Result<Vec<i64>, DeckLookupError>)
    ensures
        match json_of_text(decks_json@) {
            None => ids matches Err(DeckLookupError::InvalidJson(_)),
            Some(decks) => match ids {
                Ok(ids) => ids@ == selected_deck_ids(object_values(decks), deck_name@) && ids@.len() > 0,
                Err(e) => e is NotFound && selected_deck_ids(object_values(decks), deck_name@).len() == 0,
            },
        },
{
    match parse_json(decks_json) {
        Ok(decks) => resolve_deck_ids(&decks, deck_name),
        Err(e) => Err(DeckLookupError::InvalidJson(e)),
    }
}

/// Whether a review of `type` `rev_type` with previous interval `last_ivl` is tallied under
/// some kind.
pub(crate) fn is_tallied_kind(rev_type: i32, last_ivl: i32) -> (tallied: bool)
    ensures
        tallied == category_of(rev_type, last_ivl) is Some,
{
    rev_type == ReviewType::Learn.code() || rev_type == ReviewType::Review.code()
        || rev_type == ReviewType::Relearn.code() || rev_type == ReviewType::Filtered.code()
}

/// Whether a review of `type` `rev_type` with previous interval `last_ivl` is tallied
/// under `category`.
fn counted_under(rev_type: i32, last_ivl: i32, category: ReviewCategory) -> (counted: bool)
    ensures
        counted == (category_of(rev_type, last_ivl) == Some(category)),
{
    match category {
        ReviewCategory::Learn => rev_type == ReviewType::Learn.code(),
        ReviewCategory::Young => rev_type == ReviewType::Review.code() && last_ivl < MATURE_INTERVAL_DAYS,
        ReviewCategory::Mature => rev_type == ReviewType::Review.code() && last_ivl >= MATURE_INTERVAL_DAYS,
        ReviewCategory::Relearn => rev_type == ReviewType::Relearn.code(),
        ReviewCategory::Filtered => rev_type == ReviewType::Filtered.code(),
    }
}

/// Whether every day's tally under `category` fits in a `u32`.
fn category_tallies_fit(rows: &[RevlogRow], category: ReviewCategory) -> (fit: bool)
    ensures
        fit == forall|day: i32| #[trigger] tally(rows@, day, category) <= u32::MAX,
{
    let mut counts: HashMap<i32, u32> = HashMap::new();
    let n = rows.len();
    let mut i: usize = 0;
    while i < n
        invariant
            n == rows@.len(),
            i <= n,
            forall|day: i32|
                #[trigger] tally(rows@.subrange(0, i as int), day, category) == if counts@.contains_key(day) {
                    counts@[day] as nat
                } else {
                    0nat
                },
        decreases n - i,
    {
        let (day, rev_type, last_ivl) = rows[i];
        let ghost prefix = rows@.subrange(0, i as int);
        let ghost next = rows@.subrange(0, i + 1);
        assert(next =~= prefix.push(rows@[i as int]));
        assert forall|d: i32| #[trigger] tally(next, d, category) == tally(prefix, d, category) + if d == day
            && category_of(rev_type, last_ivl) == Some(category) {
            1nat
        } else {
            0nat
        } by {
            lemma_tally_push(prefix, rows@[i as int], d, category);
        }
        if counted_under(rev_type, last_ivl, category) {
            let count: u32 = match counts.get(&day) {
                Some(c) => *c,
                None => 0,
            };
            assert(tally(prefix, day, category) == count);
            if count == u32::MAX {
                proof {
                    lemma_tally_prefix(rows@, i + 1, day, category);
                    assert(tally(rows@, day, category) > u32::MAX);
                }
                return false;
            }
            counts.insert(day, count + 1);
        }
        i = i + 1;
    }
    assert(rows@.subrange(0, n as int) =~= rows@);
    assert forall|day: i32| #[trigger] tally(rows@, day, category) <= u32::MAX by {
        assert(tally(rows@.subrange(0, n as int), day, category) <= u32::MAX);
    }
    true
}

/// Whether every tally of every day fits in a `u32`, as tallying the rows needs: always so
/// when there are no more rows than a `u32` counts, else each kind is counted day by day.
pub fn revlog_tallies_fit(rows: &[RevlogRow]) -> (fit: bool)
    ensures
        fit == tallies_fit(rows@),
{
    if rows.len() <= 4294967295usize {
        assert forall|day: i32, category: ReviewCategory| #[trigger] tally(rows@, day, category) <= u32::MAX by {
            lemma_tallies_within_row_count(rows@, day, category);
        }
        return true;
    }
    let fit = category_tallies_fit(rows, ReviewCategory::Learn) && category_tallies_fit(rows, ReviewCategory::Young)
        && category_tallies_fit(rows, ReviewCategory::Mature) && category_tallies_fit(rows, ReviewCategory::Relearn)
        && category_tallies_fit(rows, ReviewCategory::Filtered);
    proof {
        if fit {
            assert forall|day: i32, category: ReviewCategory| #[trigger] tally(rows@, day, category) <= u32::MAX by {
                match category {
                    ReviewCategory::Learn => assert(tally(rows@, day, ReviewCategory::Learn) <= u32::MAX),
                    ReviewCategory::Young => assert(tally(rows@, day, ReviewCategory::Young) <= u32::MAX),
                    ReviewCategory::Mature => assert(tally(rows@, day, ReviewCategory::Mature) <= u32::MAX),
                    ReviewCategory::Relearn => assert(tally(rows@, day, ReviewCategory::Relearn) <= u32::MAX),
                    ReviewCategory::Filtered => assert(tally(rows@, day, ReviewCategory::Filtered) <= u32::MAX),
                }
            }
        }
    }
    fit
}

/// The kind a review is tallied under depends on its `type` alone (0 learning, 2 relearning,
/// 3 filtered), except for a review of `type` 1, which is young while its previous interval
/// is under 21 days and mature from 21 days on; other types are not tallied.
pub proof fn lemma_kind_of_review(rev_type: i32, last_ivl: i32)
    ensures
        category_of(0, last_ivl) == Some(ReviewCategory::Learn),
        category_of(1, last_ivl) == Some(ReviewCategory::Young) <==> last_ivl < 21,
        category_of(1, last_ivl) == Some(ReviewCategory::Mature) <==> last_ivl >= 21,
        category_of(2, last_ivl) == Some(ReviewCategory::Relearn),
        category_of(3, last_ivl) == Some(ReviewCategory::Filtered),
        category_of(rev_type, last_ivl) is Some <==> 0 <= rev_type <= 3,
{
}

/// Each tally of a day is the number of that day's rows of the matching type: learning
/// (type 0), young and mature (type 1, previous interval under 21 days or not), relearning
/// (type 2) and filtered (type 3); and the rows tallied under some kind are that day's rows of
/// types 0 to 3.
pub proof fn lemma_tallies_count_rows_by_type(rows: Seq<RevlogRow>, day: i32)
    ensures
        tally(rows, day, ReviewCategory::Learn) == rows.filter(|r: RevlogRow| r.0 == day && r.1 == 0).len(),
        tally(rows, day, ReviewCategory::Young) == rows.filter(
            |r: RevlogRow| r.0 == day && r.1 == 1 && r.2 < 21,
        ).len(),
        tally(rows, day, ReviewCategory::Mature) == rows.filter(
            |r: RevlogRow| r.0 == day && r.1 == 1 && r.2 >= 21,
        ).len(),
        tally(rows, day, ReviewCategory::Relearn) == rows.filter(|r: RevlogRow| r.0 == day && r.1 == 2).len(),
        tally(rows, day, ReviewCategory::Filtered) == rows.filter(|r: RevlogRow| r.0 == day && r.1 == 3).len(),
        tallied_rows(rows, day) == rows.filter(|r: RevlogRow| r.0 == day && 0 <= r.1 <= 3).len(),
    decreases rows.len(),
{
    reveal(Seq::filter);
    if rows.len() > 0 {
        lemma_tallies_count_rows_by_type(rows.drop_last(), day);
        lemma_kind_of_review(rows.last().1, rows.last().2);
    }
}

} // verus!
