//! Review kinds, per-day tallies and the statistics handed to the graph.

use crate::calendar::{day_in_range, format_ymd, ymd_text};
use crate::text::{append_decimal, decimal_text};
use vstd::prelude::*;

verus! {

/// Kind of a review-log entry, as Anki stores it in the `type` column.
#[derive(Debug, Clone, Copy, PartialEq, Eq)]
pub enum ReviewType {
    Learn,
    Review,
    Relearn,
    Filtered,
    Rescheduled,
    Manual,
}

impl ReviewType {
    /// The number Anki stores for this kind.
    pub open spec fn spec_code(self) -> i32 {
        match self {
            ReviewType::Learn => 0,
            ReviewType::Review => 1,
            ReviewType::Relearn => 2,
            ReviewType::Filtered => 3,
            ReviewType::Rescheduled => 4,
            ReviewType::Manual => 5,
        }
    }

    /// The number Anki stores for this kind.
    pub fn code(&self) -> (code: i32)
        ensures
            code == self.spec_code(),
    {
        match self {
            ReviewType::Learn => 0,
            ReviewType::Review => 1,
            ReviewType::Relearn => 2,
            ReviewType::Filtered => 3,
            ReviewType::Rescheduled => 4,
            ReviewType::Manual => 5,
        }
    }
}

/// Reviews of a card whose previous interval was at least this many days count as mature.
pub const MATURE_INTERVAL_DAYS: i32 = 21;

/// Seconds in a day.
pub const SECS_PER_DAY: i64 = 86400;

/// Reviews of one day, by kind.
#[derive(Debug, Clone, Copy)]
pub struct DayReviews {
    pub learn: u32,
    pub young: u32,
    pub mature: u32,
    pub relearn: u32,
    pub filtered: u32,
}

impl DayReviews {
    /// Sum of the five counts.
    pub open spec fn spec_total(self) -> int {
        self.learn + self.young + self.mature + self.relearn + self.filtered
    }

    /// Reviews of all kinds on the day.
    pub fn total(&self) -> (total: u32)
        requires
            self.spec_total() <= u32::MAX,
        ensures
            total == self.spec_total(),
    {
        self.learn + self.young + self.mature + self.relearn + self.filtered
    }
}

impl Default for DayReviews {
    fn default() -> (reviews: Self)
        ensures
            reviews == (DayReviews { learn: 0, young: 0, mature: 0, relearn: 0, filtered: 0 }),
    {
        DayReviews { learn: 0, young: 0, mature: 0, relearn: 0, filtered: 0 }
    }
}

/// The text shown when hovering over a day: its date, then either "No reviews" or the
/// total and the count of each kind.
pub open spec fn hover_label_text(date: Seq<char>, r: DayReviews) -> Seq<char> {
    if r.spec_total() == 0 {
        date + ": No reviews"@
    } else {
        date + ": "@ + decimal_text(r.spec_total() as nat) + " reviews (Learn "@
            + decimal_text(r.learn as nat) + ", Young "@ + decimal_text(r.young as nat)
            + ", Mature "@ + decimal_text(r.mature as nat) + ", Relearn "@
            + decimal_text(r.relearn as nat) + ", Filtered "@ + decimal_text(r.filtered as nat)
            + ")"@
    }
}

/// The reviews of one calendar day.
#[derive(Debug, Clone, Copy)]
pub struct DailyEntry {
    /// The day, numbered as in `crate::calendar` (0001-01-01 is day 1).
    pub date: i32,
    pub reviews: DayReviews,
}

impl DailyEntry {
    /// The date as `YYYY-MM-DD`.
    pub fn date_str(&self) -> (text: String)
        requires
            day_in_range(self.date as int),
        ensures
            text@ == ymd_text(self.date),
    {
        format_ymd(self.date)
    }

    /// The hover text of the day.
    pub fn hover_label(&self) -> (label: String)
        requires
            day_in_range(self.date as int),
            self.reviews.spec_total() <= u32::MAX,
        ensures
            label@ == hover_label_text(ymd_text(self.date), self.reviews),
    {
        let total = self.reviews.total();
        let mut label = self.date_str();
        if total == 0 {
            label.append(": No reviews");
            return label;
        }
        let r = &self.reviews;
        label.append(": ");
        append_decimal(&mut label, total as u64);
        label.append(" reviews (Learn ");
        append_decimal(&mut label, r.learn as u64);
        label.append(", Young ");
        append_decimal(&mut label, r.young as u64);
        label.append(", Mature ");
        append_decimal(&mut label, r.mature as u64);
        label.append(", Relearn ");
        append_decimal(&mut label, r.relearn as u64);
        label.append(", Filtered ");
        append_decimal(&mut label, r.filtered as u64);
        label.append(")");
        label
    }
}

/// Daily review data for a window of days, oldest first: each day's date text, total
/// and hover text.
#[derive(Debug, Clone)]
pub struct AnkiStats {
    pub deck: String,
    pub days: u32,
    pub daily_reviews: Vec<(String, u32, String)>,
}

/// The hover text of a day says "No reviews" exactly when nothing was reviewed that day;
/// otherwise it gives the day's total, then the count of each kind: learning, young, mature,
/// relearning and filtered.
pub proof fn lemma_hover_label_reports_reviews(date: Seq<char>, r: DayReviews)
    ensures
        (hover_label_text(date, r) == date + ": No reviews"@) <==> (r.learn + r.young + r.mature + r.relearn
            + r.filtered == 0),
        r.learn + r.young + r.mature + r.relearn + r.filtered > 0 ==> hover_label_text(date, r) == date
            + ": "@ + decimal_text((r.learn + r.young + r.mature + r.relearn + r.filtered) as nat)
            + " reviews (Learn "@ + decimal_text(r.learn as nat) + ", Young "@ + decimal_text(
            r.young as nat,
        ) + ", Mature "@ + decimal_text(r.mature as nat) + ", Relearn "@ + decimal_text(
            r.relearn as nat,
        ) + ", Filtered "@ + decimal_text(r.filtered as nat) + ")"@,
{
    let total = r.learn + r.young + r.mature + r.relearn + r.filtered;
    if total > 0 {
        reveal_strlit(": No reviews");
        reveal_strlit(": ");
        crate::text::lemma_decimal_text_digits(total as nat);
        let label = hover_label_text(date, r);
        let digits = decimal_text(total as nat);
        let k: int = date.len() as int + 2;
        assert(label[k] == digits[0]);
        assert((date + ": No reviews"@)[k] == 'N');
        assert('0' <= digits[0] <= '9');
    }
}

} // verus!
