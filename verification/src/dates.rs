//! Deriving a file's remote destination folder from its modification time:
//! a path of the form "YYYY", "YYYY/MM" or "YYYY/MM/DD" beneath the remote
//! root, with zero-padded month and day.

use vstd::prelude::*;

use chrono::Datelike;

use crate::digits::{dec_rep, int_rep, two_digit_rep, i64_to_string, two_digit_string};
use crate::paths::str_eq;

verus! {

/// Granularity of the date-derived folder hierarchy.
#[derive(Clone, Copy, Debug, PartialEq, Eq, Structural)]
pub enum Depth {
    Year,
    Month,
    Day,
}

/// The depth a command-line word selects; anything but "year" and "month"
/// selects the full day hierarchy.
pub open spec fn spec_depth_of(s: Seq<char>) -> Depth {
    if s == "year"@ {
        Depth::Year
    } else if s == "month"@ {
        Depth::Month
    } else {
        Depth::Day
    }
}

pub fn depth_of_str(s: &str) -> (r: Depth)
    ensures
        r == spec_depth_of(s@),
{
    if str_eq(s, "year") {
        Depth::Year
    } else if str_eq(s, "month") {
        Depth::Month
    } else {
        Depth::Day
    }
}

/// Number of folder levels a depth asks for.
pub open spec fn depth_levels(depth: Depth) -> int {
    match depth {
        Depth::Year => 1,
        Depth::Month => 2,
        Depth::Day => 3,
    }
}

/// The relative date path for a calendar date at the given depth:
/// "YYYY", "YYYY/MM" or "YYYY/MM/DD".
pub open spec fn date_rel_path(y: int, m: nat, d: nat, depth: Depth) -> Seq<char> {
    match depth {
        Depth::Year => int_rep(y),
        Depth::Month => int_rep(y) + seq!['/'] + two_digit_rep(m),
        Depth::Day => int_rep(y) + seq!['/'] + two_digit_rep(m) + seq!['/'] + two_digit_rep(d),
    }
}

/// Renders the relative date path for a calendar date at the given depth.
pub fn date_path(y: i32, m: u8, d: u8, depth: Depth) -> (r: String)
    requires
        m < 100,
        d < 100,
    ensures
        r@ == date_rel_path(y as int, m as nat, d as nat, depth),
{
    let mut r = i64_to_string(y as i64);
    match depth {
        Depth::Year => {},
        Depth::Month => {
            r.append("/");
            r.append(two_digit_string(m as u64).as_str());
        },
        Depth::Day => {
            r.append("/");
            r.append(two_digit_string(m as u64).as_str());
            r.append("/");
            r.append(two_digit_string(d as u64).as_str());
        },
    }
    proof {
        reveal_strlit("/");
        assert(r@ =~= date_rel_path(y as int, m as nat, d as nat, depth));
    }
    r
}

/// One folder level that the date hierarchy needs: the full remote path of
/// the folder, the full path of its parent, and the folder's own name.
pub struct LevelPlan {
    pub full: String,
    pub parent: String,
    pub name: String,
}

/// The name of level `i` (counted from the root) of a date hierarchy.
pub open spec fn level_name(y: int, m: nat, d: nat, i: int) -> Seq<char> {
    if i == 0 {
        int_rep(y)
    } else if i == 1 {
        two_digit_rep(m)
    } else {
        two_digit_rep(d)
    }
}

/// The full path of level `i` of a date hierarchy beneath `root`.
pub open spec fn level_full(root: Seq<char>, y: int, m: nat, d: nat, i: int) -> Seq<char>
    decreases i,
{
    if i <= 0 {
        root + seq!['/'] + level_name(y, m, d, 0)
    } else {
        level_full(root, y, m, d, i - 1) + seq!['/'] + level_name(y, m, d, i)
    }
}

/// `v` lists exactly the folder levels that the date `y-m-d` needs beneath
/// `root`, shallowest first, with full path, parent path and name of each.
pub open spec fn levels_match(
    root: Seq<char>,
    y: int,
    m: nat,
    d: nat,
    depth: Depth,
    v: Seq<LevelPlan>,
) -> bool {
    &&& v.len() == depth_levels(depth)
    &&& forall|i: int| 0 <= i < v.len() ==> (#[trigger] v[i]).full@ == level_full(root, y, m, d, i)
    &&& forall|i: int| 0 <= i < v.len() ==> (#[trigger] v[i]).name@ == level_name(y, m, d, i)
    &&& forall|i: int|
        0 <= i < v.len() ==> (#[trigger] v[i]).parent@ == if i == 0 {
            root
        } else {
            level_full(root, y, m, d, i - 1)
        }
}

/// The folder levels that a date needs beneath `root_name`, shallowest
/// first: the year folder, then the month folder, then the day folder, as
/// far as `depth` asks. The last level is the file's destination folder.
pub fn date_level_paths(root_name: &str, y: i32, m: u8, d: u8, depth: Depth) -> (r: Vec<
    LevelPlan,
>)
    requires
        m < 100,
        d < 100,
    ensures
        levels_match(root_name@, y as int, m as nat, d as nat, depth, r@),
{
    let ghost yi = y as int;
    let ghost mn = m as nat;
    let ghost dn = d as nat;
    let mut r: Vec<LevelPlan> = Vec::new();

    let year_name = i64_to_string(y as i64);
    let mut year_full = String::from_str(root_name);
    year_full.append("/");
    year_full.append(year_name.as_str());
    proof {
        reveal_strlit("/");
        assert(year_full@ =~= level_full(root_name@, yi, mn, dn, 0));
    }
    let year_parent = String::from_str(root_name);
    r.push(LevelPlan { full: year_full, parent: year_parent, name: year_name });
    if matches!(depth, Depth::Year) {
        return r;
    }

    let month_name = two_digit_string(m as u64);
    let month_parent = r[0].full.clone();
    let mut month_full = r[0].full.clone();
    month_full.append("/");
    month_full.append(month_name.as_str());
    proof {
        reveal_strlit("/");
        assert(month_full@ =~= level_full(root_name@, yi, mn, dn, 1));
    }
    r.push(LevelPlan { full: month_full, parent: month_parent, name: month_name });
    if matches!(depth, Depth::Month) {
        return r;
    }

    let day_name = two_digit_string(d as u64);
    let day_parent = r[1].full.clone();
    let mut day_full = r[1].full.clone();
    day_full.append("/");
    day_full.append(day_name.as_str());
    proof {
        reveal_strlit("/");
        assert(day_full@ =~= level_full(root_name@, yi, mn, dn, 2));
    }
    r.push(LevelPlan { full: day_full, parent: day_parent, name: day_name });
    r
}

/// Relies on chrono's `TimeZone::timestamp_opt` for `Local` and the
/// `Datelike` accessors: a timestamp that maps to a single calendar date in
/// the local time zone yields that date's year, its month in 1..=12 and its
/// day in 1..=31 (as chrono documents for `month` and `day`); any other
/// timestamp yields nothing. The date depends on the machine's time zone,
/// so no more is assumed of it.
#[verifier::external_body]
fn local_civil_date(ts: i64) -> (r: Option<(i32, u8, u8)>)
    ensures
        r matches Some(ymd) ==> 1 <= ymd.1 <= 12 && 1 <= ymd.2 <= 31,
{
    match chrono::TimeZone::timestamp_opt(&chrono::Local, ts, 0) {
        chrono::LocalResult::Single(t) => Some((t.year(), t.month() as u8, t.day() as u8)),
        _ => None,
    }
}

/// The calendar date (year, month, day) and folder levels for a file
/// modified at `ts`, beneath `root_name` — or nothing when the timestamp
/// does not map to a single calendar date in the local time zone. Whatever
/// date the time zone yields, the levels are exactly the ones that date
/// needs.
pub fn derive_levels(root_name: &str, ts: i64, depth: Depth) -> (r: Option<
    ((i32, u8, u8), Vec<LevelPlan>),
>)
    ensures
        r matches Some(p) ==> {
            let ((y, m, d), v) = p;
            &&& 1 <= m <= 12
            &&& 1 <= d <= 31
            &&& levels_match(root_name@, y as int, m as nat, d as nat, depth, v@)
        },
{
    match local_civil_date(ts) {
        Some((y, m, d)) => {
            let v = date_level_paths(root_name, y, m, d, depth);
            Some(((y, m, d), v))
        },
        None => None,
    }
}

} // verus!
