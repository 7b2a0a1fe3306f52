//! What each page shows of the task list: filters, counts, search, calendar grids and Turkish
//! dates.

use vstd::prelude::*;
use vstd::string::StringExecFns;
use vstd::string::StrSliceExecFns;
use crate::clock::{
    civil, civil_known, days_from_civil, days_in_month, dom_of, epoch_day, is_leap_year,
    lemma_day_of_month, local_day_time, month_of, valid_civil, valid_day, valid_instant, weekday,
    weekday_from_monday, year_of, Day, MAX_DAY, MAX_YEAR, MILLIS_PER_DAY, MIN_DAY, MIN_YEAR,
};
use crate::model::{parse_uuid, spec_parse_uuid, string_views, task_views, Id, Millis, Priority, Status, Task, TaskView};
use crate::text::{
    chars_of, decimal, digit_char, digit_str, has_substring, lex_lt, lemma_lex_irreflexive, lemma_lex_total,
    lemma_lex_transitive, spec_decimal, spec_lowercase, spec_trim, str_contains, str_eq, str_lt,
    to_lowercase, trim,
};

verus! {

/// Turkish month names, January first.
pub open spec fn spec_month_name(m0: int) -> Seq<char> {
    if m0 == 0 {
        "Ocak"@
    } else if m0 == 1 {
        "Şubat"@
    } else if m0 == 2 {
        "Mart"@
    } else if m0 == 3 {
        "Nisan"@
    } else if m0 == 4 {
        "Mayıs"@
    } else if m0 == 5 {
        "Haziran"@
    } else if m0 == 6 {
        "Temmuz"@
    } else if m0 == 7 {
        "Ağustos"@
    } else if m0 == 8 {
        "Eylül"@
    } else if m0 == 9 {
        "Ekim"@
    } else if m0 == 10 {
        "Kasım"@
    } else {
        "Aralık"@
    }
}

/// The Turkish name of month `m0` (0 for January).
pub fn month_name(m0: u32) -> (r: &'static str)
    requires
        m0 < 12,
    ensures
        r@ == spec_month_name(m0 as int),
{
    match m0 {
        0 => "Ocak",
        1 => "Şubat",
        2 => "Mart",
        3 => "Nisan",
        4 => "Mayıs",
        5 => "Haziran",
        6 => "Temmuz",
        7 => "Ağustos",
        8 => "Eylül",
        9 => "Ekim",
        10 => "Kasım",
        _ => "Aralık",
    }
}

/// Short Turkish weekday names, Monday first.
pub open spec fn spec_weekday_name(w: int) -> Seq<char> {
    if w == 0 {
        "Pzt"@
    } else if w == 1 {
        "Sal"@
    } else if w == 2 {
        "Çar"@
    } else if w == 3 {
        "Per"@
    } else if w == 4 {
        "Cum"@
    } else if w == 5 {
        "Cmt"@
    } else {
        "Paz"@
    }
}

/// The short Turkish name of weekday `w` (0 for Monday).
pub fn weekday_name(w: u8) -> (r: &'static str)
    requires
        w < 7,
    ensures
        r@ == spec_weekday_name(w as int),
{
    match w {
        0 => "Pzt",
        1 => "Sal",
        2 => "Çar",
        3 => "Per",
        4 => "Cum",
        5 => "Cmt",
        _ => "Paz",
    }
}

/// A year as `{}` prints it.
pub open spec fn spec_year_text(y: int) -> Seq<char> {
    if y < 0 {
        seq!['-'] + spec_decimal((-y) as nat)
    } else {
        spec_decimal(y as nat)
    }
}

fn year_text(y: i32) -> (r: String)
    ensures
        r@ == spec_year_text(y as int),
{
    if y < 0 {
        let mut s = "-".to_string();
        proof {
            reveal_strlit("-");
        }
        let digits = decimal((-(y as i64)) as u64);
        s.append(digits.as_str());
        s
    } else {
        decimal(y as u64)
    }
}

/// A number below 100 as `{:02}` prints it.
pub open spec fn spec_two_digits(n: int) -> Seq<char> {
    if n < 10 {
        seq!['0', digit_char(n)]
    } else {
        spec_decimal(n as nat)
    }
}

fn two_digits(n: u64) -> (r: String)
    requires
        n < 100,
    ensures
        r@ == spec_two_digits(n as int),
{
    if n < 10 {
        let mut s = "0".to_string();
        proof {
            reveal_strlit("0");
        }
        s.append(digit_str(n));
        s
    } else {
        decimal(n)
    }
}

/// The first day of the month of `day`.
pub fn first_of_month(day: Day) -> (r: Day)
    requires
        valid_day(day as int),
    ensures
        civil_known(day),
        r == days_from_civil(year_of(day), month_of(day), 1),
        r == day - dom_of(day) + 1,
        valid_day(r as int),
{
    let (y, m, d) = civil(day);
    proof {
        lemma_day_of_month(y as int, m as int, d as int);
    }
    epoch_day(y, m, 1).unwrap()
}

/// The (year, month) `n` months after the month of `day`.
pub open spec fn months_after(day: Day, n: int) -> (int, int) {
    let m0 = month_of(day) - 1 + n;
    (year_of(day) + m0 / 12, m0 % 12 + 1)
}

/// `n` months after the month of `day` is a month chrono can hold.
pub open spec fn months_after_in_range(day: Day, n: int) -> bool {
    MIN_YEAR <= months_after(day, n).0 <= MAX_YEAR
}

/// First day of the month `n` months after the month of `first` (its day of the month is not
/// looked at).
pub fn add_months(first: Day, n: i32) -> (r: Day)
    requires
        valid_day(first as int),
        months_after_in_range(first, n as int),
    ensures
        civil_known(first),
        r == days_from_civil(months_after(first, n as int).0, months_after(first, n as int).1, 1),
        valid_day(r as int),
{
    let (y, m, _) = civil(first);
    let m0: i64 = m as i64 - 1 + n as i64;
    let mut q: i64 = m0 / 12;
    let mut rem: i64 = m0 % 12;
    if rem < 0 {
        rem = rem + 12;
        q = q - 1;
    }
    assert(q == m0 / 12 && rem == m0 % 12) by (nonlinear_arith)
        requires
            m0 == q * 12 + rem,
            0 <= rem < 12,
    ;
    let year = y as i64 + q;
    epoch_day(year as i32, (rem + 1) as u32, 1).unwrap()
}

/// `add_months` where the target month exists, `None` where it lies outside chrono's range.
pub fn try_add_months(first: Day, n: i32) -> (r: Option<Day>)
    requires
        valid_day(first as int),
    ensures
        civil_known(first),
        r is Some <==> months_after_in_range(first, n as int),
        r matches Some(d) ==> d == days_from_civil(
            months_after(first, n as int).0,
            months_after(first, n as int).1,
            1,
        ) && valid_day(d as int),
{
    let (y, m, _) = civil(first);
    let m0: i64 = m as i64 - 1 + n as i64;
    let mut q: i64 = m0 / 12;
    let mut rem: i64 = m0 % 12;
    if rem < 0 {
        rem = rem + 12;
        q = q - 1;
    }
    assert(q == m0 / 12 && rem == m0 % 12) by (nonlinear_arith)
        requires
            m0 == q * 12 + rem,
            0 <= rem < 12,
    ;
    let year = y as i64 + q;
    if year < MIN_YEAR as i64 || year > MAX_YEAR as i64 {
        None
    } else {
        Some(add_months(first, n))
    }
}

/// The 42 days (six Monday-first weeks) shown for the month that starts at `first`.
pub fn month_days(first: Day) -> (r: Vec<Day>)
    requires
        MIN_DAY <= first - weekday(first as int),
        first - weekday(first as int) + 41 <= MAX_DAY,
    ensures
        r@.len() == 42,
        forall|i: int| 0 <= i < 42 ==> #[trigger] r@[i] == first - weekday(first as int) + i,
        weekday(r@[0] as int) == 0,
{
    let start: Day = first - weekday_from_monday(first) as i32;
    let mut days: Vec<Day> = Vec::new();
    let mut i: i32 = 0;
    while i < 42
        invariant
            0 <= i <= 42,
            start == first - weekday(first as int),
            start + 41 <= MAX_DAY,
            days@.len() == i,
            forall|k: int| 0 <= k < i ==> #[trigger] days@[k] == start + k,
        decreases 42 - i,
    {
        days.push(start + i);
        i += 1;
    }
    assert(weekday(start as int) == 0) by (nonlinear_arith)
        requires
            start == first - (first + 3) % 7,
    ;
    days
}

/// "Eylül 2026": the month and year of a day.
pub open spec fn spec_month_title(first: Day) -> Seq<char> {
    spec_month_name(month_of(first) - 1) + " "@ + spec_year_text(year_of(first))
}

/// "Eylül 2026".
pub fn month_title(first: Day) -> (r: String)
    requires
        valid_day(first as int),
    ensures
        civil_known(first),
        r@ == spec_month_title(first),
{
    let (y, m, _) = civil(first);
    let mut s = month_name(m - 1).to_string();
    s.append(" ");
    let year = year_text(y);
    s.append(year.as_str());
    s
}

/// "23 Eylül 2026": the date of a day.
pub open spec fn spec_date_text(day: Day) -> Seq<char> {
    spec_decimal(dom_of(day) as nat) + " "@ + spec_month_name(month_of(day) - 1) + " "@
        + spec_year_text(year_of(day))
}

/// "23 Eylül 2026".
pub fn date_text(day: Day) -> (r: String)
    requires
        valid_day(day as int),
    ensures
        civil_known(day),
        r@ == spec_date_text(day),
{
    let (y, m, d) = civil(day);
    let mut s = decimal(d as u64);
    s.append(" ");
    s.append(month_name(m - 1));
    s.append(" ");
    let year = year_text(y);
    s.append(year.as_str());
    s
}

/// "09:05": hours and minutes of a time of day given in milliseconds.
pub open spec fn spec_clock_text(ms: int) -> Seq<char> {
    spec_two_digits(ms / 3_600_000) + ":"@ + spec_two_digits((ms / 60_000) % 60)
}

pub fn clock_text(ms: i64) -> (r: String)
    requires
        0 <= ms < MILLIS_PER_DAY,
    ensures
        r@ == spec_clock_text(ms as int),
{
    let mut s = two_digits((ms / 3_600_000) as u64);
    s.append(":");
    let minutes = two_digits(((ms / 60_000) % 60) as u64);
    s.append(minutes.as_str());
    s
}

/// "23 Eylül 2026 09:00": a date and a time of day.
pub open spec fn spec_date_time_text(day: Day, ms: int) -> Seq<char> {
    spec_date_text(day) + " "@ + spec_clock_text(ms)
}

/// "23 Eylül 2026 09:00".
pub fn date_time_text(day: Day, ms: i64) -> (r: String)
    requires
        valid_day(day as int),
        0 <= ms < MILLIS_PER_DAY,
    ensures
        civil_known(day),
        r@ == spec_date_time_text(day, ms as int),
{
    let mut s = date_text(day);
    s.append(" ");
    let clock = clock_text(ms);
    s.append(clock.as_str());
    s
}

/// A local reading (day, time of day) of the instant `utc`: less than a day away from it.
pub open spec fn local_reading(utc: int, day: Day, ms: int) -> bool {
    &&& valid_day(day as int)
    &&& 0 <= ms < MILLIS_PER_DAY
    &&& -MILLIS_PER_DAY < day * MILLIS_PER_DAY + ms - utc < MILLIS_PER_DAY
}

/// "23 Eylül 2026" in local time. The local date depends on the machine's time zone.
pub fn format_date(d: Millis) -> (r: String)
    requires
        valid_instant(d as int),
    ensures
        exists|day: Day, ms: int| local_reading(d as int, day, ms) && r@ == spec_date_text(day),
{
    let (day, ms) = local_day_time(d);
    let r = date_text(day);
    assert(local_reading(d as int, day, ms as int));
    r
}

/// "23 Eylül 2026 09:00" in local time.
pub fn format_date_time(d: Millis) -> (r: String)
    requires
        valid_instant(d as int),
    ensures
        exists|day: Day, ms: int| local_reading(d as int, day, ms) && r@ == spec_date_time_text(day, ms),
{
    let (day, ms) = local_day_time(d);
    let r = date_time_text(day, ms);
    assert(local_reading(d as int, day, ms as int));
    r
}

/// Whole seconds from `at` to `now`, rounded toward zero.
pub open spec fn seconds_between(at: int, now: int) -> int {
    let diff = now - at;
    if diff >= 0 {
        diff / 1000
    } else {
        -((-diff) / 1000)
    }
}

/// How long ago, under a day: "Az önce", "5 dk önce", "3 saat önce".
pub open spec fn spec_recent_text(secs: int) -> Seq<char> {
    if secs < 60 {
        "Az önce"@
    } else if secs < 3_600 {
        spec_decimal((secs / 60) as nat) + " dk önce"@
    } else {
        spec_decimal((secs / 3_600) as nat) + " saat önce"@
    }
}

/// "23 Eylül 04:12": day, month and time of day.
pub open spec fn spec_day_month_time(day: Day, ms: int) -> Seq<char> {
    spec_decimal(dom_of(day) as nat) + " "@ + spec_month_name(month_of(day) - 1) + " "@
        + spec_clock_text(ms)
}

/// What `time_ago` says of `at` seen at `now`: the recent wording within a day, else the local
/// day and time of `at`.
pub open spec fn time_ago_text(at: Millis, now: Millis, t: Seq<char>) -> bool {
    &&& seconds_between(at as int, now as int) < 86_400 ==> t == spec_recent_text(
        seconds_between(at as int, now as int),
    )
    &&& seconds_between(at as int, now as int) >= 86_400 ==> exists|day: Day, ms: int|
        local_reading(at as int, day, ms) && t == spec_day_month_time(day, ms)
}

/// "Az önce", "5 dk önce", "3 saat önce", or "23 Eylül 04:12" (local time of `at`) once older
/// than a day.
pub fn time_ago(at: Millis, now: Millis) -> (r: String)
    requires
        valid_instant(at as int),
        valid_instant(now as int),
    ensures
        time_ago_text(at, now, r@),
{
    let diff: i64 = now - at;
    let secs: i64 = diff / 1000;
    assert(secs == seconds_between(at as int, now as int)) by (nonlinear_arith)
        requires
            diff == now - at,
            diff >= 0 ==> secs == diff / 1000,
            diff < 0 ==> secs == -((-diff) / 1000),
    ;
    if secs < 60 {
        proof {
            reveal_strlit("Az önce");
        }
        "Az önce".to_string()
    } else if secs < 3_600 {
        let mut s = decimal((secs / 60) as u64);
        s.append(" dk önce");
        s
    } else if secs < 86_400 {
        let mut s = decimal((secs / 3_600) as u64);
        s.append(" saat önce");
        s
    } else {
        let (day, ms) = local_day_time(at);
        let (_, m, d) = civil(day);
        let mut s = decimal(d as u64);
        s.append(" ");
        s.append(month_name(m - 1));
        s.append(" ");
        let clock = clock_text(ms);
        s.append(clock.as_str());
        assert(local_reading(at as int, day, ms as int));
        assert(s@ == spec_day_month_time(day, ms as int));
        s
    }
}


/// Which tasks the list shows by group.
#[derive(Clone, Copy, Debug, PartialEq, Eq, Structural)]
pub enum Scope {
    All,
    Personal,
    Group(Id),
}

impl Default for Scope {
    fn default() -> (r: Scope)
        ensures
            r == Scope::All,
    {
        Scope::All
    }
}

/// The list page's filter bar.
#[derive(Debug, PartialEq, Eq)]
pub struct ListFilter {
    pub priority: Option<Priority>,
    pub tag: Option<String>,
    pub query: String,
    pub scope: Scope,
}

impl Default for ListFilter {
    fn default() -> (r: ListFilter)
        ensures
            r.priority is None,
            r.tag is None,
            r.query@ == Seq::<char>::empty(),
            r.scope == Scope::All,
    {
        ListFilter { priority: None, tag: None, query: String::new(), scope: Scope::All }
    }
}

impl Clone for ListFilter {
    fn clone(&self) -> (r: Self)
        ensures
            r.priority == self.priority,
            tag_view(r.tag) == tag_view(self.tag),
            r.query@ == self.query@,
            r.scope == self.scope,
    {
        ListFilter {
            priority: self.priority,
            tag: match &self.tag {
                None => None,
                Some(t) => Some(t.clone()),
            },
            query: self.query.clone(),
            scope: self.scope,
        }
    }
}

pub open spec fn tag_view(tag: Option<String>) -> Option<Seq<char>> {
    match tag {
        None => None,
        Some(t) => Some(t@),
    }
}

/// The tasks of a list of references.
pub open spec fn views_of(s: Seq<&Task>) -> Seq<TaskView> {
    s.map_values(|t: &Task| t@)
}

pub open spec fn in_scope(t: TaskView, scope: Scope) -> bool {
    match scope {
        Scope::All => true,
        Scope::Personal => t.group_id is None,
        Scope::Group(id) => t.group_id == Some(id),
    }
}

/// The (already lowercased) query occurs in the lowercased title or description.
pub open spec fn matches_text(t: TaskView, q: Seq<char>) -> bool {
    has_substring(spec_lowercase(t.title), q) || has_substring(spec_lowercase(t.description), q)
}

/// The task passes the filter bar with the lowercased query `q`.
pub open spec fn shown_by(
    t: TaskView,
    priority: Option<Priority>,
    tag: Option<Seq<char>>,
    q: Seq<char>,
    scope: Scope,
) -> bool {
    &&& (priority matches Some(p) ==> t.priority == p)
    &&& (tag matches Some(g) ==> t.tags.contains(g))
    &&& in_scope(t, scope)
    &&& (q.len() == 0 || matches_text(t, q))
}

/// A task passes the filter bar exactly when it has the chosen priority, carries the chosen tag,
/// is in the chosen scope, and (for a non-empty query) the lowercased query occurs in its
/// lowercased title or in its lowercased description.
pub proof fn law_filter_matches_title_or_description(
    t: TaskView,
    priority: Option<Priority>,
    tag: Option<Seq<char>>,
    q: Seq<char>,
    scope: Scope,
)
    ensures
        shown_by(t, priority, tag, q, scope) <==> ((priority matches Some(p) ==> t.priority == p) && (tag matches Some(
            g,
        ) ==> t.tags.contains(g)) && in_scope(t, scope) && (q.len() == 0 || has_substring(
            spec_lowercase(t.title),
            q,
        ) || has_substring(spec_lowercase(t.description), q))),
{
}

/// The filter's query as it is matched: trimmed and lowercased.
pub open spec fn filter_query(f: ListFilter) -> Seq<char> {
    spec_lowercase(spec_trim(f.query@))
}

/// A rule that picks tasks out of the list.
enum Keep<'q> {
    Shown { priority: Option<Priority>, tag: Option<&'q str>, query: &'q str, scope: Scope },
    AssignedTo(Id),
    InStatus(Status),
    OpenHigh,
}

spec fn keep_tag(tag: Option<&str>) -> Option<Seq<char>> {
    match tag {
        None => None,
        Some(g) => Some(g@),
    }
}

spec fn spec_keeps(k: Keep, t: TaskView) -> bool {
    match k {
        Keep::Shown { priority, tag, query, scope } => shown_by(t, priority, keep_tag(tag), query@, scope),
        Keep::AssignedTo(me) => t.assignee_id == Some(me) && t.status != Status::Completed,
        Keep::InStatus(status) => t.status == status,
        Keep::OpenHigh => t.priority == Priority::High && t.status != Status::Completed,
    }
}

fn keeps(k: &Keep, t: &Task) -> (r: bool)
    ensures
        r == spec_keeps(*k, t@),
{
    match k {
        Keep::Shown { priority, tag, query, scope } => {
            let ok_priority = match priority {
                None => true,
                Some(p) => t.priority == *p,
            };
            let ok_tag = match tag {
                None => true,
                Some(g) => has_tag(&t.tags, g),
            };
            let ok_scope = match scope {
                Scope::All => true,
                Scope::Personal => t.group_id.is_none(),
                Scope::Group(id) => t.group_id == Some(*id),
            };
            ok_priority && ok_tag && ok_scope && (query.is_empty() || text_matches(t, query))
        },
        Keep::AssignedTo(me) => t.assignee_id == Some(*me) && t.status != Status::Completed,
        Keep::InStatus(status) => t.status == *status,
        Keep::OpenHigh => t.priority == Priority::High && t.status != Status::Completed,
    }
}

/// The tasks that `k` keeps, in order.
fn pick<'a>(tasks: &'a [Task], k: &Keep) -> (r: Vec<&'a Task>)
    ensures
        views_of(r@) == task_views(tasks@).filter(|t: TaskView| spec_keeps(*k, t)),
{
    let ghost views = task_views(tasks@);
    let ghost p = |t: TaskView| spec_keeps(*k, t);
    let mut out: Vec<&'a Task> = Vec::new();
    let mut i: usize = 0;
    while i < tasks.len()
        invariant
            i <= tasks.len(),
            views == task_views(tasks@),
            p == (|t: TaskView| spec_keeps(*k, t)),
            views_of(out@) == views.subrange(0, i as int).filter(p),
        decreases tasks.len() - i,
    {
        let ghost prefix = views.subrange(0, i as int + 1);
        assert(prefix.drop_last() =~= views.subrange(0, i as int));
        reveal(Seq::filter);
        let t = &tasks[i];
        if keeps(k, t) {
            let ghost before = out@;
            out.push(t);
            assert(views_of(out@) =~= views_of(before).push(t@));
        }
        i += 1;
    }
    assert(views.subrange(0, views.len() as int) =~= views);
    out
}

/// The tag list holds `tag`.
fn has_tag(tags: &Vec<String>, tag: &str) -> (r: bool)
    ensures
        r == string_views(tags@).contains(tag@),
{
    let mut i: usize = 0;
    while i < tags.len()
        invariant
            i <= tags.len(),
            forall|j: int| 0 <= j < i ==> tags@[j]@ != tag@,
        decreases tags.len() - i,
    {
        if str_eq(tags[i].as_str(), tag) {
            assert(string_views(tags@)[i as int] == tag@);
            return true;
        }
        i += 1;
    }
    assert(!string_views(tags@).contains(tag@)) by {
        if string_views(tags@).contains(tag@) {
            let j = choose|j: int| 0 <= j < string_views(tags@).len() && string_views(tags@)[j] == tag@;
            assert(tags@[j]@ == tag@);
        }
    }
    false
}

/// The lowercased title or description contains `q`.
fn text_matches(t: &Task, q: &str) -> (r: bool)
    ensures
        r == matches_text(t@, q@),
{
    let title = to_lowercase(t.title.as_str());
    if str_contains(title.as_str(), q) {
        return true;
    }
    let description = to_lowercase(t.description.as_str());
    str_contains(description.as_str(), q)
}

/// The tasks the list shows: of the chosen priority, with the chosen tag, in the chosen scope,
/// and (when the query is not blank) whose title or description contains the trimmed query,
/// ignoring case.
pub fn filter_tasks<'a>(tasks: &'a [Task], f: &ListFilter) -> (r: Vec<&'a Task>)
    ensures
        views_of(r@) == task_views(tasks@).filter(
            |t: TaskView| shown_by(t, f.priority, tag_view(f.tag), filter_query(*f), f.scope),
        ),
        spec_trim(f.query@).len() == 0 ==> views_of(r@) == task_views(tasks@).filter(
            |t: TaskView| shown_by(t, f.priority, tag_view(f.tag), Seq::empty(), f.scope),
        ),
{
    let trimmed = trim(f.query.as_str());
    let query = to_lowercase(trimmed);
    proof {
        if spec_trim(f.query@).len() == 0 {
            assert(filter_query(*f) =~= Seq::<char>::empty());
        }
    }
    let tag: Option<&str> = match &f.tag {
        None => None,
        Some(g) => Some(g.as_str()),
    };
    let k = Keep::Shown { priority: f.priority, tag, query: query.as_str(), scope: f.scope };
    let r = pick(tasks, &k);
    assert((|t: TaskView| spec_keeps(k, t)) =~= (|t: TaskView|
        shown_by(t, f.priority, tag_view(f.tag), filter_query(*f), f.scope)));
    r
}

/// Open (not completed) tasks assigned to `me`.
pub fn assigned_to<'a>(tasks: &'a [Task], me: Id) -> (r: Vec<&'a Task>)
    ensures
        views_of(r@) == task_views(tasks@).filter(
            |t: TaskView| t.assignee_id == Some(me) && t.status != Status::Completed,
        ),
{
    let r = pick(tasks, &Keep::AssignedTo(me));
    assert((|t: TaskView| spec_keeps(Keep::AssignedTo(me), t)) =~= (|t: TaskView| t.assignee_id == Some(me) && t.status != Status::Completed));
    r
}

/// The tasks in `status` (a kanban column).
pub fn with_status<'a>(tasks: &'a [Task], status: Status) -> (r: Vec<&'a Task>)
    ensures
        views_of(r@) == task_views(tasks@).filter(|t: TaskView| t.status == status),
{
    let r = pick(tasks, &Keep::InStatus(status));
    assert((|t: TaskView| spec_keeps(Keep::InStatus(status), t)) =~= (|t: TaskView| t.status == status));
    r
}

/// Open high-priority tasks.
pub fn open_high_priority<'a>(tasks: &'a [Task]) -> (r: Vec<&'a Task>)
    ensures
        views_of(r@) == task_views(tasks@).filter(
            |t: TaskView| t.priority == Priority::High && t.status != Status::Completed,
        ),
{
    let r = pick(tasks, &Keep::OpenHigh);
    assert((|t: TaskView| spec_keeps(Keep::OpenHigh, t)) =~= (|t: TaskView| t.priority == Priority::High && t.status != Status::Completed));
    r
}

/// Not completed and due before `now`.
pub open spec fn spec_is_overdue(t: TaskView, now: Millis) -> bool {
    t.status != Status::Completed && (t.due_date matches Some(d) && d < now)
}

/// The task is not completed and its due date has passed.
pub fn is_overdue(t: &Task, now: Millis) -> (r: bool)
    ensures
        r == spec_is_overdue(t@, now),
{
    t.status != Status::Completed && match t.due_date {
        Some(d) => d < now,
        None => false,
    }
}

/// Dashboard counts.
#[derive(Clone, Copy, Debug, PartialEq, Eq, Structural)]
pub struct Stats {
    pub total: usize,
    pub pending: usize,
    pub in_progress: usize,
    pub completed: usize,
    pub overdue: usize,
}

impl Default for Stats {
    fn default() -> (r: Stats)
        ensures
            r == (Stats { total: 0, pending: 0, in_progress: 0, completed: 0, overdue: 0 }),
    {
        Stats { total: 0, pending: 0, in_progress: 0, completed: 0, overdue: 0 }
    }
}

/// How many tasks are in `status`.
pub open spec fn count_status(s: Seq<TaskView>, status: Status) -> nat {
    s.filter(|t: TaskView| t.status == status).len()
}

/// How many tasks are overdue at `now`.
pub open spec fn count_overdue(s: Seq<TaskView>, now: Millis) -> nat {
    s.filter(|t: TaskView| spec_is_overdue(t, now)).len()
}

/// Counts of all tasks, of each status, and of the overdue ones.
pub fn stats(tasks: &[Task], now: Millis) -> (r: Stats)
    ensures
        r.total == tasks@.len(),
        r.pending == count_status(task_views(tasks@), Status::Pending),
        r.in_progress == count_status(task_views(tasks@), Status::InProgress),
        r.completed == count_status(task_views(tasks@), Status::Completed),
        r.overdue == count_overdue(task_views(tasks@), now),
        r.pending + r.in_progress + r.completed == r.total,
{
    let ghost views = task_views(tasks@);
    let mut s = Stats { total: tasks.len(), pending: 0, in_progress: 0, completed: 0, overdue: 0 };
    let mut i: usize = 0;
    while i < tasks.len()
        invariant
            i <= tasks.len(),
            views == task_views(tasks@),
            s.total == tasks@.len(),
            s.pending == count_status(views.subrange(0, i as int), Status::Pending),
            s.in_progress == count_status(views.subrange(0, i as int), Status::InProgress),
            s.completed == count_status(views.subrange(0, i as int), Status::Completed),
            s.overdue == count_overdue(views.subrange(0, i as int), now),
            s.pending + s.in_progress + s.completed == i,
            s.overdue <= i,
        decreases tasks.len() - i,
    {
        let ghost prefix = views.subrange(0, i as int + 1);
        assert(prefix.drop_last() =~= views.subrange(0, i as int));
        reveal(Seq::filter);
        let t = &tasks[i];
        match t.status {
            Status::Pending => s.pending = s.pending + 1,
            Status::InProgress => s.in_progress = s.in_progress + 1,
            Status::Completed => s.completed = s.completed + 1,
        }
        if is_overdue(t, now) {
            s.overdue = s.overdue + 1;
        }
        i += 1;
    }
    assert(views.subrange(0, views.len() as int) =~= views);
    s
}


/// The tasks of `s` whose entry in `keep` is true, in order.
pub open spec fn select(s: Seq<TaskView>, keep: Seq<bool>) -> Seq<TaskView>
    decreases s.len(),
{
    if s.len() == 0 || keep.len() != s.len() {
        seq![]
    } else if keep.last() {
        select(s.drop_last(), keep.drop_last()).push(s.last())
    } else {
        select(s.drop_last(), keep.drop_last())
    }
}

/// `local` holds, for each task with a due date, a local calendar day of that date.
pub open spec fn local_due_days(tasks: Seq<TaskView>, local: Seq<Day>) -> bool {
    &&& local.len() == tasks.len()
    &&& forall|i: int|
        0 <= i < tasks.len() ==> (#[trigger] tasks[i].due_date matches Some(d) ==> exists|ms: int|
            local_reading(d as int, local[i], ms))
}

/// Which tasks fall due on `day`, for the local due days `local`.
pub open spec fn due_on_flags(tasks: Seq<TaskView>, local: Seq<Day>, day: Day) -> Seq<bool> {
    Seq::new(tasks.len(), |i: int| tasks[i].due_date is Some && local[i] == day)
}

/// Tasks due on `day` in local time (calendar cells). The local day of a due date depends on
/// the machine's time zone: the result keeps the tasks whose due date falls on `day` for some
/// local reading of each due date, in order.
pub fn due_on<'a>(tasks: &'a [Task], day: Day) -> (r: Vec<&'a Task>)
    requires
        forall|i: int| 0 <= i < tasks@.len() ==> (#[trigger] tasks@[i].due_date matches Some(d) ==> valid_instant(d as int)),
    ensures
        exists|local: Seq<Day>|
            local_due_days(task_views(tasks@), local) && views_of(r@) == select(
                task_views(tasks@),
                #[trigger] due_on_flags(task_views(tasks@), local, day),
            ),
{
    let ghost views = task_views(tasks@);
    let ghost mut local: Seq<Day> = seq![];
    let mut out: Vec<&'a Task> = Vec::new();
    let mut i: usize = 0;
    while i < tasks.len()
        invariant
            i <= tasks.len(),
            views == task_views(tasks@),
            forall|i: int| 0 <= i < tasks@.len() ==> (#[trigger] tasks@[i].due_date matches Some(d) ==> valid_instant(d as int)),
            local_due_days(views.subrange(0, i as int), local),
            views_of(out@) == select(views.subrange(0, i as int), due_on_flags(views.subrange(0, i as int), local, day)),
        decreases tasks.len() - i,
    {
        let t = &tasks[i];
        let ghost before = local;
        let ghost prefix = views.subrange(0, i as int + 1);
        let ghost old_out = out@;
        let mut here: Day = day;
        let mut hit = false;
        let ghost mut ms_g: int = 0;
        match t.due_date {
            Some(d) => {
                let (ld, ms) = local_day_time(d);
                here = ld;
                hit = ld == day;
                proof {
                    ms_g = ms as int;
                }
            },
            None => {},
        }
        proof {
            if let Some(d) = t.due_date {
                assert(local_reading(d as int, here, ms_g));
            }
            local = before.push(here);
            assert(prefix.drop_last() =~= views.subrange(0, i as int));
            assert(due_on_flags(prefix, local, day).drop_last() =~= due_on_flags(views.subrange(0, i as int), before, day));
            assert(local_due_days(prefix, local)) by {
                assert forall|k: int| 0 <= k < prefix.len() implies (#[trigger] prefix[k].due_date matches Some(d) ==> exists|ms: int|
                    local_reading(d as int, local[k], ms)) by {
                    if k < i {
                        assert(prefix[k] == views.subrange(0, i as int)[k]);
                        assert(local[k] == before[k]);
                        if let Some(d) = prefix[k].due_date {
                            assert(views.subrange(0, i as int)[k].due_date == Some(d));
                        }
                    } else {
                        assert(prefix[k] == t@);
                        if let Some(d) = t.due_date {
                            assert(local_reading(d as int, local[k], ms_g));
                        }
                    }
                }
            }
        }
        if hit {
            out.push(t);
            assert(views_of(out@) =~= views_of(old_out).push(t@));
        }
        i += 1;
    }
    assert(views.subrange(0, views.len() as int) =~= views);
    out
}

/// Sort key of a due date: tasks without one come first.
pub open spec fn due_key(t: TaskView) -> int {
    match t.due_date {
        Some(d) => d as int,
        None => i64::MIN - 1,
    }
}

/// Stable insertion of `x` after every task due no later.
pub open spec fn insert_by_due(s: Seq<TaskView>, x: TaskView) -> Seq<TaskView>
    decreases s.len(),
{
    if s.len() == 0 {
        seq![x]
    } else if due_key(s.last()) <= due_key(x) {
        s.push(x)
    } else {
        insert_by_due(s.drop_last(), x).push(s.last())
    }
}

/// Stable sort by due date (tasks due at the same time keep their order).
pub open spec fn sort_by_due(s: Seq<TaskView>) -> Seq<TaskView>
    decreases s.len(),
{
    if s.len() == 0 {
        s
    } else {
        insert_by_due(sort_by_due(s.drop_last()), s.last())
    }
}

pub open spec fn sorted_by_due(s: Seq<TaskView>) -> bool {
    forall|i: int, j: int| 0 <= i < j < s.len() ==> due_key(s[i]) <= due_key(s[j])
}

proof fn lemma_insert_by_due(s: Seq<TaskView>, x: TaskView, j: int)
    requires
        0 <= j <= s.len(),
        forall|k: int| j <= k < s.len() ==> due_key(#[trigger] s[k]) > due_key(x),
        j == 0 || due_key(s[j - 1]) <= due_key(x),
    ensures
        insert_by_due(s, x) == s.insert(j, x),
    decreases s.len(),
{
    if s.len() == 0 {
        assert(s.insert(j, x) =~= seq![x]);
    } else if due_key(s.last()) <= due_key(x) {
        assert(j == s.len());
        assert(s.insert(j, x) =~= s.push(x));
    } else {
        lemma_insert_by_due(s.drop_last(), x, j);
        assert(s.drop_last().insert(j, x).push(s.last()) =~= s.insert(j, x));
    }
}

proof fn lemma_insert_sorted_by_due(s: Seq<TaskView>, x: TaskView)
    requires
        sorted_by_due(s),
    ensures
        sorted_by_due(insert_by_due(s, x)),
        insert_by_due(s, x).to_multiset() == s.to_multiset().insert(x),
    decreases s.len(),
{
    broadcast use vstd::seq_lib::group_to_multiset_ensures;
    if s.len() == 0 {
        assert(seq![x] =~= Seq::<TaskView>::empty().push(x));
    } else if due_key(s.last()) <= due_key(x) {
    } else {
        let init = s.drop_last();
        lemma_insert_sorted_by_due(init, x);
        let r = insert_by_due(init, x);
        assert forall|i: int, j: int| 0 <= i < j < r.len() + 1 implies due_key(r.push(s.last())[i])
            <= due_key(r.push(s.last())[j]) by {
            if j == r.len() {
                assert(r.to_multiset().contains(r[i]));
                assert(init.to_multiset().insert(x).contains(r[i]));
                if r[i] != x {
                    assert(init.to_multiset().contains(r[i]));
                    assert(init.contains(r[i]));
                    let k = choose|k: int| 0 <= k < init.len() && init[k] == r[i];
                    assert(s[k] == init[k]);
                }
            }
        }
        assert(init.push(s.last()) =~= s);
    }
}

/// `sort_by_due` orders by due date and keeps every task.
pub proof fn lemma_sort_by_due(s: Seq<TaskView>)
    ensures
        sorted_by_due(sort_by_due(s)),
        sort_by_due(s).to_multiset() == s.to_multiset(),
    decreases s.len(),
{
    broadcast use vstd::seq_lib::group_to_multiset_ensures;
    if s.len() > 0 {
        lemma_sort_by_due(s.drop_last());
        lemma_insert_sorted_by_due(sort_by_due(s.drop_last()), s.last());
        assert(s.drop_last().push(s.last()) =~= s);
    }
}

/// Unfinished and due within [`now`, `end`].
pub open spec fn due_within(t: TaskView, now: Millis, end: int) -> bool {
    t.status != Status::Completed && (t.due_date matches Some(d) && now <= d && d <= end)
}

/// Unfinished tasks due between `now` and `days` days later, soonest first (tasks due at the
/// same time keep their order).
pub fn due_soon<'a>(tasks: &'a [Task], now: Millis, days: i64) -> (r: Vec<&'a Task>)
    requires
        valid_instant(now as int),
        valid_instant(now + days * MILLIS_PER_DAY),
    ensures
        views_of(r@) == sort_by_due(
            task_views(tasks@).filter(|t: TaskView| due_within(t, now, now + days * MILLIS_PER_DAY)),
        ),
{
    assert(-200_000_000 < days < 200_000_000) by (nonlinear_arith)
        requires
            valid_instant(now as int),
            valid_instant(now + days * MILLIS_PER_DAY),
    ;
    let end = now + days * MILLIS_PER_DAY;
    let ghost views = task_views(tasks@);
    let ghost p = |t: TaskView| due_within(t, now, end as int);
    let mut picked: Vec<&'a Task> = Vec::new();
    let mut i: usize = 0;
    while i < tasks.len()
        invariant
            i <= tasks.len(),
            views == task_views(tasks@),
            p == (|t: TaskView| due_within(t, now, end as int)),
            views_of(picked@) == views.subrange(0, i as int).filter(p),
        decreases tasks.len() - i,
    {
        let ghost prefix = views.subrange(0, i as int + 1);
        assert(prefix.drop_last() =~= views.subrange(0, i as int));
        reveal(Seq::filter);
        let t = &tasks[i];
        let keep = t.status != Status::Completed && match t.due_date {
            Some(d) => now <= d && d <= end,
            None => false,
        };
        if keep {
            let ghost before = picked@;
            picked.push(t);
            assert(views_of(picked@) =~= views_of(before).push(t@));
        }
        i += 1;
    }
    assert(views.subrange(0, views.len() as int) =~= views);
    let ghost all = views_of(picked@);
    let mut sorted: Vec<&'a Task> = Vec::new();
    let mut i: usize = 0;
    while i < picked.len()
        invariant
            i <= picked.len(),
            all == views_of(picked@),
            views_of(sorted@) == sort_by_due(all.subrange(0, i as int)),
            sorted@.len() == i,
        decreases picked.len() - i,
    {
        let t = picked[i];
        let key = due_sort_key(t);
        let mut j: usize = sorted.len();
        while j > 0 && due_sort_key(sorted[j - 1]) > key
            invariant
                j <= sorted.len(),
                key == due_key(t@),
                forall|k: int| j <= k < sorted@.len() ==> due_key(#[trigger] sorted@[k]@) > key,
            decreases j,
        {
            j -= 1;
        }
        let ghost before = views_of(sorted@);
        proof {
            assert forall|k: int| j <= k < before.len() implies due_key(#[trigger] before[k]) > due_key(t@) by {
                assert(before[k] == sorted@[k]@);
            }
            if j > 0 {
                assert(before[j - 1] == sorted@[j - 1]@);
            }
            lemma_insert_by_due(before, t@, j as int);
            let prefix = all.subrange(0, i as int + 1);
            assert(prefix.drop_last() =~= all.subrange(0, i as int));
            assert(prefix.last() == t@);
        }
        sorted.insert(j, t);
        assert(views_of(sorted@) =~= before.insert(j as int, t@));
        i += 1;
    }
    assert(all.subrange(0, all.len() as int) =~= all);
    sorted
}

/// The sort key of a task's due date as a wide integer.
fn due_sort_key(t: &Task) -> (r: i128)
    ensures
        r == due_key(t@),
{
    match t.due_date {
        Some(d) => d as i128,
        None => i64::MIN as i128 - 1,
    }
}

/// The lowercased title, description or one of the lowercased tags contains `q`.
pub open spec fn matches_search(t: TaskView, q: Seq<char>) -> bool {
    matches_text(t, q) || exists|i: int| 0 <= i < t.tags.len() && has_substring(spec_lowercase(#[trigger] t.tags[i]), q)
}

/// The palette query as it is matched: trimmed and lowercased.
pub open spec fn search_query(query: Seq<char>) -> Seq<char> {
    spec_lowercase(spec_trim(query))
}

fn tag_matches(tags: &Vec<String>, q: &str) -> (r: bool)
    ensures
        r == exists|i: int| 0 <= i < tags@.len() && has_substring(spec_lowercase(#[trigger] string_views(tags@)[i]), q@),
{
    let mut i: usize = 0;
    while i < tags.len()
        invariant
            i <= tags.len(),
            forall|j: int| 0 <= j < i ==> !has_substring(spec_lowercase(#[trigger] string_views(tags@)[j]), q@),
        decreases tags.len() - i,
    {
        let lower = to_lowercase(tags[i].as_str());
        if str_contains(lower.as_str(), q) {
            assert(string_views(tags@)[i as int] == tags@[i as int]@);
            return true;
        }
        assert(string_views(tags@)[i as int] == tags@[i as int]@);
        i += 1;
    }
    false
}

/// The first `limit` tasks whose title, description or a tag contains the trimmed query,
/// ignoring case; none for a blank query.
pub open spec fn spec_search(tasks: Seq<TaskView>, query: Seq<char>, limit: nat) -> Seq<TaskView> {
    if search_query(query).len() == 0 {
        Seq::empty()
    } else {
        let found = tasks.filter(|t: TaskView| matches_search(t, search_query(query)));
        found.take(if limit < found.len() { limit as int } else { found.len() as int })
    }
}

/// A search lists at most `limit` tasks, each one that matches the query, in list order.
pub proof fn law_search_is_bounded(tasks: Seq<TaskView>, query: Seq<char>, limit: nat)
    ensures
        spec_search(tasks, query, limit).len() <= limit,
        forall|i: int|
            0 <= i < spec_search(tasks, query, limit).len() ==> matches_search(
                #[trigger] spec_search(tasks, query, limit)[i],
                search_query(query),
            ),
{
    if search_query(query).len() > 0 {
        let p = |t: TaskView| matches_search(t, search_query(query));
        let found = tasks.filter(p);
        assert forall|i: int| 0 <= i < found.len() implies #[trigger] p(found[i]) by {
            tasks.lemma_filter_pred(p, i);
        }
    }
}

/// Palette search: the first `limit` tasks whose title, description or a tag contains the
/// trimmed query, ignoring case. A blank query finds nothing.
pub fn search_tasks<'a>(tasks: &'a [Task], query: &str, limit: usize) -> (r: Vec<&'a Task>)
    ensures
        views_of(r@) == spec_search(task_views(tasks@), query@, limit as nat),
{
    let trimmed = trim(query);
    let q = to_lowercase(trimmed);
    if q.as_str().is_empty() {
        return Vec::new();
    }
    let ghost views = task_views(tasks@);
    let ghost p = |t: TaskView| matches_search(t, q@);
    let mut out: Vec<&'a Task> = Vec::new();
    let mut i: usize = 0;
    while i < tasks.len() && out.len() < limit
        invariant
            i <= tasks.len(),
            views == task_views(tasks@),
            p == (|t: TaskView| matches_search(t, q@)),
            views_of(out@) == views.subrange(0, i as int).filter(p),
            out@.len() <= limit,
        decreases tasks.len() - i,
    {
        let ghost prefix = views.subrange(0, i as int + 1);
        assert(prefix.drop_last() =~= views.subrange(0, i as int));
        reveal(Seq::filter);
        let t = &tasks[i];
        let hit = text_matches(t, q.as_str()) || tag_matches(&t.tags, q.as_str());
        proof {
            assert(t@.tags == string_views(t.tags@));
        }
        if hit {
            let ghost before = out@;
            out.push(t);
            assert(views_of(out@) =~= views_of(before).push(t@));
        }
        i += 1;
    }
    proof {
        let found = views.filter(p);
        lemma_filter_prefix(views, p, i as int);
        if out@.len() < limit {
            assert(i == tasks.len());
            assert(views.subrange(0, views.len() as int) =~= views);
            assert(found.take(found.len() as int) =~= found);
        } else {
            assert(views_of(out@) =~= found.take(limit as int));
        }
    }
    out
}

/// Filtering a prefix gives a prefix of the filtered sequence.
proof fn lemma_filter_prefix(s: Seq<TaskView>, p: spec_fn(TaskView) -> bool, i: int)
    requires
        0 <= i <= s.len(),
    ensures
        s.subrange(0, i).filter(p).len() <= s.filter(p).len(),
        s.filter(p).subrange(0, s.subrange(0, i).filter(p).len() as int) == s.subrange(0, i).filter(p),
    decreases s.len() - i,
{
    reveal(Seq::filter);
    if i < s.len() {
        lemma_filter_prefix(s, p, i + 1);
        let a = s.subrange(0, i);
        let b = s.subrange(0, i + 1);
        assert(b.drop_last() =~= a);
        let fb = b.filter(p);
        let fa = a.filter(p);
        assert(fb.subrange(0, fa.len() as int) =~= fa);
    } else {
        assert(s.subrange(0, i) =~= s);
    }
}


/// Some task carries the tag `g`.
pub open spec fn tag_in_use(tasks: Seq<TaskView>, g: Seq<char>) -> bool {
    exists|i: int| 0 <= i < tasks.len() && #[trigger] tasks[i].tags.contains(g)
}

/// Strictly ascending in string order (so without repeats).
pub open spec fn strictly_sorted(s: Seq<Seq<char>>) -> bool {
    forall|i: int, j: int| 0 <= i < j < s.len() ==> lex_lt(#[trigger] s[i], #[trigger] s[j])
}

/// Adds `g` to a strictly sorted list unless it is there already.
fn insert_sorted(list: &mut Vec<String>, g: &String)
    requires
        strictly_sorted(string_views(old(list)@)),
    ensures
        strictly_sorted(string_views(final(list)@)),
        forall|x: Seq<char>| string_views(final(list)@).contains(x) <==> (string_views(old(list)@).contains(x) || x == g@),
{
    let ghost before = string_views(list@);
    let mut p: usize = 0;
    while p < list.len() && str_lt(list[p].as_str(), g.as_str())
        invariant
            p <= list.len(),
            list@ == old(list)@,
            before == string_views(list@),
            forall|k: int| 0 <= k < p ==> lex_lt(#[trigger] before[k], g@),
        decreases list.len() - p,
    {
        assert(before[p as int] == list@[p as int]@);
        p += 1;
    }
    if p < list.len() && list[p] == *g {
        assert(before[p as int] == g@);
        assert(before.contains(g@));
        return;
    }
    proof {
        if p < list.len() {
            assert(before[p as int] == list@[p as int]@);
            lemma_lex_total(before[p as int], g@);
        }
    }
    list.insert(p, g.clone());
    proof {
        let after = string_views(list@);
        assert(after =~= before.insert(p as int, g@));
        assert forall|i: int, j: int| 0 <= i < j < after.len() implies lex_lt(#[trigger] after[i], #[trigger] after[j]) by {
            if j == p {
                assert(after[i] == before[i]);
            } else if i == p {
                assert(after[j] == before[j - 1]);
                if j - 1 > p {
                    lemma_lex_transitive(g@, before[p as int], before[j - 1]);
                }
            } else if j < p {
                assert(after[i] == before[i] && after[j] == before[j]);
            } else if i < p {
                assert(after[i] == before[i] && after[j] == before[j - 1]);
            } else {
                assert(after[i] == before[i - 1] && after[j] == before[j - 1]);
            }
        }
        assert forall|x: Seq<char>| after.contains(x) <==> (before.contains(x) || x == g@) by {
            if after.contains(x) {
                let k = choose|k: int| 0 <= k < after.len() && after[k] == x;
                if k < p {
                    assert(before[k] == x);
                } else if k > p {
                    assert(before[k - 1] == x);
                }
            }
            if before.contains(x) {
                let k = choose|k: int| 0 <= k < before.len() && before[k] == x;
                if k < p {
                    assert(after[k] == x);
                } else {
                    assert(after[k + 1] == x);
                }
            }
            if x == g@ {
                assert(after[p as int] == x);
            }
        }
    }
}

/// Every tag in use, sorted and unique.
pub fn all_tags(tasks: &[Task]) -> (r: Vec<String>)
    ensures
        strictly_sorted(string_views(r@)),
        forall|g: Seq<char>| string_views(r@).contains(g) <==> tag_in_use(task_views(tasks@), g),
{
    let ghost views = task_views(tasks@);
    let mut tags: Vec<String> = Vec::new();
    let mut i: usize = 0;
    while i < tasks.len()
        invariant
            i <= tasks.len(),
            views == task_views(tasks@),
            strictly_sorted(string_views(tags@)),
            forall|g: Seq<char>| string_views(tags@).contains(g) <==> tag_in_use(views.subrange(0, i as int), g),
        decreases tasks.len() - i,
    {
        let t = &tasks[i];
        let mut k: usize = 0;
        while k < t.tags.len()
            invariant
                k <= t.tags.len(),
                i < tasks.len(),
                t == &tasks@[i as int],
                views == task_views(tasks@),
                strictly_sorted(string_views(tags@)),
                forall|g: Seq<char>| string_views(tags@).contains(g) <==> (tag_in_use(views.subrange(0, i as int), g)
                    || string_views(t.tags@).subrange(0, k as int).contains(g)),
            decreases t.tags.len() - k,
        {
            let ghost before = string_views(tags@);
            insert_sorted(&mut tags, &t.tags[k]);
            proof {
                let seen = string_views(t.tags@).subrange(0, k as int + 1);
                let prev = string_views(t.tags@).subrange(0, k as int);
                assert(seen =~= prev.push(t.tags@[k as int]@));
                assert forall|g: Seq<char>| seen.contains(g) <==> (prev.contains(g) || g == t.tags@[k as int]@) by {
                    if seen.contains(g) {
                        let j = choose|j: int| 0 <= j < seen.len() && seen[j] == g;
                        if j < k {
                            assert(prev[j] == g);
                        }
                    }
                    if prev.contains(g) {
                        let j = choose|j: int| 0 <= j < prev.len() && prev[j] == g;
                        assert(seen[j] == g);
                    }
                    if g == t.tags@[k as int]@ {
                        assert(seen[k as int] == g);
                    }
                }
            }
            k += 1;
        }
        proof {
            let vt = views[i as int];
            assert(vt.tags == string_views(t.tags@));
            assert(string_views(t.tags@).subrange(0, t.tags@.len() as int) =~= string_views(t.tags@));
            assert forall|g: Seq<char>| tag_in_use(views.subrange(0, i as int + 1), g) <==> (tag_in_use(
                views.subrange(0, i as int),
                g,
            ) || vt.tags.contains(g)) by {
                let next = views.subrange(0, i as int + 1);
                if tag_in_use(next, g) {
                    let j = choose|j: int| 0 <= j < next.len() && #[trigger] next[j].tags.contains(g);
                    if j < i {
                        assert(views.subrange(0, i as int)[j] == next[j]);
                    }
                }
                if tag_in_use(views.subrange(0, i as int), g) {
                    let j = choose|j: int| 0 <= j < i && #[trigger] views.subrange(0, i as int)[j].tags.contains(g);
                    assert(next[j] == views.subrange(0, i as int)[j]);
                }
                if vt.tags.contains(g) {
                    assert(next[i as int] == vt);
                }
            }
        }
        i += 1;
    }
    assert(views.subrange(0, views.len() as int) =~= views);
    tags
}


/// The separator of the codes in a history entry (" → ").
pub open spec fn arrow() -> Seq<char> {
    seq![' ', '→', ' ']
}

/// The first position at or after `i` where " → " starts (-1 if there is none).
pub open spec fn find_arrow(s: Seq<char>, i: int) -> int
    decreases s.len() - i,
{
    if i < 0 || i + 3 > s.len() {
        -1
    } else if s.subrange(i, i + 3) == arrow() {
        i
    } else {
        find_arrow(s, i + 1)
    }
}

/// A stored status code (or priority code) shown as its label; anything else as it is.
pub open spec fn code_text(status: bool, part: Seq<char>) -> Seq<char> {
    if status {
        match Status::spec_from_code(part) {
            Some(st) => st.spec_label(),
            None => part,
        }
    } else {
        match Priority::spec_from_code(part) {
            Some(p) => p.spec_label(),
            None => part,
        }
    }
}

/// The " → "-separated codes of `s` from position `i` on, each shown as its label.
pub open spec fn labelled_from(s: Seq<char>, i: int, status: bool) -> Seq<char>
    decreases s.len() - i,
{
    let j = find_arrow(s, i);
    if i < 0 || i > s.len() {
        seq![]
    } else if j < i || j + 3 > s.len() {
        code_text(status, s.subrange(i, s.len() as int))
    } else {
        code_text(status, s.subrange(i, j)) + arrow() + labelled_from(s, j + 3, status)
    }
}

proof fn lemma_find_arrow(s: Seq<char>, i: int)
    requires
        0 <= i,
    ensures
        find_arrow(s, i) == -1 || (i <= find_arrow(s, i) && find_arrow(s, i) + 3 <= s.len()),
    decreases s.len() - i,
{
    if i + 3 <= s.len() && s.subrange(i, i + 3) != arrow() {
        lemma_find_arrow(s, i + 1);
    }
}

fn find_arrow_from(s: &Vec<char>, i: usize) -> (r: Option<usize>)
    requires
        i <= s.len(),
    ensures
        r matches Some(j) ==> j == find_arrow(s@, i as int),
        r is None ==> find_arrow(s@, i as int) == -1,
{
    let mut k = i;
    while k < s.len() && s.len() - k >= 3
        invariant
            i <= k <= s.len(),
            find_arrow(s@, i as int) == find_arrow(s@, k as int),
        decreases s.len() - k,
    {
        if s[k] == ' ' && s[k + 1] == '→' && s[k + 2] == ' ' {
            assert(s@.subrange(k as int, k as int + 3) =~= arrow());
            return Some(k);
        }
        assert(s@.subrange(k as int, k as int + 3) != arrow()) by {
            if s@.subrange(k as int, k as int + 3) == arrow() {
                assert(s@.subrange(k as int, k as int + 3)[0] == s@[k as int]);
                assert(s@.subrange(k as int, k as int + 3)[1] == s@[k as int + 1]);
                assert(s@.subrange(k as int, k as int + 3)[2] == s@[k as int + 2]);
            }
        }
        k += 1;
    }
    None
}

fn code_label(status: bool, part: &str) -> (r: String)
    ensures
        r@ == code_text(status, part@),
{
    if status {
        match Status::from_code(part) {
            Some(st) => st.label().to_string(),
            None => part.to_string(),
        }
    } else {
        match Priority::from_code(part) {
            Some(p) => p.label().to_string(),
            None => part.to_string(),
        }
    }
}

/// The codes of `details` shown as their labels.
fn labelled(details: &str, status: bool) -> (r: String)
    ensures
        r@ == labelled_from(details@, 0, status),
{
    let cs = chars_of(details);
    let n = cs.len();
    let mut out = String::new();
    let mut i: usize = 0;
    loop
        invariant
            i <= n,
            n == cs@.len(),
            cs@ == details@,
            out@ + labelled_from(cs@, i as int, status) == labelled_from(cs@, 0, status),
        decreases n - i,
    {
        proof {
            lemma_find_arrow(cs@, i as int);
        }
        match find_arrow_from(&cs, i) {
            None => {
                let piece = details.substring_char(i, n);
                let text = code_label(status, piece);
                let ghost before = out@;
                out.append(text.as_str());
                assert(out@ == before + labelled_from(cs@, i as int, status));
                return out;
            },
            Some(j) => {
                let piece = details.substring_char(i, j);
                let text = code_label(status, piece);
                let ghost before = out@;
                out.append(text.as_str());
                out.append(" → ");
                proof {
                    reveal_strlit(" → ");
                    assert(" → "@ =~= arrow());
                    assert(labelled_from(cs@, i as int, status) == code_text(status, cs@.subrange(i as int, j as int))
                        + arrow() + labelled_from(cs@, j as int + 3, status));
                    assert(out@ + labelled_from(cs@, j as int + 3, status) =~= before + labelled_from(
                        cs@,
                        i as int,
                        status,
                    ));
                }
                i = j + 3;
            },
        }
    }
}

/// One line of a task's history after the actor's name.
pub open spec fn spec_activity_text(action: Seq<char>, details: Seq<char>, name: Seq<char>) -> Seq<char> {
    if action == "created"@ {
        "görevi oluşturdu"@
    } else if action == "status_changed"@ {
        "durumu değiştirdi: "@ + labelled_from(details, 0, true)
    } else if action == "priority_changed"@ {
        "önceliği değiştirdi: "@ + labelled_from(details, 0, false)
    } else if action == "title_changed"@ {
        "başlığı değiştirdi: "@ + details
    } else if action == "assigned"@ {
        if spec_parse_uuid(details) is Some {
            "görevi atadı: "@ + name
        } else {
            "atamayı kaldırdı"@
        }
    } else if action == "commented"@ {
        "yorum yaptı"@
    } else {
        action
    }
}

/// One line of a task's history after the actor's name, e.g. "durumu değiştirdi: Beklemede →
/// Tamamlandı": the server logs codes, shown here by their labels. `name_of` names the assignee
/// of an `assigned` entry (whose details hold the assignee's id; none means unassigned).
pub fn activity_text<F: Fn(Id) -> String>(action: &str, details: &str, name_of: F) -> (r: String)
    requires
        forall|id: Id| name_of.requires((id,)),
    ensures
        action@ == "assigned"@ && spec_parse_uuid(details@) is Some ==> exists|name: String|
            name_of.ensures((spec_parse_uuid(details@)->0,), name) && r@ == spec_activity_text(
                action@,
                details@,
                name@,
            ),
        !(action@ == "assigned"@ && spec_parse_uuid(details@) is Some) ==> r@ == spec_activity_text(
            action@,
            details@,
            Seq::empty(),
        ),
{
    proof {
        reveal_strlit("created");
        reveal_strlit("status_changed");
        reveal_strlit("priority_changed");
        reveal_strlit("title_changed");
        reveal_strlit("assigned");
        reveal_strlit("commented");
        assert("created"@.len() == 7 && "status_changed"@.len() == 14 && "priority_changed"@.len() == 16);
        assert("title_changed"@.len() == 13 && "assigned"@.len() == 8 && "commented"@.len() == 9);
    }
    if str_eq(action, "created") {
        "görevi oluşturdu".to_string()
    } else if str_eq(action, "status_changed") {
        let mut s = "durumu değiştirdi: ".to_string();
        let text = labelled(details, true);
        s.append(text.as_str());
        s
    } else if str_eq(action, "priority_changed") {
        let mut s = "önceliği değiştirdi: ".to_string();
        let text = labelled(details, false);
        s.append(text.as_str());
        s
    } else if str_eq(action, "title_changed") {
        let mut s = "başlığı değiştirdi: ".to_string();
        s.append(details);
        s
    } else if str_eq(action, "assigned") {
        match parse_uuid(details) {
            Some(id) => {
                let name = name_of(id);
                let mut s = "görevi atadı: ".to_string();
                s.append(name.as_str());
                assert(name_of.ensures((id,), name) && s@ == spec_activity_text(action@, details@, name@));
                s
            },
            None => "atamayı kaldırdı".to_string(),
        }
    } else if str_eq(action, "commented") {
        "yorum yaptı".to_string()
    } else {
        action.to_string()
    }
}

} // verus!
