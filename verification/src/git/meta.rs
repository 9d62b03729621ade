//! Helpers around a repository: its refs, its display name, and time formats.

use crate::git::status::{
    is_change, item_is_change, item_is_staged, StatusItem, StatusItemModel,
};
use crate::model::RepoInfo;
use crate::text::{
    all_white, decimal, has_prefix, is_blank, push_decimal, same_text, strip_prefix_of,
};
use vstd::prelude::*;
use vstd::string::StringExecFns;

verus! {

/// The text that `chrono` formats the UTC time `secs` to, if the time lies in its calendar.
pub uninterp spec fn utc_timestamp(secs: i64) -> Option<Seq<char>>;

/// `chrono::TimeZone::timestamp_opt` on `Utc`, formatted with `%a %b %e %T %Y +0000`; `None`
/// where the time is out of `chrono`'s range, which holds every time from the epoch to the
/// end of the year 9999.
#[verifier::external_body]
fn utc_text(secs: i64) -> (r: Option<String>)
    ensures
        match r {
            Some(t) => utc_timestamp(secs) == Some(t@),
            None => utc_timestamp(secs) is None,
        },
        0 <= secs <= 253_402_300_799 ==> r is Some,
{
    chrono::TimeZone::timestamp_opt(&chrono::Utc, secs, 0)
        .single()
        .map(|t| t.format("%a %b %e %T %Y +0000").to_string())
}

/// A reading of the clock: seconds since the epoch, and nanoseconds on top.
#[derive(Clone, Copy, PartialEq, Eq, Structural, Debug)]
pub struct Clock {
    pub secs: i64,
    pub nanos: u32,
}

impl Clock {
    /// The reading lies in `chrono`'s calendar.
    pub open spec fn wf(self) -> bool {
        self.nanos < 1_000_000_000 && utc_timestamp(self.secs) is Some
    }
}

/// Every reading lies in the calendar.
pub open spec fn all_readings(moments: Seq<Clock>) -> bool {
    forall|i: int| 0 <= i < moments.len() ==> (#[trigger] moments[i]).wf()
}

/// `chrono::Utc::now`, as seconds and nanoseconds. What it reads is the clock's; it lies in
/// the calendar.
#[verifier::external_body]
pub(crate) fn read_clock() -> (r: Clock)
    ensures
        r.wf(),
{
    let now = chrono::Utc::now();
    Clock { secs: now.timestamp(), nanos: now.timestamp_subsec_nanos() }
}

/// The UTC time `unix_secs` as text; the time of `now` where it is out of range.
pub open spec fn timestamp_text(now: Clock, unix_secs: i64) -> Seq<char> {
    match utc_timestamp(unix_secs) {
        Some(t) => t,
        None => utc_timestamp(now.secs)->0,
    }
}

/// The UTC time `unix_secs` as text; the time of `now` where it is out of range.
pub fn format_timestamp_at(now: Clock, unix_secs: i64) -> (r: String)
    requires
        now.wf(),
    ensures
        r@ == timestamp_text(now, unix_secs),
{
    match utc_text(unix_secs) {
        Some(t) => t,
        None => match utc_text(now.secs) {
            Some(t) => t,
            None => String::new(),
        },
    }
}

/// The UTC time `unix_secs` as text; the current time where it is out of range.
pub fn format_timestamp(unix_secs: i64) -> (r: String)
    ensures
        exists|now: Clock| now.wf() && r@ == #[trigger] timestamp_text(now, unix_secs),
{
    let now: Clock = read_clock();
    format_timestamp_at(now, unix_secs)
}

/// How long ago something was, if it was `s` seconds ago.
pub open spec fn relative_text(s: int) -> Seq<char> {
    if s < 0 {
        "now"@
    } else if s < 60 {
        decimal(s as nat) + "s ago"@
    } else if s < 3600 {
        decimal((s / 60) as nat) + "m ago"@
    } else if s < 86400 {
        decimal((s / 3600) as nat) + "h ago"@
    } else if s < 2592000 {
        decimal((s / 86400) as nat) + "d ago"@
    } else if s < 31536000 {
        decimal((s / 2592000) as nat) + "mo ago"@
    } else {
        decimal((s / 31536000) as nat) + "y ago"@
    }
}

fn ago(n: i64, unit: &str) -> (r: String)
    requires
        0 <= n,
    ensures
        r@ == decimal(n as nat) + unit@,
{
    let mut out: String = String::new();
    push_decimal(&mut out, n as u64);
    out.append(unit);
    assert(out@ =~= decimal(n as nat) + unit@);
    out
}

/// How long ago something was, in one unit; what lies in the future is "now".
pub fn relative_time_since(s: i64) -> (r: String)
    ensures
        r@ == relative_text(s as int),
{
    if s < 0 {
        "now".to_owned()
    } else if s < 60 {
        ago(s, "s ago")
    } else if s < 3600 {
        ago(s / 60, "m ago")
    } else if s < 86400 {
        ago(s / 3600, "h ago")
    } else if s < 2592000 {
        ago(s / 86400, "d ago")
    } else if s < 31536000 {
        ago(s / 2592000, "mo ago")
    } else {
        ago(s / 31536000, "y ago")
    }
}

/// Whole seconds from the UTC time `unix_secs` to `now`, cut off toward zero.
pub open spec fn whole_seconds(now: Clock, unix_secs: i64) -> int {
    if now.secs < unix_secs && now.nanos > 0 {
        now.secs - unix_secs + 1
    } else {
        now.secs - unix_secs
    }
}

/// `signed_duration_since` of two `chrono::DateTime<Utc>`, and its `num_seconds`: the whole
/// seconds from the one to the other, cut off toward zero; `None` where the earlier one is
/// out of range.
#[verifier::external_body]
fn seconds_between(now: Clock, unix_secs: i64) -> (r: Option<i64>)
    requires
        now.wf(),
    ensures
        r is Some <==> utc_timestamp(unix_secs) is Some,
        r matches Some(s) ==> s == whole_seconds(now, unix_secs),
{
    let at = chrono::DateTime::from_timestamp(now.secs, now.nanos)?;
    let t = chrono::TimeZone::timestamp_opt(&chrono::Utc, unix_secs, 0).single()?;
    Some(at.signed_duration_since(t).num_seconds())
}

/// How many seconds before `now` the UTC time `unix_secs` is; none where it is out of range.
pub open spec fn seconds_ago(now: Clock, unix_secs: i64) -> int {
    if utc_timestamp(unix_secs) is Some {
        whole_seconds(now, unix_secs)
    } else {
        0
    }
}

/// How long before `now` the UTC time `unix_secs` is, as text.
pub open spec fn age_text(now: Clock, unix_secs: i64) -> Seq<char> {
    relative_text(seconds_ago(now, unix_secs))
}

/// How long before `now` the UTC time `unix_secs` is.
pub fn relative_time_at(now: Clock, unix_secs: i64) -> (r: String)
    requires
        now.wf(),
    ensures
        r@ == age_text(now, unix_secs),
{
    let s: i64 = match seconds_between(now, unix_secs) {
        Some(s) => s,
        None => 0,
    };
    relative_time_since(s)
}

/// How long ago `unix_secs` is, by the clock.
pub fn relative_time(unix_secs: i64) -> (r: String)
    ensures
        exists|now: Clock| now.wf() && r@ == #[trigger] age_text(now, unix_secs),
{
    let now: Clock = read_clock();
    relative_time_at(now, unix_secs)
}

/// How the repository at `dir` is named: with `~` for the home directory.
pub open spec fn repo_name(dir: Option<Seq<char>>, home: Option<Seq<char>>) -> Seq<char> {
    match dir {
        None => "unknown"@,
        Some(d) => match home {
            None => d,
            Some(h) => if d == h {
                "~"@
            } else if has_prefix(d, h.push('/')) {
                "~/"@ + d.skip((h.len() + 1) as int)
            } else {
                d
            },
        },
    }
}

/// The view of an optional text.
pub open spec fn text_view(text: Option<String>) -> Option<Seq<char>> {
    match text {
        Some(t) => Some(t@),
        None => None,
    }
}

/// The repository's identity. `dir` is its directory, `home` the home directory, `branch`
/// the checked-out branch, each if known.
pub fn repo_info_for(dir: Option<String>, home: Option<String>, branch: Option<String>) -> (r:
    RepoInfo)
    ensures
        r.name@ == repo_name(text_view(dir), text_view(home)),
        r.branch@ == (match branch {
            Some(b) => b@,
            None => "HEAD"@,
        }),
        r.path_filter is None,
{
    let name: String = match dir {
        None => "unknown".to_owned(),
        Some(d) => match home {
            None => d,
            Some(h) => {
                if same_text(d.as_str(), h.as_str()) {
                    "~".to_owned()
                } else {
                    let mut prefix: String = h.clone();
                    prefix.push('/');
                    match strip_prefix_of(d.as_str(), prefix.as_str()) {
                        Some(rest) => {
                            let mut out: String = "~/".to_owned();
                            out.append(rest.as_str());
                            out
                        },
                        None => d,
                    }
                }
            },
        },
    };
    let branch: String = match branch {
        Some(b) => b,
        None => "HEAD".to_owned(),
    };
    RepoInfo { name, branch, path_filter: None }
}

/// The author of what is not committed yet: the configured name unless it is blank, else
/// one of the two user names of the environment, else "you".
pub open spec fn author_choice(
    configured: Option<Seq<char>>,
    user: Option<Seq<char>>,
    username: Option<Seq<char>>,
) -> Seq<char> {
    if configured is Some && !all_white(configured->0) {
        configured->0
    } else if user is Some {
        user->0
    } else if username is Some {
        username->0
    } else {
        "you"@
    }
}

/// Chooses the author of what is not committed yet.
pub fn working_tree_author(
    configured: Option<String>,
    user: Option<String>,
    username: Option<String>,
) -> (r: String)
    ensures
        r@ == author_choice(text_view(configured), text_view(user), text_view(username)),
{
    if let Some(name) = configured {
        if !is_blank(name.as_str()) {
            return name;
        }
    }
    match user {
        Some(u) => u,
        None => match username {
            Some(u) => u,
            None => "you".to_owned(),
        },
    }
}

/// Whether one of `items` is a change, staged or not, or an untracked file.
pub open spec fn any_change(items: Seq<StatusItemModel>) -> bool {
    exists|i: int| 0 <= i < items.len() && is_change(#[trigger] items[i])
}

/// Whether one of `items` is a staged change.
pub open spec fn any_staged(items: Seq<StatusItemModel>) -> bool {
    exists|i: int| 0 <= i < items.len() && (#[trigger] items[i]) is Staged
}

/// Whether the working tree differs from the last commit. `items` is what the status query
/// found, with the untracked files; nothing is known if it failed.
pub fn quick_is_dirty(items: Option<&Vec<StatusItem>>) -> (r: Option<bool>)
    ensures
        r == (match items {
            Some(found) => Some(any_change(found.deep_view())),
            None => None,
        }),
{
    let found: &Vec<StatusItem> = match items {
        Some(found) => found,
        None => {
            return None;
        },
    };
    let ghost all = found.deep_view();
    let mut i: usize = 0;
    while i < found.len()
        invariant
            i <= found@.len(),
            items == Some(found),
            all == found.deep_view(),
            forall|k: int| 0 <= k < i ==> !is_change(#[trigger] all[k]),
        decreases found@.len() - i,
    {
        assert(all[i as int] == found@[i as int]@);
        if item_is_change(&found[i]) {
            return Some(true);
        }
        i += 1;
    }
    Some(false)
}

/// Whether anything is staged. `items` is what the status query found; nothing is known if it
/// failed.
pub fn quick_has_staged(items: Option<&Vec<StatusItem>>) -> (r: Option<bool>)
    ensures
        r == (match items {
            Some(found) => Some(any_staged(found.deep_view())),
            None => None,
        }),
{
    let found: &Vec<StatusItem> = match items {
        Some(found) => found,
        None => {
            return None;
        },
    };
    let ghost all = found.deep_view();
    let mut i: usize = 0;
    while i < found.len()
        invariant
            i <= found@.len(),
            items == Some(found),
            all == found.deep_view(),
            forall|k: int| 0 <= k < i ==> !((#[trigger] all[k]) is Staged),
        decreases found@.len() - i,
    {
        assert(all[i as int] == found@[i as int]@);
        if item_is_staged(&found[i]) {
            return Some(true);
        }
        i += 1;
    }
    Some(false)
}

/// An age is told in the largest of the units second, minute, hour, day, month and year that
/// it holds at least once, as the number of times that it holds the unit.
pub proof fn law_ages_are_told_in_the_largest_unit(s: int, n: nat)
    ensures
        s < 0 ==> relative_text(s) == "now"@,
        0 <= s < 60 && n == s ==> relative_text(s) == decimal(n) + "s ago"@,
        60 <= s < 3600 && n * 60 <= s < n * 60 + 60 ==> relative_text(s) == decimal(n) + "m ago"@,
        3600 <= s < 86400 && n * 3600 <= s < n * 3600 + 3600 ==> relative_text(s) == decimal(n)
            + "h ago"@,
        86400 <= s < 2592000 && n * 86400 <= s < n * 86400 + 86400 ==> relative_text(s)
            == decimal(n) + "d ago"@,
        2592000 <= s < 31536000 && n * 2592000 <= s < n * 2592000 + 2592000
            ==> relative_text(s) == decimal(n) + "mo ago"@,
        31536000 <= s && n * 31536000 <= s < n * 31536000 + 31536000
            ==> relative_text(s) == decimal(n) + "y ago"@,
{
}

/// The age of a moment is how long ago it was in whole seconds; of a moment that is a second
/// or more in the future it is now, and of one that is less than a second ahead nought.
pub proof fn law_an_age_is_the_time_since(now: Clock, then: i64)
    requires
        utc_timestamp(then) is Some,
        now.nanos < 1_000_000_000,
    ensures
        then <= now.secs ==> age_text(now, then) == relative_text(now.secs - then),
        then > now.secs + 1 ==> age_text(now, then) == "now"@,
        then == now.secs + 1 && now.nanos == 0 ==> age_text(now, then) == "now"@,
        then == now.secs + 1 && now.nanos > 0 ==> age_text(now, then) == decimal(0) + "s ago"@,
{
}

/// A moment that cannot be told is shown as the present one.
pub proof fn law_a_moment_that_cannot_be_told_is_now(now: Clock, then: i64)
    requires
        utc_timestamp(then) is None,
    ensures
        age_text(now, then) == decimal(0) + "s ago"@,
        timestamp_text(now, then) == timestamp_text(now, now.secs),
{
}

/// The text of a moment is its timestamp.
pub proof fn law_a_moment_is_told_by_its_timestamp(now: Clock, then: i64, text: Seq<char>)
    requires
        utc_timestamp(then) == Some(text),
    ensures
        timestamp_text(now, then) == text,
{
}

/// A repository within the home directory is named from there, one that is the home
/// directory is a tilde, and any other has its full path.
pub proof fn law_home_is_a_tilde(home: Seq<char>, rest: Seq<char>, dir: Seq<char>)
    ensures
        repo_name(Some(home), Some(home)) == seq!['~'],
        repo_name(Some(home + seq!['/'] + rest), Some(home)) == seq!['~', '/'] + rest,
        dir != home && dir != home + seq!['/'] + dir.skip(home.len() as int + 1) ==> repo_name(
            Some(dir),
            Some(home),
        ) == dir,
        repo_name(Some(dir), None) == dir,
        repo_name(None, Some(home)) == "unknown"@,
{
    reveal_strlit("~");
    reveal_strlit("~/");
    assert("~"@ =~= seq!['~']);
    assert("~/"@ =~= seq!['~', '/']);
    let inside = home + seq!['/'] + rest;
    assert(inside.take(home.len() as int + 1) =~= home.push('/'));
    assert(inside.skip(home.len() as int + 1) =~= rest);
    assert(inside.len() > home.len());
    if has_prefix(dir, home.push('/')) {
        let start = home.push('/');
        assert(dir =~= start + dir.skip(start.len() as int));
        assert(start =~= home + seq!['/']);
    }
}

/// The author is the configured one unless that is blank, then the user of the session by
/// either name, and otherwise "you".
pub proof fn law_the_configured_author_comes_first(
    configured: Seq<char>,
    user: Seq<char>,
    username: Seq<char>,
    c: Option<Seq<char>>,
    u: Option<Seq<char>>,
    n: Option<Seq<char>>,
)
    requires
        c is None || all_white(c->0),
    ensures
        !all_white(configured) ==> author_choice(Some(configured), u, n) == configured,
        author_choice(c, Some(user), n) == user,
        author_choice(c, None, Some(username)) == username,
        author_choice(c, None, None) == "you"@,
{
}

} // verus!
