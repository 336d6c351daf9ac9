//! The recorder's state: whether a recording runs and into which file, and
//! the answers to the `start`, `stop` and `status` commands.
use vstd::prelude::*;
use crate::keyexprs::{is_valid_keyexpr, keyexpr_is_valid, string_views};
use crate::numparse::{parse_u32, parse_u32_spec, push_zero_padded, zero_padded, IntErrorKind};
use crate::text::{
    chars_of, concat_strs, split_chars, split_on, string_of, trim,
    trim_chars, views,
};
use crate::bag::nanos_since_unix_epoch;

verus! {

broadcast use vstd::string::group_string_axioms;

/// `s` without one leading `/` (`strip_prefix('/')`, or `s` itself).
pub open spec fn strip_leading_slash(s: Seq<char>) -> Seq<char> {
    if s.len() > 0 && s[0] == '/' {
        s.drop_first()
    } else {
        s
    }
}

/// The topic patterns of the pieces `ps`: each trimmed and stripped of one
/// leading `/`, the empty ones left out.
pub open spec fn clean_topics(ps: Seq<Seq<char>>) -> Seq<Seq<char>>
    decreases ps.len(),
{
    if ps.len() == 0 {
        Seq::<Seq<char>>::empty()
    } else {
        let init = clean_topics(ps.drop_last());
        let c = strip_leading_slash(trim(ps.last()));
        if c.len() > 0 {
            init.push(c)
        } else {
            init
        }
    }
}

/// The topic patterns of a `,`-separated topic list.
pub open spec fn topic_list(topic: Seq<char>) -> Seq<Seq<char>> {
    clean_topics(split_on(topic, ','))
}

/// Whether every topic pattern is a key expression.
pub open spec fn all_keyexprs(ts: Seq<Seq<char>>) -> bool {
    forall|i: int| 0 <= i < ts.len() ==> is_valid_keyexpr(#[trigger] ts[i])
}

/// Splits a `,`-separated topic list into topic patterns.
pub fn parse_topic_list(topic: &str) -> (r: Vec<String>)
    ensures
        string_views(r@) == topic_list(topic@),
{
    let cs = chars_of(topic);
    let pieces = split_chars(cs.as_slice(), ',');
    let ghost pv = views(pieces@);
    let mut r: Vec<String> = Vec::new();
    let mut i: usize = 0;
    assert(pv.take(0) =~= Seq::<Seq<char>>::empty());
    while i < pieces.len()
        invariant
            i <= pieces.len(),
            pv == views(pieces@),
            string_views(r@) == clean_topics(pv.take(i as int)),
        decreases pieces.len() - i,
    {
        assert(pv.take(i + 1).drop_last() =~= pv.take(i as int));
        assert(pv.take(i + 1).last() == pieces@[i as int]@);
        let trimmed = trim_chars(pieces[i].as_slice());
        let mut cleaned = trimmed;
        if cleaned.len() > 0 && cleaned[0] == '/' {
            cleaned.remove(0);
            assert(cleaned@ =~= trimmed@.drop_first());
        }
        let ghost before = string_views(r@);
        if cleaned.len() > 0 {
            r.push(string_of(cleaned.as_slice()));
            assert(string_views(r@) =~= before.push(cleaned@));
        }
        i = i + 1;
    }
    assert(pv.take(pieces.len() as int) =~= pv);
    r
}

/// Whether every topic pattern is a key expression.
pub fn all_valid_keyexprs(ts: &Vec<String>) -> (r: bool)
    ensures
        r == all_keyexprs(string_views(ts@)),
{
    let mut i: usize = 0;
    while i < ts.len()
        invariant
            i <= ts.len(),
            forall|j: int| 0 <= j < i ==> is_valid_keyexpr(#[trigger] string_views(ts@)[j]),
        decreases ts.len() - i,
    {
        let ok = keyexpr_is_valid(ts[i].as_str());
        assert(string_views(ts@)[i as int] == ts@[i as int]@);
        if !ok {
            return false;
        }
        i = i + 1;
    }
    true
}

/// The name of the file a recording goes to, given the text `ts` of its
/// starting time.
pub open spec fn record_filename_spec(ts: Seq<char>) -> Seq<char> {
    seq!['r', 'o', 's', 'b', 'a', 'g', '2', '_'] + ts + seq!['.', 'm', 'c', 'a', 'p']
}

/// `rosbag2_<ts>.mcap`.
pub fn record_filename(ts: &str) -> (r: String)
    ensures
        r@ == record_filename_spec(ts@),
{
    let prefix = "rosbag2_";
    let suffix = ".mcap";
    proof {
        reveal_strlit("rosbag2_");
        reveal_strlit(".mcap");
    }
    assert(prefix@ =~= seq!['r', 'o', 's', 'b', 'a', 'g', '2', '_']);
    assert(suffix@ =~= seq!['.', 'm', 'c', 'a', 'p']);
    let with_ts = concat_strs(prefix, ts);
    concat_strs(with_ts.as_str(), suffix)
}

/// The path of the file `filename` in the directory `path`.
pub open spec fn record_path_spec(path: Seq<char>, filename: Seq<char>) -> Seq<char> {
    path + seq!['/'] + filename
}

/// `<path>/<filename>`.
pub fn record_path(path: &str, filename: &str) -> (r: String)
    ensures
        r@ == record_path_spec(path@, filename@),
{
    let with_slash = concat_strs(path, "/");
    proof { reveal_strlit("/"); }
    assert("/"@ =~= seq!['/']);
    concat_strs(with_slash.as_str(), filename)
}

/// A local date and time, as a calendar and a wall clock show it.
#[derive(Debug, Clone, Copy, PartialEq, Eq, Structural)]
pub struct LocalTime {
    pub year: i32,
    /// 1 to 12.
    pub month: u32,
    /// 1 to 31.
    pub day: u32,
    /// 0 to 23.
    pub hour: u32,
    /// 0 to 59.
    pub minute: u32,
    /// 0 to 59.
    pub second: u32,
}

impl LocalTime {
    /// Whether every field lies in its range.
    pub open spec fn is_valid(&self) -> bool {
        &&& 1 <= self.month <= 12
        &&& 1 <= self.day <= 31
        &&& self.hour < 24
        &&& self.minute < 60
        &&& self.second < 60
    }
}

/// The year written with at least four digits, after a sign when it is not
/// between 0 and 9999 (as chrono's `%Y` writes it).
pub open spec fn year_text(y: int) -> Seq<char> {
    if y < 0 {
        seq!['-'] + zero_padded((-y) as nat, 4)
    } else if y > 9999 {
        seq!['+'] + zero_padded(y as nat, 4)
    } else {
        zero_padded(y as nat, 4)
    }
}

/// `YYYY_MM_DD-HH_MM_SS`: the time a recording starts, as its file name
/// carries it.
pub open spec fn timestamp_spec(t: LocalTime) -> Seq<char> {
    year_text(t.year as int) + seq!['_'] + zero_padded(t.month as nat, 2) + seq!['_'] + zero_padded(t.day as nat, 2)
        + seq!['-'] + zero_padded(t.hour as nat, 2) + seq!['_'] + zero_padded(t.minute as nat, 2) + seq!['_']
        + zero_padded(t.second as nat, 2)
}

fn push_sep(out: &mut Vec<char>, c: char, n: u32)
    ensures
        final(out)@ == old(out)@ + seq![c] + zero_padded(n as nat, 2),
{
    out.push(c);
    push_zero_padded(out, n, 2);
    assert(final(out)@ =~= old(out)@ + seq![c] + zero_padded(n as nat, 2));
}

/// The time `t` as `YYYY_MM_DD-HH_MM_SS`.
pub fn timestamp_text(t: &LocalTime) -> (r: String)
    ensures
        r@ == timestamp_spec(*t),
{
    let mut cs: Vec<char> = Vec::new();
    if t.year < 0 {
        cs.push('-');
        let a: u32 = (-(t.year as i64)) as u32;
        push_zero_padded(&mut cs, a, 4);
    } else {
        if t.year > 9999 {
            cs.push('+');
        }
        push_zero_padded(&mut cs, t.year as u32, 4);
    }
    assert(cs@ =~= year_text(t.year as int));
    push_sep(&mut cs, '_', t.month);
    push_sep(&mut cs, '_', t.day);
    push_sep(&mut cs, '-', t.hour);
    push_sep(&mut cs, '_', t.minute);
    push_sep(&mut cs, '_', t.second);
    assert(cs@ =~= timestamp_spec(*t));
    string_of(cs.as_slice())
}

/// The last second, counted from the Unix epoch, of the year 9999.
pub const LAST_SECOND: u128 = 253_402_300_799;

/// The local date and time `secs` seconds and `nanos` nanoseconds after the
/// Unix epoch: `chrono::DateTime::from_timestamp`, then
/// `with_timezone(&chrono::Local)` and its `year`, `month`, `day`, `hour`,
/// `minute` and `second`; `None` where `from_timestamp` gives `None`, which
/// it does not for a time between the epoch and the end of the year 9999
/// with fewer than 10^9 nanoseconds. The fields rest on the machine's time
/// zone, so only their ranges, as chrono documents them, are claimed. chrono
/// panics on a time zone whose offset is a day or more, a property of the
/// machine that no condition on the arguments can rule out.
#[verifier::external_body]
fn local_date_time(secs: i64, nanos: u32) -> (r: Option<LocalTime>)
    ensures
        r matches Some(t) ==> t.is_valid(),
        0 <= secs <= LAST_SECOND && nanos < 1_000_000_000 ==> r is Some,
{
    let t = chrono::DateTime::from_timestamp(secs, nanos)?.with_timezone(&chrono::Local);
    Some(LocalTime {
        year: chrono::Datelike::year(&t),
        month: chrono::Datelike::month(&t),
        day: chrono::Datelike::day(&t),
        hour: chrono::Timelike::hour(&t),
        minute: chrono::Timelike::minute(&t),
        second: chrono::Timelike::second(&t),
    })
}

/// The local date and time `nanos` nanoseconds after the Unix epoch;
/// `None` only beyond the dates chrono represents (far after the year
/// 9999).
pub fn local_time_at(nanos: u128) -> (r: Option<LocalTime>)
    ensures
        r matches Some(t) ==> t.is_valid(),
        nanos / 1_000_000_000 <= LAST_SECOND ==> r is Some,
{
    let secs: u128 = nanos / 1_000_000_000;
    let sub: u128 = nanos % 1_000_000_000;
    if secs > 0x7fff_ffff_ffff_ffff {
        None
    } else {
        local_date_time(secs as i64, sub as u32)
    }
}

/// The current local date and time (see [`local_time_at`]); `None` when
/// the clock is before the Unix epoch or beyond the dates chrono
/// represents.
pub fn current_local_time() -> (r: Option<LocalTime>)
    ensures
        r matches Some(t) ==> t.is_valid(),
{
    match nanos_since_unix_epoch() {
        Err(_) => None,
        Ok(n) => local_time_at(n),
    }
}

/// Why a command could not be carried out.
#[derive(Debug, Clone, Copy, PartialEq, Eq)]
pub enum RecorderError {
    /// A recording is already running.
    AlreadyRunning,
    /// The domain is not a `u32`.
    InvalidDomain(IntErrorKind),
    /// A topic pattern is not a key expression.
    InvalidTopic,
    /// The local time cannot be read (the clock is before the Unix epoch,
    /// or beyond the dates chrono represents), so the file cannot be named.
    ClockUnavailable,
    /// No recording is running.
    NotRunning,
}

/// What a started recording is to do.
#[derive(Debug)]
pub struct RecordPlan {
    /// The topic patterns to record (key expressions).
    pub topics: Vec<String>,
    pub domain: u32,
    pub filename: String,
    /// The directory of the file.
    pub path: String,
}

/// The abstract value of a [`RecordPlan`].
pub struct PlanView {
    pub topics: Seq<Seq<char>>,
    pub domain: u32,
    pub filename: Seq<char>,
    pub path: Seq<char>,
}

impl View for RecordPlan {
    type V = PlanView;

    open spec fn view(&self) -> PlanView {
        PlanView { topics: string_views(self.topics@), domain: self.domain, filename: self.filename@, path: self.path@ }
    }
}

/// The abstract state of a [`RecorderHandlers`].
pub struct RecorderView {
    /// The directory recordings go to.
    pub path: Seq<char>,
    /// The file of the running recording, if one runs.
    pub recording: Option<Seq<char>>,
}

/// The recorder's state.
pub struct RecorderHandlers {
    path: String,
    recording: Option<String>,
}

impl View for RecorderHandlers {
    type V = RecorderView;

    closed spec fn view(&self) -> RecorderView {
        RecorderView {
            path: self.path@,
            recording: match self.recording {
                Some(f) => Some(f@),
                None => None,
            },
        }
    }
}

/// `start`: refused while a recording runs, then when the domain is not a
/// `u32`, then when a topic pattern is not a key expression, then when the
/// local time `now` could not be read; otherwise the recording of the listed
/// topics in that domain starts, into the file named after `now`.
pub open spec fn start_spec(v: RecorderView, topic: Seq<char>, domain: Seq<char>, now: Option<LocalTime>) -> (RecorderView, Result<PlanView, RecorderError>) {
    if v.recording is Some {
        (v, Err(RecorderError::AlreadyRunning))
    } else {
        match parse_u32_spec(domain) {
            Err(e) => (v, Err(RecorderError::InvalidDomain(e))),
            Ok(d) => if !all_keyexprs(topic_list(topic)) {
                (v, Err(RecorderError::InvalidTopic))
            } else {
                match now {
                    None => (v, Err(RecorderError::ClockUnavailable)),
                    Some(t) => (
                        RecorderView { path: v.path, recording: Some(record_filename_spec(timestamp_spec(t))) },
                        Ok(PlanView {
                            topics: topic_list(topic),
                            domain: d as u32,
                            filename: record_filename_spec(timestamp_spec(t)),
                            path: v.path,
                        }),
                    ),
                }
            },
        }
    }
}

/// `stop`: the running recording ends and its file is reported.
pub open spec fn stop_spec(v: RecorderView) -> (RecorderView, Result<Seq<char>, RecorderError>) {
    match v.recording {
        Some(f) => (RecorderView { path: v.path, recording: None }, Ok(f)),
        None => (v, Err(RecorderError::NotRunning)),
    }
}

/// `status`: `recording` while a recording runs and its task has not
/// finished; otherwise `stopped`, and a finished recording is forgotten.
pub open spec fn status_spec(v: RecorderView, task_finished: bool) -> (RecorderView, Seq<char>) {
    if v.recording is Some && !task_finished {
        (v, "recording"@)
    } else {
        (RecorderView { path: v.path, recording: None }, "stopped"@)
    }
}

impl RecorderHandlers {
    /// A recorder that is not recording and writes into `path`.
    pub fn new(path: String) -> (r: Self)
        ensures
            r@ == (RecorderView { path: path@, recording: None }),
    {
        RecorderHandlers { path, recording: None }
    }

    /// Starts a recording whose file is named after the local time `now`
    /// (`None`: the time could not be read).
    pub fn start_at(&mut self, topic: &str, domain: &str, now: Option<LocalTime>) -> (r: Result<RecordPlan, RecorderError>)
        ensures
            final(self)@ == start_spec(old(self)@, topic@, domain@, now).0,
            r matches Ok(p) ==> start_spec(old(self)@, topic@, domain@, now).1 == Ok::<PlanView, RecorderError>(p@),
            r matches Err(e) ==> start_spec(old(self)@, topic@, domain@, now).1 == Err::<PlanView, RecorderError>(e),
    {
        if self.recording.is_some() {
            return Err(RecorderError::AlreadyRunning);
        }
        let dcs = chars_of(domain);
        let d = match parse_u32(dcs.as_slice()) {
            Err(e) => return Err(RecorderError::InvalidDomain(e)),
            Ok(d) => d,
        };
        let topics = parse_topic_list(topic);
        if !all_valid_keyexprs(&topics) {
            return Err(RecorderError::InvalidTopic);
        }
        let t = match now {
            None => return Err(RecorderError::ClockUnavailable),
            Some(t) => t,
        };
        let ts = timestamp_text(&t);
        let filename = record_filename(ts.as_str());
        self.recording = Some(filename.clone());
        Ok(RecordPlan { topics, domain: d, filename, path: self.path.clone() })
    }

    /// Starts a recording whose file is named after the current local time.
    pub fn start(&mut self, topic: &str, domain: &str) -> (r: Result<RecordPlan, RecorderError>)
        ensures
            exists|now: Option<LocalTime>|
                (now matches Some(t) ==> t.is_valid()) && #[trigger] start_spec(old(self)@, topic@, domain@, now).0
                    == final(self)@ && match r {
                    Ok(p) => start_spec(old(self)@, topic@, domain@, now).1 == Ok::<PlanView, RecorderError>(p@),
                    Err(e) => start_spec(old(self)@, topic@, domain@, now).1 == Err::<PlanView, RecorderError>(e),
                },
    {
        let now = current_local_time();
        self.start_at(topic, domain, now)
    }

    /// Reports whether the recording runs; `task_finished` says whether its
    /// task has ended on its own.
    pub fn status(&mut self, task_finished: bool) -> (r: String)
        ensures
            final(self)@ == status_spec(old(self)@, task_finished).0,
            r@ == status_spec(old(self)@, task_finished).1,
    {
        if self.recording.is_some() && !task_finished {
            return "recording".to_string();
        }
        self.recording = None;
        "stopped".to_string()
    }

    /// Stops the running recording and gives the name of its file.
    pub fn stop(&mut self) -> (r: Result<String, RecorderError>)
        ensures
            final(self)@ == stop_spec(old(self)@).0,
            r matches Ok(f) ==> stop_spec(old(self)@).1 == Ok::<Seq<char>, RecorderError>(f@),
            r matches Err(e) ==> stop_spec(old(self)@).1 == Err::<Seq<char>, RecorderError>(e),
    {
        match self.recording.take() {
            Some(f) => Ok(f),
            None => Err(RecorderError::NotRunning),
        }
    }
}


/// The answer to `start`.
#[derive(Debug)]
pub struct Start {
    /// `success` or `failure`.
    pub result: String,
}

/// The answer to `stop`.
#[derive(Debug)]
pub struct Stop {
    /// `success` or `failure`.
    pub result: String,
    /// The recorded file, empty on failure.
    pub filename: String,
}

/// The answer to `status`.
#[derive(Debug)]
pub struct Status {
    /// `recording` or `stopped`.
    pub status: String,
}

/// The topic list of a `start` query: all topics (`**`) when not given.
pub open spec fn topic_param(topic: Option<&str>) -> Seq<char> {
    match topic {
        Some(t) => t@,
        None => seq!['*', '*'],
    }
}

/// The domain of a `start` query: `0` when not given.
pub open spec fn domain_param(domain: Option<&str>) -> Seq<char> {
    match domain {
        Some(d) => d@,
        None => seq!['0'],
    }
}

impl RecorderHandlers {
    /// Answers a `start` query with the given `topic` and `domain`
    /// parameters: `success` with the plan of the recording that started,
    /// `failure` when `start` refused.
    pub fn start_command(&mut self, topic: Option<&str>, domain: Option<&str>) -> (r: (Start, Option<RecordPlan>))
        ensures
            exists|now: Option<LocalTime>|
                (now matches Some(t) ==> t.is_valid()) && #[trigger] start_spec(
                    old(self)@,
                    topic_param(topic),
                    domain_param(domain),
                    now,
                ).0 == final(self)@ && match r.1 {
                    Some(p) => start_spec(old(self)@, topic_param(topic), domain_param(domain), now).1 == Ok::<
                        PlanView,
                        RecorderError,
                    >(p@) && r.0.result@ == "success"@,
                    None => start_spec(old(self)@, topic_param(topic), domain_param(domain), now).1 is Err
                        && r.0.result@ == "failure"@,
                },
    {
        let all = "**";
        let zero = "0";
        proof {
            reveal_strlit("**");
            reveal_strlit("0");
        }
        assert(all@ =~= seq!['*', '*']);
        assert(zero@ =~= seq!['0']);
        let t = match topic {
            Some(t) => t,
            None => all,
        };
        let d = match domain {
            Some(d) => d,
            None => zero,
        };
        let now = current_local_time();
        let ghost before = self@;
        let r = self.start_at(t, d, now);
        assert(start_spec(before, topic_param(topic), domain_param(domain), now).0 == self@);
        match r {
            Ok(plan) => (Start { result: "success".to_string() }, Some(plan)),
            Err(_) => (Start { result: "failure".to_string() }, None),
        }
    }

    /// Answers a `stop` query: the recorded file on success.
    pub fn stop_command(&mut self) -> (r: Stop)
        ensures
            final(self)@ == stop_spec(old(self)@).0,
            match stop_spec(old(self)@).1 {
                Ok(f) => r.result@ == "success"@ && r.filename@ == f,
                Err(_) => r.result@ == "failure"@ && r.filename@ == Seq::<char>::empty(),
            },
    {
        match self.stop() {
            Ok(filename) => Stop { result: "success".to_string(), filename },
            Err(_) => Stop { result: "failure".to_string(), filename: String::new() },
        }
    }

    /// Answers a `status` query.
    pub fn status_command(&mut self, task_finished: bool) -> (r: Status)
        ensures
            final(self)@ == status_spec(old(self)@, task_finished).0,
            r.status@ == status_spec(old(self)@, task_finished).1,
    {
        Status { status: self.status(task_finished) }
    }
}

/// Stopping a recording that just started reports the file it started and
/// leaves the recorder idle in the same directory.
pub proof fn law_stop_reports_started_file(v: RecorderView, topic: Seq<char>, domain: Seq<char>, now: LocalTime)
    requires
        start_spec(v, topic, domain, Some(now)).1 is Ok,
    ensures
        stop_spec(start_spec(v, topic, domain, Some(now)).0) == (
        RecorderView { path: v.path, recording: None },
        Ok::<Seq<char>, RecorderError>(record_filename_spec(timestamp_spec(now))),
        ),
        start_spec(v, topic, domain, Some(now)).1.unwrap().filename == record_filename_spec(timestamp_spec(now)),
{
}

/// A started recording records in the domain that the whole domain text
/// denotes, the topics of the whole topic list, into the file named after
/// the given time; and `start` succeeds whenever nothing is recording, the
/// domain is a `u32`, every pattern is a key expression and the time is
/// known.
pub proof fn law_start_records_what_was_asked(v: RecorderView, topic: Seq<char>, domain: Seq<char>, now: Option<LocalTime>)
    ensures
        start_spec(v, topic, domain, now).1 matches Ok(p) ==> {
            &&& v.recording is None
            &&& parse_u32_spec(domain) == Ok::<int, IntErrorKind>(p.domain as int)
            &&& p.topics == topic_list(topic)
            &&& now is Some && p.filename == record_filename_spec(timestamp_spec(now->0))
            &&& p.path == v.path
        },
        (v.recording is None && parse_u32_spec(domain) is Ok && all_keyexprs(topic_list(topic)) && now is Some)
            ==> start_spec(v, topic, domain, now).1 is Ok,
{
    crate::numparse::law_parse_u32_in_range(domain);
}

/// Asking for the domain written as the decimal text of `n` records in the
/// domain `n`, for every `u32`.
pub proof fn law_start_domain_round_trip(v: RecorderView, topic: Seq<char>, n: u32, now: Option<LocalTime>)
    ensures
        start_spec(v, topic, crate::numparse::decimal(n as nat), now).1 matches Ok(p) ==> p.domain == n,
{
    crate::numparse::law_parse_u32_of_decimal(n);
}

/// One recording at a time: while one runs, `start` is refused and changes
/// nothing.
pub proof fn law_start_refused_while_recording(
    v: RecorderView,
    topic: Seq<char>,
    domain: Seq<char>,
    now: Option<LocalTime>,
    topic2: Seq<char>,
    domain2: Seq<char>,
    now2: Option<LocalTime>,
)
    requires
        start_spec(v, topic, domain, now).1 is Ok,
    ensures
        ({
            let w = start_spec(v, topic, domain, now).0;
            start_spec(w, topic2, domain2, now2) == (w, Err::<PlanView, RecorderError>(RecorderError::AlreadyRunning))
        }),
{
}

/// `stop` without a running recording is refused and changes nothing.
pub proof fn law_stop_refused_when_idle(v: RecorderView)
    requires
        v.recording is None,
    ensures
        stop_spec(v) == (v, Err::<Seq<char>, RecorderError>(RecorderError::NotRunning)),
{
}

/// A recording that started reports `recording` until its task finishes;
/// once it has finished, `status` reports `stopped` and `stop` is refused.
pub proof fn law_status_follows_task(v: RecorderView, topic: Seq<char>, domain: Seq<char>, now: Option<LocalTime>)
    requires
        start_spec(v, topic, domain, now).1 is Ok,
    ensures
        ({
            let w = start_spec(v, topic, domain, now).0;
            &&& status_spec(w, false) == (w, "recording"@)
            &&& status_spec(w, true).1 == "stopped"@
            &&& stop_spec(status_spec(w, true).0).1 == Err::<Seq<char>, RecorderError>(RecorderError::NotRunning)
        }),
{
}

/// No command changes the directory recordings go to.
pub proof fn law_path_kept(v: RecorderView, topic: Seq<char>, domain: Seq<char>, now: Option<LocalTime>, task_finished: bool)
    ensures
        start_spec(v, topic, domain, now).0.path == v.path,
        stop_spec(v).0.path == v.path,
        status_spec(v, task_finished).0.path == v.path,
{
}

} // verus!
