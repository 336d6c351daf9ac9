//! The QoS profile of a ROS 2 topic, read from the `qos` chunk that
//! `rmw_zenoh` puts in its liveliness tokens.
//!
//! The chunk is a `:`-separated list of fields; fields 2 to 5 hold
//! `,`-separated values:
//! `reliability:durability:history,depth:deadline_s,deadline_ns:lifespan_s,lifespan_ns:liveliness,lease_s,lease_ns`.
use vstd::prelude::*;
use crate::duration::{
    default_duration, default_duration_spec, duration_from_parts, duration_of_nanos,
    nanos_per_sec, seconds_in_range, total_in_range, RosDuration,
};
use crate::numparse::{
    decimal, is_digit, law_decimal_digits, law_parse_u32_of_decimal, parse_i32, parse_i32_spec, parse_i64, parse_i64_spec,
    parse_u32, parse_u32_spec, IntErrorKind,
};
use crate::text::{chars_of, lemma_split_on_nonempty, split_chars, split_on, views};

verus! {

broadcast use vstd::string::group_string_axioms;

/// A ROS 2 QoS profile, as rosbag2 stores it.
#[derive(Debug)]
pub struct QoSProfile {
    pub history: String,
    pub depth: Option<u32>,
    pub reliability: String,
    pub durability: String,
    pub deadline: RosDuration,
    pub lifespan: RosDuration,
    pub liveliness: String,
    pub liveliness_lease_duration: RosDuration,
    pub avoid_ros_namespace_conventions: bool,
}

/// The abstract value of a [`QoSProfile`].
pub struct QosView {
    pub history: Seq<char>,
    pub depth: Option<u32>,
    pub reliability: Seq<char>,
    pub durability: Seq<char>,
    pub deadline: RosDuration,
    pub lifespan: RosDuration,
    pub liveliness: Seq<char>,
    pub liveliness_lease_duration: RosDuration,
    pub avoid_ros_namespace_conventions: bool,
}

impl View for QoSProfile {
    type V = QosView;

    open spec fn view(&self) -> QosView {
        QosView {
            history: self.history@,
            depth: self.depth,
            reliability: self.reliability@,
            durability: self.durability@,
            deadline: self.deadline,
            lifespan: self.lifespan,
            liveliness: self.liveliness@,
            liveliness_lease_duration: self.liveliness_lease_duration,
            avoid_ros_namespace_conventions: self.avoid_ros_namespace_conventions,
        }
    }
}

/// The profile that the fields of a QoS chunk start from.
pub open spec fn default_qos_view() -> QosView {
    QosView {
        history: "keep_last"@,
        depth: Some(10u32),
        reliability: "reliable"@,
        durability: "volatile"@,
        deadline: default_duration_spec(),
        lifespan: default_duration_spec(),
        liveliness: "automatic"@,
        liveliness_lease_duration: default_duration_spec(),
        avoid_ros_namespace_conventions: false,
    }
}

impl Default for QoSProfile {
    fn default() -> (p: Self)
        ensures
            p@ == default_qos_view(),
    {
        QoSProfile {
            history: "keep_last".to_string(),
            depth: Some(10),
            reliability: "reliable".to_string(),
            durability: "volatile".to_string(),
            deadline: default_duration(),
            lifespan: default_duration(),
            liveliness: "automatic".to_string(),
            liveliness_lease_duration: default_duration(),
            avoid_ros_namespace_conventions: false,
        }
    }
}

/// Why a QoS chunk gives no profile.
#[derive(Debug, Clone, Copy, PartialEq, Eq)]
pub enum QosFailure {
    /// A number in the chunk is not a valid integer of its type.
    Invalid(IntErrorKind),
    /// A field that is read is missing, or a duration is out of the range
    /// of `chrono::TimeDelta`.
    Malformed,
}

pub open spec fn is_char(p: Seq<char>, c: char) -> bool {
    p == seq![c]
}

/// The duration given by `sub[i]` seconds and `sub[i + 1]` nanoseconds.
/// The seconds are read and range-checked before the nanoseconds field is
/// looked for.
pub open spec fn duration_spec(sub: Seq<Seq<char>>, i: int) -> Result<RosDuration, QosFailure> {
    match parse_i64_spec(sub[i]) {
        Err(e) => Err(QosFailure::Invalid(e)),
        Ok(secs) => if !seconds_in_range(secs) {
            Err(QosFailure::Malformed)
        } else if sub.len() <= i + 1 {
            Err(QosFailure::Malformed)
        } else {
            match parse_i32_spec(sub[i + 1]) {
                Err(e) => Err(QosFailure::Invalid(e)),
                Ok(nanos) => if !total_in_range(secs * nanos_per_sec() + nanos) {
                    Err(QosFailure::Malformed)
                } else {
                    Ok(duration_of_nanos(secs * nanos_per_sec() + nanos))
                },
            }
        },
    }
}

/// The `history,depth` field: `2` keeps all samples (the depth stays at its
/// default of 10); anything else keeps the last `depth` samples.
pub open spec fn history_spec(field: Seq<char>) -> Result<(Seq<char>, Option<u32>), QosFailure> {
    let sub = split_on(field, ',');
    if is_char(sub[0], '2') {
        Ok(("keep_all"@, Some(10u32)))
    } else if sub.len() < 2 {
        Err(QosFailure::Malformed)
    } else {
        match parse_u32_spec(sub[1]) {
            Err(e) => Err(QosFailure::Invalid(e)),
            Ok(d) => Ok(("keep_last"@, Some(d as u32))),
        }
    }
}

/// A `seconds,nanoseconds` field: unset (the default) when either part is
/// empty; the seconds part is looked at first.
pub open spec fn optional_duration_spec(field: Seq<char>) -> Result<RosDuration, QosFailure> {
    let sub = split_on(field, ',');
    if sub[0].len() == 0 {
        Ok(default_duration_spec())
    } else if sub.len() < 2 {
        Err(QosFailure::Malformed)
    } else if sub[1].len() == 0 {
        Ok(default_duration_spec())
    } else {
        duration_spec(sub, 0)
    }
}

/// The `kind,lease_s,lease_ns` field: `2` is manual by topic, with a lease
/// duration when the seconds part is not empty; anything else is automatic.
pub open spec fn liveliness_spec(field: Seq<char>) -> Result<(Seq<char>, RosDuration), QosFailure> {
    let sub = split_on(field, ',');
    if is_char(sub[0], '2') {
        if sub.len() < 2 {
            Err(QosFailure::Malformed)
        } else if sub[1].len() == 0 {
            Ok(("manual_by_topic"@, default_duration_spec()))
        } else {
            match duration_spec(sub, 1) {
                Err(e) => Err(e),
                Ok(d) => Ok(("manual_by_topic"@, d)),
            }
        }
    } else {
        Ok(("automatic"@, default_duration_spec()))
    }
}

/// The profile described by the QoS chunk `s`, or why there is none. The
/// fields are read from left to right and the first failure decides.
pub open spec fn zenoh_qos_spec(s: Seq<char>) -> Result<QosView, QosFailure> {
    let parts = split_on(s, ':');
    let reliability = if is_char(parts[0], '2') { "best_effort"@ } else { "reliable"@ };
    if parts.len() < 3 {
        Err(QosFailure::Malformed)
    } else {
        let durability = if is_char(parts[1], '1') { "transient_local"@ } else { "volatile"@ };
        match history_spec(parts[2]) {
            Err(e) => Err(e),
            Ok((history, depth)) => if parts.len() < 4 {
                Err(QosFailure::Malformed)
            } else {
                match optional_duration_spec(parts[3]) {
                    Err(e) => Err(e),
                    Ok(deadline) => if parts.len() < 5 {
                        Err(QosFailure::Malformed)
                    } else {
                        match optional_duration_spec(parts[4]) {
                            Err(e) => Err(e),
                            Ok(lifespan) => if parts.len() < 6 {
                                Err(QosFailure::Malformed)
                            } else {
                                match liveliness_spec(parts[5]) {
                                    Err(e) => Err(e),
                                    Ok((liveliness, lease)) => Ok(QosView {
                                        history,
                                        depth,
                                        reliability,
                                        durability,
                                        deadline,
                                        lifespan,
                                        liveliness,
                                        liveliness_lease_duration: lease,
                                        avoid_ros_namespace_conventions: false,
                                    }),
                                }
                            },
                        }
                    },
                }
            },
        }
    }
}

/// The QoS chunks that `parse_zenoh_qos` accepts: every field it reads is
/// there and every duration fits a `chrono::TimeDelta`.
pub open spec fn zenoh_qos_well_formed(s: Seq<char>) -> bool {
    zenoh_qos_spec(s) != Err::<QosView, QosFailure>(QosFailure::Malformed)
}

/// A `history,depth` field that does not keep all samples keeps the last
/// `depth` samples, where `depth` is exactly the number the second part
/// denotes; a depth that is not a `u32` refuses the field.
pub proof fn law_keep_last_depth(field: Seq<char>)
    ensures
        ({
            let sub = split_on(field, ',');
            &&& (sub[0] != seq!['2'] && sub.len() >= 2 && parse_u32_spec(sub[1]) is Ok) ==> history_spec(field)
                == Ok::<(Seq<char>, Option<u32>), QosFailure>(("keep_last"@, Some(parse_u32_spec(sub[1])->Ok_0 as u32)))
            &&& (sub[0] != seq!['2'] && sub.len() >= 2 && parse_u32_spec(sub[1]) is Err) ==> history_spec(field)
                == Err::<(Seq<char>, Option<u32>), QosFailure>(QosFailure::Invalid(parse_u32_spec(sub[1])->Err_0))
            &&& sub[0] == seq!['2'] ==> history_spec(field) == Ok::<(Seq<char>, Option<u32>), QosFailure>(
                ("keep_all"@, Some(10u32)),
            )
        }),
{
}

/// Writing a depth `n` into a keep-last history field and reading the field
/// gives `n` back, for every `u32`.
pub proof fn law_depth_round_trip(n: u32)
    ensures
        history_spec(seq!['1', ','] + decimal(n as nat)) == Ok::<(Seq<char>, Option<u32>), QosFailure>(
            ("keep_last"@, Some(n)),
        ),
{
    let field = seq!['1', ','] + decimal(n as nat);
    law_decimal_digits(n as nat);
    lemma_split_one_comma(decimal(n as nat));
    assert(seq!['1'] != seq!['2']) by {
        assert(seq!['1'][0] != seq!['2'][0]);
    }
    law_parse_u32_of_decimal(n);
    law_keep_last_depth(field);
}

proof fn lemma_split_one_comma(d: Seq<char>)
    requires
        forall|i: int| 0 <= i < d.len() ==> #[trigger] is_digit(d[i]),
    ensures
        split_on(seq!['1', ','] + d, ',') == seq![seq!['1'], d],
    decreases d.len(),
{
    let f = seq!['1', ','] + d;
    if d.len() == 0 {
        let one = seq!['1'];
        assert(one.drop_last() =~= Seq::<char>::empty());
        assert(split_on(one.drop_last(), ',') == seq![Seq::<char>::empty()]);
        assert(one.last() != ',');
        assert(split_on(one, ',') == seq![Seq::<char>::empty()].update(0, Seq::<char>::empty().push('1')));
        assert(split_on(one, ',') =~= seq![one]);
        assert(f =~= seq!['1', ',']);
        assert(f.drop_last() =~= one);
        assert(f.last() == ',');
        assert(split_on(f, ',') == split_on(one, ',').push(Seq::<char>::empty()));
        assert(d =~= Seq::<char>::empty());
        assert(split_on(f, ',') =~= seq![one, d]);
    } else {
        lemma_split_one_comma(d.drop_last());
        assert(f.drop_last() =~= seq!['1', ','] + d.drop_last());
        assert(f.last() == d.last());
        assert(is_digit(d[d.len() - 1]));
        assert(d.last() != ',');
        let init = split_on(f.drop_last(), ',');
        assert(init == seq![seq!['1'], d.drop_last()]);
        assert(split_on(f, ',') == init.update(init.len() - 1, init.last().push(f.last())));
        assert(d.drop_last().push(d.last()) =~= d);
        assert(split_on(f, ',') =~= seq![seq!['1'], d]);
    }
}

/// The profile of a QoS chunk keeps the last `depth` samples, `depth` being
/// the number written in its history field, unless that field asks to keep
/// all of them.
pub proof fn law_profile_depth(s: Seq<char>)
    requires
        zenoh_qos_spec(s) is Ok,
    ensures
        ({
            let h = split_on(split_on(s, ':')[2], ',');
            let q = zenoh_qos_spec(s)->Ok_0;
            h[0] != seq!['2'] ==> h.len() >= 2 && parse_u32_spec(h[1]) is Ok && q.history == "keep_last"@
                && q.depth == Some(parse_u32_spec(h[1])->Ok_0 as u32)
        }),
{
    law_keep_last_depth(split_on(s, ':')[2]);
}

fn is_single(p: &Vec<char>, c: char) -> (r: bool)
    ensures
        r == is_char(p@, c),
{
    let r = p.len() == 1 && p[0] == c;
    proof {
        if p.len() == 1 {
            assert(r ==> p@ =~= seq![c]);
        }
    }
    r
}

fn duration_exec(sub: &Vec<Vec<char>>, i: usize) -> (r: Result<RosDuration, QosFailure>)
    requires
        i < sub.len(),
    ensures
        r == duration_spec(views(sub@), i as int),
{
    let ghost v = views(sub@);
    assert(v[i as int] == sub@[i as int]@);
    let secs = match parse_i64(sub[i].as_slice()) {
        Err(e) => return Err(QosFailure::Invalid(e)),
        Ok(s) => s,
    };
    if !(-9223372036854775 <= secs && secs <= 9223372036854775) {
        return Err(QosFailure::Malformed);
    }
    if sub.len() <= i + 1 {
        return Err(QosFailure::Malformed);
    }
    assert(v[i + 1] == sub@[i + 1]@);
    let nanos = match parse_i32(sub[i + 1].as_slice()) {
        Err(e) => return Err(QosFailure::Invalid(e)),
        Ok(n) => n,
    };
    let total: i128 = secs as i128 * 1_000_000_000 + nanos as i128;
    if !(-9223372036854775807000000 <= total && total <= 9223372036854775807000000) {
        return Err(QosFailure::Malformed);
    }
    Ok(duration_from_parts(secs, nanos as i64))
}

fn history_exec(field: &Vec<char>) -> (r: Result<(String, Option<u32>), QosFailure>)
    ensures
        r matches Ok((h, d)) ==> history_spec(field@) == Ok::<(Seq<char>, Option<u32>), QosFailure>((h@, d)),
        r matches Err(e) ==> history_spec(field@) == Err::<(Seq<char>, Option<u32>), QosFailure>(e),
{
    let sub = split_chars(field.as_slice(), ',');
    proof { lemma_split_on_nonempty(field@, ','); }
    assert(views(sub@)[0] == sub@[0]@);
    if is_single(&sub[0], '2') {
        Ok(("keep_all".to_string(), Some(10)))
    } else if sub.len() < 2 {
        Err(QosFailure::Malformed)
    } else {
        assert(views(sub@)[1] == sub@[1]@);
        match parse_u32(sub[1].as_slice()) {
            Err(e) => Err(QosFailure::Invalid(e)),
            Ok(d) => Ok(("keep_last".to_string(), Some(d))),
        }
    }
}

fn optional_duration_exec(field: &Vec<char>) -> (r: Result<RosDuration, QosFailure>)
    ensures
        r == optional_duration_spec(field@),
{
    let sub = split_chars(field.as_slice(), ',');
    proof { lemma_split_on_nonempty(field@, ','); }
    assert(views(sub@)[0] == sub@[0]@);
    if sub[0].len() == 0 {
        Ok(default_duration())
    } else if sub.len() < 2 {
        Err(QosFailure::Malformed)
    } else {
        assert(views(sub@)[1] == sub@[1]@);
        if sub[1].len() == 0 {
            Ok(default_duration())
        } else {
            duration_exec(&sub, 0)
        }
    }
}

fn liveliness_exec(field: &Vec<char>) -> (r: Result<(String, RosDuration), QosFailure>)
    ensures
        r matches Ok((k, d)) ==> liveliness_spec(field@) == Ok::<(Seq<char>, RosDuration), QosFailure>((k@, d)),
        r matches Err(e) ==> liveliness_spec(field@) == Err::<(Seq<char>, RosDuration), QosFailure>(e),
{
    let sub = split_chars(field.as_slice(), ',');
    proof { lemma_split_on_nonempty(field@, ','); }
    assert(views(sub@)[0] == sub@[0]@);
    if is_single(&sub[0], '2') {
        if sub.len() < 2 {
            Err(QosFailure::Malformed)
        } else {
            assert(views(sub@)[1] == sub@[1]@);
            if sub[1].len() == 0 {
                Ok(("manual_by_topic".to_string(), default_duration()))
            } else {
                match duration_exec(&sub, 1) {
                    Err(e) => Err(e),
                    Ok(d) => Ok(("manual_by_topic".to_string(), d)),
                }
            }
        }
    } else {
        Ok(("automatic".to_string(), default_duration()))
    }
}

/// Reads the QoS chunk `s` as `zenoh_qos_spec` says, malformed chunks included.
fn zenoh_qos_exec(s: &str) -> (r: Result<QoSProfile, QosFailure>)
    ensures
        r matches Ok(p) ==> zenoh_qos_spec(s@) == Ok::<QosView, QosFailure>(p@),
        r matches Err(e) ==> zenoh_qos_spec(s@) == Err::<QosView, QosFailure>(e),
{
    let cs = chars_of(s);
    let parts = split_chars(cs.as_slice(), ':');
    let ghost v = views(parts@);
    proof { lemma_split_on_nonempty(s@, ':'); }
    let mut profile = QoSProfile::default();
    assert(v[0] == parts@[0]@);
    if is_single(&parts[0], '2') {
        profile.reliability = "best_effort".to_string();
    } else {
        profile.reliability = "reliable".to_string();
    }
    if parts.len() < 3 {
        return Err(QosFailure::Malformed);
    }
    assert(v[1] == parts@[1]@);
    if is_single(&parts[1], '1') {
        profile.durability = "transient_local".to_string();
    } else {
        profile.durability = "volatile".to_string();
    }
    assert(v[2] == parts@[2]@);
    let (history, depth) = match history_exec(&parts[2]) {
        Err(e) => return Err(e),
        Ok(h) => h,
    };
    profile.history = history;
    profile.depth = depth;
    if parts.len() < 4 {
        return Err(QosFailure::Malformed);
    }
    assert(v[3] == parts@[3]@);
    profile.deadline = match optional_duration_exec(&parts[3]) {
        Err(e) => return Err(e),
        Ok(d) => d,
    };
    if parts.len() < 5 {
        return Err(QosFailure::Malformed);
    }
    assert(v[4] == parts@[4]@);
    profile.lifespan = match optional_duration_exec(&parts[4]) {
        Err(e) => return Err(e),
        Ok(d) => d,
    };
    if parts.len() < 6 {
        return Err(QosFailure::Malformed);
    }
    assert(v[5] == parts@[5]@);
    let (liveliness, lease) = match liveliness_exec(&parts[5]) {
        Err(e) => return Err(e),
        Ok(l) => l,
    };
    profile.liveliness = liveliness;
    profile.liveliness_lease_duration = lease;
    Ok(profile)
}

/// Whether `parse_zenoh_qos` accepts the QoS chunk `s`.
pub fn zenoh_qos_is_well_formed(s: &str) -> (r: bool)
    ensures
        r == zenoh_qos_well_formed(s@),
{
    match zenoh_qos_exec(s) {
        Err(QosFailure::Malformed) => false,
        _ => true,
    }
}

/// Reads the QoS profile of the QoS chunk `zenoh_qos`, or the error of the
/// first number in it that is not a valid integer.
pub fn parse_zenoh_qos(zenoh_qos: &str) -> (r: Result<QoSProfile, IntErrorKind>)
    requires
        zenoh_qos_well_formed(zenoh_qos@),
    ensures
        r matches Ok(p) ==> zenoh_qos_spec(zenoh_qos@) == Ok::<QosView, QosFailure>(p@),
        r matches Err(e) ==> zenoh_qos_spec(zenoh_qos@) == Err::<QosView, QosFailure>(QosFailure::Invalid(e)),
{
    match zenoh_qos_exec(zenoh_qos) {
        Ok(p) => Ok(p),
        Err(QosFailure::Invalid(e)) => Err(e),
        Err(QosFailure::Malformed) => {
            assert(false);
            Err(IntErrorKind::Empty)
        },
    }
}

} // verus!
