//! The decisions of a running recording: which announced publishers it
//! records, how it subscribes to them, under which schema and channel their
//! messages go, and how each message is stamped.
use vstd::prelude::*;
use crate::keyexprs::{
    format_graphcache, format_topic_data, graphcache_format, keyexpr_includes, keyexpr_includes_exec,
    keyexpr_is_valid, is_valid_keyexpr, string_views, topic_data_format, KeyFormatError, graphcache_fields,
    graphcache_text, law_graphcache_fields_of_text, plain_chunk,
};
use crate::monitor::{KeyExprInfo, KeyExprInfoView};
use crate::numparse::{decimal, format_u32, is_digit, law_decimal_digits, law_parse_u32_of_decimal, parse_u32_spec, IntErrorKind};
use crate::qos::{parse_zenoh_qos, zenoh_qos_spec, zenoh_qos_well_formed, QosFailure, QosView};
use crate::ros_names::{
    dds_type_to_ros_type, law_subscription_parts_of_keyexpr, parse_subscription_ros_keyepxr, ros_type_of_dds,
    subscription_keyexpr, subscription_parts,
};
use crate::text::{chars_of, concat_strs, split_on, string_of};

verus! {

broadcast use vstd::string::group_string_axioms;

/// The node id the recorder announces its subscriptions under.
pub const NODE_ID: u32 = 0;

/// The topic of an announced publisher without its leading `/`, when its
/// domain is the recorded one, it is a key expression and one of the
/// recorded topic patterns includes it.
pub open spec fn recorded_topic(domain: u32, patterns: Seq<Seq<char>>, info: KeyExprInfoView) -> Option<Seq<char>> {
    let t = info.original_topic.drop_first();
    if info.domain != domain {
        None
    } else if is_valid_keyexpr(t) && exists|i: int| 0 <= i < patterns.len() && keyexpr_includes(#[trigger] patterns[i], t) {
        Some(t)
    } else {
        None
    }
}

/// Decides whether the publisher `info` is to be recorded, and under which
/// topic. The topic must start with an ASCII character: its first byte is
/// cut off.
pub fn select_recorded_topic(domain: u32, patterns: &Vec<String>, info: &KeyExprInfo) -> (r: Option<String>)
    requires
        info.original_topic@.len() > 0,
        (info.original_topic@[0] as u32) < 128,
    ensures
        r is Some <==> recorded_topic(domain, string_views(patterns@), info@) is Some,
        r matches Some(t) ==> recorded_topic(domain, string_views(patterns@), info@) == Some(t@),
{
    if info.domain != domain {
        return None;
    }
    let mut cs = chars_of(info.original_topic.as_str());
    cs.remove(0);
    let rest = string_of(cs.as_slice());
    assert(cs@ =~= info@.original_topic.drop_first());
    if !keyexpr_is_valid(rest.as_str()) {
        return None;
    }
    let ghost pv = string_views(patterns@);
    let mut i: usize = 0;
    while i < patterns.len()
        invariant
            i <= patterns.len(),
            pv == string_views(patterns@),
            info.domain == domain,
            rest@ == info@.original_topic.drop_first(),
            is_valid_keyexpr(rest@),
            forall|j: int| 0 <= j < i ==> !keyexpr_includes(#[trigger] pv[j], rest@),
        decreases patterns.len() - i,
    {
        assert(pv[i as int] == patterns@[i as int]@);
        if keyexpr_includes_exec(patterns[i].as_str(), rest.as_str()) {
            return Some(rest);
        }
        i = i + 1;
    }
    None
}

/// How to subscribe to a topic: transient-local topics get a history that
/// detects late publishers (of the QoS depth), and reliable ones among them
/// heartbeat recovery.
#[derive(Debug, Clone, Copy, PartialEq, Eq)]
pub struct SubscriberPlan {
    pub transient_local: bool,
    pub max_samples: Option<u32>,
    pub heartbeat_recovery: bool,
}

/// The subscription that the QoS profile `q` calls for.
pub open spec fn subscriber_plan_spec(q: QosView) -> SubscriberPlan {
    let tl = q.durability == "transient_local"@;
    SubscriberPlan {
        transient_local: tl,
        max_samples: if tl { q.depth } else { None },
        heartbeat_recovery: tl && q.reliability == "reliable"@,
    }
}

/// How a topic is subscribed to follows from the first two fields of its
/// QoS chunk alone: transient-local (durability `1`) topics get a history of
/// the QoS depth, and heartbeat recovery exactly when they are also reliable
/// (reliability other than `2`), whatever their history kind and depth.
pub proof fn law_subscriber_plan_of_chunk(s: Seq<char>)
    requires
        zenoh_qos_spec(s) is Ok,
    ensures
        ({
            let parts = split_on(s, ':');
            let q = zenoh_qos_spec(s)->Ok_0;
            let p = subscriber_plan_spec(q);
            &&& p.transient_local == (parts[1] == seq!['1'])
            &&& p.heartbeat_recovery == (parts[1] == seq!['1'] && parts[0] != seq!['2'])
            &&& p.max_samples == (if parts[1] == seq!['1'] { q.depth } else { None })
        }),
{
    reveal_strlit("transient_local");
    reveal_strlit("volatile");
    reveal_strlit("reliable");
    reveal_strlit("best_effort");
    assert("transient_local"@.len() != "volatile"@.len());
    assert("reliable"@.len() != "best_effort"@.len());
}

/// Two profiles that differ only in history kind and depth are subscribed
/// to with the same recovery.
pub proof fn law_recovery_ignores_history(q: QosView, r: QosView)
    requires
        q.reliability == r.reliability,
        q.durability == r.durability,
    ensures
        subscriber_plan_spec(q).heartbeat_recovery == subscriber_plan_spec(r).heartbeat_recovery,
        subscriber_plan_spec(q).transient_local == subscriber_plan_spec(r).transient_local,
{
}

/// Decides how to subscribe to a topic with the QoS chunk `qos`.
pub fn subscriber_plan(qos: &str) -> (r: Result<SubscriberPlan, IntErrorKind>)
    requires
        zenoh_qos_well_formed(qos@),
    ensures
        r matches Ok(p) ==> zenoh_qos_spec(qos@) matches Ok(q) && p == subscriber_plan_spec(q),
        r matches Err(e) ==> zenoh_qos_spec(qos@) == Err::<QosView, QosFailure>(QosFailure::Invalid(e)),
{
    let q = match parse_zenoh_qos(qos) {
        Ok(q) => q,
        Err(e) => return Err(e),
    };
    let tl = q.durability == "transient_local".to_string();
    let reliable = q.reliability == "reliable".to_string();
    Ok(SubscriberPlan {
        transient_local: tl,
        max_samples: if tl { q.depth } else { None },
        heartbeat_recovery: tl && reliable,
    })
}

/// The key expression that carries the data of `topic` in `domain`.
pub fn topic_subscription_keyexpr(domain: u32, topic: &str) -> (r: Result<String, KeyFormatError>)
    ensures
        r matches Ok(k) ==> topic_data_format(domain, topic@) == Ok::<Seq<char>, KeyFormatError>(k@),
        r matches Err(e) ==> topic_data_format(domain, topic@) == Err::<Seq<char>, KeyFormatError>(e),
{
    format_topic_data(domain, topic)
}

/// The fields of the liveliness token announcing the recorder's
/// subscription to the publisher `info`: same domain, enclave, namespace,
/// topic, type, hash and QoS, in the session `zid`, as entity `entity` of
/// node `0` named `mcap_writer`, of kind `MS`.
pub open spec fn subscription_token_fields(info: KeyExprInfoView, zid: Seq<char>, entity: u32) -> Seq<Seq<char>> {
    seq![
        decimal(info.domain as nat),
        zid,
        seq!['0'],
        decimal(entity as nat),
        seq!['M', 'S'],
        info.enclave,
        info.namespace,
        seq!['m', 'c', 'a', 'p', '_', 'w', 'r', 'i', 't', 'e', 'r'],
        info.topic,
        info.rostype,
        info.hash,
        info.qos,
    ]
}

/// Whether `v` can stand as one field of a liveliness token.
pub open spec fn token_field(v: Seq<char>) -> bool {
    plain_chunk(v) && !v.contains('/')
}

proof fn lemma_decimal_token_field(n: nat)
    ensures
        token_field(decimal(n)),
{
    law_decimal_digits(n);
    if decimal(n).contains('/') {
        let i = choose|i: int| 0 <= i < decimal(n).len() && decimal(n)[i] == '/';
        assert(is_digit(decimal(n)[i]));
    }
    assert(is_digit(decimal(n)[0]));
}

proof fn lemma_literal_token_field(v: Seq<char>)
    requires
        v.len() > 0,
        v[0] != '@',
        forall|i: int| 0 <= i < v.len() ==> 'A' <= #[trigger] v[i] <= 'z' || '0' <= v[i] <= '9',
    ensures
        token_field(v),
{
    if v.contains('/') {
        let i = choose|i: int| 0 <= i < v.len() && v[i] == '/';
        assert('A' <= v[i] <= 'z' || '0' <= v[i] <= '9');
    }
}

/// The token announcing the recorder's subscription reads back as the
/// fields it was written from: the domain and the entity id read back as
/// the numbers given, so distinct entity ids give distinct tokens.
pub proof fn law_token_names_its_entity(info: KeyExprInfoView, zid: Seq<char>, entity: u32, other: u32)
    requires
        token_field(zid),
        token_field(info.enclave),
        token_field(info.namespace),
        token_field(info.topic),
        token_field(info.rostype),
        token_field(info.hash),
        token_field(info.qos),
    ensures
        graphcache_fields(graphcache_text(subscription_token_fields(info, zid, entity))) == Some(
            subscription_token_fields(info, zid, entity),
        ),
        parse_u32_spec(subscription_token_fields(info, zid, entity)[0]) == Ok::<int, IntErrorKind>(info.domain as int),
        parse_u32_spec(subscription_token_fields(info, zid, entity)[3]) == Ok::<int, IntErrorKind>(entity as int),
        entity != other ==> graphcache_text(subscription_token_fields(info, zid, entity)) != graphcache_text(
            subscription_token_fields(info, zid, other),
        ),
{
    lemma_decimal_token_field(info.domain as nat);
    lemma_decimal_token_field(entity as nat);
    lemma_decimal_token_field(other as nat);
    let zero = seq!['0'];
    let ms = seq!['M', 'S'];
    let name = seq!['m', 'c', 'a', 'p', '_', 'w', 'r', 'i', 't', 'e', 'r'];
    lemma_literal_token_field(zero);
    lemma_literal_token_field(ms);
    assert forall|i: int| 0 <= i < name.len() implies 'A' <= #[trigger] name[i] <= 'z' || '0' <= name[i] <= '9' by {}
    lemma_literal_token_field(name);
    let f = subscription_token_fields(info, zid, entity);
    let g = subscription_token_fields(info, zid, other);
    assert forall|i: int| 0 <= i < f.len() implies plain_chunk(#[trigger] f[i]) && !f[i].contains('/') by {
        assert(token_field(f[i]));
    }
    assert forall|i: int| 0 <= i < g.len() implies plain_chunk(#[trigger] g[i]) && !g[i].contains('/') by {
        assert(token_field(g[i]));
    }
    law_graphcache_fields_of_text(f);
    law_graphcache_fields_of_text(g);
    law_parse_u32_of_decimal(info.domain);
    law_parse_u32_of_decimal(entity);
    law_parse_u32_of_decimal(other);
    if entity != other && graphcache_text(f) == graphcache_text(g) {
        assert(f == g);
        assert(f[3] == g[3]);
    }
}

/// The liveliness token announcing the recorder's subscription to `info`.
pub fn subscription_token_keyexpr(info: &KeyExprInfo, zid: &str, entity: u32) -> (r: Result<String, KeyFormatError>)
    ensures
        r matches Ok(k) ==> graphcache_format(subscription_token_fields(info@, zid@, entity)) == Ok::<
            Seq<char>,
            KeyFormatError,
        >(k@),
        r matches Err(e) ==> graphcache_format(subscription_token_fields(info@, zid@, entity)) == Err::<
            Seq<char>,
            KeyFormatError,
        >(e),
{
    let zero = "0";
    let ms = "MS";
    let name = "mcap_writer";
    proof {
        reveal_strlit("0");
        reveal_strlit("MS");
        reveal_strlit("mcap_writer");
    }
    assert(zero@ =~= seq!['0']);
    assert(ms@ =~= seq!['M', 'S']);
    assert(name@ =~= seq!['m', 'c', 'a', 'p', '_', 'w', 'r', 'i', 't', 'e', 'r']);
    let fields: Vec<String> = vec![
        format_u32(info.domain),
        zid.to_string(),
        zero.to_string(),
        format_u32(entity),
        ms.to_string(),
        info.enclave.clone(),
        info.namespace.clone(),
        name.to_string(),
        info.topic.clone(),
        info.rostype.clone(),
        info.hash.clone(),
        info.qos.clone(),
    ];
    assert(string_views(fields@) =~= subscription_token_fields(info@, zid@, entity));
    format_graphcache(&fields)
}

/// The fields of the liveliness token pattern the recorder subscribes to:
/// every publisher (kind `MP`) of the ROS 2 graph.
pub open spec fn publishers_pattern_fields() -> Seq<Seq<char>> {
    seq![
        seq!['*'],
        seq!['*'],
        seq!['*'],
        seq!['*'],
        seq!['M', 'P'],
        seq!['*'],
        seq!['*'],
        seq!['*'],
        seq!['*'],
        seq!['*'],
        seq!['*'],
        seq!['*'],
    ]
}

/// The liveliness key expression that matches every publisher's token.
pub fn publishers_keyexpr() -> (r: Result<String, KeyFormatError>)
    ensures
        r matches Ok(k) ==> graphcache_format(publishers_pattern_fields()) == Ok::<Seq<char>, KeyFormatError>(k@),
        r matches Err(e) ==> graphcache_format(publishers_pattern_fields()) == Err::<Seq<char>, KeyFormatError>(e),
{
    let star = "*";
    let mp = "MP";
    proof {
        reveal_strlit("*");
        reveal_strlit("MP");
    }
    assert(star@ =~= seq!['*']);
    assert(mp@ =~= seq!['M', 'P']);
    let fields: Vec<String> = vec![
        star.to_string(),
        star.to_string(),
        star.to_string(),
        star.to_string(),
        mp.to_string(),
        star.to_string(),
        star.to_string(),
        star.to_string(),
        star.to_string(),
        star.to_string(),
        star.to_string(),
        star.to_string(),
    ];
    assert(string_views(fields@) =~= publishers_pattern_fields());
    format_graphcache(&fields)
}


/// Ids given to names: the schemas of a recording by ROS type, its channels
/// by topic.
pub struct IdTable {
    entries: Vec<(String, u16)>,
}

pub open spec fn ids_unique(e: Seq<(String, u16)>) -> bool {
    forall|i: int, j: int| 0 <= i < e.len() && 0 <= j < e.len() && i != j ==> (#[trigger] e[i]).0@ != (#[trigger] e[j]).0@
}

pub open spec fn ids_have(e: Seq<(String, u16)>, k: Seq<char>) -> bool {
    exists|i: int| 0 <= i < e.len() && (#[trigger] e[i]).0@ == k
}

pub open spec fn ids_index(e: Seq<(String, u16)>, k: Seq<char>) -> int {
    choose|i: int| 0 <= i < e.len() && (#[trigger] e[i]).0@ == k
}

pub open spec fn ids_map(e: Seq<(String, u16)>) -> Map<Seq<char>, u16> {
    Map::new(|k: Seq<char>| ids_have(e, k), |k: Seq<char>| e[ids_index(e, k)].1)
}

proof fn lemma_ids_index(e: Seq<(String, u16)>, i: int)
    requires
        ids_unique(e),
        0 <= i < e.len(),
    ensures
        ids_map(e).contains_key(e[i].0@),
        ids_map(e)[e[i].0@] == e[i].1,
{
    assert(ids_have(e, e[i].0@));
    let j = ids_index(e, e[i].0@);
    assert(e[j].0@ == e[i].0@);
}

impl View for IdTable {
    type V = Map<Seq<char>, u16>;

    closed spec fn view(&self) -> Map<Seq<char>, u16> {
        ids_map(self.entries@)
    }
}

impl IdTable {
    /// No name is stored twice.
    pub closed spec fn well_formed(&self) -> bool {
        ids_unique(self.entries@)
    }

    /// A table without names.
    pub fn new() -> (r: Self)
        ensures
            r.well_formed(),
            r@ == Map::<Seq<char>, u16>::empty(),
    {
        let r = IdTable { entries: Vec::new() };
        assert(r@ =~= Map::<Seq<char>, u16>::empty());
        r
    }

    fn find(&self, key: &str) -> (r: Option<usize>)
        requires
            self.well_formed(),
        ensures
            r is None <==> !self@.contains_key(key@),
            r matches Some(i) ==> i < self.entries.len() && self.entries@[i as int].0@ == key@,
    {
        let k = key.to_string();
        let mut i: usize = 0;
        while i < self.entries.len()
            invariant
                i <= self.entries.len(),
                k@ == key@,
                forall|j: int| 0 <= j < i ==> (#[trigger] self.entries@[j]).0@ != key@,
            decreases self.entries.len() - i,
        {
            if self.entries[i].0 == k {
                return Some(i);
            }
            i = i + 1;
        }
        None
    }

    /// The id of `key`, if it has one.
    pub fn get(&self, key: &str) -> (r: Option<u16>)
        requires
            self.well_formed(),
        ensures
            r == (if self@.contains_key(key@) { Some(self@[key@]) } else { None::<u16> }),
    {
        match self.find(key) {
            Some(i) => {
                proof { lemma_ids_index(self.entries@, i as int); }
                Some(self.entries[i].1)
            },
            None => None,
        }
    }

    /// Whether `key` has an id.
    pub fn contains_key(&self, key: &str) -> (r: bool)
        requires
            self.well_formed(),
        ensures
            r == self@.contains_key(key@),
    {
        self.find(key).is_some()
    }

    /// Gives `key` the id `id`, replacing its former one.
    pub fn insert(&mut self, key: String, id: u16)
        requires
            old(self).well_formed(),
        ensures
            final(self).well_formed(),
            final(self)@ == old(self)@.insert(key@, id),
    {
        let ghost k = key@;
        let ghost e0 = self.entries@;
        let found = self.find(key.as_str());
        let ghost n = e0.len() as int;
        let ghost at: int = match found { Some(i) => i as int, None => n };
        match found {
            Some(i) => {
                self.entries.set(i, (key, id));
            },
            None => {
                self.entries.push((key, id));
            },
        }
        let ghost e1 = self.entries@;
        assert(forall|a: int| 0 <= a < e1.len() && a != at ==> #[trigger] e1[a] == e0[a]);
        assert(e1[at].0@ == k && e1[at].1 == id);
        assert(at == n ==> !ids_have(e0, k));
        assert(at < n ==> e0[at].0@ == k);
        assert(ids_unique(e1)) by {
            assert forall|a: int, b: int| 0 <= a < e1.len() && 0 <= b < e1.len() && a != b implies (#[trigger] e1[a]).0@ != (#[trigger] e1[b]).0@ by {
                if a != at && b != at {
                    assert(e1[a] == e0[a] && e1[b] == e0[b]);
                } else if a == at {
                    assert(e1[b] == e0[b]);
                } else {
                    assert(e1[a] == e0[a]);
                }
            }
        }
        assert(ids_map(e1) =~= ids_map(e0).insert(k, id)) by {
            lemma_ids_index(e1, at);
            assert forall|q: Seq<char>| #![trigger ids_have(e1, q)] true implies (ids_have(e1, q) <==> ids_have(e0, q) || q == k) by {
                if ids_have(e1, q) {
                    let a = choose|a: int| 0 <= a < e1.len() && (#[trigger] e1[a]).0@ == q;
                    if a != at {
                        assert(e0[a] == e1[a]);
                    }
                }
                if ids_have(e0, q) {
                    let a = choose|a: int| 0 <= a < e0.len() && (#[trigger] e0[a]).0@ == q;
                    if a != at {
                        assert(e0[a] == e1[a]);
                    }
                }
            }
            assert forall|q: Seq<char>| ids_have(e1, q) && q != k implies #[trigger] ids_map(e1)[q] == ids_map(e0)[q] by {
                let a = choose|a: int| 0 <= a < e1.len() && (#[trigger] e1[a]).0@ == q;
                assert(a != at);
                assert(e0[a] == e1[a]);
                lemma_ids_index(e1, a);
                lemma_ids_index(e0, a);
            }
        }
    }
}

/// What a recording does for the announced publishers it records.
#[derive(Debug)]
pub enum Action {
    /// Subscribe to the data of `topic` (without its leading `/`) and
    /// announce the subscription, for the publisher `info`.
    Subscribe { topic: String, info: KeyExprInfo },
    /// Add the schema of the ROS type `rostype`.
    AddSchema { rostype: String },
    /// Add the channel of the topic `topic` (with its leading `/`), under
    /// the schema of `rostype`, for the publisher `info`.
    AddChannel { topic: String, rostype: String, info: KeyExprInfo },
}

/// The abstract value of an [`Action`].
pub enum ActionView {
    Subscribe(Seq<char>, KeyExprInfoView),
    AddSchema(Seq<char>),
    AddChannel(Seq<char>, Seq<char>, KeyExprInfoView),
}

impl View for Action {
    type V = ActionView;

    open spec fn view(&self) -> ActionView {
        match self {
            Action::Subscribe { topic, info } => ActionView::Subscribe(topic@, info@),
            Action::AddSchema { rostype } => ActionView::AddSchema(rostype@),
            Action::AddChannel { topic, rostype, info } => ActionView::AddChannel(topic@, rostype@, info@),
        }
    }
}

pub open spec fn action_views(v: Seq<Action>) -> Seq<ActionView> {
    Seq::new(v.len(), |i: int| v[i]@)
}

/// The topics a recording subscribes to, and the ROS types and topics that
/// have a schema and a channel in its file.
pub struct StorageState {
    pub subscribed: Set<Seq<char>>,
    pub schemas: Set<Seq<char>>,
    pub channels: Set<Seq<char>>,
}

/// The actions for the publisher `info`, and the state after them: when it
/// is recorded under the topic `t`, a subscription to `t` unless there is
/// one, the schema of its ROS type unless there is one, and the channel of
/// its topic unless the channels hold its token's topic (with `%` for `/`).
/// Channels are kept under the topic with `/`, so a recorded publisher's
/// channel is asked for on every pass.
pub open spec fn entry_actions(domain: u32, patterns: Seq<Seq<char>>, info: KeyExprInfoView, st: StorageState) -> (Seq<ActionView>, StorageState) {
    match recorded_topic(domain, patterns, info) {
        None => (Seq::<ActionView>::empty(), st),
        Some(t) => {
            let rostype = ros_type_of_dds(info.rostype);
            let sub = if st.subscribed.contains(t) {
                Seq::<ActionView>::empty()
            } else {
                seq![ActionView::Subscribe(t, info)]
            };
            let schema = if st.schemas.contains(rostype) {
                Seq::<ActionView>::empty()
            } else {
                seq![ActionView::AddSchema(rostype)]
            };
            let channel = if st.channels.contains(info.topic) {
                Seq::<ActionView>::empty()
            } else {
                seq![ActionView::AddChannel(info.original_topic, rostype, info)]
            };
            (
                sub + schema + channel,
                StorageState {
                    subscribed: st.subscribed.insert(t),
                    schemas: st.schemas.insert(rostype),
                    channels: st.channels.insert(info.original_topic),
                },
            )
        },
    }
}

/// The actions for the publishers `infos`, taken in order from the state
/// `st`, and the state after them.
pub open spec fn storage_actions_spec(domain: u32, patterns: Seq<Seq<char>>, infos: Seq<KeyExprInfoView>, st: StorageState) -> (Seq<ActionView>, StorageState)
    decreases infos.len(),
{
    if infos.len() == 0 {
        (Seq::<ActionView>::empty(), st)
    } else {
        let (before, mid) = storage_actions_spec(domain, patterns, infos.drop_last(), st);
        let (last, after) = entry_actions(domain, patterns, infos.last(), mid);
        (before + last, after)
    }
}

/// The publishers of the entries `e`.
pub open spec fn entry_infos(e: Seq<(String, KeyExprInfo)>) -> Seq<KeyExprInfoView> {
    Seq::new(e.len(), |i: int| e[i].1@)
}

/// The set of the names in `v`.
pub open spec fn names(v: Seq<Seq<char>>) -> Set<Seq<char>> {
    Set::new(|k: Seq<char>| v.contains(k))
}

/// Whether the topic of every publisher of `domain` among `e` starts with
/// an ASCII character (the recording cuts its first byte off).
pub open spec fn topics_cuttable(domain: u32, e: Seq<(String, KeyExprInfo)>) -> bool {
    forall|i: int|
        0 <= i < e.len() && (#[trigger] e[i]).1.domain == domain ==> e[i].1.original_topic@.len() > 0
            && (e[i].1.original_topic@[0] as u32) < 128
}

fn contains_str(v: &Vec<String>, s: &str) -> (r: bool)
    ensures
        r == string_views(v@).contains(s@),
{
    let ghost sv = string_views(v@);
    let k = s.to_string();
    let mut i: usize = 0;
    while i < v.len()
        invariant
            i <= v.len(),
            sv == string_views(v@),
            k@ == s@,
            forall|j: int| 0 <= j < i ==> sv[j] != s@,
        decreases v.len() - i,
    {
        assert(sv[i as int] == v@[i as int]@);
        if v[i] == k {
            assert(sv[i as int] == s@);
            return true;
        }
        i = i + 1;
    }
    false
}

proof fn lemma_names_push(v: Seq<Seq<char>>, x: Seq<char>)
    ensures
        names(v.push(x)) == names(v).insert(x),
{
    assert forall|k: Seq<char>| #[trigger] names(v.push(x)).contains(k) <==> names(v).insert(x).contains(k) by {
        if v.push(x).contains(k) {
            let j = choose|j: int| 0 <= j < v.push(x).len() && v.push(x)[j] == k;
            if j < v.len() {
                assert(v[j] == k);
            }
        }
        if v.contains(k) {
            let j = choose|j: int| 0 <= j < v.len() && v[j] == k;
            assert(v.push(x)[j] == k);
        }
        if k == x {
            assert(v.push(x)[v.len() as int] == k);
        }
    }
    assert(names(v.push(x)) =~= names(v).insert(x));
}

/// The actions a recording of the topic patterns `patterns` in `domain`
/// takes for the announced publishers `entries`, in order, given the topics
/// it subscribes to (`subscribed`) and the schemas and channels its file
/// has: for each recorded publisher, what it lacks of a subscription, a
/// schema and a channel (see [`entry_actions`]).
pub fn storage_actions(
    domain: u32,
    patterns: &Vec<String>,
    entries: &Vec<(String, KeyExprInfo)>,
    subscribed: &Vec<String>,
    schemas: &IdTable,
    channels: &IdTable,
) -> (acts: Vec<Action>)
    requires
        schemas.well_formed(),
        channels.well_formed(),
        topics_cuttable(domain, entries@),
    ensures
        action_views(acts@) == storage_actions_spec(
            domain,
            string_views(patterns@),
            entry_infos(entries@),
            StorageState { subscribed: names(string_views(subscribed@)), schemas: schemas@.dom(), channels: channels@.dom() },
        ).0,
{
    let ghost pv = string_views(patterns@);
    let ghost infos = entry_infos(entries@);
    let ghost st0 = StorageState {
        subscribed: names(string_views(subscribed@)),
        schemas: schemas@.dom(),
        channels: channels@.dom(),
    };
    let mut acts: Vec<Action> = Vec::new();
    let mut new_subs: Vec<String> = Vec::new();
    let mut new_schemas: Vec<String> = Vec::new();
    let mut new_channels: Vec<String> = Vec::new();
    let mut i: usize = 0;
    assert(infos.take(0) =~= Seq::<KeyExprInfoView>::empty());
    assert(string_views(new_subs@) =~= Seq::<Seq<char>>::empty());
    assert(string_views(new_schemas@) =~= Seq::<Seq<char>>::empty());
    assert(string_views(new_channels@) =~= Seq::<Seq<char>>::empty());
    assert(st0.subscribed.union(names(Seq::<Seq<char>>::empty())) =~= st0.subscribed);
    assert(st0.schemas.union(names(Seq::<Seq<char>>::empty())) =~= st0.schemas);
    assert(st0.channels.union(names(Seq::<Seq<char>>::empty())) =~= st0.channels);
    while i < entries.len()
        invariant
            i <= entries.len(),
            pv == string_views(patterns@),
            infos == entry_infos(entries@),
            schemas.well_formed(),
            channels.well_formed(),
            topics_cuttable(domain, entries@),
            st0 == (StorageState {
                subscribed: names(string_views(subscribed@)),
                schemas: schemas@.dom(),
                channels: channels@.dom(),
            }),
            action_views(acts@) == storage_actions_spec(domain, pv, infos.take(i as int), st0).0,
            storage_actions_spec(domain, pv, infos.take(i as int), st0).1 == (StorageState {
                subscribed: st0.subscribed.union(names(string_views(new_subs@))),
                schemas: st0.schemas.union(names(string_views(new_schemas@))),
                channels: st0.channels.union(names(string_views(new_channels@))),
            }),
        decreases entries.len() - i,
    {
        let ghost mid = storage_actions_spec(domain, pv, infos.take(i as int), st0).1;
        assert(infos.take(i + 1).drop_last() =~= infos.take(i as int));
        assert(infos.take(i + 1).last() == entries@[i as int].1@);
        let info = &entries[i].1;
        assert(entries@[i as int].1 == *info);
        let ghost before = action_views(acts@);
        let selected = if info.domain != domain {
            None
        } else {
            select_recorded_topic(domain, patterns, info)
        };
        match selected {
            None => {
                assert(entry_actions(domain, pv, info@, mid).0 =~= Seq::<ActionView>::empty());
            },
            Some(t) => {
                let rostype = dds_type_to_ros_type(info.rostype.as_str());
                let ghost e = entry_actions(domain, pv, info@, mid);
                let has_sub = contains_str(subscribed, t.as_str()) || contains_str(&new_subs, t.as_str());
                assert(has_sub == mid.subscribed.contains(t@));
                if !has_sub {
                    acts.push(Action::Subscribe { topic: t.clone(), info: info.duplicate() });
                    proof { lemma_names_push(string_views(new_subs@), t@); }
                    assert(string_views(new_subs@.push(t)) =~= string_views(new_subs@).push(t@));
                    new_subs.push(t.clone());
                }
                let has_schema = schemas.contains_key(rostype.as_str()) || contains_str(&new_schemas, rostype.as_str());
                assert(has_schema == mid.schemas.contains(rostype@));
                if !has_schema {
                    acts.push(Action::AddSchema { rostype: rostype.clone() });
                    proof { lemma_names_push(string_views(new_schemas@), rostype@); }
                    assert(string_views(new_schemas@.push(rostype)) =~= string_views(new_schemas@).push(rostype@));
                    new_schemas.push(rostype.clone());
                }
                let has_channel = channels.contains_key(info.topic.as_str()) || contains_str(
                    &new_channels,
                    info.topic.as_str(),
                );
                assert(has_channel == mid.channels.contains(info@.topic));
                if !has_channel {
                    acts.push(Action::AddChannel { topic: info.original_topic.clone(), rostype: rostype.clone(), info: info.duplicate() });
                }
                proof { lemma_names_push(string_views(new_channels@), info@.original_topic); }
                assert(string_views(new_channels@.push(info.original_topic)) =~= string_views(new_channels@).push(info@.original_topic));
                new_channels.push(info.original_topic.clone());
                assert(action_views(acts@) =~= before + e.0);
                assert(e.1.subscribed =~= st0.subscribed.union(names(string_views(new_subs@))));
                assert(e.1.schemas =~= st0.schemas.union(names(string_views(new_schemas@))));
                assert(e.1.channels =~= st0.channels.union(names(string_views(new_channels@))));
            },
        }
        i = i + 1;
        assert(action_views(acts@) =~= storage_actions_spec(domain, pv, infos.take(i as int), st0).0);
    }
    assert(infos.take(entries.len() as int) =~= infos);
    acts
}

/// Whether the state `st` has the subscription and the schema of every
/// recorded publisher among `infos`.
pub open spec fn covers(domain: u32, patterns: Seq<Seq<char>>, infos: Seq<KeyExprInfoView>, st: StorageState) -> bool {
    forall|i: int|
        0 <= i < infos.len() && (#[trigger] recorded_topic(domain, patterns, infos[i])) is Some ==> {
            &&& st.subscribed.contains(recorded_topic(domain, patterns, infos[i])->0)
            &&& st.schemas.contains(ros_type_of_dds(infos[i].rostype))
        }
}

proof fn lemma_storage_grows(domain: u32, patterns: Seq<Seq<char>>, infos: Seq<KeyExprInfoView>, st: StorageState)
    ensures
        st.subscribed.subset_of(storage_actions_spec(domain, patterns, infos, st).1.subscribed),
        st.schemas.subset_of(storage_actions_spec(domain, patterns, infos, st).1.schemas),
        covers(domain, patterns, infos, storage_actions_spec(domain, patterns, infos, st).1),
    decreases infos.len(),
{
    if infos.len() > 0 {
        let init = infos.drop_last();
        lemma_storage_grows(domain, patterns, init, st);
        let mid = storage_actions_spec(domain, patterns, init, st).1;
        let fin = storage_actions_spec(domain, patterns, infos, st).1;
        assert(fin == entry_actions(domain, patterns, infos.last(), mid).1);
        assert(mid.subscribed.subset_of(fin.subscribed));
        assert(mid.schemas.subset_of(fin.schemas));
        assert forall|i: int|
            0 <= i < infos.len() && (#[trigger] recorded_topic(domain, patterns, infos[i])) is Some implies {
                &&& fin.subscribed.contains(recorded_topic(domain, patterns, infos[i])->0)
                &&& fin.schemas.contains(ros_type_of_dds(infos[i].rostype))
            } by {
            if i < init.len() {
                assert(infos[i] == init[i]);
                assert(recorded_topic(domain, patterns, init[i]) is Some);
            }
        }
    }
}

/// Whether `a` asks for neither a subscription nor a schema.
pub open spec fn only_channel(a: ActionView) -> bool {
    a is AddChannel
}

proof fn lemma_storage_settled(domain: u32, patterns: Seq<Seq<char>>, infos: Seq<KeyExprInfoView>, st: StorageState)
    requires
        covers(domain, patterns, infos, st),
    ensures
        forall|i: int|
            0 <= i < storage_actions_spec(domain, patterns, infos, st).0.len() ==> only_channel(
                #[trigger] storage_actions_spec(domain, patterns, infos, st).0[i],
            ),
        storage_actions_spec(domain, patterns, infos, st).1.subscribed == st.subscribed,
        storage_actions_spec(domain, patterns, infos, st).1.schemas == st.schemas,
    decreases infos.len(),
{
    if infos.len() > 0 {
        let init = infos.drop_last();
        assert forall|i: int| 0 <= i < init.len() && (#[trigger] recorded_topic(domain, patterns, init[i])) is Some implies {
            &&& st.subscribed.contains(recorded_topic(domain, patterns, init[i])->0)
            &&& st.schemas.contains(ros_type_of_dds(init[i].rostype))
        } by {
            assert(init[i] == infos[i]);
            assert(recorded_topic(domain, patterns, infos[i]) is Some);
        }
        lemma_storage_settled(domain, patterns, init, st);
        let (before, mid) = storage_actions_spec(domain, patterns, init, st);
        let last = infos.last();
        assert(last == infos[infos.len() - 1]);
        let e = entry_actions(domain, patterns, last, mid);
        match recorded_topic(domain, patterns, last) {
            None => {},
            Some(t) => {
                assert(recorded_topic(domain, patterns, infos[infos.len() - 1]) is Some);
                assert(mid.subscribed.insert(t) =~= mid.subscribed);
                assert(mid.schemas.insert(ros_type_of_dds(last.rostype)) =~= mid.schemas);
            },
        }
        assert(forall|i: int| 0 <= i < e.0.len() ==> only_channel(#[trigger] e.0[i]));
        let all = storage_actions_spec(domain, patterns, infos, st).0;
        assert(all == before + e.0);
        assert forall|i: int| 0 <= i < all.len() implies only_channel(#[trigger] all[i]) by {
            if i < before.len() {
                assert(all[i] == before[i]);
            } else {
                assert(all[i] == e.0[i - before.len()]);
            }
        }
    }
}

/// Going over the same publishers again, once their actions are taken,
/// asks for no subscription and no schema: each is asked once.
pub proof fn law_storage_actions_settle(domain: u32, patterns: Seq<Seq<char>>, infos: Seq<KeyExprInfoView>, st: StorageState)
    ensures
        ({
            let again = storage_actions_spec(domain, patterns, infos, storage_actions_spec(domain, patterns, infos, st).1).0;
            forall|i: int| 0 <= i < again.len() ==> only_channel(#[trigger] again[i])
        }),
{
    lemma_storage_grows(domain, patterns, infos, st);
    lemma_storage_settled(domain, patterns, infos, storage_actions_spec(domain, patterns, infos, st).1);
}

/// Whether `a` asks for a subscription to the topic `t`.
pub open spec fn subscribes_to(a: ActionView, t: Seq<char>) -> bool {
    a matches ActionView::Subscribe(u, _) && u == t
}

/// A pass asks for a subscription only to a topic it is not subscribed to,
/// and for at most one subscription per topic.
pub proof fn law_one_subscription_per_topic(
    domain: u32,
    patterns: Seq<Seq<char>>,
    infos: Seq<KeyExprInfoView>,
    st: StorageState,
)
    ensures
        ({
            let acts = storage_actions_spec(domain, patterns, infos, st).0;
            &&& forall|i: int, t: Seq<char>|
                0 <= i < acts.len() && #[trigger] subscribes_to(acts[i], t) ==> !st.subscribed.contains(t)
            &&& forall|i: int, j: int, t: Seq<char>|
                0 <= i < j < acts.len() && #[trigger] subscribes_to(acts[i], t) ==> !#[trigger] subscribes_to(acts[j], t)
        }),
    decreases infos.len(),
{
    lemma_subscriptions(domain, patterns, infos, st);
}

proof fn lemma_subscriptions(domain: u32, patterns: Seq<Seq<char>>, infos: Seq<KeyExprInfoView>, st: StorageState)
    ensures
        ({
            let (acts, fin) = storage_actions_spec(domain, patterns, infos, st);
            &&& st.subscribed.subset_of(fin.subscribed)
            &&& forall|i: int, t: Seq<char>|
                0 <= i < acts.len() && #[trigger] subscribes_to(acts[i], t) ==> !st.subscribed.contains(t)
                    && fin.subscribed.contains(t)
            &&& forall|i: int, j: int, t: Seq<char>|
                0 <= i < j < acts.len() && #[trigger] subscribes_to(acts[i], t) ==> !#[trigger] subscribes_to(acts[j], t)
        }),
    decreases infos.len(),
{
    if infos.len() > 0 {
        let init = infos.drop_last();
        lemma_subscriptions(domain, patterns, init, st);
        let (before, mid) = storage_actions_spec(domain, patterns, init, st);
        let (last, fin) = entry_actions(domain, patterns, infos.last(), mid);
        let acts = storage_actions_spec(domain, patterns, infos, st).0;
        assert(acts == before + last);
        assert(mid.subscribed.subset_of(fin.subscribed));
        // What the last entry asks: at most one subscription, to a topic `mid` lacks.
        assert forall|k: int, t: Seq<char>| 0 <= k < last.len() && #[trigger] subscribes_to(last[k], t) implies k == 0
            && !mid.subscribed.contains(t) && fin.subscribed.contains(t) by {
            match recorded_topic(domain, patterns, infos.last()) {
                None => {},
                Some(u) => {
                    let rostype = ros_type_of_dds(infos.last().rostype);
                    if !mid.subscribed.contains(u) {
                        assert(last[0] == ActionView::Subscribe(u, infos.last()));
                    }
                    if k > 0 || mid.subscribed.contains(u) {
                        assert(!(last[k] is Subscribe));
                    }
                },
            }
        }
        assert forall|i: int, t: Seq<char>| 0 <= i < acts.len() && #[trigger] subscribes_to(acts[i], t) implies !st.subscribed.contains(t)
            && fin.subscribed.contains(t) by {
            if i < before.len() {
                assert(acts[i] == before[i]);
            } else {
                assert(acts[i] == last[i - before.len()]);
                assert(subscribes_to(last[i - before.len()], t));
            }
        }
        assert forall|i: int, j: int, t: Seq<char>| 0 <= i < j < acts.len() && #[trigger] subscribes_to(acts[i], t) implies !#[trigger] subscribes_to(acts[j], t) by {
            if j < before.len() {
                assert(acts[i] == before[i]);
                assert(acts[j] == before[j]);
            } else if i < before.len() {
                assert(acts[i] == before[i]);
                assert(subscribes_to(before[i], t));
                assert(mid.subscribed.contains(t));
                assert(acts[j] == last[j - before.len()]);
                if subscribes_to(last[j - before.len()], t) {
                    assert(!mid.subscribed.contains(t));
                }
            } else {
                assert(acts[i] == last[i - before.len()]);
                assert(acts[j] == last[j - before.len()]);
                assert(subscribes_to(last[i - before.len()], t));
                if subscribes_to(last[j - before.len()], t) {
                    assert(j - before.len() == 0);
                }
            }
        }
    }
}

/// The header under which a message is written.
#[derive(Debug, Clone, Copy, PartialEq, Eq)]
pub struct MessageHeader {
    pub channel_id: u16,
    pub sequence: u32,
    /// When the message was received, in nanoseconds since the epoch.
    pub log_time: u64,
    /// When the message was published, in nanoseconds since the epoch.
    pub publish_time: u64,
}

/// Why a message could not be stamped.
#[derive(Debug, Clone, Copy, PartialEq, Eq)]
pub enum ClockError {
    /// The current time does not fit in nanoseconds since the epoch.
    NoCurrentTime,
}

/// The header of a message received on `key_expr` at `now` (nanoseconds
/// since the epoch, when they fit an `i64`): its channel is that of the
/// topic `/<topic>`; the attachment, when there is one, gives the sequence
/// number (truncated to 32 bits, 0 when absent) and the publication time
/// (`now` when absent). Messages of an unknown key expression or channel
/// are skipped.
pub open spec fn message_header_spec(
    channels: Map<Seq<char>, u16>,
    key_expr: Seq<char>,
    now: Option<i64>,
    attachment: Option<(Option<i64>, Option<u64>)>,
) -> Result<Option<MessageHeader>, ClockError> {
    match subscription_parts(key_expr) {
        None => Ok(None),
        Some((_d, t, _ty, _h)) => match now {
            None => Err(ClockError::NoCurrentTime),
            Some(n) => {
                let log_time = n as u64;
                let topic = seq!['/'] + t;
                let (sequence, publish_time) = match attachment {
                    Some((s, p)) => (
                        match s { Some(s) => s as u32, None => 0u32 },
                        match p { Some(p) => p, None => log_time },
                    ),
                    None => (0u32, log_time),
                };
                if channels.contains_key(topic) {
                    Ok(Some(MessageHeader { channel_id: channels[topic], sequence, log_time, publish_time }))
                } else {
                    Ok(None)
                }
            },
        },
    }
}

/// What the attachment bytes of a message hold: its sequence number and its
/// publication time, each when it can be read.
pub uninterp spec fn attachment_values(bytes: Seq<u8>) -> (Option<i64>, Option<u64>);

/// Reads an `i64` and then a `u64` from the attachment `bytes`
/// (`zenoh_ext::ZDeserializer` over `zenoh::bytes::ZBytes::from(bytes)`), each
/// `None` where it cannot be read. The result depends on the bytes alone.
#[verifier::external_body]
fn attachment_fields(bytes: &[u8]) -> (r: (Option<i64>, Option<u64>))
    ensures
        r == attachment_values(bytes@),
{
    let zbytes = zenoh::bytes::ZBytes::from(bytes.to_vec());
    let mut deserializer = zenoh_ext::ZDeserializer::new(&zbytes);
    let sequence = deserializer.deserialize::<i64>().ok();
    let publish_time = deserializer.deserialize::<u64>().ok();
    (sequence, publish_time)
}

/// The values of an optional attachment.
pub open spec fn attachment_of(attachment: Option<Seq<u8>>) -> Option<(Option<i64>, Option<u64>)> {
    match attachment {
        Some(b) => Some(attachment_values(b)),
        None => None,
    }
}

/// Stamps a message received on `key_expr` at `now` whose attachment, when
/// it has one, is `attachment`: `message_header` on the values the
/// attachment holds.
pub fn stamp_message(channels: &IdTable, key_expr: &str, now: Option<i64>, attachment: Option<&[u8]>) -> (r: Result<
    Option<MessageHeader>,
    ClockError,
>)
    requires
        channels.well_formed(),
    ensures
        r == message_header_spec(
            channels@,
            key_expr@,
            now,
            attachment_of(
                match attachment {
                    Some(b) => Some(b@),
                    None => None,
                },
            ),
        ),
{
    let values = match attachment {
        Some(b) => Some(attachment_fields(b)),
        None => None,
    };
    message_header(channels, key_expr, now, values)
}

/// Stamps a message received on `key_expr`, as `message_header_spec` says.
pub fn message_header(
    channels: &IdTable,
    key_expr: &str,
    now: Option<i64>,
    attachment: Option<(Option<i64>, Option<u64>)>,
) -> (r: Result<Option<MessageHeader>, ClockError>)
    requires
        channels.well_formed(),
    ensures
        r == message_header_spec(channels@, key_expr@, now, attachment),
{
    let topic = match parse_subscription_ros_keyepxr(key_expr) {
        Err(_) => return Ok(None),
        Ok((_d, t, _ty, _h)) => t,
    };
    let log_time: u64 = match now {
        None => return Err(ClockError::NoCurrentTime),
        Some(n) => n as u64,
    };
    let (sequence, publish_time) = match attachment {
        Some((s, p)) => (
            match s { Some(s) => s as u32, None => 0u32 },
            match p { Some(p) => p, None => log_time },
        ),
        None => (0u32, log_time),
    };
    let full = concat_strs("/", topic.as_str());
    proof { reveal_strlit("/"); }
    assert("/"@ =~= seq!['/']);
    match channels.get(full.as_str()) {
        Some(channel_id) => Ok(Some(MessageHeader { channel_id, sequence, log_time, publish_time })),
        None => Ok(None),
    }
}


/// A message received on `domain/topic/rostype/hash` (domain, type and hash
/// single chunks) goes to the channel of `/topic` when there is one,
/// stamped with the current time as its receive time.
pub proof fn law_message_goes_to_topic_channel(
    channels: Map<Seq<char>, u16>,
    d: Seq<char>,
    t: Seq<char>,
    ty: Seq<char>,
    h: Seq<char>,
    now: i64,
    attachment: Option<(Option<i64>, Option<u64>)>,
)
    requires
        !d.contains('/'),
        !ty.contains('/'),
        !h.contains('/'),
        channels.contains_key(seq!['/'] + t),
    ensures
        message_header_spec(channels, subscription_keyexpr(d, t, ty, h), Some(now), attachment) matches Ok(Some(hd))
            && hd.channel_id == channels[seq!['/'] + t] && hd.log_time == now as u64,
{
    law_subscription_parts_of_keyexpr(d, t, ty, h);
}

/// A message of a topic without a channel is skipped, whatever its stamp.
pub proof fn law_message_without_channel_skipped(
    channels: Map<Seq<char>, u16>,
    d: Seq<char>,
    t: Seq<char>,
    ty: Seq<char>,
    h: Seq<char>,
    now: i64,
    attachment: Option<(Option<i64>, Option<u64>)>,
)
    requires
        !d.contains('/'),
        !ty.contains('/'),
        !h.contains('/'),
        !channels.contains_key(seq!['/'] + t),
    ensures
        message_header_spec(channels, subscription_keyexpr(d, t, ty, h), Some(now), attachment) == Ok::<
            Option<MessageHeader>,
            ClockError,
        >(None),
{
    law_subscription_parts_of_keyexpr(d, t, ty, h);
}

} // verus!
