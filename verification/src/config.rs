//! The command line of the recorder and the Zenoh configuration it asks for.
use vstd::prelude::*;
use crate::keyexprs::string_views;
use crate::text::{chars_of, concat_strs, string_of};

verus! {

broadcast use vstd::string::group_string_axioms;

/// Where recordings go when no directory is given.
pub const DEFAULT_PATH: &'static str = ".";

/// The router the recorder connects to when no endpoint is given.
pub const DEFAULT_ZENOHD: &'static str = "tcp/localhost:7447";

/// The role of the Zenoh session.
#[derive(Debug, Clone, Copy, PartialEq, Eq, Structural)]
pub enum SessionMode {
    Router,
    Peer,
    Client,
}

/// The name Zenoh gives a session mode.
pub open spec fn mode_name(m: SessionMode) -> Seq<char> {
    match m {
        SessionMode::Router => "router"@,
        SessionMode::Peer => "peer"@,
        SessionMode::Client => "client"@,
    }
}

impl SessionMode {
    /// `router`, `peer` or `client`.
    pub fn to_str(&self) -> (r: String)
        ensures
            r@ == mode_name(*self),
    {
        match self {
            SessionMode::Router => "router".to_string(),
            SessionMode::Peer => "peer".to_string(),
            SessionMode::Client => "client".to_string(),
        }
    }
}

/// The command line of the recorder.
#[derive(Debug, Clone)]
pub struct Args {
    /// A configuration file.
    pub config: Option<String>,
    /// `KEY:VALUE` configuration changes, in order.
    pub cfg: Vec<String>,
    pub mode: Option<SessionMode>,
    /// Endpoints to listen on.
    pub listen: Vec<String>,
    /// Endpoints to connect to.
    pub connect: Vec<String>,
    /// Milliseconds to wait for the first connection; -1 waits forever.
    pub connect_timeout: i64,
    pub no_multicast_scouting: bool,
    /// The REST API's HTTP port, `none` to disable it.
    pub rest_http_port: Option<String>,
    /// The directory of the recorded files.
    pub output_path: String,
}

/// One `--cfg` argument.
#[derive(Debug)]
pub enum CfgEntry {
    /// The text before and after the first `:`.
    Pair(String, String),
    /// An argument without `:`.
    Malformed(String),
}

/// Where the session connects.
#[derive(Debug)]
pub enum ConnectPlan {
    /// The endpoints given on the command line.
    Endpoints(Vec<String>),
    /// The default endpoint list, as JSON5 for `connect/endpoints`.
    DefaultJson(String),
}

/// The changes the command line asks of the Zenoh configuration, in the
/// order they are applied.
#[derive(Debug)]
pub struct ConfigPlan {
    /// The file to start from (the default configuration otherwise).
    pub config_file: Option<String>,
    /// The JSON5 value to set `mode` to.
    pub mode_json: Option<String>,
    /// The JSON5 value to set `plugins/rest/http_port` to (and then
    /// `plugins/rest/__required__` to `true`).
    pub rest_http_port_json: Option<String>,
    pub connect: ConnectPlan,
    /// The endpoints to listen on, when not empty.
    pub listen: Vec<String>,
    pub connect_timeout_ms: i64,
    /// Whether the command line asks to disable multicast scouting (see
    /// [`multicast_scouting`] for what follows from it).
    pub no_multicast_scouting: bool,
    pub cfg: Vec<CfgEntry>,
}

/// `"text"`: a JSON string of `text`, which must need no escaping.
pub open spec fn quoted(text: Seq<char>) -> Seq<char> {
    seq!['"'] + text + seq!['"']
}

fn quote(text: &str) -> (r: String)
    ensures
        r@ == quoted(text@),
{
    proof { reveal_strlit("\""); }
    assert("\""@ =~= seq!['"']);
    let head = concat_strs("\"", text);
    concat_strs(head.as_str(), "\"")
}

/// The ASCII lower case of `c`.
pub open spec fn ascii_lower(c: char) -> char {
    if 'A' <= c && c <= 'Z' {
        ((c as u32) + 32) as char
    } else {
        c
    }
}

/// `str::eq_ignore_ascii_case(s, "none")`.
pub open spec fn is_none_word(s: Seq<char>) -> bool {
    s.len() == 4 && ascii_lower(s[0]) == 'n' && ascii_lower(s[1]) == 'o' && ascii_lower(s[2]) == 'n'
        && ascii_lower(s[3]) == 'e'
}

fn lower_is(c: char, target: char) -> (r: bool)
    requires
        'a' <= target <= 'z',
    ensures
        r == (ascii_lower(c) == target),
{
    c == target || (('A' <= c && c <= 'Z') && (c as u32) + 32 == target as u32)
}

fn is_none_exec(s: &str) -> (r: bool)
    ensures
        r == is_none_word(s@),
{
    let cs = chars_of(s);
    cs.len() == 4 && lower_is(cs[0], 'n') && lower_is(cs[1], 'o') && lower_is(cs[2], 'n') && lower_is(cs[3], 'e')
}

/// Whether multicast scouting ends up enabled: never with
/// `--no-multicast-scouting`; otherwise as the configuration sets it, and
/// enabled where the configuration leaves it unset.
pub open spec fn multicast_scouting_spec(config_value: Option<bool>, no_multicast_scouting: bool) -> bool {
    !no_multicast_scouting && match config_value {
        Some(b) => b,
        None => true,
    }
}

/// Whether multicast scouting is to be enabled, given the value the loaded
/// configuration sets (`None`: unset) and the `--no-multicast-scouting`
/// flag.
pub fn multicast_scouting(config_value: Option<bool>, no_multicast_scouting: bool) -> (r: bool)
    ensures
        r == multicast_scouting_spec(config_value, no_multicast_scouting),
{
    !no_multicast_scouting && config_value.unwrap_or(true)
}

/// Whether zenoh reads `s` as an endpoint
/// (`<protocol>/<address>[?<metadata>][#<config>]`).
pub uninterp spec fn is_valid_endpoint(s: Seq<char>) -> bool;

/// Why zenoh does not read `s` as an endpoint, or `None` when it does
/// (`s.parse::<zenoh_config::EndPoint>()`, its error written out). Whether
/// it reads it depends on `s` alone; the wording of the reason is not
/// claimed.
#[verifier::external_body]
fn endpoint_error(s: &str) -> (r: Option<String>)
    ensures
        r is None <==> is_valid_endpoint(s@),
{
    match s.parse::<zenoh_config::EndPoint>() {
        Ok(_) => None,
        Err(e) => Some(format!("{e}")),
    }
}

/// Whether zenoh reads every one of `vs` as an endpoint.
pub open spec fn all_valid_endpoints(vs: Seq<Seq<char>>) -> bool {
    forall|i: int| 0 <= i < vs.len() ==> is_valid_endpoint(#[trigger] vs[i])
}

/// An endpoint given on the command line that zenoh does not read.
#[derive(Debug)]
pub struct EndpointError {
    /// The option that gave it: `connect` or `listen`.
    pub option: String,
    pub value: String,
    /// zenoh's reason.
    pub reason: String,
}

/// Whether `e` reports `vs[i]`, the first of `vs` that zenoh does not read,
/// as given to the option `option`.
pub open spec fn reports_first_invalid(e: EndpointError, option: Seq<char>, vs: Seq<Seq<char>>) -> bool {
    &&& e.option@ == option
    &&& exists|i: int|
        0 <= i < vs.len() && !is_valid_endpoint(#[trigger] vs[i]) && all_valid_endpoints(vs.take(i)) && e.value@
            == vs[i]
}

/// `couldn't parse option --listen=<value> into Locator: <reason>`: the
/// message names `--listen` whichever option gave the value.
pub open spec fn endpoint_message(value: Seq<char>, reason: Seq<char>) -> Seq<char> {
    "couldn't parse option --listen="@ + value + " into Locator: "@ + reason
}

impl EndpointError {
    /// The message that reports this error.
    pub fn message(&self) -> (r: String)
        ensures
            r@ == endpoint_message(self.value@, self.reason@),
    {
        let a = concat_strs("couldn't parse option --listen=", self.value.as_str());
        let b = concat_strs(a.as_str(), " into Locator: ");
        concat_strs(b.as_str(), self.reason.as_str())
    }
}

/// Checks that zenoh reads every one of `values`, given to the option
/// `option`, as an endpoint; reports the first one it does not read.
pub fn check_endpoints(values: &Vec<String>, option: &str) -> (r: Result<(), EndpointError>)
    ensures
        r is Ok <==> all_valid_endpoints(string_views(values@)),
        r matches Err(e) ==> reports_first_invalid(e, option@, string_views(values@)),
{
    let ghost vs = string_views(values@);
    let mut i: usize = 0;
    while i < values.len()
        invariant
            i <= values.len(),
            vs == string_views(values@),
            all_valid_endpoints(vs.take(i as int)),
        decreases values.len() - i,
    {
        assert(vs[i as int] == values@[i as int]@);
        match endpoint_error(values[i].as_str()) {
            Some(reason) => {
                let e = EndpointError { option: option.to_string(), value: values[i].clone(), reason };
                assert(!is_valid_endpoint(vs[i as int]));
                assert(!all_valid_endpoints(vs)) by {
                    assert(!is_valid_endpoint(vs[i as int]));
                }
                return Err(e);
            },
            None => {},
        }
        assert(vs.take(i + 1) =~= vs.take(i as int).push(vs[i as int]));
        assert(all_valid_endpoints(vs.take(i + 1))) by {
            assert forall|j: int| 0 <= j < vs.take(i + 1).len() implies is_valid_endpoint(#[trigger] vs.take(i + 1)[j]) by {
                if j < i {
                    assert(vs.take(i + 1)[j] == vs.take(i as int)[j]);
                }
            }
        }
        i = i + 1;
    }
    assert(vs.take(values.len() as int) =~= vs);
    Ok(())
}

/// The text before and after the first `:` of `s` (`split_once(':')`).
pub open spec fn split_once_colon(s: Seq<char>) -> Option<(Seq<char>, Seq<char>)> {
    if exists|i: int| 0 <= i < s.len() && s[i] == ':' {
        let i = choose|i: int| 0 <= i < s.len() && s[i] == ':' && forall|j: int| 0 <= j < i ==> s[j] != ':';
        Some((s.take(i), s.skip(i + 1)))
    } else {
        None
    }
}

fn cfg_entry(arg: &String) -> (r: CfgEntry)
    ensures
        match split_once_colon(arg@) {
            Some((k, v)) => r matches CfgEntry::Pair(a, b) && a@ == k && b@ == v,
            None => r matches CfgEntry::Malformed(a) && a@ == arg@,
        },
{
    let cs = chars_of(arg.as_str());
    let mut i: usize = 0;
    while i < cs.len()
        invariant
            i <= cs.len(),
            cs@ == arg@,
            forall|j: int| 0 <= j < i ==> cs@[j] != ':',
        decreases cs.len() - i,
    {
        if cs[i] == ':' {
            let ghost w = i as int;
            assert(0 <= w < cs@.len() && cs@[w] == ':' && forall|j: int| 0 <= j < w ==> cs@[j] != ':');
            let ghost c = choose|c: int| 0 <= c < arg@.len() && arg@[c] == ':' && forall|j: int| 0 <= j < c ==> arg@[j] != ':';
            assert(c == w) by {
                if c < w {
                    assert(cs@[c] != ':');
                } else if c > w {
                    assert(arg@[w] != ':');
                }
            }
            let mut key: Vec<char> = Vec::new();
            let mut k: usize = 0;
            while k < i
                invariant
                    k <= i < cs.len(),
                    key@ == cs@.take(k as int),
                decreases i - k,
            {
                key.push(cs[k]);
                assert(cs@.take(k + 1) =~= cs@.take(k as int).push(cs@[k as int]));
                k = k + 1;
            }
            let mut value: Vec<char> = Vec::new();
            let mut m: usize = i + 1;
            while m < cs.len()
                invariant
                    i + 1 <= m <= cs.len(),
                    value@ == cs@.subrange(i + 1, m as int),
                decreases cs.len() - m,
            {
                value.push(cs[m]);
                assert(cs@.subrange(i + 1, m + 1) =~= cs@.subrange(i + 1, m as int).push(cs@[m as int]));
                m = m + 1;
            }
            assert(value@ =~= cs@.skip(i + 1));
            return CfgEntry::Pair(string_of(key.as_slice()), string_of(value.as_slice()));
        }
        i = i + 1;
    }
    CfgEntry::Malformed(arg.clone())
}

/// Whether `e` is the entry that `split_once_colon` gives for `arg`.
pub open spec fn cfg_entry_of(arg: Seq<char>, e: CfgEntry) -> bool {
    match split_once_colon(arg) {
        Some((k, v)) => e matches CfgEntry::Pair(a, b) && a@ == k && b@ == v,
        None => e matches CfgEntry::Malformed(a) && a@ == arg,
    }
}

impl Args {
    /// The directory of the recorded files.
    pub fn output_path(&self) -> (r: &str)
        ensures
            r@ == self.output_path@,
    {
        self.output_path.as_str()
    }

    /// Whether `plan` holds the changes this command line asks of the Zenoh
    /// configuration: the given mode (else client mode when there is no
    /// configuration file), the REST port unless it is `none` (in any case),
    /// the given endpoints (else the default router), the timeout, multicast
    /// scouting, and the `--cfg` changes in order.
    pub open spec fn planned(&self, plan: ConfigPlan) -> bool {
        &&& plan.config_file == self.config
        &&& match self.mode {
            Some(m) => plan.mode_json matches Some(j) && j@ == quoted(mode_name(m)),
            None => match self.config {
                None => plan.mode_json matches Some(j) && j@ == quoted("client"@),
                Some(_) => plan.mode_json is None,
            },
        }
        &&& match self.rest_http_port {
            Some(p) => if is_none_word(p@) {
                plan.rest_http_port_json is None
            } else {
                plan.rest_http_port_json matches Some(j) && j@ == quoted(p@)
            },
            None => plan.rest_http_port_json is None,
        }
        &&& self.connect.len() > 0 ==> (plan.connect matches ConnectPlan::Endpoints(e) && string_views(e@)
            == string_views(self.connect@))
        &&& self.connect.len() == 0 ==> (plan.connect matches ConnectPlan::DefaultJson(j) && j@ == seq!['['] + quoted(
            "tcp/localhost:7447"@,
        ) + seq![']'])
        &&& string_views(plan.listen@) == string_views(self.listen@)
        &&& plan.connect_timeout_ms == self.connect_timeout
        &&& plan.no_multicast_scouting == self.no_multicast_scouting
        &&& plan.cfg.len() == self.cfg.len()
        &&& forall|i: int| 0 <= i < self.cfg.len() ==> cfg_entry_of(self.cfg@[i]@, #[trigger] plan.cfg@[i])
    }

    fn plan(&self) -> (plan: ConfigPlan)
        ensures
            self.planned(plan),
    {
        let mode_json = match self.mode {
            Some(m) => Some(quote(m.to_str().as_str())),
            None => if self.config.is_none() {
                Some(quote(SessionMode::Client.to_str().as_str()))
            } else {
                None
            },
        };
        let rest_http_port_json = match &self.rest_http_port {
            Some(p) => if is_none_exec(p.as_str()) {
                None
            } else {
                Some(quote(p.as_str()))
            },
            None => None,
        };
        let connect = if self.connect.len() > 0 {
            ConnectPlan::Endpoints(self.connect.clone())
        } else {
            let q = quote(DEFAULT_ZENOHD);
            let head = concat_strs("[", q.as_str());
            let j = concat_strs(head.as_str(), "]");
            proof {
                reveal_strlit("[");
                reveal_strlit("]");
            }
            assert("["@ =~= seq!['[']);
            assert("]"@ =~= seq![']']);
            ConnectPlan::DefaultJson(j)
        };
        let mut cfg: Vec<CfgEntry> = Vec::new();
        let mut i: usize = 0;
        while i < self.cfg.len()
            invariant
                i <= self.cfg.len(),
                cfg.len() == i,
                forall|j: int| 0 <= j < i ==> cfg_entry_of(self.cfg@[j]@, #[trigger] cfg@[j]),
            decreases self.cfg.len() - i,
        {
            cfg.push(cfg_entry(&self.cfg[i]));
            i = i + 1;
        }
        ConfigPlan {
            config_file: self.config.clone(),
            mode_json,
            rest_http_port_json,
            connect,
            listen: self.listen.clone(),
            connect_timeout_ms: self.connect_timeout,
            no_multicast_scouting: self.no_multicast_scouting,
            cfg,
        }
    }

    /// The changes this command line asks of the Zenoh configuration (see
    /// [`Args::planned`]); an error for the first endpoint, of `--connect`
    /// and then of `--listen`, that zenoh does not read.
    pub fn zenoh_config(&self) -> (r: Result<ConfigPlan, EndpointError>)
        ensures
            r is Ok <==> all_valid_endpoints(string_views(self.connect@)) && all_valid_endpoints(
                string_views(self.listen@),
            ),
            r matches Ok(plan) ==> self.planned(plan),
            r matches Err(e) ==> if !all_valid_endpoints(string_views(self.connect@)) {
                reports_first_invalid(e, "connect"@, string_views(self.connect@))
            } else {
                reports_first_invalid(e, "listen"@, string_views(self.listen@))
            },
    {
        check_endpoints(&self.connect, "connect")?;
        check_endpoints(&self.listen, "listen")?;
        Ok(self.plan())
    }
}

} // verus!
