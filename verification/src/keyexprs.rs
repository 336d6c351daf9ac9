//! The key expressions of this recorder: the liveliness tokens of the ROS 2
//! graph, the topics it subscribes to and the commands it answers.
//!
//! Which strings are key expressions, which key expression includes which
//! and how zenoh writes one in canonical form is zenoh's to decide; the
//! layouts of the tokens and topics are this crate's.
use vstd::prelude::*;
use crate::numparse::{decimal, format_u32};
use crate::text::{
    chars_of, join_with, lemma_join_split, lemma_split_concat, lemma_split_no_sep, split_chars,
    split_on, string_of, views,
};

verus! {

broadcast use vstd::string::group_string_axioms;

/// Whether zenoh accepts `s` as a key expression (`keyexpr::new`).
pub uninterp spec fn is_valid_keyexpr(s: Seq<char>) -> bool;

/// Whether `a` and `b` are both key expressions and the set of keys that
/// `a` denotes includes that of `b` (`keyexpr::includes`).
pub uninterp spec fn keyexpr_includes(a: Seq<char>, b: Seq<char>) -> bool;

/// The canonical form that zenoh gives `s`, if it is a key expression once
/// canonized (`OwnedKeyExpr::autocanonize`).
pub uninterp spec fn canonized_keyexpr(s: Seq<char>) -> Option<Seq<char>>;

/// `keyexpr::new(s).is_ok()`: whether `s` is a valid (canonical) key
/// expression. Nothing more is claimed of zenoh's rules.
#[verifier::external_body]
pub(crate) fn keyexpr_is_valid(s: &str) -> (r: bool)
    ensures
        r == is_valid_keyexpr(s@),
{
    zenoh::key_expr::keyexpr::new(s).is_ok()
}

/// `keyexpr::includes` on two strings, false when either is not a key
/// expression. zenoh's `LTRIncluder` lets the single chunk `*` include only
/// non-empty single chunks, so what `*` includes holds no `/`.
#[verifier::external_body]
pub(crate) fn keyexpr_includes_exec(a: &str, b: &str) -> (r: bool)
    ensures
        r == keyexpr_includes(a@, b@),
        r ==> is_valid_keyexpr(a@) && is_valid_keyexpr(b@),
        r && a@ == seq!['*'] ==> b@.len() > 0 && !b@.contains('/'),
{
    match (zenoh::key_expr::keyexpr::new(a), zenoh::key_expr::keyexpr::new(b)) {
        (Ok(a), Ok(b)) => a.includes(b),
        _ => false,
    }
}

/// `OwnedKeyExpr::autocanonize(s)`: the canonical key expression of `s`, or
/// `None` when zenoh rejects it.
#[verifier::external_body]
pub(crate) fn autocanonize_keyexpr(s: String) -> (r: Option<String>)
    ensures
        r matches Some(c) ==> canonized_keyexpr(s@) == Some(c@),
        r is None ==> canonized_keyexpr(s@) is None,
{
    match zenoh::key_expr::OwnedKeyExpr::autocanonize(s) {
        Ok(k) => Some(k.as_str().to_string()),
        Err(_) => None,
    }
}

/// Why a key expression could not be formatted.
#[derive(Debug, Clone, Copy, PartialEq, Eq)]
pub enum KeyFormatError {
    /// A value is not a key expression that its field's pattern includes.
    PatternNotMatched,
    /// The formatted text is not a key expression.
    InvalidKeyExpr,
}

/// The first chunk of the liveliness tokens of the ROS 2 graph.
pub open spec fn graphcache_prefix() -> Seq<char> {
    seq!['@', 'r', 'o', 's', '2', '_', 'l', 'v']
}

/// The number of fields of a graph liveliness token: domain, zid, node,
/// entity, entity kind, enclave, namespace, node name, topic, ROS type,
/// type hash and QoS.
pub open spec fn graphcache_field_count() -> int {
    12
}

/// Whether `v` is a non-empty chunk that is not verbatim (a verbatim chunk
/// starts with `@`, and a `*` field of a key expression format does not
/// match it).
pub open spec fn plain_chunk(v: Seq<char>) -> bool {
    v.len() > 0 && v[0] != '@'
}

/// The fields of the liveliness token `s`:
/// `@ros2_lv/domain/zid/node/entity/kind/enclave/namespace/node_name/topic/rostype/hash/qos`,
/// each field one non-empty chunk that is not verbatim.
pub open spec fn graphcache_fields(s: Seq<char>) -> Option<Seq<Seq<char>>> {
    let parts = split_on(s, '/');
    if parts.len() == graphcache_field_count() + 1 && parts[0] == graphcache_prefix() && (forall|i: int|
        1 <= i < parts.len() ==> plain_chunk(#[trigger] parts[i])) {
        Some(parts.drop_first())
    } else {
        None
    }
}

/// The liveliness token with the given fields, before zenoh canonizes it.
pub open spec fn graphcache_text(fields: Seq<Seq<char>>) -> Seq<char> {
    join_with(seq![graphcache_prefix()] + fields, '/')
}

/// Whether `v` fits a `*` field of a key expression format.
pub open spec fn fits_chunk(v: Seq<char>) -> bool {
    keyexpr_includes(seq!['*'], v)
}

fn chars_equal(a: &Vec<char>, b: &Vec<char>) -> (r: bool)
    ensures
        r == (a@ == b@),
{
    if a.len() != b.len() {
        return false;
    }
    let mut i: usize = 0;
    while i < a.len()
        invariant
            i <= a.len() == b.len(),
            forall|j: int| 0 <= j < i ==> a@[j] == b@[j],
        decreases a.len() - i,
    {
        if a[i] != b[i] {
            return false;
        }
        i = i + 1;
    }
    assert(a@ =~= b@);
    true
}

/// Splits the liveliness token `s` into its fields.
pub fn parse_graphcache(s: &str) -> (r: Option<Vec<Vec<char>>>)
    ensures
        r is Some <==> graphcache_fields(s@) is Some,
        r matches Some(f) ==> graphcache_fields(s@) == Some(views(f@)),
{
    let cs = chars_of(s);
    let mut parts = split_chars(cs.as_slice(), '/');
    let ghost v = views(parts@);
    if parts.len() != 13 {
        return None;
    }
    let prefix = vec!['@', 'r', 'o', 's', '2', '_', 'l', 'v'];
    assert(prefix@ =~= graphcache_prefix());
    assert(v[0] == parts@[0]@);
    if !chars_equal(&parts[0], &prefix) {
        return None;
    }
    let mut i: usize = 1;
    while i < 13
        invariant
            1 <= i <= 13,
            parts.len() == 13,
            v == views(parts@),
            v == split_on(s@, '/'),
            forall|j: int| 1 <= j < i ==> plain_chunk(#[trigger] v[j]),
        decreases 13 - i,
    {
        assert(v[i as int] == parts@[i as int]@);
        if parts[i].len() == 0 || parts[i][0] == '@' {
            assert(!plain_chunk(split_on(s@, '/')[i as int]));
            return None;
        }
        i = i + 1;
    }
    parts.remove(0);
    assert(views(parts@) =~= v.drop_first());
    Some(parts)
}

/// The views of a vector of strings.
pub open spec fn string_views(v: Seq<String>) -> Seq<Seq<char>> {
    v.map_values(|f: String| f@)
}

/// What formatting the liveliness token with the given fields gives: an
/// error when a field does not fit a `*` field, else zenoh's canonical form
/// of the token.
pub open spec fn graphcache_format(fields: Seq<Seq<char>>) -> Result<Seq<char>, KeyFormatError> {
    if exists|i: int| 0 <= i < fields.len() && !fits_chunk(#[trigger] fields[i]) {
        Err(KeyFormatError::PatternNotMatched)
    } else {
        match canonized_keyexpr(graphcache_text(fields)) {
            Some(k) => Ok(k),
            None => Err(KeyFormatError::InvalidKeyExpr),
        }
    }
}

/// Formats the liveliness token with the given fields: each must fit a `*`
/// field, and zenoh canonizes the result.
pub fn format_graphcache(fields: &Vec<String>) -> (r: Result<String, KeyFormatError>)
    requires
        fields.len() == graphcache_field_count(),
    ensures
        r matches Ok(k) ==> graphcache_format(string_views(fields@)) == Ok::<Seq<char>, KeyFormatError>(k@),
        r matches Err(e) ==> graphcache_format(string_views(fields@)) == Err::<Seq<char>, KeyFormatError>(e),
{
    let ghost fv = fields@.map_values(|f: String| f@);
    let mut i: usize = 0;
    while i < fields.len()
        invariant
            i <= fields.len(),
            forall|j: int| 0 <= j < i ==> fits_chunk(#[trigger] fields@[j]@),
        decreases fields.len() - i,
    {
        let star = "*";
        proof { reveal_strlit("*"); }
        assert(star@ =~= seq!['*']);
        if !keyexpr_includes_exec(star, fields[i].as_str()) {
            assert(!fits_chunk(fields@[i as int]@));
            assert(!fits_chunk(string_views(fields@)[i as int]));
            return Err(KeyFormatError::PatternNotMatched);
        }
        i = i + 1;
    }
    let mut text: Vec<char> = chars_of("@ros2_lv");
    proof { reveal_strlit("@ros2_lv"); }
    assert(text@ =~= graphcache_prefix());
    let mut k: usize = 0;
    while k < fields.len()
        invariant
            k <= fields.len() == graphcache_field_count(),
            fv == fields@.map_values(|f: String| f@),
            text@ == join_with(seq![graphcache_prefix()] + fv.take(k as int), '/'),
        decreases fields.len() - k,
    {
        let ghost before = text@;
        let piece = chars_of(fields[k].as_str());
        text.push('/');
        let mut j: usize = 0;
        let ghost mid = text@;
        while j < piece.len()
            invariant
                j <= piece.len(),
                text@ == mid + piece@.take(j as int),
            decreases piece.len() - j,
        {
            text.push(piece[j]);
            assert(piece@.take(j + 1) =~= piece@.take(j as int).push(piece@[j as int]));
            j = j + 1;
        }
        assert(piece@.take(piece.len() as int) =~= piece@);
        let ghost ps = seq![graphcache_prefix()] + fv.take(k + 1);
        assert(ps.drop_last() =~= seq![graphcache_prefix()] + fv.take(k as int));
        assert(ps.last() == fields@[k as int]@);
        assert(text@ =~= before + seq!['/'] + piece@);
        k = k + 1;
    }
    assert(fv.take(fields.len() as int) =~= fv);
    assert(fv == string_views(fields@));
    assert(!exists|i: int| 0 <= i < fv.len() && !fits_chunk(#[trigger] fv[i])) by {
        assert forall|i: int| 0 <= i < fv.len() implies fits_chunk(#[trigger] fv[i]) by {
            assert(fv[i] == fields@[i]@);
        }
    }
    match autocanonize_keyexpr(string_of(text.as_slice())) {
        Some(key) => Ok(key),
        None => Err(KeyFormatError::InvalidKeyExpr),
    }
}

/// Splitting the joined pieces gives them back when none holds the separator.
proof fn lemma_split_join(ps: Seq<Seq<char>>, sep: char)
    requires
        ps.len() >= 1,
        forall|i: int| 0 <= i < ps.len() ==> !(#[trigger] ps[i]).contains(sep),
    ensures
        split_on(join_with(ps, sep), sep) == ps,
    decreases ps.len(),
{
    if ps.len() == 1 {
        lemma_split_no_sep(ps[0], sep);
        assert(seq![ps[0]] =~= ps);
    } else {
        lemma_split_join(ps.drop_last(), sep);
        lemma_split_concat(join_with(ps.drop_last(), sep), ps.last(), sep);
        lemma_split_no_sep(ps.last(), sep);
        assert(ps.drop_last() + seq![ps.last()] =~= ps);
    }
}

/// A liveliness token written from single-chunk, non-verbatim fields reads
/// back as those fields.
pub proof fn law_graphcache_fields_of_text(fields: Seq<Seq<char>>)
    requires
        fields.len() == graphcache_field_count(),
        forall|i: int| 0 <= i < fields.len() ==> plain_chunk(#[trigger] fields[i]) && !fields[i].contains('/'),
    ensures
        graphcache_fields(graphcache_text(fields)) == Some(fields),
{
    let ps = seq![graphcache_prefix()] + fields;
    assert forall|i: int| 0 <= i < ps.len() implies !(#[trigger] ps[i]).contains('/') by {
        if i == 0 {
            if ps[0].contains('/') {
                let j = choose|j: int| 0 <= j < ps[0].len() && ps[0][j] == '/';
                assert(graphcache_prefix()[j] != '/');
            }
        } else {
            assert(ps[i] == fields[i - 1]);
        }
    }
    lemma_split_join(ps, '/');
    let parts = split_on(graphcache_text(fields), '/');
    assert(parts == ps);
    assert forall|i: int| 1 <= i < parts.len() implies plain_chunk(#[trigger] parts[i]) by {
        assert(parts[i] == fields[i - 1]);
    }
    assert(parts.drop_first() =~= fields);
}

/// A liveliness token is its fields written back: parsing loses nothing.
pub proof fn law_graphcache_text_of_fields(s: Seq<char>)
    requires
        graphcache_fields(s) is Some,
    ensures
        graphcache_text(graphcache_fields(s).unwrap()) == s,
{
    let parts = split_on(s, '/');
    lemma_join_split(s, '/');
    assert(seq![graphcache_prefix()] + parts.drop_first() =~= parts);
}

/// The topic-data key expression `domain/topic/*/*` (the last two chunks
/// stand for any ROS type and type hash), before zenoh canonizes it; an
/// empty topic leaves no chunk.
pub open spec fn topic_data_text(domain: u32, topic: Seq<char>) -> Seq<char> {
    if topic.len() == 0 {
        decimal(domain as nat) + seq!['/', '*', '/', '*']
    } else {
        decimal(domain as nat) + seq!['/'] + topic + seq!['/', '*', '/', '*']
    }
}

/// What formatting the topic-data key expression of `topic` in `domain`
/// gives: an error when the topic is neither empty nor included by `**`,
/// else zenoh's canonical form of the key expression.
pub open spec fn topic_data_format(domain: u32, topic: Seq<char>) -> Result<Seq<char>, KeyFormatError> {
    if topic.len() > 0 && !keyexpr_includes(seq!['*', '*'], topic) {
        Err(KeyFormatError::PatternNotMatched)
    } else {
        match canonized_keyexpr(topic_data_text(domain, topic)) {
            Some(k) => Ok(k),
            None => Err(KeyFormatError::InvalidKeyExpr),
        }
    }
}

/// Formats the key expression on which the data of `topic` in `domain` is
/// published, whatever its ROS type and hash.
pub fn format_topic_data(domain: u32, topic: &str) -> (r: Result<String, KeyFormatError>)
    ensures
        r matches Ok(k) ==> topic_data_format(domain, topic@) == Ok::<Seq<char>, KeyFormatError>(k@),
        r matches Err(e) ==> topic_data_format(domain, topic@) == Err::<Seq<char>, KeyFormatError>(e),
{
    let t = chars_of(topic);
    let double_star = "**";
    proof { reveal_strlit("**"); }
    assert(double_star@ =~= seq!['*', '*']);
    if t.len() > 0 && !keyexpr_includes_exec(double_star, topic) {
        return Err(KeyFormatError::PatternNotMatched);
    }
    let mut text = chars_of(format_u32(domain).as_str());
    if t.len() > 0 {
        text.push('/');
        let mut j: usize = 0;
        let ghost mid = text@;
        while j < t.len()
            invariant
                j <= t.len(),
                text@ == mid + t@.take(j as int),
            decreases t.len() - j,
        {
            text.push(t[j]);
            assert(t@.take(j + 1) =~= t@.take(j as int).push(t@[j as int]));
            j = j + 1;
        }
        assert(t@.take(t.len() as int) =~= t@);
    }
    text.push('/');
    text.push('*');
    text.push('/');
    text.push('*');
    assert(text@ =~= topic_data_text(domain, topic@));
    match autocanonize_keyexpr(string_of(text.as_slice())) {
        Some(key) => Ok(key),
        None => Err(KeyFormatError::InvalidKeyExpr),
    }
}

/// The command named by a key expression `@mcap/writer/<command>`.
pub open spec fn command_of_keyexpr(s: Seq<char>) -> Option<Seq<char>> {
    let parts = split_on(s, '/');
    if parts.len() == 3 && parts[0] == seq!['@', 'm', 'c', 'a', 'p'] && parts[1] == seq![
        'w',
        'r',
        'i',
        't',
        'e',
        'r',
    ] && parts[2].len() > 0 {
        Some(parts[2])
    } else {
        None
    }
}

/// The command of a query on `@mcap/writer/<command>`.
pub fn parse_command_keyexpr(s: &str) -> (r: Option<String>)
    ensures
        r is Some <==> command_of_keyexpr(s@) is Some,
        r matches Some(c) ==> command_of_keyexpr(s@) == Some(c@),
{
    let cs = chars_of(s);
    let parts = split_chars(cs.as_slice(), '/');
    let ghost v = views(parts@);
    if parts.len() != 3 {
        return None;
    }
    let mcap = vec!['@', 'm', 'c', 'a', 'p'];
    let writer = vec!['w', 'r', 'i', 't', 'e', 'r'];
    assert(v[0] == parts@[0]@ && v[1] == parts@[1]@ && v[2] == parts@[2]@);
    if !chars_equal(&parts[0], &mcap) || !chars_equal(&parts[1], &writer) || parts[2].len() == 0 {
        return None;
    }
    Some(string_of(parts[2].as_slice()))
}

} // verus!
