//! ROS type names and the key expressions under which `rmw_zenoh`
//! publishes topic data.
use vstd::prelude::*;
use crate::text::{
    chars_of, join_range, join_with, lemma_join_concat, lemma_join_split, lemma_split_concat,
    lemma_split_no_sep, lemma_split_on_nonempty, lemma_split_pieces_no_sep, replace_all,
    replace_chars, split_chars, split_on, string_of, views,
};

verus! {

/// The `dds_::` infix of DDS type names.
pub open spec fn dds_infix() -> Seq<char> {
    seq!['d', 'd', 's', '_', ':', ':']
}

/// The `::` path separator of DDS type names.
pub open spec fn path_separator() -> Seq<char> {
    seq![':', ':']
}

/// The ROS type name of a DDS type name: every `dds_::` is removed, every
/// `::` becomes `/`, and the last character (the `_` that DDS appends) is
/// dropped.
pub open spec fn ros_type_of_dds(dds: Seq<char>) -> Seq<char> {
    let stripped = replace_all(replace_all(dds, dds_infix(), Seq::<char>::empty()), path_separator(), seq!['/']);
    if stripped.len() == 0 {
        stripped
    } else {
        stripped.drop_last()
    }
}

/// Transforms a DDS type name into a ROS type name, e.g.
/// `std_msgs::msg::dds_::String_` into `std_msgs/msg/String`.
pub fn dds_type_to_ros_type(dds_type: &str) -> (ros_type: String)
    ensures
        ros_type@ == ros_type_of_dds(dds_type@),
{
    let cs = chars_of(dds_type);
    let infix = vec!['d', 'd', 's', '_', ':', ':'];
    let empty: Vec<char> = Vec::new();
    let without_infix = replace_chars(cs.as_slice(), infix.as_slice(), empty.as_slice());
    let colons = vec![':', ':'];
    let slash = vec!['/'];
    let mut ros = replace_chars(without_infix.as_slice(), colons.as_slice(), slash.as_slice());
    assert(infix@ =~= dds_infix());
    assert(empty@ =~= Seq::<char>::empty());
    assert(colons@ =~= path_separator());
    assert(slash@ =~= seq!['/']);
    let ghost before = ros@;
    if ros.len() > 0 {
        ros.pop();
        assert(ros@ =~= before.drop_last());
    }
    string_of(ros.as_slice())
}

/// Why a key expression is not `Domain/Topic/Rostype/Hash`.
#[derive(Debug, Clone, Copy, PartialEq, Eq)]
pub enum RosKeyExprError {
    /// Fewer than four chunks.
    WrongFormat,
}

/// The parts of the key expression `Domain/Topic/Rostype/Hash`, where the
/// topic may span several chunks: the first chunk, the chunks between, the
/// last but one and the last.
pub open spec fn subscription_parts(s: Seq<char>) -> Option<(Seq<char>, Seq<char>, Seq<char>, Seq<char>)> {
    let parts = split_on(s, '/');
    if parts.len() < 4 {
        None
    } else {
        Some((
            parts[0],
            join_with(parts.subrange(1, parts.len() - 2), '/'),
            parts[parts.len() - 2],
            parts[parts.len() - 1],
        ))
    }
}

/// Parses the key expression `Domain/Topic/Rostype/Hash` of a topic's data
/// into its domain, topic, ROS type and type hash.
pub fn parse_subscription_ros_keyepxr(input: &str) -> (r: Result<(String, String, String, String), RosKeyExprError>)
    ensures
        r is Ok <==> subscription_parts(input@) is Some,
        r matches Ok((d, t, ty, h)) ==> subscription_parts(input@) == Some((d@, t@, ty@, h@)),
{
    let cs = chars_of(input);
    let parts = split_chars(cs.as_slice(), '/');
    let ghost v = views(parts@);
    if parts.len() < 4 {
        return Err(RosKeyExprError::WrongFormat);
    }
    let n = parts.len();
    let domain = string_of(parts[0].as_slice());
    let hash = string_of(parts[n - 1].as_slice());
    let rostype = string_of(parts[n - 2].as_slice());
    let topic_chars = join_range(&parts, 1, n - 2, '/');
    let topic = string_of(topic_chars.as_slice());
    assert(v[0] == parts@[0]@);
    assert(v[n - 1] == parts@[n - 1]@);
    assert(v[n - 2] == parts@[n - 2]@);
    Ok((domain, topic, rostype, hash))
}

/// The key expression `domain/topic/rostype/hash`.
pub open spec fn subscription_keyexpr(d: Seq<char>, t: Seq<char>, ty: Seq<char>, h: Seq<char>) -> Seq<char> {
    d + seq!['/'] + t + seq!['/'] + ty + seq!['/'] + h
}

/// Parsing loses nothing: the parts of a key expression, put back together
/// with `/`, are the key expression.
pub proof fn law_subscription_parts_rebuild(s: Seq<char>)
    requires
        subscription_parts(s) is Some,
    ensures
        ({
            let (d, t, ty, h) = subscription_parts(s).unwrap();
            subscription_keyexpr(d, t, ty, h) == s
        }),
{
    let parts = split_on(s, '/');
    let n = parts.len() as int;
    lemma_join_split(s, '/');
    let head = parts.subrange(0, 1);
    let mid = parts.subrange(1, n - 2);
    let tail = parts.subrange(n - 2, n);
    assert(parts =~= head + (mid + tail));
    lemma_join_concat(mid, tail, '/');
    lemma_join_concat(head, mid + tail, '/');
    assert(tail.drop_last() =~= seq![parts[n - 2]]);
    assert(tail.len() == 2);
    assert(tail.last() == parts[n - 1]);
    assert(join_with(seq![parts[n - 2]], '/') == parts[n - 2]);
    assert(join_with(tail, '/') == parts[n - 2] + seq!['/'] + parts[n - 1]);
    assert(join_with(head, '/') == parts[0]);
    let j = join_with(mid, '/');
    assert(parts[0] + seq!['/'] + (j + seq!['/'] + (parts[n - 2] + seq!['/'] + parts[n - 1]))
        =~= subscription_keyexpr(parts[0], j, parts[n - 2], parts[n - 1]));
}

/// The domain, ROS type and hash of a parsed key expression hold no `/`.
pub proof fn law_subscription_parts_single_chunks(s: Seq<char>)
    requires
        subscription_parts(s) is Some,
    ensures
        ({
            let (d, t, ty, h) = subscription_parts(s).unwrap();
            !d.contains('/') && !ty.contains('/') && !h.contains('/')
        }),
{
    let parts = split_on(s, '/');
    lemma_split_pieces_no_sep(s, '/');
    assert(!parts[0].contains('/'));
    assert(!parts[parts.len() - 2].contains('/'));
    assert(!parts[parts.len() - 1].contains('/'));
}

/// Parsing `domain/topic/rostype/hash` gives back its parts when the
/// domain, ROS type and hash are single chunks, whatever the topic.
pub proof fn law_subscription_parts_of_keyexpr(d: Seq<char>, t: Seq<char>, ty: Seq<char>, h: Seq<char>)
    requires
        !d.contains('/'),
        !ty.contains('/'),
        !h.contains('/'),
    ensures
        subscription_parts(subscription_keyexpr(d, t, ty, h)) == Some((d, t, ty, h)),
{
    let s = subscription_keyexpr(d, t, ty, h);
    let rest = t + seq!['/'] + ty + seq!['/'] + h;
    assert(s =~= d + seq!['/'] + rest);
    lemma_split_concat(d, rest, '/');
    let tail = ty + seq!['/'] + h;
    assert(rest =~= t + seq!['/'] + tail);
    lemma_split_concat(t, tail, '/');
    lemma_split_concat(ty, h, '/');
    lemma_split_no_sep(d, '/');
    lemma_split_no_sep(ty, '/');
    lemma_split_no_sep(h, '/');
    lemma_split_on_nonempty(t, '/');
    let ts = split_on(t, '/');
    let parts = split_on(s, '/');
    assert(parts =~= seq![d] + ts + seq![ty] + seq![h]);
    let n = parts.len() as int;
    assert(parts.subrange(1, n - 2) =~= ts);
    lemma_join_split(t, '/');
    assert(parts[0] == d);
    assert(parts[n - 2] == ty);
    assert(parts[n - 1] == h);
}

} // verus!
