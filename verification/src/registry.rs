//! The queries sent to the ROS 2 type registry.
use vstd::prelude::*;
use crate::text::concat_strs;

verus! {

broadcast use vstd::string::group_string_axioms;

/// The key that answers with the registry's ROS distribution.
pub const ROS_DISTRO_REGISTRY_KEY: &'static str = "@ros2_env/ROS_DISTRO";

/// The ROS distribution assumed when the registry does not answer.
pub const DEFAULT_ROS_DISTRO: &'static str = "kilted";

/// The ROS distribution: the registry's answer, or `kilted` without one.
pub fn ros_distro_or_default(reply: Option<String>) -> (r: String)
    ensures
        r@ == match reply {
            Some(d) => d@,
            None => "kilted"@,
        },
{
    match reply {
        Some(d) => d,
        None => DEFAULT_ROS_DISTRO.to_string(),
    }
}

/// The query for the MCAP schema of the ROS type `rostype`:
/// `@ros2_types/<rostype>?format=Mcap`.
pub fn ros_type_query(rostype: &str) -> (r: String)
    ensures
        r@ == "@ros2_types/"@ + rostype@ + "?format=Mcap"@,
{
    let head = concat_strs("@ros2_types/", rostype);
    concat_strs(head.as_str(), "?format=Mcap")
}

} // verus!
