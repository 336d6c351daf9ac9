//! The rosbag2 metadata written into a recording, and the ids of the
//! entities the recorder announces.
use vstd::prelude::*;

verus! {

broadcast use vstd::string::group_string_axioms;

#[verifier::external_type_specification]
#[verifier::external_body]
pub struct ExSystemTimeError(std::time::SystemTimeError);

/// The nanoseconds elapsed since the Unix epoch
/// (`SystemTime::now().duration_since(UNIX_EPOCH)`, then `as_nanos`); an
/// error when the clock is before the epoch. It depends on the clock:
/// nothing is claimed of the value.
#[verifier::external_body]
pub(crate) fn nanos_since_unix_epoch() -> (r: Result<u128, std::time::SystemTimeError>) {
    match std::time::SystemTime::now().duration_since(std::time::UNIX_EPOCH) {
        Ok(d) => Ok(d.as_nanos()),
        Err(e) => Err(e),
    }
}

/// A duration in nanoseconds.
#[derive(Debug, Clone, Copy, PartialEq, Eq, Structural)]
pub struct NanoDuration {
    pub nanoseconds: u128,
}

/// A point in time, in nanoseconds since the Unix epoch.
#[derive(Debug, Clone, Copy, PartialEq, Eq, Structural)]
pub struct StartingTime {
    pub nanoseconds_since_epoch: u128,
}

/// The metadata of a rosbag2 recording.
#[derive(Debug)]
pub struct BagMetadata {
    pub version: u32,
    pub storage_identifier: String,
    pub relative_file_paths: Vec<String>,
    pub files: Vec<String>,
    pub duration: NanoDuration,
    pub starting_time: StartingTime,
    pub message_count: u64,
    pub topics_with_message_count: Vec<String>,
    pub compression_format: String,
    pub compression_mode: String,
    pub custom_data: String,
    pub ros_distro: String,
}

/// Why the metadata of a recording could not be made.
#[derive(Debug, Clone, Copy, PartialEq, Eq)]
pub enum BagError {
    /// The system clock is before the Unix epoch.
    ClockBeforeEpoch,
}

impl BagMetadata {
    /// Whether `self` is the metadata of a new, empty recording into the
    /// file `filename`, started `nanos` nanoseconds after the epoch, for
    /// the ROS distribution `ros_distro`: version 9, MCAP storage, no
    /// compression, no messages, `~` as custom data.
    pub open spec fn describes_new(&self, filename: Seq<char>, ros_distro: Seq<char>, nanos: u128) -> bool {
        &&& self.version == 9
        &&& self.storage_identifier@ == "mcap"@
        &&& self.relative_file_paths@.len() == 1
        &&& self.relative_file_paths@[0]@ == filename
        &&& self.files@.len() == 0
        &&& self.duration == NanoDuration { nanoseconds: 0 }
        &&& self.starting_time == StartingTime { nanoseconds_since_epoch: nanos }
        &&& self.message_count == 0
        &&& self.topics_with_message_count@.len() == 0
        &&& self.compression_format@ == ""@
        &&& self.compression_mode@ == ""@
        &&& self.custom_data@ == "~"@
        &&& self.ros_distro@ == ros_distro
    }

    /// The metadata of a recording into `filename` started at `nanos`.
    pub fn starting_at(filename: &String, ros_distro: String, nanos: u128) -> (m: Self)
        ensures
            m.describes_new(filename@, ros_distro@, nanos),
    {
        BagMetadata {
            version: 9,
            storage_identifier: "mcap".to_string(),
            relative_file_paths: vec![filename.clone()],
            files: Vec::new(),
            duration: NanoDuration { nanoseconds: 0 },
            starting_time: StartingTime { nanoseconds_since_epoch: nanos },
            message_count: 0,
            topics_with_message_count: Vec::new(),
            compression_format: "".to_string(),
            compression_mode: "".to_string(),
            custom_data: "~".to_string(),
            ros_distro,
        }
    }

    /// The metadata of a recording into `filename` that starts now.
    pub fn new(filename: &String, ros_distro: String) -> (r: Result<Self, BagError>)
        ensures
            r matches Ok(m) ==> m.describes_new(filename@, ros_distro@, m.starting_time.nanoseconds_since_epoch),
            r matches Err(e) ==> e == BagError::ClockBeforeEpoch,
    {
        match nanos_since_unix_epoch() {
            Ok(nanos) => {
                let m = Self::starting_at(filename, ros_distro, nanos);
                Ok(m)
            },
            Err(_) => Err(BagError::ClockBeforeEpoch),
        }
    }
}

/// The source of the entity ids the recorder announces its subscriptions
/// under.
pub struct EntityIds {
    next: u32,
}

impl EntityIds {
    /// The id the next call of `get_entity_id` hands out.
    pub closed spec fn next_id(&self) -> u32 {
        self.next
    }

    /// Ids handed out from 1 on.
    pub fn new() -> (r: Self)
        ensures
            r.next_id() == 1,
    {
        EntityIds { next: 1 }
    }
}

/// The id after `id`, wrapping around after `u32::MAX`.
pub open spec fn following_id(id: u32) -> u32 {
    if id == u32::MAX {
        0
    } else {
        (id + 1) as u32
    }
}

/// Hands out a new entity id, one more than the last (wrapping around).
pub fn get_entity_id(ids: &mut EntityIds) -> (id: u32)
    ensures
        id == old(ids).next_id(),
        final(ids).next_id() == following_id(id),
{
    let id = ids.next;
    ids.next = ids.next.wrapping_add(1);
    id
}

/// The id handed out by the `k`-th call (counting from 0) after the counter
/// stood at `start`.
pub open spec fn nth_entity_id(start: u32, k: nat) -> u32
    decreases k,
{
    if k == 0 {
        start
    } else {
        following_id(nth_entity_id(start, (k - 1) as nat))
    }
}

proof fn lemma_nth_entity_id(start: u32, k: nat)
    ensures
        nth_entity_id(start, k) as int == (start + k) % 0x1_0000_0000,
    decreases k,
{
    if k > 0 {
        lemma_nth_entity_id(start, (k - 1) as nat);
    }
}

/// Fewer than 2^32 successive calls never hand out the same id twice.
pub proof fn law_entity_ids_distinct(start: u32, i: nat, j: nat)
    requires
        i < j < 0x1_0000_0000,
    ensures
        nth_entity_id(start, i) != nth_entity_id(start, j),
{
    lemma_nth_entity_id(start, i);
    lemma_nth_entity_id(start, j);
}

} // verus!
