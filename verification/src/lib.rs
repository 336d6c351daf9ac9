//! Verified core of a recorder that writes ROS 2 topics carried over Zenoh
//! into rosbag-compatible MCAP files.

pub mod bag;
pub mod config;
pub mod duration;
pub mod keyexprs;
pub mod monitor;
pub mod numparse;
pub mod qos;
pub mod recorder;
pub mod registry;
pub mod ros_names;
pub mod task;
pub mod text;
