use rmw_zenoh_mcap_writer::monitor::parse_keyexpr_info;
use rmw_zenoh_mcap_writer::task::{
    message_header, select_recorded_topic, stamp_message, storage_actions, subscriber_plan, subscription_token_keyexpr,
    topic_subscription_keyexpr, Action, ClockError, IdTable, MessageHeader, SubscriberPlan,
};

const IMAGE: &str = "@ros2_lv/3/aabbccdd/0/11/MP/%/%bot1/cam/%bot1%camera%image_raw/sensor_msgs::msg::dds_::Image_/RIHS01_aa/:1:,5:,:,:,,";

fn patterns(ps: &[&str]) -> Vec<String> {
    ps.iter().map(|s| s.to_string()).collect()
}

#[test]
fn topic_selection() {
    let info = parse_keyexpr_info(IMAGE).unwrap();
    assert_eq!(select_recorded_topic(3, &patterns(&["*"]), &info), None);
    assert_eq!(select_recorded_topic(3, &patterns(&["**"]), &info), Some("bot1/camera/image_raw".to_string()));
    assert_eq!(select_recorded_topic(3, &patterns(&["bot1/camera/*"]), &info), Some("bot1/camera/image_raw".to_string()));
    assert_eq!(select_recorded_topic(3, &patterns(&["bot1/*"]), &info), None);
    assert_eq!(select_recorded_topic(3, &patterns(&["chatter", "bot1/**"]), &info), Some("bot1/camera/image_raw".to_string()));
    assert_eq!(select_recorded_topic(0, &patterns(&["**"]), &info), None);
    assert_eq!(select_recorded_topic(3, &patterns(&[]), &info), None);
}

#[test]
fn subscriber_plans() {
    assert_eq!(
        subscriber_plan(":1:,5:,:,:,,"),
        Ok(SubscriberPlan { transient_local: true, max_samples: Some(5), heartbeat_recovery: true })
    );
    assert_eq!(
        subscriber_plan("2:1:2,:,:,:,,"),
        Ok(SubscriberPlan { transient_local: true, max_samples: Some(10), heartbeat_recovery: false })
    );
    assert_eq!(
        subscriber_plan("::,5:,:,:,,"),
        Ok(SubscriberPlan { transient_local: false, max_samples: None, heartbeat_recovery: false })
    );
}

#[test]
fn recorder_keyexprs() {
    let info = parse_keyexpr_info(IMAGE).unwrap();
    assert_eq!(topic_subscription_keyexpr(3, "bot1/camera/image_raw").unwrap(), "3/bot1/camera/image_raw/*/*");
    assert_eq!(
        subscription_token_keyexpr(&info, "ffee", 7).unwrap(),
        "@ros2_lv/3/ffee/0/7/MS/%/%bot1/mcap_writer/%bot1%camera%image_raw/sensor_msgs::msg::dds_::Image_/RIHS01_aa/:1:,5:,:,:,,"
    );
}

#[test]
fn id_tables() {
    let mut t = IdTable::new();
    assert_eq!(t.get("/chatter"), None);
    assert!(!t.contains_key("/chatter"));
    t.insert("/chatter".to_string(), 1);
    t.insert("/image".to_string(), 2);
    t.insert("/chatter".to_string(), 3);
    assert_eq!(t.get("/chatter"), Some(3));
    assert_eq!(t.get("/image"), Some(2));
    assert!(t.contains_key("/image"));
    assert!(!t.contains_key("chatter"));
}

#[test]
fn message_headers() {
    let mut channels = IdTable::new();
    channels.insert("/chatter".to_string(), 4);
    let key = "0/chatter/std_msgs::msg::dds_::String_/h";
    assert_eq!(
        message_header(&channels, key, Some(1000), None),
        Ok(Some(MessageHeader { channel_id: 4, sequence: 0, log_time: 1000, publish_time: 1000 }))
    );
    assert_eq!(
        message_header(&channels, key, Some(1000), Some((Some(0x1_0000_0005), Some(900)))),
        Ok(Some(MessageHeader { channel_id: 4, sequence: 5, log_time: 1000, publish_time: 900 }))
    );
    assert_eq!(
        message_header(&channels, key, Some(1000), Some((None, None))),
        Ok(Some(MessageHeader { channel_id: 4, sequence: 0, log_time: 1000, publish_time: 1000 }))
    );
    assert_eq!(
        message_header(&channels, key, Some(1000), Some((Some(-1), None))),
        Ok(Some(MessageHeader { channel_id: 4, sequence: u32::MAX, log_time: 1000, publish_time: 1000 }))
    );
    assert_eq!(message_header(&channels, "0/image/t/h", Some(1000), None), Ok(None));
    assert_eq!(message_header(&channels, "bad", None, None), Ok(None));
    assert_eq!(message_header(&channels, key, None, None), Err(ClockError::NoCurrentTime));
}

fn summary(actions: &[Action]) -> Vec<String> {
    actions
        .iter()
        .map(|a| match a {
            Action::Subscribe { topic, .. } => format!("subscribe {topic}"),
            Action::AddSchema { rostype } => format!("schema {rostype}"),
            Action::AddChannel { topic, rostype, .. } => format!("channel {topic} {rostype}"),
        })
        .collect()
}

#[test]
fn storage_actions_ask_each_thing_once() {
    let other_pub = IMAGE.replace("aabbccdd", "11223344");
    let rect = IMAGE.replace("image_raw", "image_rect");
    let entries: Vec<(String, rmw_zenoh_mcap_writer::monitor::KeyExprInfo)> = [IMAGE, other_pub.as_str(), rect.as_str()]
        .iter()
        .map(|k| (k.to_string(), parse_keyexpr_info(k).unwrap()))
        .collect();
    let mut schemas = IdTable::new();
    let mut channels = IdTable::new();
    let acts = storage_actions(3, &patterns(&["**"]), &entries, &vec![], &schemas, &channels);
    assert_eq!(
        summary(&acts),
        vec![
            "subscribe bot1/camera/image_raw",
            "schema sensor_msgs/msg/Image",
            "channel /bot1/camera/image_raw sensor_msgs/msg/Image",
            "channel /bot1/camera/image_raw sensor_msgs/msg/Image",
            "subscribe bot1/camera/image_rect",
            "channel /bot1/camera/image_rect sensor_msgs/msg/Image",
        ]
    );
    // Once they are taken, going over the same publishers asks for no
    // subscription and no schema; channels are looked up under the token's
    // topic (`%` for `/`), so they are asked again.
    schemas.insert("sensor_msgs/msg/Image".to_string(), 1);
    channels.insert("/bot1/camera/image_raw".to_string(), 1);
    channels.insert("/bot1/camera/image_rect".to_string(), 2);
    let subscribed = vec!["bot1/camera/image_raw".to_string(), "bot1/camera/image_rect".to_string()];
    assert_eq!(
        summary(&storage_actions(3, &patterns(&["**"]), &entries, &subscribed, &schemas, &channels)),
        vec![
            "channel /bot1/camera/image_raw sensor_msgs/msg/Image",
            "channel /bot1/camera/image_raw sensor_msgs/msg/Image",
            "channel /bot1/camera/image_rect sensor_msgs/msg/Image",
        ]
    );
    channels.insert("%bot1%camera%image_raw".to_string(), 3);
    channels.insert("%bot1%camera%image_rect".to_string(), 4);
    assert!(storage_actions(3, &patterns(&["**"]), &entries, &subscribed, &schemas, &channels).is_empty());
    // Other domains and unmatched topics ask for nothing.
    assert!(storage_actions(0, &patterns(&["**"]), &entries, &vec![], &IdTable::new(), &IdTable::new()).is_empty());
    assert!(storage_actions(3, &patterns(&["chatter"]), &entries, &vec![], &IdTable::new(), &IdTable::new()).is_empty());
}

#[test]
fn stamp_with_attachment_bytes() {
    let mut channels = IdTable::new();
    channels.insert("/chatter".to_string(), 4);
    let mut ser = zenoh_ext::ZSerializer::new();
    ser.serialize(7i64);
    ser.serialize(1234u64);
    let bytes = ser.finish().to_bytes().to_vec();
    assert_eq!(
        stamp_message(&channels, "0/chatter/std_msgs::msg::dds_::String_/RIHS01_df", Some(99), Some(&bytes)),
        Ok(Some(MessageHeader { channel_id: 4, sequence: 7, log_time: 99, publish_time: 1234 }))
    );
    assert_eq!(
        stamp_message(&channels, "0/chatter/std_msgs::msg::dds_::String_/RIHS01_df", Some(99), Some(&[])),
        Ok(Some(MessageHeader { channel_id: 4, sequence: 0, log_time: 99, publish_time: 99 }))
    );
    assert_eq!(
        stamp_message(&channels, "0/chatter/std_msgs::msg::dds_::String_/RIHS01_df", Some(99), None),
        Ok(Some(MessageHeader { channel_id: 4, sequence: 0, log_time: 99, publish_time: 99 }))
    );
}
