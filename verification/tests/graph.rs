use rmw_zenoh_mcap_writer::monitor::{parse_keyexpr_info, HashMapKeyExprs};

const CHATTER: &str = "@ros2_lv/0/aabbccdd/0/10/MP/%/%/talker/%chatter/std_msgs::msg::dds_::String_/RIHS01_df66/::,7:,:,:,,";
const IMAGE: &str = "@ros2_lv/3/aabbccdd/0/11/MP/%/%bot1/cam/%bot1%camera%image_raw/sensor_msgs::msg::dds_::Image_/RIHS01_aa/2::,1:,:,:,,";

#[test]
fn keyexpr_info_of_token() {
    let info = parse_keyexpr_info(IMAGE).unwrap();
    assert_eq!(info.original_topic, "/bot1/camera/image_raw");
    assert_eq!(info.domain, 3);
    assert_eq!(info.enclave, "%");
    assert_eq!(info.namespace, "%bot1");
    assert_eq!(info.topic, "%bot1%camera%image_raw");
    assert_eq!(info.rostype, "sensor_msgs::msg::dds_::Image_");
    assert_eq!(info.hash, "RIHS01_aa");
    assert_eq!(info.qos, "2::,1:,:,:,,");
}

#[test]
fn keyexpr_info_needs_numeric_domain() {
    assert!(parse_keyexpr_info(&CHATTER.replacen("/0/", "/x/", 1)).is_none());
    assert!(parse_keyexpr_info(&CHATTER.replacen("/0/", "/4294967296/", 1)).is_none());
    assert!(parse_keyexpr_info("@ros2_lv/0").is_none());
    assert!(parse_keyexpr_info(&CHATTER.replace("/talker/", "/@talker/")).is_none());
}

#[test]
fn store_insert_remove() {
    let mut store = HashMapKeyExprs::new();
    assert!(store.to_vec().is_empty());
    assert!(store.insert(CHATTER));
    assert!(store.insert(IMAGE));
    assert!(!store.insert("not/a/token"));
    let mut keys: Vec<String> = store.to_vec().into_iter().map(|(k, _)| k).collect();
    keys.sort();
    assert_eq!(keys, vec![CHATTER.to_string(), IMAGE.to_string()]);
    store.remove(CHATTER);
    let v = store.to_vec();
    assert_eq!(v.len(), 1);
    assert_eq!(v[0].0, IMAGE);
    assert_eq!(v[0].1.original_topic, "/bot1/camera/image_raw");
    store.remove(CHATTER);
    assert_eq!(store.to_vec().len(), 1);
}

#[test]
fn store_insert_twice_keeps_one_entry() {
    let mut store = HashMapKeyExprs::new();
    assert!(store.insert(CHATTER));
    assert!(store.insert(CHATTER));
    let v = store.to_vec();
    assert_eq!(v.len(), 1);
    assert_eq!(v[0].1.original_topic, "/chatter");
    assert_eq!(v[0].1.domain, 0);
}
