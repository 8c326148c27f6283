use bus_bridge::registry::Registry;

fn t(s: &str) -> String {
    s.to_string()
}

#[test]
fn drain_returns_latest_and_counts_all() {
    let mut reg: Registry<u32> = Registry::new();
    assert_eq!(reg.add_subscriber_on_topic(t("rt/camera"), 1), 0);
    let first = reg.get_latest_data_from_subscriber(t("rt/camera"), vec![vec![9u8]]);
    assert_eq!(first.count, 1);
    assert_eq!(first.data, vec![9u8]);
    let msgs = vec![b"M1".to_vec(), b"M2".to_vec(), b"M3".to_vec()];
    let resp = reg.get_latest_data_from_subscriber(t("rt/camera"), msgs);
    assert_eq!(resp.count, 4);
    assert_eq!(resp.data, b"M3".to_vec());
    let again = reg.get_latest_data_from_subscriber(t("rt/camera"), Vec::new());
    assert_eq!(again.count, 4);
    assert!(again.data.is_empty());
}

#[test]
fn drain_of_unknown_topic_is_sentinel() {
    let mut reg: Registry<u32> = Registry::new();
    let resp = reg.get_latest_data_from_subscriber(t("rt/none"), vec![b"x".to_vec()]);
    assert_eq!(resp.count, -1);
    assert!(resp.data.is_empty());
    assert_eq!(reg.add_subscriber_on_topic(t("rt/a"), 1), 0);
    let zero = reg.get_latest_data_from_subscriber(t("rt/a"), Vec::new());
    assert_eq!(zero.count, 0);
    assert!(zero.data.is_empty());
    reg.remove_subscriber_on_topic(t("rt/a"));
    let gone = reg.get_latest_data_from_subscriber(t("rt/a"), Vec::new());
    assert_eq!(gone.count, -1);
}

#[test]
fn removal_is_idempotent_and_local() {
    let mut reg: Registry<u32> = Registry::new();
    assert_eq!(reg.add_subscriber_on_topic(t("rt/a"), 1), 0);
    assert_eq!(reg.add_subscriber_on_topic(t("rt/b"), 2), 0);
    reg.get_latest_data_from_subscriber(t("rt/b"), vec![vec![1u8], vec![2u8]]);
    assert_eq!(reg.remove_subscriber_on_topic(t("rt/a")), Some(1));
    assert_eq!(reg.remove_subscriber_on_topic(t("rt/a")), None);
    assert_eq!(reg.remove_subscriber_on_topic(t("rt/never")), None);
    assert!(!reg.is_subscribed(&t("rt/a")));
    assert_eq!(reg.count_of(&t("rt/b")), Some(2));
    assert_eq!(reg.handle_of(&t("rt/b")), Some(&2));
}

#[test]
fn distinct_topics_drain_independently() {
    let mut reg: Registry<u32> = Registry::new();
    assert_eq!(reg.add_subscriber_on_topic(t("rt/a"), 1), 0);
    assert_eq!(reg.add_subscriber_on_topic(t("rt/b"), 2), 0);
    let a = reg.get_latest_data_from_subscriber(t("rt/a"), vec![b"a1".to_vec(), b"a2".to_vec()]);
    let b = reg.get_latest_data_from_subscriber(t("rt/b"), vec![b"b1".to_vec()]);
    assert_eq!((a.count, a.data), (2, b"a2".to_vec()));
    assert_eq!((b.count, b.data), (1, b"b1".to_vec()));
    assert_eq!(reg.count_of(&t("rt/a")), Some(2));
    assert_eq!(reg.count_of(&t("rt/b")), Some(1));
}

#[test]
fn duplicate_subscribe_is_rejected_and_keeps_count() {
    let mut reg: Registry<u32> = Registry::new();
    assert_eq!(reg.add_subscriber_on_topic(t("rt/a"), 1), 0);
    reg.get_latest_data_from_subscriber(t("rt/a"), vec![vec![1u8]; 3]);
    assert_eq!(reg.add_subscriber_on_topic(t("rt/a"), 7), 1);
    assert_eq!(reg.count_of(&t("rt/a")), Some(3));
    assert_eq!(reg.handle_of(&t("rt/a")), Some(&1));
}

#[test]
fn resubscribe_after_removal_starts_from_zero() {
    let mut reg: Registry<u32> = Registry::new();
    assert_eq!(reg.add_subscriber_on_topic(t("rt/a"), 1), 0);
    reg.get_latest_data_from_subscriber(t("rt/a"), vec![vec![1u8]; 5]);
    reg.remove_subscriber_on_topic(t("rt/a"));
    assert_eq!(reg.add_subscriber_on_topic(t("rt/a"), 2), 0);
    assert_eq!(reg.count_of(&t("rt/a")), Some(0));
}
