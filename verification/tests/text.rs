use publish_mqtt::text::{topic, u64_to_decimal};

#[test]
fn decimal_notation_matches_to_string() {
    for n in [0u64, 7, 9, 10, 60, 99, 100, 1234567890, u64::MAX - 1, u64::MAX] {
        assert_eq!(u64_to_decimal(n), n.to_string());
    }
}

#[test]
fn topic_joins_with_slash() {
    assert_eq!(topic("homie/dev", "$state"), "homie/dev/$state");
    assert_eq!(topic("", "x"), "/x");
}
