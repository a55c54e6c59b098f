use publish_mqtt::homie::{Datatype, HomieDevice, HomieStats, Message, Node, Property, QoS, State};

fn make_test_device() -> HomieDevice {
    HomieDevice::new("homie/test-device".to_string(), "Test device".to_string())
}

/// Adds a node the way a caller that holds a connection does: a duplicate ID
/// is refused with a panic before the library is asked.
fn add_node_guarded(device: &mut HomieDevice, node: Node) -> Vec<Message> {
    if device.has_node(node.id()) {
        panic!("Tried to add node with duplicate ID: {:?}", node);
    }
    device.add_node(node)
}

fn start_guarded(device: &mut HomieDevice) -> Vec<Message> {
    assert_eq!(device.state(), State::NotStarted);
    device.start()
}

fn ready_guarded(device: &mut HomieDevice) -> Message {
    assert_eq!(device.state(), State::Init);
    device.ready()
}

fn set_firmware_guarded(device: &mut HomieDevice, name: &str, version: &str) {
    assert_eq!(device.state(), State::NotStarted);
    device.set_firmware(name, version);
}

fn retained(topic: &str, payload: &str) -> Message {
    Message {
        topic: topic.to_string(),
        payload: payload.to_string(),
        qos: QoS::AtLeastOnce,
        retain: true,
    }
}

fn pairs(messages: &[Message]) -> Vec<(String, String)> {
    messages
        .iter()
        .map(|m| (m.topic.clone(), m.payload.clone()))
        .collect()
}

#[test]
#[should_panic(expected = "Tried to add node with duplicate ID")]
fn add_node_fails_given_duplicate_id() {
    let mut device = make_test_device();

    add_node_guarded(
        &mut device,
        Node::new("id".to_string(), "Name".to_string(), "type".to_string(), vec![]),
    );
    add_node_guarded(
        &mut device,
        Node::new("id".to_string(), "Name 2".to_string(), "type2".to_string(), vec![]),
    );
}

#[test]
#[should_panic(expected = "NotStarted")]
fn ready_fails_if_called_before_start() {
    let mut device = make_test_device();

    ready_guarded(&mut device);
}

#[test]
fn start_succeeds_with_no_nodes() {
    let mut device = make_test_device();

    let started = start_guarded(&mut device);
    assert_eq!(device.state(), State::Init);
    let ready = ready_guarded(&mut device);
    assert_eq!(device.state(), State::Ready);

    assert_eq!(
        started,
        vec![
            retained("homie/test-device/$homie", "4.0"),
            retained("homie/test-device/$fw/name", "publish-mqtt"),
            retained("homie/test-device/$fw/version", "0.1.0"),
            retained(
                "homie/test-device/$extensions",
                "org.homie.legacy-firmware:0.1.1:[4.x],org.homie.legacy-stats:0.1.1:[4.x]"
            ),
            retained("homie/test-device/$implementation", "homie-rs"),
            retained("homie/test-device/$name", "Test device"),
            retained("homie/test-device/$state", "init"),
        ]
    );
    assert_eq!(ready, retained("homie/test-device/$state", "ready"));
}

#[test]
fn set_firmware_succeeds_before_start() {
    let mut device = make_test_device();

    set_firmware_guarded(&mut device, "firmware_name", "firmware_version");

    let started = start_guarded(&mut device);
    ready_guarded(&mut device);
    assert_eq!(started[1], retained("homie/test-device/$fw/name", "firmware_name"));
    assert_eq!(started[2], retained("homie/test-device/$fw/version", "firmware_version"));
}

#[test]
#[should_panic(expected = "NotStarted")]
fn set_firmware_fails_after_start() {
    let mut device = make_test_device();

    start_guarded(&mut device);

    set_firmware_guarded(&mut device, "firmware_name", "firmware_version");
}

#[test]
fn add_node_succeeds_before_and_after_start() {
    let mut device = make_test_device();

    let first = add_node_guarded(
        &mut device,
        Node::new("id".to_string(), "Name".to_string(), "type".to_string(), vec![]),
    );
    assert_eq!(
        first,
        vec![
            retained("homie/test-device/id/$name", "Name"),
            retained("homie/test-device/id/$type", "type"),
            retained("homie/test-device/id/$properties", ""),
            retained("homie/test-device/$nodes", "id"),
        ]
    );

    start_guarded(&mut device);
    ready_guarded(&mut device);

    // Add another node after starting.
    let second = add_node_guarded(
        &mut device,
        Node::new("id2".to_string(), "Name 2".to_string(), "type2".to_string(), vec![]),
    );
    assert_eq!(second.last().unwrap(), &retained("homie/test-device/$nodes", "id,id2"));
    assert_eq!(device.state(), State::Ready);
}

/// Add a node, remove it, and add it back again.
#[test]
fn add_node_succeeds_after_remove() {
    let mut device = make_test_device();

    add_node_guarded(
        &mut device,
        Node::new("id".to_string(), "Name".to_string(), "type".to_string(), vec![]),
    );

    let removed = device.remove_node("id");
    assert_eq!(removed, retained("homie/test-device/$nodes", ""));
    assert!(!device.has_node("id"));

    // Adding it back shouldn't give an error.
    let added = add_node_guarded(
        &mut device,
        Node::new("id".to_string(), "Name".to_string(), "type".to_string(), vec![]),
    );
    assert_eq!(added.last().unwrap(), &retained("homie/test-device/$nodes", "id"));
}

#[test]
fn publish_node_announces_properties_in_order() {
    let device = make_test_device();
    let node = Node::new(
        "sensor".to_string(),
        "Sensor".to_string(),
        "thermometer".to_string(),
        vec![
            Property::new("temperature", "Temperature", Datatype::Float, Some("°C")),
            Property::new("battery", "Battery", Datatype::Integer, None),
        ],
    );
    assert_eq!(
        pairs(&device.publish_node(&node)),
        vec![
            ("homie/test-device/sensor/$name".to_string(), "Sensor".to_string()),
            ("homie/test-device/sensor/$type".to_string(), "thermometer".to_string()),
            ("homie/test-device/sensor/temperature/$name".to_string(), "Temperature".to_string()),
            ("homie/test-device/sensor/temperature/$datatype".to_string(), "float".to_string()),
            ("homie/test-device/sensor/temperature/$unit".to_string(), "°C".to_string()),
            ("homie/test-device/sensor/battery/$name".to_string(), "Battery".to_string()),
            ("homie/test-device/sensor/battery/$datatype".to_string(), "integer".to_string()),
            ("homie/test-device/sensor/$properties".to_string(), "temperature,battery".to_string()),
        ]
    );
}

#[test]
fn add_node_appends_announcement_and_node_list() {
    let mut device = make_test_device();
    let node = Node::new(
        "light".to_string(),
        "Light".to_string(),
        "lamp".to_string(),
        vec![Property::new("on", "On", Datatype::Boolean, None)],
    );
    let expected_node = device.publish_node(&node);
    let messages = device.add_node(node);
    assert_eq!(&messages[..messages.len() - 1], &expected_node[..]);
    assert_eq!(messages.last().unwrap(), &retained("homie/test-device/$nodes", "light"));
    assert!(device.has_node("light"));
    assert!(!device.has_node("ligh"));
}

#[test]
fn remove_node_keeps_the_order_of_the_others() {
    let mut device = make_test_device();
    for id in ["a", "b", "c"] {
        device.add_node(Node::new(id.to_string(), id.to_string(), "t".to_string(), vec![]));
    }
    assert_eq!(device.publish_nodes(), retained("homie/test-device/$nodes", "a,b,c"));
    assert_eq!(device.remove_node("b"), retained("homie/test-device/$nodes", "a,c"));
    assert_eq!(device.remove_node("missing"), retained("homie/test-device/$nodes", "a,c"));
    assert_eq!(device.remove_node("a"), retained("homie/test-device/$nodes", "c"));
}

#[test]
fn remove_undoes_add() {
    let mut device = make_test_device();
    device.add_node(Node::new("a".to_string(), "A".to_string(), "t".to_string(), vec![]));
    let before = device.publish_nodes();
    device.add_node(Node::new("b".to_string(), "B".to_string(), "t".to_string(), vec![]));
    assert_eq!(device.remove_node("b"), before);
}

#[test]
fn publish_value_uses_node_and_property_topic() {
    let device = make_test_device();
    assert_eq!(
        device.publish_value("sensor", "temperature", "21.5"),
        retained("homie/test-device/sensor/temperature", "21.5")
    );
}

#[test]
fn last_will_marks_device_lost() {
    let device = make_test_device();
    assert_eq!(device.last_will(), retained("homie/test-device/$state", "lost"));
}

#[test]
fn every_device_message_is_retained_under_the_base_topic() {
    let mut device = make_test_device();
    let mut all = device.start();
    all.extend(device.add_node(Node::new(
        "n".to_string(),
        "N".to_string(),
        "t".to_string(),
        vec![Property::new("p", "P", Datatype::Color, Some("rgb"))],
    )));
    all.push(device.ready());
    all.push(device.remove_node("n"));
    all.push(device.publish_value("n", "p", "1"));
    all.push(device.last_will());
    for m in &all {
        assert!(m.retain);
        assert_eq!(m.qos, QoS::AtLeastOnce);
        assert!(m.topic.starts_with("homie/test-device/"));
    }
}

#[test]
fn stats_messages() {
    let stats = HomieStats::new("homie/test-device".to_string());
    assert_eq!(stats.start(), retained("homie/test-device/$stats/interval", "60"));
    assert_eq!(stats.publish_uptime(0), retained("homie/test-device/$stats/uptime", "0"));
    assert_eq!(stats.publish_uptime(3601), retained("homie/test-device/$stats/uptime", "3601"));
    assert_eq!(
        stats.publish_uptime(u64::MAX),
        retained("homie/test-device/$stats/uptime", "18446744073709551615")
    );
}

#[test]
fn datatype_names_and_bytes() {
    let all = [
        (Datatype::Integer, "integer"),
        (Datatype::Float, "float"),
        (Datatype::Boolean, "boolean"),
        (Datatype::String, "string"),
        (Datatype::Enum, "enum"),
        (Datatype::Color, "color"),
    ];
    for (d, name) in all {
        assert_eq!(d.as_str(), name);
        let bytes: Vec<u8> = d.into();
        assert_eq!(bytes, name.as_bytes().to_vec());
    }
}

#[test]
fn payload_bytes_are_utf8() {
    let m = retained("t", "°C");
    assert_eq!(m.payload_bytes(), vec![0xC2, 0xB0, b'C']);
}
