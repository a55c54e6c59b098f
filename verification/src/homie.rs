//! A [Homie](https://homieiot.github.io/specification/) device: its nodes and
//! properties, its life cycle, and the retained MQTT messages that announce it.
//!
//! Every operation returns the messages to publish, in the order in which they
//! are to be sent; the caller sends them over its MQTT connection.

use vstd::prelude::*;
use vstd::slice::slice_to_vec;
use vstd::utf8::encode_utf8;
use crate::text::{child_topic, decimal, join, lemma_child_topic_shape, lemma_split_join, push_char, push_str, split, topic, u64_to_decimal};

verus! {

// ---------------------------------------------------------------------------
// Data types of properties
// ---------------------------------------------------------------------------

/// The data type for a Homie property.
#[derive(Clone, Copy, Debug, PartialEq, Eq, Structural)]
pub enum Datatype {
    Integer,
    Float,
    Boolean,
    String,
    Enum,
    Color,
}

/// The name under which the Homie convention writes a data type.
pub open spec fn datatype_name(d: Datatype) -> Seq<char> {
    match d {
        Datatype::Integer => "integer"@,
        Datatype::Float => "float"@,
        Datatype::Boolean => "boolean"@,
        Datatype::String => "string"@,
        Datatype::Enum => "enum"@,
        Datatype::Color => "color"@,
    }
}

impl Datatype {
    /// The name under which the Homie convention writes this data type.
    pub fn as_str(&self) -> (res: &'static str)
        ensures
            res@ == datatype_name(*self),
    {
        match self {
            Datatype::Integer => "integer",
            Datatype::Float => "float",
            Datatype::Boolean => "boolean",
            Datatype::String => "string",
            Datatype::Enum => "enum",
            Datatype::Color => "color",
        }
    }

    /// The UTF-8 bytes of the data type's name, the payload of a `$datatype`
    /// attribute.
    pub fn into(self) -> (res: Vec<u8>)
        ensures
            res@ == encode_utf8(datatype_name(self)),
    {
        slice_to_vec(self.as_str().as_bytes())
    }
}

// ---------------------------------------------------------------------------
// Properties and nodes
// ---------------------------------------------------------------------------

/// A [property](https://homieiot.github.io/specification/#properties) of a Homie node.
#[derive(Clone, Debug)]
pub struct Property {
    id: String,
    name: String,
    datatype: Datatype,
    unit: Option<String>,
}

/// What a property holds.
pub struct PropertyView {
    pub id: Seq<char>,
    pub name: Seq<char>,
    pub datatype: Datatype,
    pub unit: Option<Seq<char>>,
}

pub open spec fn option_string_view(o: Option<String>) -> Option<Seq<char>> {
    match o {
        Some(s) => Some(s@),
        None => None,
    }
}

impl View for Property {
    type V = PropertyView;

    closed spec fn view(&self) -> PropertyView {
        PropertyView {
            id: self.id@,
            name: self.name@,
            datatype: self.datatype,
            unit: option_string_view(self.unit),
        }
    }
}

impl Property {
    /// Create a new property with the given attributes.
    ///
    /// * `id`: the topic ID for the property, unique per node.
    /// * `name`: the human-readable name of the property.
    /// * `datatype`: the data type of the property.
    /// * `unit`: the unit for the property, if any.
    pub fn new(id: &str, name: &str, datatype: Datatype, unit: Option<&str>) -> (res: Property)
        ensures
            res@ == (PropertyView {
                id: id@,
                name: name@,
                datatype,
                unit: match unit {
                    Some(u) => Some(u@),
                    None => None,
                },
            }),
    {
        let unit = match unit {
            Some(u) => Some(u.to_owned()),
            None => None,
        };
        Property { id: id.to_owned(), name: name.to_owned(), datatype, unit }
    }
}

/// A [node](https://homieiot.github.io/specification/#nodes) of a Homie device.
#[derive(Clone, Debug)]
pub struct Node {
    id: String,
    name: String,
    node_type: String,
    properties: Vec<Property>,
}

/// What a node holds.
pub struct NodeView {
    pub id: Seq<char>,
    pub name: Seq<char>,
    pub node_type: Seq<char>,
    pub properties: Seq<PropertyView>,
}

pub open spec fn property_views(ps: Seq<Property>) -> Seq<PropertyView> {
    ps.map_values(|p: Property| p@)
}

impl View for Node {
    type V = NodeView;

    closed spec fn view(&self) -> NodeView {
        NodeView {
            id: self.id@,
            name: self.name@,
            node_type: self.node_type@,
            properties: property_views(self.properties@),
        }
    }
}

impl Node {
    /// Create a new node with the given attributes.
    ///
    /// * `id`: the topic ID for the node, unique per device.
    /// * `name`: the human-readable name of the node.
    /// * `node_type`: the type of the node, an arbitrary string.
    /// * `properties`: the properties of the node; there should be at least one.
    pub fn new(id: String, name: String, node_type: String, properties: Vec<Property>) -> (res: Node)
        ensures
            res@ == (NodeView {
                id: id@,
                name: name@,
                node_type: node_type@,
                properties: property_views(properties@),
            }),
    {
        Node { id, name, node_type, properties }
    }

    /// The node's topic ID.
    pub fn id(&self) -> (res: &str)
        ensures
            res@ == self@.id,
    {
        self.id.as_str()
    }
}

// ---------------------------------------------------------------------------
// Messages
// ---------------------------------------------------------------------------

/// MQTT quality of service.
#[derive(Clone, Copy, Debug, PartialEq, Eq, Structural)]
pub enum QoS {
    AtMostOnce,
    AtLeastOnce,
    ExactlyOnce,
}

/// An MQTT message to publish: topic, text payload, quality of service and
/// whether the broker is to retain it.
#[derive(Clone, Debug, PartialEq, Eq)]
pub struct Message {
    pub topic: String,
    pub payload: String,
    pub qos: QoS,
    pub retain: bool,
}

/// What a message holds.
pub struct MessageView {
    pub topic: Seq<char>,
    pub payload: Seq<char>,
    pub qos: QoS,
    pub retain: bool,
}

impl View for Message {
    type V = MessageView;

    open spec fn view(&self) -> MessageView {
        MessageView { topic: self.topic@, payload: self.payload@, qos: self.qos, retain: self.retain }
    }
}

pub open spec fn message_views(ms: Seq<Message>) -> Seq<MessageView> {
    ms.map_values(|m: Message| m@)
}

/// A retained message, delivered at least once.
pub open spec fn retained(topic: Seq<char>, payload: Seq<char>) -> MessageView {
    MessageView { topic, payload, qos: QoS::AtLeastOnce, retain: true }
}

impl Message {
    /// The payload as UTF-8 bytes, as it goes on the wire.
    pub fn payload_bytes(&self) -> (res: Vec<u8>)
        ensures
            res@ == encode_utf8(self.payload@),
    {
        slice_to_vec(self.payload.as_str().as_bytes())
    }
}

fn retained_message(topic: String, payload: String) -> (res: Message)
    ensures
        res@ == retained(topic@, payload@),
{
    Message { topic, payload, qos: QoS::AtLeastOnce, retain: true }
}

fn push_message(ms: &mut Vec<Message>, m: Message)
    ensures
        message_views(final(ms)@) == message_views(old(ms)@).push(m@),
{
    let ghost before = ms@;
    ms.push(m);
    assert(message_views(ms@) =~= message_views(before).push(m@));
}

// ---------------------------------------------------------------------------
// The messages that describe a device
// ---------------------------------------------------------------------------

/// The Homie convention version that the device announces.
pub open spec fn homie_version() -> Seq<char> {
    "4.0"@
}

/// The name of this implementation, announced as `$implementation`.
pub open spec fn homie_implementation() -> Seq<char> {
    "homie-rs"@
}

/// The extensions that the device announces as `$extensions`.
pub open spec fn homie_extensions() -> Seq<char> {
    "org.homie.legacy-firmware:0.1.1:[4.x],org.homie.legacy-stats:0.1.1:[4.x]"@
}

/// The firmware name that a new device announces: this package's name.
pub open spec fn default_firmware_name() -> Seq<char> {
    "publish-mqtt"@
}

/// The firmware version that a new device announces: this package's version.
pub open spec fn default_firmware_version() -> Seq<char> {
    "0.1.0"@
}

/// The retained message that sets the attribute `attr` of the device whose
/// base topic is `base`.
pub open spec fn attribute(base: Seq<char>, attr: Seq<char>, payload: Seq<char>) -> MessageView {
    retained(child_topic(base, attr), payload)
}

/// The messages that announce one property under the node topic `node_base`.
pub open spec fn property_messages(node_base: Seq<char>, p: PropertyView) -> Seq<MessageView> {
    let property_base = child_topic(node_base, p.id);
    seq![
        attribute(property_base, "$name"@, p.name),
        attribute(property_base, "$datatype"@, datatype_name(p.datatype)),
    ] + match p.unit {
        Some(u) => seq![attribute(property_base, "$unit"@, u)],
        None => Seq::empty(),
    }
}

/// The messages that announce the properties in order.
pub open spec fn properties_messages(node_base: Seq<char>, props: Seq<PropertyView>) -> Seq<MessageView>
    decreases props.len(),
{
    if props.len() == 0 {
        Seq::empty()
    } else {
        properties_messages(node_base, props.drop_last()) + property_messages(node_base, props.last())
    }
}

pub open spec fn property_ids(props: Seq<PropertyView>) -> Seq<Seq<char>> {
    props.map_values(|p: PropertyView| p.id)
}

pub open spec fn node_ids(nodes: Seq<NodeView>) -> Seq<Seq<char>> {
    nodes.map_values(|n: NodeView| n.id)
}

/// The messages that announce a node of the device whose base topic is
/// `base`: its name and type, each property, then the list of property IDs.
pub open spec fn node_messages(base: Seq<char>, node: NodeView) -> Seq<MessageView> {
    let node_base = child_topic(base, node.id);
    seq![attribute(node_base, "$name"@, node.name), attribute(node_base, "$type"@, node.node_type)]
        + properties_messages(node_base, node.properties)
        + seq![attribute(node_base, "$properties"@, join(property_ids(node.properties), ','))]
}

/// The message that lists the IDs of the device's nodes.
pub open spec fn nodes_message(base: Seq<char>, nodes: Seq<NodeView>) -> MessageView {
    attribute(base, "$nodes"@, join(node_ids(nodes), ','))
}

// ---------------------------------------------------------------------------
// The device
// ---------------------------------------------------------------------------

/// Where a device stands in its life cycle.
#[derive(Clone, Copy, Debug, PartialEq, Eq, Structural)]
pub enum State {
    NotStarted,
    Init,
    Ready,
}

/// A Homie [device](https://homieiot.github.io/specification/#devices), which
/// corresponds to a single MQTT connection.
pub struct HomieDevice {
    device_base: String,
    device_name: String,
    firmware_name: String,
    firmware_version: String,
    nodes: Vec<Node>,
    state: State,
}

/// What a device holds.
pub struct DeviceView {
    pub device_base: Seq<char>,
    pub device_name: Seq<char>,
    pub firmware_name: Seq<char>,
    pub firmware_version: Seq<char>,
    pub nodes: Seq<NodeView>,
    pub state: State,
}

pub open spec fn node_views(ns: Seq<Node>) -> Seq<NodeView> {
    ns.map_values(|n: Node| n@)
}

/// No two nodes share an ID.
pub open spec fn node_ids_distinct(nodes: Seq<NodeView>) -> bool {
    forall|i: int, j: int| 0 <= i < j < nodes.len() ==> #[trigger] nodes[i].id != #[trigger] nodes[j].id
}

/// Some node has the ID `id`.
pub open spec fn has_node_id(nodes: Seq<NodeView>, id: Seq<char>) -> bool {
    exists|i: int| 0 <= i < nodes.len() && #[trigger] nodes[i].id == id
}

/// The nodes, in order, but those with the ID `id`.
pub open spec fn without_node(nodes: Seq<NodeView>, id: Seq<char>) -> Seq<NodeView> {
    nodes.filter(|n: NodeView| n.id != id)
}

/// The messages that a device sends when it starts: the convention version,
/// its firmware, extensions, implementation and name, then the state `init`.
pub open spec fn start_messages(d: DeviceView) -> Seq<MessageView> {
    seq![
        attribute(d.device_base, "$homie"@, homie_version()),
        attribute(d.device_base, "$fw/name"@, d.firmware_name),
        attribute(d.device_base, "$fw/version"@, d.firmware_version),
        attribute(d.device_base, "$extensions"@, homie_extensions()),
        attribute(d.device_base, "$implementation"@, homie_implementation()),
        attribute(d.device_base, "$name"@, d.device_name),
        attribute(d.device_base, "$state"@, "init"@),
    ]
}

/// Dropping the nodes with ID `id` from `s.push(x)` drops them from `s`,
/// then keeps `x` unless its ID is `id`.
proof fn lemma_without_node_push(s: Seq<NodeView>, x: NodeView, id: Seq<char>)
    ensures
        without_node(s.push(x), id) == (if x.id != id {
            without_node(s, id).push(x)
        } else {
            without_node(s, id)
        }),
{
    reveal_with_fuel(Seq::filter, 1);
    assert(s.push(x).drop_last() =~= s);
}

/// Every node left after dropping the ID `id` was a node before.
proof fn lemma_without_node_subset(s: Seq<NodeView>, id: Seq<char>, other: Seq<char>)
    ensures
        has_node_id(without_node(s, id), other) ==> has_node_id(s, other),
    decreases s.len(),
{
    if s.len() > 0 {
        let rest = s.drop_last();
        assert(rest.push(s.last()) =~= s);
        lemma_without_node_push(rest, s.last(), id);
        lemma_without_node_subset(rest, id, other);
        if has_node_id(without_node(s, id), other) {
            let w = without_node(rest, id);
            let k = choose|k: int| 0 <= k < without_node(s, id).len() && #[trigger] without_node(s, id)[k].id == other;
            if k < w.len() {
                assert(w[k].id == other);
                let m = choose|m: int| 0 <= m < rest.len() && #[trigger] rest[m].id == other;
                assert(s[m].id == other);
            } else {
                assert(s[s.len() - 1].id == other);
            }
        }
    }
}

/// Dropping the nodes with an ID keeps the other nodes' IDs distinct.
proof fn lemma_without_node_distinct(s: Seq<NodeView>, id: Seq<char>)
    requires
        node_ids_distinct(s),
    ensures
        node_ids_distinct(without_node(s, id)),
    decreases s.len(),
{
    if s.len() > 0 {
        let rest = s.drop_last();
        let x = s.last();
        assert(rest.push(x) =~= s);
        lemma_without_node_push(rest, x, id);
        lemma_without_node_distinct(rest, id);
        lemma_without_node_subset(rest, id, x.id);
        if has_node_id(rest, x.id) {
            let m = choose|m: int| 0 <= m < rest.len() && #[trigger] rest[m].id == x.id;
            assert(s[m].id != s[s.len() - 1].id);
        }
        let w = without_node(rest, id);
        if x.id != id {
            assert forall|i: int, j: int| 0 <= i < j < w.push(x).len() implies
                #[trigger] w.push(x)[i].id != #[trigger] w.push(x)[j].id by {
                if j == w.len() {
                    if w[i].id == x.id {
                        assert(has_node_id(w, x.id));
                    }
                }
            }
        }
    }
}

/// Dropping an ID that no node has leaves the nodes as they were.
pub proof fn lemma_without_absent_node(nodes: Seq<NodeView>, id: Seq<char>)
    requires
        !has_node_id(nodes, id),
    ensures
        without_node(nodes, id) == nodes,
    decreases nodes.len(),
{
    if nodes.len() == 0 {
        reveal_with_fuel(Seq::filter, 1);
    } else {
        let rest = nodes.drop_last();
        assert(rest.push(nodes.last()) =~= nodes);
        if has_node_id(rest, id) {
            let m = choose|m: int| 0 <= m < rest.len() && #[trigger] rest[m].id == id;
            assert(nodes[m].id == id);
        }
        assert(nodes[nodes.len() - 1].id != id);
        lemma_without_absent_node(rest, id);
        lemma_without_node_push(rest, nodes.last(), id);
    }
}

/// After the nodes with ID `id` are dropped, no node has that ID.
pub proof fn lemma_removed_id_absent(nodes: Seq<NodeView>, id: Seq<char>)
    ensures
        !has_node_id(without_node(nodes, id), id),
    decreases nodes.len(),
{
    if nodes.len() == 0 {
        reveal_with_fuel(Seq::filter, 1);
    } else {
        let rest = nodes.drop_last();
        assert(rest.push(nodes.last()) =~= nodes);
        lemma_removed_id_absent(rest, id);
        lemma_without_node_push(rest, nodes.last(), id);
        let w = without_node(rest, id);
        if nodes.last().id != id {
            if has_node_id(w.push(nodes.last()), id) {
                let k = choose|k: int| 0 <= k < w.push(nodes.last()).len() && #[trigger] w.push(nodes.last())[k].id == id;
                assert(w[k].id == id);
            }
        }
    }
}

/// Removing a node that was just added, under an ID that no other node had,
/// gives back the nodes as they were before.
pub proof fn lemma_remove_undoes_add(nodes: Seq<NodeView>, node: NodeView)
    requires
        !has_node_id(nodes, node.id),
    ensures
        without_node(nodes.push(node), node.id) == nodes,
{
    lemma_without_node_push(nodes, node, node.id);
    lemma_without_absent_node(nodes, node.id);
}

impl View for HomieDevice {
    type V = DeviceView;

    closed spec fn view(&self) -> DeviceView {
        DeviceView {
            device_base: self.device_base@,
            device_name: self.device_name@,
            firmware_name: self.firmware_name@,
            firmware_version: self.firmware_version@,
            nodes: node_views(self.nodes@),
            state: self.state,
        }
    }
}

impl HomieDevice {
    #[verifier::type_invariant]
    spec fn nodes_distinct(self) -> bool {
        node_ids_distinct(node_views(self.nodes@))
    }

    /// Creates a device that has not started, with no nodes, whose base topic
    /// is `device_base` (such as "homie/my-device-id") and whose human-readable
    /// name is `device_name`. It announces this package's name and version as
    /// its firmware until `set_firmware` says otherwise.
    pub fn new(device_base: String, device_name: String) -> (res: HomieDevice)
        ensures
            res@ == (DeviceView {
                device_base: device_base@,
                device_name: device_name@,
                firmware_name: default_firmware_name(),
                firmware_version: default_firmware_version(),
                nodes: Seq::empty(),
                state: State::NotStarted,
            }),
            node_ids_distinct(res@.nodes),
    {
        let res = HomieDevice {
            device_base,
            device_name,
            firmware_name: "publish-mqtt".to_owned(),
            firmware_version: "0.1.0".to_owned(),
            nodes: Vec::new(),
            state: State::NotStarted,
        };
        assert(res@.nodes =~= Seq::<NodeView>::empty());
        res
    }

    /// Where the device stands in its life cycle.
    pub fn state(&self) -> (res: State)
        ensures
            res == self@.state,
    {
        self.state
    }

    /// Whether a node of the device has the ID `node_id`.
    pub fn has_node(&self, node_id: &str) -> (res: bool)
        ensures
            res == has_node_id(self@.nodes, node_id@),
    {
        let target = node_id.to_owned();
        let n = self.nodes.len();
        for i in 0..n
            invariant
                n == self.nodes@.len(),
                target@ == node_id@,
                forall|j: int| 0 <= j < i ==> #[trigger] node_views(self.nodes@)[j].id != node_id@,
        {
            if self.nodes[i].id == target {
                assert(node_views(self.nodes@)[i as int].id == node_id@);
                return true;
            }
        }
        false
    }

    /// The message that lists the IDs of the device's nodes, in order.
    pub fn publish_nodes(&self) -> (res: Message)
        ensures
            res@ == nodes_message(self@.device_base, self@.nodes),
    {
        let ghost nodes = node_views(self.nodes@);
        let mut ids = String::new();
        let n = self.nodes.len();
        for i in 0..n
            invariant
                n == self.nodes@.len(),
                nodes == node_views(self.nodes@),
                ids@ == join(node_ids(nodes.take(i as int)), ','),
        {
            if i > 0 {
                push_char(&mut ids, ',');
            }
            push_str(&mut ids, self.nodes[i].id.as_str());
            proof {
                assert(node_ids(nodes.take(i + 1)).drop_last() =~= node_ids(nodes.take(i as int)));
                assert(node_ids(nodes.take(i + 1)).last() == nodes[i as int].id);
            }
        }
        assert(nodes.take(n as int) =~= nodes);
        retained_message(topic(self.device_base.as_str(), "$nodes"), ids)
    }

    /// The messages that announce `node` under this device: its name and type,
    /// the name, data type and unit of each property, then the list of its
    /// property IDs.
    pub fn publish_node(&self, node: &Node) -> (res: Vec<Message>)
        ensures
            message_views(res@) == node_messages(self@.device_base, node@),
    {
        let node_base = topic(self.device_base.as_str(), node.id.as_str());
        let mut msgs: Vec<Message> = Vec::new();
        assert(message_views(msgs@) =~= Seq::<MessageView>::empty());
        push_message(&mut msgs, retained_message(topic(node_base.as_str(), "$name"), node.name.clone()));
        push_message(&mut msgs, retained_message(topic(node_base.as_str(), "$type"), node.node_type.clone()));
        let ghost head = message_views(msgs@);
        let ghost props = property_views(node.properties@);
        let mut ids = String::new();
        let n = node.properties.len();
        for i in 0..n
            invariant
                n == node.properties@.len(),
                props == property_views(node.properties@),
                head == seq![
                    attribute(node_base@, "$name"@, node@.name),
                    attribute(node_base@, "$type"@, node@.node_type),
                ],
                message_views(msgs@) == head + properties_messages(node_base@, props.take(i as int)),
                ids@ == join(property_ids(props.take(i as int)), ','),
        {
            let p = &node.properties[i];
            let ghost before = message_views(msgs@);
            if i > 0 {
                push_char(&mut ids, ',');
            }
            push_str(&mut ids, p.id.as_str());
            let property_base = topic(node_base.as_str(), p.id.as_str());
            push_message(&mut msgs, retained_message(topic(property_base.as_str(), "$name"), p.name.clone()));
            push_message(
                &mut msgs,
                retained_message(topic(property_base.as_str(), "$datatype"), p.datatype.as_str().to_owned()),
            );
            match &p.unit {
                Some(unit) => {
                    push_message(&mut msgs, retained_message(topic(property_base.as_str(), "$unit"), unit.clone()));
                },
                None => {},
            }
            proof {
                assert(props[i as int] == p@);
                assert(props.take(i + 1).drop_last() =~= props.take(i as int));
                assert(props.take(i + 1).last() == p@);
                assert(property_ids(props.take(i + 1)).drop_last() =~= property_ids(props.take(i as int)));
                assert(property_ids(props.take(i + 1)).last() == p@.id);
                assert(message_views(msgs@) =~= before + property_messages(node_base@, p@));
                assert(properties_messages(node_base@, props.take(i + 1))
                    == properties_messages(node_base@, props.take(i as int)) + property_messages(node_base@, p@));
                assert(message_views(msgs@) =~= head + properties_messages(node_base@, props.take(i + 1)));
            }
        }
        assert(props.take(n as int) =~= props);
        push_message(&mut msgs, retained_message(topic(node_base.as_str(), "$properties"), ids));
        assert(message_views(msgs@) =~= node_messages(self@.device_base, node@));
        msgs
    }
}

impl HomieDevice {
    /// Sets the firmware name and version that the device announces when it
    /// starts. Only a device that has not started yet can be given them.
    pub fn set_firmware(&mut self, firmware_name: &str, firmware_version: &str)
        requires
            old(self)@.state == State::NotStarted,
        ensures
            final(self)@ == (DeviceView {
                firmware_name: firmware_name@,
                firmware_version: firmware_version@,
                ..old(self)@
            }),
    {
        proof { use_type_invariant(&*self); }
        self.firmware_name = firmware_name.to_owned();
        self.firmware_version = firmware_version.to_owned();
    }

    /// Starts a device that has not started: it moves to `Init`, and the
    /// messages announce the convention version, firmware, extensions,
    /// implementation and name, then the state `init`.
    pub fn start(&mut self) -> (res: Vec<Message>)
        requires
            old(self)@.state == State::NotStarted,
        ensures
            final(self)@ == (DeviceView { state: State::Init, ..old(self)@ }),
            message_views(res@) == start_messages(old(self)@),
    {
        proof { use_type_invariant(&*self); }
        let base = self.device_base.as_str();
        let mut msgs: Vec<Message> = Vec::new();
        assert(message_views(msgs@) =~= Seq::<MessageView>::empty());
        push_message(&mut msgs, retained_message(topic(base, "$homie"), "4.0".to_owned()));
        push_message(&mut msgs, retained_message(topic(base, "$fw/name"), self.firmware_name.clone()));
        push_message(&mut msgs, retained_message(topic(base, "$fw/version"), self.firmware_version.clone()));
        push_message(
            &mut msgs,
            retained_message(
                topic(base, "$extensions"),
                "org.homie.legacy-firmware:0.1.1:[4.x],org.homie.legacy-stats:0.1.1:[4.x]".to_owned(),
            ),
        );
        push_message(&mut msgs, retained_message(topic(base, "$implementation"), "homie-rs".to_owned()));
        push_message(&mut msgs, retained_message(topic(base, "$name"), self.device_name.clone()));
        push_message(&mut msgs, retained_message(topic(base, "$state"), "init".to_owned()));
        assert(message_views(msgs@) =~= start_messages(self@));
        self.state = State::Init;
        msgs
    }

    /// Marks a started device ready: it moves to `Ready`, and the message sets
    /// its state to `ready`.
    pub fn ready(&mut self) -> (res: Message)
        requires
            old(self)@.state == State::Init,
        ensures
            final(self)@ == (DeviceView { state: State::Ready, ..old(self)@ }),
            res@ == attribute(old(self)@.device_base, "$state"@, "ready"@),
    {
        proof { use_type_invariant(&*self); }
        self.state = State::Ready;
        retained_message(topic(self.device_base.as_str(), "$state"), "ready".to_owned())
    }

    /// Adds a node whose ID no node of the device has yet, before or after the
    /// device starts. The messages announce the node, then the new list of
    /// node IDs.
    pub fn add_node(&mut self, node: Node) -> (res: Vec<Message>)
        requires
            !has_node_id(old(self)@.nodes, node@.id),
        ensures
            final(self)@ == (DeviceView { nodes: old(self)@.nodes.push(node@), ..old(self)@ }),
            node_ids_distinct(final(self)@.nodes),
            message_views(res@) == node_messages(old(self)@.device_base, node@)
                + seq![nodes_message(old(self)@.device_base, final(self)@.nodes)],
    {
        proof { use_type_invariant(&*self); }
        let ghost old_nodes = node_views(self.nodes@);
        let ghost added = node@;
        let mut msgs = self.publish_node(&node);
        let mut nodes: Vec<Node> = Vec::new();
        std::mem::swap(&mut nodes, &mut self.nodes);
        assert(node_views(nodes@) == old_nodes);
        nodes.push(node);
        proof {
            assert(node_views(nodes@) =~= old_nodes.push(added));
            assert forall|i: int, j: int| 0 <= i < j < old_nodes.push(added).len() implies
                #[trigger] old_nodes.push(added)[i].id != #[trigger] old_nodes.push(added)[j].id by {
                if j == old_nodes.len() && old_nodes[i].id == added.id {
                    assert(has_node_id(old_nodes, added.id));
                }
            }
        }
        self.nodes = nodes;
        push_message(&mut msgs, self.publish_nodes());
        msgs
    }

    /// Removes the nodes with ID `node_id`, if any; the others keep their
    /// order. The message announces the new list of node IDs.
    pub fn remove_node(&mut self, node_id: &str) -> (res: Message)
        ensures
            final(self)@ == (DeviceView { nodes: without_node(old(self)@.nodes, node_id@), ..old(self)@ }),
            node_ids_distinct(final(self)@.nodes),
            res@ == nodes_message(final(self)@.device_base, final(self)@.nodes),
    {
        proof { use_type_invariant(&*self); }
        let target = node_id.to_owned();
        let mut rest: Vec<Node> = Vec::new();
        std::mem::swap(&mut rest, &mut self.nodes);
        let ghost orig = node_views(rest@);
        let mut kept: Vec<Node> = Vec::new();
        let ghost mut k: int = 0;
        proof {
            reveal_with_fuel(Seq::filter, 1);
            assert(orig.take(0) =~= Seq::<NodeView>::empty());
            assert(node_views(kept@) =~= without_node(orig.take(0), node_id@));
            assert(node_views(rest@) =~= orig.skip(0));
        }
        while rest.len() > 0
            invariant
                0 <= k <= orig.len(),
                target@ == node_id@,
                node_views(rest@) == orig.skip(k),
                node_views(kept@) == without_node(orig.take(k), node_id@),
            decreases rest.len(),
        {
            let ghost kept_before = node_views(kept@);
            let ghost rest_before = rest@;
            assert(node_views(rest_before).len() == orig.len() - k);
            let n = rest.remove(0);
            proof {
                assert(n == rest_before[0]);
                assert(node_views(rest_before)[0] == orig.skip(k)[0]);
                assert(n@ == orig[k]);
                assert(rest@ =~= rest_before.subrange(1, rest_before.len() as int));
                assert forall|i: int| 0 <= i < node_views(rest@).len() implies
                    #[trigger] node_views(rest@)[i] == orig.skip(k + 1)[i] by {
                    assert(rest@[i] == rest_before[i + 1]);
                    assert(node_views(rest_before)[i + 1] == orig.skip(k)[i + 1]);
                }
                assert(node_views(rest@) =~= orig.skip(k + 1));
                assert(orig.take(k + 1) =~= orig.take(k).push(orig[k]));
                lemma_without_node_push(orig.take(k), orig[k], node_id@);
            }
            if n.id != target {
                kept.push(n);
                assert(node_views(kept@) =~= kept_before.push(orig[k]));
            }
            proof {
                k = k + 1;
            }
        }
        proof {
            assert(orig.take(k) =~= orig);
            lemma_without_node_distinct(orig, node_id@);
        }
        self.nodes = kept;
        self.publish_nodes()
    }

    /// The message that publishes `value` for property `property_id` of node
    /// `node_id`.
    pub fn publish_value(&self, node_id: &str, property_id: &str, value: &str) -> (res: Message)
        ensures
            res@ == retained(child_topic(child_topic(self@.device_base, node_id@), property_id@), value@),
            res@.topic == self@.device_base + seq!['/'] + node_id@ + seq!['/'] + property_id@,
            res@.payload == value@,
            res@.retain,
            res@.qos == QoS::AtLeastOnce,
    {
        proof { lemma_value_topic(self@.device_base, node_id@, property_id@); }
        let node_base = topic(self.device_base.as_str(), node_id);
        retained_message(topic(node_base.as_str(), property_id), value.to_owned())
    }

    /// The will that the broker publishes when the device's connection is
    /// lost: its state becomes `lost`.
    pub fn last_will(&self) -> (res: Message)
        ensures
            res@ == attribute(self@.device_base, "$state"@, "lost"@),
    {
        retained_message(topic(self.device_base.as_str(), "$state"), "lost".to_owned())
    }
}

// ---------------------------------------------------------------------------
// Statistics
// ---------------------------------------------------------------------------

/// How often, in seconds, a device publishes its uptime.
pub const STATS_INTERVAL_SECS: u64 = 60;

/// The legacy statistics extension of a device.
pub struct HomieStats {
    device_base: String,
}

impl View for HomieStats {
    type V = Seq<char>;

    closed spec fn view(&self) -> Seq<char> {
        self.device_base@
    }
}

impl HomieStats {
    /// The statistics of the device whose base topic is `device_base`.
    pub fn new(device_base: String) -> (res: HomieStats)
        ensures
            res@ == device_base@,
    {
        HomieStats { device_base }
    }

    /// The message that announces the interval, in seconds, at which the
    /// uptime is published.
    pub fn start(&self) -> (res: Message)
        ensures
            res@ == attribute(self@, "$stats/interval"@, decimal(STATS_INTERVAL_SECS as nat)),
    {
        retained_message(topic(self.device_base.as_str(), "$stats/interval"), u64_to_decimal(STATS_INTERVAL_SECS))
    }

    /// The message that publishes an uptime of `uptime_secs` seconds.
    pub fn publish_uptime(&self, uptime_secs: u64) -> (res: Message)
        ensures
            res@ == attribute(self@, "$stats/uptime"@, decimal(uptime_secs as nat)),
    {
        retained_message(topic(self.device_base.as_str(), "$stats/uptime"), u64_to_decimal(uptime_secs))
    }
}

// ---------------------------------------------------------------------------
// Laws of the messages
// ---------------------------------------------------------------------------

/// Every message is retained and delivered at least once.
pub open spec fn all_retained(ms: Seq<MessageView>) -> bool {
    forall|i: int| #![trigger ms[i]] 0 <= i < ms.len() ==> ms[i].retain && ms[i].qos == QoS::AtLeastOnce
}

/// Every message's topic lies under the base topic `base`.
pub open spec fn all_under(base: Seq<char>, ms: Seq<MessageView>) -> bool {
    forall|i: int| #![trigger ms[i]] 0 <= i < ms.len() ==> base.push('/').is_prefix_of(ms[i].topic)
}

proof fn lemma_child_under(base: Seq<char>, parent: Seq<char>, name: Seq<char>)
    requires
        base.push('/').is_prefix_of(parent) || base == parent,
    ensures
        base.push('/').is_prefix_of(child_topic(parent, name)),
{
    let p = base.push('/');
    let c = child_topic(parent, name);
    assert(p.len() <= c.len());
    assert forall|i: int| 0 <= i < p.len() implies #[trigger] p[i] == c[i] by {
        if base != parent {
            assert(p[i] == parent[i]);
        }
    }
    assert(p =~= c.subrange(0, p.len() as int));
}

proof fn lemma_concat_laws(base: Seq<char>, a: Seq<MessageView>, b: Seq<MessageView>)
    requires
        all_retained(a),
        all_retained(b),
        all_under(base, a),
        all_under(base, b),
    ensures
        all_retained(a + b),
        all_under(base, a + b),
{
    let c = a + b;
    assert forall|i: int| 0 <= i < c.len() implies c[i].retain && c[i].qos == QoS::AtLeastOnce
        && base.push('/').is_prefix_of(c[i].topic) by {
        if i < a.len() {
            assert(c[i] == a[i]);
        } else {
            assert(c[i] == b[i - a.len()]);
        }
    }
}

proof fn lemma_single_law(base: Seq<char>, parent: Seq<char>, name: Seq<char>, payload: Seq<char>)
    requires
        base.push('/').is_prefix_of(parent) || base == parent,
    ensures
        all_retained(seq![attribute(parent, name, payload)]),
        all_under(base, seq![attribute(parent, name, payload)]),
{
    lemma_child_under(base, parent, name);
    let s = seq![attribute(parent, name, payload)];
    assert forall|i: int| 0 <= i < s.len() implies base.push('/').is_prefix_of(s[i].topic) by {
        assert(s[i] == attribute(parent, name, payload));
    }
}

proof fn lemma_properties_messages_laws(base: Seq<char>, node_base: Seq<char>, props: Seq<PropertyView>)
    requires
        base.push('/').is_prefix_of(node_base),
    ensures
        all_retained(properties_messages(node_base, props)),
        all_under(base, properties_messages(node_base, props)),
    decreases props.len(),
{
    if props.len() > 0 {
        let p = props.last();
        lemma_properties_messages_laws(base, node_base, props.drop_last());
        let property_base = child_topic(node_base, p.id);
        lemma_child_under(base, node_base, p.id);
        let m1 = seq![attribute(property_base, "$name"@, p.name)];
        let m2 = seq![attribute(property_base, "$datatype"@, datatype_name(p.datatype))];
        lemma_single_law(base, property_base, "$name"@, p.name);
        lemma_single_law(base, property_base, "$datatype"@, datatype_name(p.datatype));
        lemma_concat_laws(base, m1, m2);
        let b = property_messages(node_base, p);
        match p.unit {
            Some(u) => {
                let m3 = seq![attribute(property_base, "$unit"@, u)];
                lemma_single_law(base, property_base, "$unit"@, u);
                lemma_concat_laws(base, m1 + m2, m3);
                assert(b =~= m1 + m2 + m3);
            },
            None => {
                assert(b =~= m1 + m2);
            },
        }
        lemma_concat_laws(base, properties_messages(node_base, props.drop_last()), b);
    }
}

/// Every message that a device publishes is retained, delivered at least
/// once, and has a topic under the device's base topic: the messages of
/// `start`, `ready`, `add_node` (and `publish_node`), `remove_node` (and
/// `publish_nodes`), `publish_value`, `last_will` and the statistics.
pub proof fn lemma_device_messages_retained_under_base(
    d: DeviceView,
    node: NodeView,
    nodes: Seq<NodeView>,
    node_id: Seq<char>,
    property_id: Seq<char>,
    value: Seq<char>,
    uptime_secs: nat,
)
    ensures
        all_retained(start_messages(d)),
        all_under(d.device_base, start_messages(d)),
        all_retained(node_messages(d.device_base, node)),
        all_under(d.device_base, node_messages(d.device_base, node)),
        all_retained(seq![nodes_message(d.device_base, nodes)]),
        all_under(d.device_base, seq![nodes_message(d.device_base, nodes)]),
        all_retained(seq![attribute(d.device_base, "$state"@, value)]),
        all_under(d.device_base, seq![attribute(d.device_base, "$state"@, value)]),
        all_retained(seq![retained(child_topic(child_topic(d.device_base, node_id), property_id), value)]),
        all_under(d.device_base, seq![retained(child_topic(child_topic(d.device_base, node_id), property_id), value)]),
        all_retained(seq![attribute(d.device_base, "$stats/uptime"@, decimal(uptime_secs))]),
        all_under(d.device_base, seq![attribute(d.device_base, "$stats/uptime"@, decimal(uptime_secs))]),
        all_retained(seq![attribute(d.device_base, "$stats/interval"@, decimal(STATS_INTERVAL_SECS as nat))]),
        all_under(d.device_base, seq![attribute(d.device_base, "$stats/interval"@, decimal(STATS_INTERVAL_SECS as nat))]),
{
    let base = d.device_base;
    let start = start_messages(d);
    assert forall|i: int| 0 <= i < start.len() implies base.push('/').is_prefix_of(start[i].topic) by {
        lemma_child_under(base, base, "$homie"@);
        lemma_child_under(base, base, "$fw/name"@);
        lemma_child_under(base, base, "$fw/version"@);
        lemma_child_under(base, base, "$extensions"@);
        lemma_child_under(base, base, "$implementation"@);
        lemma_child_under(base, base, "$name"@);
        lemma_child_under(base, base, "$state"@);
    }
    let node_base = child_topic(base, node.id);
    lemma_child_under(base, base, node.id);
    let head1 = seq![attribute(node_base, "$name"@, node.name)];
    let head2 = seq![attribute(node_base, "$type"@, node.node_type)];
    let middle = properties_messages(node_base, node.properties);
    let tail = seq![attribute(node_base, "$properties"@, join(property_ids(node.properties), ','))];
    lemma_single_law(base, node_base, "$name"@, node.name);
    lemma_single_law(base, node_base, "$type"@, node.node_type);
    lemma_single_law(base, node_base, "$properties"@, join(property_ids(node.properties), ','));
    lemma_properties_messages_laws(base, node_base, node.properties);
    lemma_concat_laws(base, head1, head2);
    lemma_concat_laws(base, head1 + head2, middle);
    lemma_concat_laws(base, head1 + head2 + middle, tail);
    assert(node_messages(base, node) =~= head1 + head2 + middle + tail);
    lemma_single_law(base, base, "$nodes"@, join(node_ids(nodes), ','));
    lemma_single_law(base, base, "$state"@, value);
    lemma_child_under(base, base, node_id);
    lemma_single_law(base, child_topic(base, node_id), property_id, value);
    lemma_single_law(base, base, "$stats/uptime"@, decimal(uptime_secs));
    lemma_single_law(base, base, "$stats/interval"@, decimal(STATS_INTERVAL_SECS as nat));
}

/// What `set_firmware` sets is what `start` announces as the firmware.
pub proof fn lemma_start_announces_firmware(d: DeviceView)
    ensures
        start_messages(d)[1].payload == d.firmware_name,
        start_messages(d)[2].payload == d.firmware_version,
        start_messages(d)[5].payload == d.device_name,
{
}

// ---------------------------------------------------------------------------
// Laws of the payloads and topics
// ---------------------------------------------------------------------------

/// A property value is published on `base/node_id/property_id`, each part
/// whole.
pub proof fn lemma_value_topic(base: Seq<char>, node_id: Seq<char>, property_id: Seq<char>)
    ensures
        child_topic(child_topic(base, node_id), property_id) == base + seq!['/'] + node_id + seq!['/'] + property_id,
{
    lemma_child_topic_shape(base, node_id);
    lemma_child_topic_shape(child_topic(base, node_id), property_id);
    assert(child_topic(child_topic(base, node_id), property_id) =~= base + seq!['/'] + node_id + seq!['/'] + property_id);
}

/// The `$nodes` message is published on `base/$nodes`, and its payload lists
/// the ID of every node of the device, in order, separated by commas: empty
/// for no nodes, and otherwise splitting it on `,` gives exactly the IDs (the
/// Homie convention's IDs hold no comma).
pub proof fn lemma_nodes_message_lists_node_ids(base: Seq<char>, nodes: Seq<NodeView>)
    requires
        forall|i: int| 0 <= i < nodes.len() ==> !(#[trigger] nodes[i]).id.contains(','),
    ensures
        nodes_message(base, nodes).topic == base + seq!['/'] + "$nodes"@,
        nodes_message(base, nodes).retain,
        nodes_message(base, nodes).qos == QoS::AtLeastOnce,
        nodes.len() == 0 ==> nodes_message(base, nodes).payload.len() == 0,
        nodes.len() > 0 ==> split(nodes_message(base, nodes).payload, ',').len() == nodes.len(),
        nodes.len() > 0 ==> forall|i: int| 0 <= i < nodes.len()
            ==> #[trigger] split(nodes_message(base, nodes).payload, ',')[i] == nodes[i].id,
{
    let ids = node_ids(nodes);
    assert(child_topic(base, "$nodes"@) =~= base + seq!['/'] + "$nodes"@);
    if nodes.len() > 0 {
        assert forall|i: int| 0 <= i < ids.len() implies !(#[trigger] ids[i]).contains(',') by {
            assert(ids[i] == nodes[i].id);
        }
        lemma_split_join(ids, ',');
    }
}

/// The last message that announces a node is published on
/// `base/node_id/$properties`, and its payload lists the ID of every property
/// of the node, in order, separated by commas: empty for no properties, and
/// otherwise splitting it on `,` gives exactly the IDs.
pub proof fn lemma_node_messages_list_property_ids(base: Seq<char>, node: NodeView)
    requires
        forall|i: int| 0 <= i < node.properties.len() ==> !(#[trigger] node.properties[i]).id.contains(','),
    ensures
        node_messages(base, node).len() >= 3,
        node_messages(base, node).last().topic == base + seq!['/'] + node.id + seq!['/'] + "$properties"@,
        node.properties.len() == 0 ==> node_messages(base, node).last().payload.len() == 0,
        node.properties.len() > 0 ==> split(node_messages(base, node).last().payload, ',').len()
            == node.properties.len(),
        node.properties.len() > 0 ==> forall|i: int| 0 <= i < node.properties.len()
            ==> #[trigger] split(node_messages(base, node).last().payload, ',')[i] == node.properties[i].id,
{
    let props = node.properties;
    let ids = property_ids(props);
    let node_base = child_topic(base, node.id);
    let tail = attribute(node_base, "$properties"@, join(ids, ','));
    let head = seq![attribute(node_base, "$name"@, node.name), attribute(node_base, "$type"@, node.node_type)]
        + properties_messages(node_base, props);
    assert(node_messages(base, node) == head + seq![tail]);
    assert((head + seq![tail]).last() == tail);
    lemma_value_topic(base, node.id, "$properties"@);
    if props.len() > 0 {
        assert forall|i: int| 0 <= i < ids.len() implies !(#[trigger] ids[i]).contains(',') by {
            assert(ids[i] == props[i].id);
        }
        lemma_split_join(ids, ',');
    }
}

/// Starting announces, as its seventh and last message, the state `init` on
/// `base/$state`, the state into which `start` moves the device; what the
/// device announces on starting does not depend on its nodes.
pub proof fn lemma_start_announces_init(d: DeviceView, nodes: Seq<NodeView>)
    ensures
        start_messages(d).len() == 7,
        start_messages(d).last().topic == d.device_base + seq!['/'] + "$state"@,
        start_messages(d).last().payload == "init"@,
        start_messages(d) == start_messages(DeviceView { nodes, ..d }),
{
    assert(child_topic(d.device_base, "$state"@) =~= d.device_base + seq!['/'] + "$state"@);
    assert(start_messages(d) =~= start_messages(DeviceView { nodes, ..d }));
}

proof fn lemma_last_char(parent: Seq<char>, name: Seq<char>)
    requires
        name.len() > 0,
    ensures
        child_topic(parent, name).last() == name.last(),
{
}

proof fn lemma_attribute_names()
    ensures
        "$name"@.len() == 5 && "$name"@.last() == 'e',
        "$type"@.len() == 5 && "$type"@.last() == 'e',
        "$datatype"@.len() == 9 && "$datatype"@.last() == 'e',
        "$properties"@.len() == 11 && "$properties"@.last() == 's',
        "$unit"@.len() == 5 && "$unit"@.last() == 't',
{
    reveal_strlit("$name");
    reveal_strlit("$type");
    reveal_strlit("$datatype");
    reveal_strlit("$properties");
    reveal_strlit("$unit");
}

/// Two unit topics under one node are equal only for the same property ID.
proof fn lemma_unit_topic_injective(node_base: Seq<char>, a: Seq<char>, b: Seq<char>)
    requires
        child_topic(child_topic(node_base, a), "$unit"@) == child_topic(child_topic(node_base, b), "$unit"@),
    ensures
        a == b,
{
    let ta = child_topic(node_base, a);
    let tb = child_topic(node_base, b);
    lemma_child_topic_shape(ta, "$unit"@);
    lemma_child_topic_shape(tb, "$unit"@);
    lemma_child_topic_shape(node_base, a);
    lemma_child_topic_shape(node_base, b);
    assert(ta.len() == tb.len());
    assert(ta == tb);
}

proof fn lemma_properties_messages_units(node_base: Seq<char>, props: Seq<PropertyView>, k: int, u: Seq<char>)
    requires
        0 <= k < props.len(),
        props[k].unit == Some(u),
    ensures
        properties_messages(node_base, props).contains(attribute(child_topic(node_base, props[k].id), "$unit"@, u)),
    decreases props.len(),
{
    let target = attribute(child_topic(node_base, props[k].id), "$unit"@, u);
    let a = properties_messages(node_base, props.drop_last());
    let b = property_messages(node_base, props.last());
    assert(properties_messages(node_base, props) == a + b);
    if k == props.len() - 1 {
        assert(b[2] == target);
        assert((a + b)[a.len() + 2int] == target);
    } else {
        assert(props.drop_last()[k] == props[k]);
        lemma_properties_messages_units(node_base, props.drop_last(), k, u);
        let i = choose|i: int| 0 <= i < a.len() && a[i] == target;
        assert((a + b)[i] == target);
    }
}

proof fn lemma_properties_messages_unit_source(node_base: Seq<char>, props: Seq<PropertyView>, i: int)
    requires
        0 <= i < properties_messages(node_base, props).len(),
        properties_messages(node_base, props)[i].topic.last() == 't',
    ensures
        exists|j: int| 0 <= j < props.len() && props[j].unit == Some(properties_messages(node_base, props)[i].payload)
            && properties_messages(node_base, props)[i].topic
                == #[trigger] child_topic(child_topic(node_base, props[j].id), "$unit"@),
    decreases props.len(),
{
    lemma_attribute_names();
    let a = properties_messages(node_base, props.drop_last());
    let p = props.last();
    let b = property_messages(node_base, p);
    let m = properties_messages(node_base, props)[i];
    assert(properties_messages(node_base, props) == a + b);
    let pb = child_topic(node_base, p.id);
    if i < a.len() {
        assert(m == a[i]);
        lemma_properties_messages_unit_source(node_base, props.drop_last(), i);
        let j = choose|j: int| 0 <= j < props.drop_last().len() && props.drop_last()[j].unit == Some(a[i].payload)
            && a[i].topic == #[trigger] child_topic(child_topic(node_base, props.drop_last()[j].id), "$unit"@);
        assert(props[j] == props.drop_last()[j]);
    } else {
        let r = i - a.len();
        assert(m == b[r]);
        lemma_last_char(pb, "$name"@);
        lemma_last_char(pb, "$datatype"@);
        lemma_last_char(pb, "$unit"@);
        if r == 0 {
            assert(b[0].topic == child_topic(pb, "$name"@));
        } else if r == 1 {
            assert(b[1].topic == child_topic(pb, "$datatype"@));
        } else {
            match p.unit {
                Some(u) => {
                    assert(b[2] == attribute(pb, "$unit"@, u));
                    assert(props[props.len() - 1] == p);
                },
                None => {
                    assert(b.len() == 2);
                },
            }
        }
    }
}

/// A node's announcement holds, for each property that has a unit `u`, the
/// message `u` on `base/node_id/property_id/$unit`, whatever the property's
/// data type; when the node's property IDs are distinct, such a message is
/// there only for the property's own unit.
pub proof fn lemma_node_messages_announce_units(base: Seq<char>, node: NodeView, k: int, u: Seq<char>)
    requires
        0 <= k < node.properties.len(),
    ensures
        node.properties[k].unit == Some(u) ==> node_messages(base, node).contains(retained(
            base + seq!['/'] + node.id + seq!['/'] + node.properties[k].id + seq!['/'] + "$unit"@,
            u,
        )),
        (forall|i: int, j: int| 0 <= i < j < node.properties.len()
            ==> #[trigger] node.properties[i].id != #[trigger] node.properties[j].id)
            ==> (node_messages(base, node).contains(retained(
                base + seq!['/'] + node.id + seq!['/'] + node.properties[k].id + seq!['/'] + "$unit"@,
                u,
            )) ==> node.properties[k].unit == Some(u)),
{
    lemma_attribute_names();
    let props = node.properties;
    let nb = child_topic(base, node.id);
    let pk = props[k].id;
    let t = base + seq!['/'] + node.id + seq!['/'] + pk + seq!['/'] + "$unit"@;
    lemma_value_topic(base, node.id, pk);
    lemma_child_topic_shape(child_topic(nb, pk), "$unit"@);
    assert(child_topic(child_topic(nb, pk), "$unit"@) =~= t);
    let target = retained(t, u);
    let head = seq![attribute(nb, "$name"@, node.name), attribute(nb, "$type"@, node.node_type)];
    let middle = properties_messages(nb, props);
    let tail = seq![attribute(nb, "$properties"@, join(property_ids(props), ','))];
    let all = head + middle + tail;
    assert(node_messages(base, node) == all);
    if props[k].unit == Some(u) {
        lemma_properties_messages_units(nb, props, k, u);
        let i = choose|i: int| 0 <= i < middle.len() && middle[i] == target;
        assert(all[head.len() + i] == target);
    }
    if (forall|i: int, j: int| 0 <= i < j < props.len() ==> #[trigger] props[i].id != #[trigger] props[j].id)
        && all.contains(target) {
        let i = choose|i: int| 0 <= i < all.len() && all[i] == target;
        assert(t.last() == 't') by {
            assert(t == child_topic(child_topic(nb, pk), "$unit"@));
            lemma_last_char(child_topic(nb, pk), "$unit"@);
        }
        lemma_last_char(nb, "$name"@);
        lemma_last_char(nb, "$type"@);
        lemma_last_char(nb, "$properties"@);
        if i < head.len() {
            assert(all[i] == head[i]);
        } else if i < head.len() + middle.len() {
            let r = i - head.len();
            assert(all[i] == middle[r]);
            lemma_properties_messages_unit_source(nb, props, r);
            let j = choose|j: int| 0 <= j < props.len() && props[j].unit == Some(middle[r].payload)
                && middle[r].topic == #[trigger] child_topic(child_topic(nb, props[j].id), "$unit"@);
            lemma_unit_topic_injective(nb, props[j].id, pk);
            if j != k {
                if j < k {
                    assert(props[j].id != props[k].id);
                } else {
                    assert(props[k].id != props[j].id);
                }
            }
        } else {
            assert(all[i] == tail[i - head.len() - middle.len()]);
        }
    }
}

/// An attribute of `base` is the retained message `payload` on
/// `base/attr`.
pub proof fn lemma_attribute_shape(base: Seq<char>, attr: Seq<char>, payload: Seq<char>)
    ensures
        attribute(base, attr, payload).topic == base + seq!['/'] + attr,
        attribute(base, attr, payload).payload == payload,
        attribute(base, attr, payload).retain,
        attribute(base, attr, payload).qos == QoS::AtLeastOnce,
{
    assert(child_topic(base, attr) =~= base + seq!['/'] + attr);
}

proof fn lemma_properties_messages_named(node_base: Seq<char>, props: Seq<PropertyView>, k: int)
    requires
        0 <= k < props.len(),
    ensures
        properties_messages(node_base, props).contains(
            attribute(child_topic(node_base, props[k].id), "$name"@, props[k].name),
        ),
        properties_messages(node_base, props).contains(
            attribute(child_topic(node_base, props[k].id), "$datatype"@, datatype_name(props[k].datatype)),
        ),
    decreases props.len(),
{
    let t1 = attribute(child_topic(node_base, props[k].id), "$name"@, props[k].name);
    let t2 = attribute(child_topic(node_base, props[k].id), "$datatype"@, datatype_name(props[k].datatype));
    let a = properties_messages(node_base, props.drop_last());
    let b = property_messages(node_base, props.last());
    assert(properties_messages(node_base, props) == a + b);
    if k == props.len() - 1 {
        assert((a + b)[a.len() as int] == t1);
        assert((a + b)[a.len() + 1int] == t2);
    } else {
        assert(props.drop_last()[k] == props[k]);
        lemma_properties_messages_named(node_base, props.drop_last(), k);
        let i = choose|i: int| 0 <= i < a.len() && a[i] == t1;
        assert((a + b)[i] == t1);
        let j = choose|j: int| 0 <= j < a.len() && a[j] == t2;
        assert((a + b)[j] == t2);
    }
}

/// The number of properties that have a unit.
pub open spec fn with_unit_count(props: Seq<PropertyView>) -> nat {
    props.filter(|p: PropertyView| p.unit is Some).len()
}

proof fn lemma_properties_messages_len(node_base: Seq<char>, props: Seq<PropertyView>)
    ensures
        properties_messages(node_base, props).len() == 2 * props.len() + with_unit_count(props),
    decreases props.len(),
{
    reveal_with_fuel(Seq::filter, 1);
    if props.len() > 0 {
        lemma_properties_messages_len(node_base, props.drop_last());
    }
}

/// A node's announcement opens with its name on `base/node_id/$name` and its
/// type on `base/node_id/$type`; it holds, for each property, its name on
/// `base/node_id/property_id/$name` and its data type's name on
/// `base/node_id/property_id/$datatype`; and it holds nothing more than
/// these, the units and the list of property IDs: three messages, two per
/// property and one per unit.
pub proof fn lemma_node_messages_announce_properties(base: Seq<char>, node: NodeView)
    ensures
        node_messages(base, node).len() == 3 + 2 * node.properties.len() + with_unit_count(node.properties),
        node_messages(base, node)[0] == retained(base + seq!['/'] + node.id + seq!['/'] + "$name"@, node.name),
        node_messages(base, node)[1] == retained(
            base + seq!['/'] + node.id + seq!['/'] + "$type"@,
            node.node_type,
        ),
        forall|k: int| 0 <= k < node.properties.len() ==> node_messages(base, node).contains(retained(
            base + seq!['/'] + node.id + seq!['/'] + (#[trigger] node.properties[k]).id + seq!['/'] + "$name"@,
            node.properties[k].name,
        )),
        forall|k: int| 0 <= k < node.properties.len() ==> node_messages(base, node).contains(retained(
            base + seq!['/'] + node.id + seq!['/'] + (#[trigger] node.properties[k]).id + seq!['/'] + "$datatype"@,
            datatype_name(node.properties[k].datatype),
        )),
{
    let props = node.properties;
    let nb = child_topic(base, node.id);
    let head = seq![attribute(nb, "$name"@, node.name), attribute(nb, "$type"@, node.node_type)];
    let middle = properties_messages(nb, props);
    let tail = seq![attribute(nb, "$properties"@, join(property_ids(props), ','))];
    let all = head + middle + tail;
    assert(node_messages(base, node) == all);
    lemma_properties_messages_len(nb, props);
    lemma_value_topic(base, node.id, "$name"@);
    lemma_value_topic(base, node.id, "$type"@);
    assert(all[0] == head[0]);
    assert(all[1] == head[1]);
    assert forall|k: int| 0 <= k < props.len() implies all.contains(retained(
        base + seq!['/'] + node.id + seq!['/'] + (#[trigger] props[k]).id + seq!['/'] + "$name"@,
        props[k].name,
    )) && all.contains(retained(
        base + seq!['/'] + node.id + seq!['/'] + props[k].id + seq!['/'] + "$datatype"@,
        datatype_name(props[k].datatype),
    )) by {
        lemma_properties_messages_named(nb, props, k);
        let pb = child_topic(nb, props[k].id);
        lemma_value_topic(base, node.id, props[k].id);
        assert(child_topic(pb, "$name"@) =~= base + seq!['/'] + node.id + seq!['/'] + props[k].id + seq!['/'] + "$name"@);
        assert(child_topic(pb, "$datatype"@) =~= base + seq!['/'] + node.id + seq!['/'] + props[k].id + seq!['/']
            + "$datatype"@);
        let t1 = attribute(pb, "$name"@, props[k].name);
        let t2 = attribute(pb, "$datatype"@, datatype_name(props[k].datatype));
        let i = choose|i: int| 0 <= i < middle.len() && middle[i] == t1;
        assert(all[head.len() + i] == t1);
        let j = choose|j: int| 0 <= j < middle.len() && middle[j] == t2;
        assert(all[head.len() + j] == t2);
    }
}

} // verus!
