use publish_mqtt::bluez::{adapter_interface, AdapterMethod, AdapterProperty};

#[test]
fn adapter_interface_name() {
    assert_eq!(adapter_interface(), "org.bluez.Adapter1");
}

#[test]
fn method_members() {
    assert_eq!(AdapterMethod::StartDiscovery.member(), "StartDiscovery");
    assert_eq!(AdapterMethod::SetDiscoveryFilter.member(), "SetDiscoveryFilter");
    assert_eq!(AdapterMethod::StopDiscovery.member(), "StopDiscovery");
    assert_eq!(AdapterMethod::RemoveDevice.member(), "RemoveDevice");
    assert_eq!(AdapterMethod::GetDiscoveryFilters.member(), "GetDiscoveryFilters");
}

#[test]
fn property_members_and_writability() {
    let all = [
        (AdapterProperty::Address, "Address", false),
        (AdapterProperty::AddressType, "AddressType", false),
        (AdapterProperty::Name, "Name", false),
        (AdapterProperty::Alias, "Alias", true),
        (AdapterProperty::Class, "Class", false),
        (AdapterProperty::Powered, "Powered", true),
        (AdapterProperty::Discoverable, "Discoverable", true),
        (AdapterProperty::DiscoverableTimeout, "DiscoverableTimeout", true),
        (AdapterProperty::Pairable, "Pairable", true),
        (AdapterProperty::PairableTimeout, "PairableTimeout", true),
        (AdapterProperty::Discovering, "Discovering", false),
        (AdapterProperty::Uuids, "UUIDs", false),
        (AdapterProperty::Modalias, "Modalias", false),
    ];
    for (p, name, writable) in all {
        assert_eq!(p.member(), name);
        assert_eq!(p.is_writable(), writable);
    }
}
