//! The members of the BlueZ `org.bluez.Adapter1` D-Bus interface: which
//! method or property each operation of an adapter addresses, and which
//! properties can be written.

use vstd::prelude::*;

verus! {

/// The D-Bus interface of a BlueZ adapter.
pub open spec fn adapter_interface_name() -> Seq<char> {
    "org.bluez.Adapter1"@
}

/// The D-Bus interface of a BlueZ adapter.
pub fn adapter_interface() -> (res: &'static str)
    ensures
        res@ == adapter_interface_name(),
{
    "org.bluez.Adapter1"
}

/// A method of `org.bluez.Adapter1`.
#[derive(Clone, Copy, Debug, PartialEq, Eq, Structural)]
pub enum AdapterMethod {
    StartDiscovery,
    SetDiscoveryFilter,
    StopDiscovery,
    RemoveDevice,
    GetDiscoveryFilters,
}

/// The D-Bus member name of a method.
pub open spec fn method_member(m: AdapterMethod) -> Seq<char> {
    match m {
        AdapterMethod::StartDiscovery => "StartDiscovery"@,
        AdapterMethod::SetDiscoveryFilter => "SetDiscoveryFilter"@,
        AdapterMethod::StopDiscovery => "StopDiscovery"@,
        AdapterMethod::RemoveDevice => "RemoveDevice"@,
        AdapterMethod::GetDiscoveryFilters => "GetDiscoveryFilters"@,
    }
}

impl AdapterMethod {
    /// The D-Bus member name of the method.
    pub fn member(&self) -> (res: &'static str)
        ensures
            res@ == method_member(*self),
    {
        match self {
            AdapterMethod::StartDiscovery => "StartDiscovery",
            AdapterMethod::SetDiscoveryFilter => "SetDiscoveryFilter",
            AdapterMethod::StopDiscovery => "StopDiscovery",
            AdapterMethod::RemoveDevice => "RemoveDevice",
            AdapterMethod::GetDiscoveryFilters => "GetDiscoveryFilters",
        }
    }
}

/// A property of `org.bluez.Adapter1`.
#[derive(Clone, Copy, Debug, PartialEq, Eq, Structural)]
pub enum AdapterProperty {
    Address,
    AddressType,
    Name,
    Alias,
    Class,
    Powered,
    Discoverable,
    DiscoverableTimeout,
    Pairable,
    PairableTimeout,
    Discovering,
    Uuids,
    Modalias,
}

/// The D-Bus name of a property.
pub open spec fn property_member(p: AdapterProperty) -> Seq<char> {
    match p {
        AdapterProperty::Address => "Address"@,
        AdapterProperty::AddressType => "AddressType"@,
        AdapterProperty::Name => "Name"@,
        AdapterProperty::Alias => "Alias"@,
        AdapterProperty::Class => "Class"@,
        AdapterProperty::Powered => "Powered"@,
        AdapterProperty::Discoverable => "Discoverable"@,
        AdapterProperty::DiscoverableTimeout => "DiscoverableTimeout"@,
        AdapterProperty::Pairable => "Pairable"@,
        AdapterProperty::PairableTimeout => "PairableTimeout"@,
        AdapterProperty::Discovering => "Discovering"@,
        AdapterProperty::Uuids => "UUIDs"@,
        AdapterProperty::Modalias => "Modalias"@,
    }
}

/// The properties that an adapter lets its clients set: the alias, the
/// power, and whether and how long it is discoverable and pairable.
pub open spec fn property_writable(p: AdapterProperty) -> bool {
    match p {
        AdapterProperty::Alias | AdapterProperty::Powered | AdapterProperty::Discoverable
        | AdapterProperty::DiscoverableTimeout | AdapterProperty::Pairable
        | AdapterProperty::PairableTimeout => true,
        _ => false,
    }
}

impl AdapterProperty {
    /// The D-Bus name of the property.
    pub fn member(&self) -> (res: &'static str)
        ensures
            res@ == property_member(*self),
    {
        match self {
            AdapterProperty::Address => "Address",
            AdapterProperty::AddressType => "AddressType",
            AdapterProperty::Name => "Name",
            AdapterProperty::Alias => "Alias",
            AdapterProperty::Class => "Class",
            AdapterProperty::Powered => "Powered",
            AdapterProperty::Discoverable => "Discoverable",
            AdapterProperty::DiscoverableTimeout => "DiscoverableTimeout",
            AdapterProperty::Pairable => "Pairable",
            AdapterProperty::PairableTimeout => "PairableTimeout",
            AdapterProperty::Discovering => "Discovering",
            AdapterProperty::Uuids => "UUIDs",
            AdapterProperty::Modalias => "Modalias",
        }
    }

    /// Whether clients may set the property.
    pub fn is_writable(&self) -> (res: bool)
        ensures
            res == property_writable(*self),
    {
        match self {
            AdapterProperty::Alias | AdapterProperty::Powered | AdapterProperty::Discoverable
            | AdapterProperty::DiscoverableTimeout | AdapterProperty::Pairable
            | AdapterProperty::PairableTimeout => true,
            _ => false,
        }
    }
}

} // verus!
