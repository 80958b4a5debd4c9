use bluez_client::query::is_match;
use bluez_client::tree::InterfaceEntry;
use bluez_client::tree::ManagedObjectTree;
use bluez_client::tree::ObjectEntry;
use bluez_client::tree::PropEntry;
use bluez_client::tree::PropValue;

#[test]
fn it_works() {
    assert_eq!(2 + 2, 4);
}

fn object(path: &str, interfaces: Vec<InterfaceEntry>) -> ObjectEntry {
    ObjectEntry { path: path.to_owned(), interfaces }
}

fn interface(name: &str, props: Vec<PropEntry>) -> InterfaceEntry {
    InterfaceEntry { name: name.to_owned(), props }
}

fn prop(name: &str, value: PropValue) -> PropEntry {
    PropEntry { name: name.to_owned(), value }
}

fn adapter_and_device() -> ManagedObjectTree {
    ManagedObjectTree {
        objects: vec![
            object("/org/bluez/hci0", vec![interface("org.bluez.Adapter1", vec![])]),
            object(
                "/org/bluez/hci0/dev_AA",
                vec![interface(
                    "org.bluez.Device1",
                    vec![prop(
                        "Adapter",
                        PropValue::ObjectPath("/org/bluez/hci0".to_owned()),
                    )],
                )],
            ),
        ],
    }
}

#[test]
fn scenario_adapter_discovery() {
    let tree = adapter_and_device();
    let adapters = tree.list_by_interface("org.bluez.Adapter1");
    assert_eq!(adapters, Some(vec!["/org/bluez/hci0".to_owned()]));
}

#[test]
fn scenario_child_discovery() {
    let tree = adapter_and_device();
    let devices = tree.list_children("/org/bluez/hci0", "Adapter");
    assert_eq!(devices, Some(vec!["/org/bluez/hci0/dev_AA".to_owned()]));
}

#[test]
fn empty_tree_yields_absent() {
    let tree = ManagedObjectTree::new();
    assert_eq!(tree.list_by_interface("org.bluez.Adapter1"), None);
    assert_eq!(tree.list_children("/org/bluez/hci0", "Adapter"), None);
}

#[test]
fn no_match_collapses_to_absent() {
    let tree = adapter_and_device();
    assert_eq!(tree.list_by_interface("org.bluez.GattService1"), None);
    assert_eq!(tree.list_children("/org/bluez/hci1", "Adapter"), None);
    assert_eq!(tree.list_children("/org/bluez/hci0", "Device"), None);
}

#[test]
fn dangling_parent_still_matches() {
    // The parent link is compared by string value alone; whether the
    // parent path exists as a key of the tree is never checked.
    let tree = ManagedObjectTree {
        objects: vec![object(
            "/org/bluez/hci9/dev_BB",
            vec![interface(
                "org.bluez.Device1",
                vec![prop(
                    "Adapter",
                    PropValue::ObjectPath("/org/bluez/hci9".to_owned()),
                )],
            )],
        )],
    };
    let devices = tree.list_children("/org/bluez/hci9", "Adapter");
    assert_eq!(devices, Some(vec!["/org/bluez/hci9/dev_BB".to_owned()]));
}

#[test]
fn non_string_value_never_matches() {
    let tree = ManagedObjectTree {
        objects: vec![
            object(
                "/a",
                vec![interface("I", vec![prop("Adapter", PropValue::Bool(true))])],
            ),
            object(
                "/b",
                vec![interface("I", vec![prop("Adapter", PropValue::UInt(7))])],
            ),
            object(
                "/c",
                vec![interface(
                    "I",
                    vec![prop(
                        "Adapter",
                        PropValue::StrList(vec!["/p".to_owned()]),
                    )],
                )],
            ),
            object(
                "/d",
                vec![interface(
                    "I",
                    vec![prop("Adapter", PropValue::Bytes(vec![0x2f, 0x70]))],
                )],
            ),
        ],
    };
    assert_eq!(tree.list_children("/p", "Adapter"), None);
    assert_eq!(tree.list_children("true", "Adapter"), None);
    assert_eq!(tree.list_children("7", "Adapter"), None);
}

#[test]
fn plain_string_link_matches_too() {
    let tree = ManagedObjectTree {
        objects: vec![object(
            "/s/c",
            vec![interface(
                "org.bluez.GattCharacteristic1",
                vec![prop("Service", PropValue::Str("/s".to_owned()))],
            )],
        )],
    };
    assert_eq!(
        tree.list_children("/s", "Service"),
        Some(vec!["/s/c".to_owned()])
    );
}

#[test]
fn result_preserves_snapshot_order() {
    let tree = ManagedObjectTree {
        objects: vec![
            object("/hci1", vec![interface("org.bluez.Adapter1", vec![])]),
            object("/dev", vec![interface("org.bluez.Device1", vec![])]),
            object("/hci0", vec![interface("org.bluez.Adapter1", vec![])]),
        ],
    };
    assert_eq!(
        tree.list_by_interface("org.bluez.Adapter1"),
        Some(vec!["/hci1".to_owned(), "/hci0".to_owned()])
    );
}

#[test]
fn rerunning_query_gives_identical_result() {
    let tree = adapter_and_device();
    let first = tree.list_by_interface("org.bluez.Adapter1");
    let second = tree.list_by_interface("org.bluez.Adapter1");
    assert_eq!(first, second);
    let first_children = tree.list_children("/org/bluez/hci0", "Adapter");
    let second_children = tree.list_children("/org/bluez/hci0", "Adapter");
    assert_eq!(first_children, second_children);
}

#[test]
fn object_without_interfaces_never_matches() {
    let tree = ManagedObjectTree {
        objects: vec![
            object("/bare", vec![]),
            object("/hci0", vec![interface("org.bluez.Adapter1", vec![])]),
        ],
    };
    assert_eq!(
        tree.list_by_interface("org.bluez.Adapter1"),
        Some(vec!["/hci0".to_owned()])
    );
    assert_eq!(tree.list_children("/hci0", "Adapter"), None);
}

#[test]
fn exists_with_interface() {
    let tree = adapter_and_device();
    assert!(tree.object_exists_with_interface("/org/bluez/hci0", "org.bluez.Adapter1"));
    assert!(!tree.object_exists_with_interface("/org/bluez/hci0", "org.bluez.Device1"));
    assert!(!tree.object_exists_with_interface("/org/bluez/hci1", "org.bluez.Adapter1"));
    assert!(ManagedObjectTree::new()
        .object_exists_with_interface("/org/bluez/hci0", "org.bluez.Adapter1")
        == false);
}

#[test]
fn get_str_reads_string_like_values() {
    let iface = interface(
        "org.bluez.Device1",
        vec![
            prop("Adapter", PropValue::ObjectPath("/hci0".to_owned())),
            prop("Alias", PropValue::Str("headset".to_owned())),
            prop("Connected", PropValue::Bool(false)),
        ],
    );
    assert_eq!(iface.get_str("Adapter"), Some("/hci0".to_owned()));
    assert_eq!(iface.get_str("Alias"), Some("headset".to_owned()));
    assert_eq!(iface.get_str("Connected"), None);
    assert_eq!(iface.get_str("RSSI"), None);
}

#[test]
fn is_match_scans_all_interfaces() {
    let obj = object(
        "/x",
        vec![
            interface("org.freedesktop.DBus.Introspectable", vec![]),
            interface(
                "org.bluez.GattDescriptor1",
                vec![prop(
                    "Characteristic",
                    PropValue::ObjectPath("/x/parent".to_owned()),
                )],
            ),
        ],
    );
    assert!(is_match("/x/parent", "Characteristic", &obj));
    assert!(!is_match("/x/other", "Characteristic", &obj));
    assert!(!is_match("/x/parent", "Service", &obj));
}
