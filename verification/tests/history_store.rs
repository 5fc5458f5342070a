//! The launch-history store against a real temporary database, and the
//! counter packing it stores.

use gyr::bytes::{pack, unpack};
use gyr::history::AppHistory;
use gyr::xdg::App;

fn temp_store() -> AppHistory {
    let db = sled::Config::new().temporary(true).open().unwrap();
    AppHistory::new(db)
}

#[test]
fn record_then_lookup_round_trips() {
    let mut h = temp_store();
    h.record("firefox", 42).unwrap();
    assert_eq!(h.lookup("firefox").unwrap(), 42);
}

#[test]
fn lookup_of_absent_name_is_zero() {
    let h = temp_store();
    assert_eq!(h.lookup("nothing-here").unwrap(), 0);
}

#[test]
fn record_is_an_upsert() {
    let mut h = temp_store();
    h.record("app", 1).unwrap();
    h.record("app", 2).unwrap();
    assert_eq!(h.lookup("app").unwrap(), 2);
    h.record("app", 2).unwrap();
    assert_eq!(h.lookup("app").unwrap(), 2);
}

#[test]
fn large_counters_survive_the_trip() {
    let mut h = temp_store();
    h.record("big", u64::MAX).unwrap();
    assert_eq!(h.lookup("big").unwrap(), u64::MAX);
}

#[test]
fn get_annotates_an_entry() {
    let mut h = temp_store();
    h.record("Foo", 7).unwrap();
    let app = App::new(
        "Foo".to_string(),
        "foo".to_string(),
        String::new(),
        false,
        None,
    );
    let annotated = h.get(app).unwrap();
    assert_eq!(annotated.history, 7);
    assert_eq!(annotated.name, "Foo");
    assert_eq!(annotated.command, "foo");
}

#[test]
fn get_leaves_unknown_entries_at_zero() {
    let h = temp_store();
    let app = App::new(
        "Bar".to_string(),
        "bar".to_string(),
        String::new(),
        false,
        None,
    );
    assert_eq!(h.get(app).unwrap().history, 0);
}

#[test]
fn pack_unpack_round_trips() {
    for n in [0u64, 1, 255, 256, 0xDEAD_BEEF, u64::MAX] {
        assert_eq!(unpack(pack(n)), n);
    }
}

#[test]
fn pack_is_little_endian() {
    assert_eq!(pack(0x0102_0304_0506_0708), [8, 7, 6, 5, 4, 3, 2, 1]);
    assert_eq!(unpack([8, 7, 6, 5, 4, 3, 2, 1]), 0x0102_0304_0506_0708);
}
