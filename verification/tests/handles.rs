use velum::handles::HandleTable;

#[test]
fn handle_exhaustion_returns_none_instead_of_panicking() {
    let mut table: HandleTable<u8, u8, u8> = HandleTable::after_handle(u64::MAX);

    assert_eq!(table.next(), None);
}

#[test]
fn one_counter_issues_every_kind_of_handle() {
    let mut table: HandleTable<&str, &str, &str> = HandleTable::new();
    assert_eq!(table.insert_client("client"), Some(1));
    assert_eq!(table.insert_stream(1, "stream"), Some(2));
    assert_eq!(table.insert_engine("engine"), Some(3));
    assert_eq!(table.client(1), Some(&"client"));
    assert_eq!(table.client(2), None);
    assert_eq!(table.stream(2), Some(&(1, "stream")));
    assert_eq!(table.engine(3), Some(&"engine"));
    assert_eq!(table.engine(1), None);
}

#[test]
fn exhausted_counter_files_nothing() {
    let mut table: HandleTable<&str, &str, &str> = HandleTable::after_handle(u64::MAX - 1);
    assert_eq!(table.insert_client("first"), Some(u64::MAX));
    assert_eq!(table.insert_client("second"), None);
    assert_eq!(table.insert_engine("engine"), None);
    assert_eq!(table.client(u64::MAX), Some(&"first"));
}

#[test]
fn removed_handles_are_gone_and_never_reissued() {
    let mut table: HandleTable<u32, u32, u32> = HandleTable::new();
    assert_eq!(table.insert_client(10), Some(1));
    assert_eq!(table.remove_client(1), Some(10));
    assert_eq!(table.remove_client(1), None);
    assert_eq!(table.client(1), None);
    assert_eq!(table.insert_client(11), Some(2));
    assert_eq!(table.insert_engine(7), Some(3));
    assert_eq!(table.remove_engine(3), Some(7));
    assert_eq!(table.insert_stream(2, 5), Some(4));
    assert_eq!(table.remove_stream(4), Some((2, 5)));
    assert_eq!(table.stream(4), None);
}

#[test]
fn invalidating_a_client_drops_only_its_streams() {
    let mut table: HandleTable<u32, u32, u32> = HandleTable::new();
    let first = table.insert_client(1).expect("handle");
    let second = table.insert_client(2).expect("handle");
    let a = table.insert_stream(first, 100).expect("handle");
    let b = table.insert_stream(second, 200).expect("handle");
    let c = table.insert_stream(first, 300).expect("handle");
    let dropped = table.invalidate_streams(first);
    assert_eq!(dropped, vec![(a, (first, 100)), (c, (first, 300))]);
    assert_eq!(table.stream(a), None);
    assert_eq!(table.stream(c), None);
    assert_eq!(table.stream(b), Some(&(second, 200)));
    assert_eq!(table.client(first), Some(&1));
}
