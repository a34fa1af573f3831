use execute_payments::memory::InMemoryEventRepository;
use execute_payments::port::EventRepository;
use execute_payments::transaction::Transaction;

fn tx(source: &str, id: i32, user_id: &str, amount_cents: u64) -> Transaction {
    Transaction::new(source.to_string(), id, user_id.to_string(), amount_cents)
}

#[test]
fn saved_event_comes_back_as_latest() {
    let mut repo = InMemoryEventRepository::new();
    repo.save_event(tx("order-1", 1, "u1", 999)).unwrap();
    let got = repo.get_events("order-1".to_string()).unwrap();
    assert_eq!(got.len(), 1);
    assert_eq!(got[0], tx("order-1", 1, "u1", 999));
}

#[test]
fn unknown_source_gives_empty_sequence_not_error() {
    let mut repo = InMemoryEventRepository::new();
    repo.save_event(tx("order-1", 1, "u1", 999)).unwrap();
    let got = repo.get_events("unknown-source".to_string()).unwrap();
    assert!(got.is_empty());
    let empty = InMemoryEventRepository::new();
    let got = empty.get_events("order-1".to_string()).unwrap();
    assert!(got.is_empty());
}

#[test]
fn never_more_than_one_event() {
    let mut repo = InMemoryEventRepository::new();
    for id in 1..6 {
        repo.save_event(tx("order-1", id, "u1", 100)).unwrap();
    }
    let got = repo.get_events("order-1".to_string()).unwrap();
    assert_eq!(got.len(), 1);
}

#[test]
fn later_sort_position_wins() {
    let mut repo = InMemoryEventRepository::new();
    repo.save_event(tx("order-1", 1, "u1", 999)).unwrap();
    repo.save_event(tx("order-1", 2, "u1", 1999)).unwrap();
    let got = repo.get_events("order-1".to_string()).unwrap();
    assert_eq!(got.len(), 1);
    assert_eq!(got[0], tx("order-1", 2, "u1", 1999));
}

#[test]
fn later_sort_position_wins_whatever_the_write_order() {
    let mut repo = InMemoryEventRepository::new();
    repo.save_event(tx("order-1", 7, "u1", 1999)).unwrap();
    repo.save_event(tx("order-1", 3, "u1", 999)).unwrap();
    let got = repo.get_events("order-1".to_string()).unwrap();
    assert_eq!(got.len(), 1);
    assert_eq!(got[0], tx("order-1", 7, "u1", 1999));
}

#[test]
fn equal_sort_positions_let_the_last_write_win() {
    let mut repo = InMemoryEventRepository::new();
    repo.save_event(tx("order-1", 1, "u1", 999)).unwrap();
    repo.save_event(tx("order-1", 1, "u2", 1999)).unwrap();
    let got = repo.get_events("order-1".to_string()).unwrap();
    assert_eq!(got.len(), 1);
    assert_eq!(got[0], tx("order-1", 1, "u2", 1999));
}

#[test]
fn sources_are_independent() {
    let mut repo = InMemoryEventRepository::new();
    repo.save_event(tx("order-1", 9, "u1", 100)).unwrap();
    repo.save_event(tx("order-2", 1, "u2", 200)).unwrap();
    let got = repo.get_events("order-2".to_string()).unwrap();
    assert_eq!(got.len(), 1);
    assert_eq!(got[0], tx("order-2", 1, "u2", 200));
}

#[test]
fn full_scenario_latest_snapshot() {
    let mut repo = InMemoryEventRepository::new();
    repo.save_event(tx("order-1", 1, "u1", 999)).unwrap();
    let got = repo.get_events("order-1".to_string()).unwrap();
    assert_eq!(got, vec![tx("order-1", 1, "u1", 999)]);
    let got = repo.get_events("unknown-source".to_string()).unwrap();
    assert!(got.is_empty());
    repo.save_event(tx("order-1", 2, "u1", 1999)).unwrap();
    let got = repo.get_events("order-1".to_string()).unwrap();
    assert_eq!(got, vec![tx("order-1", 2, "u1", 1999)]);
}
