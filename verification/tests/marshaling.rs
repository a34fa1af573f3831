use execute_payments::errors::DecodeError;
use execute_payments::errors::FieldName;
use execute_payments::item::marshal;
use execute_payments::item::unmarshal;
use execute_payments::item::AttrValue;
use execute_payments::item::StorageItem;
use execute_payments::transaction::Transaction;

fn tx(source: &str, id: i32, user_id: &str, amount_cents: u64) -> Transaction {
    Transaction::new(source.to_string(), id, user_id.to_string(), amount_cents)
}

fn item_of(entries: &[(&str, AttrValue)]) -> StorageItem {
    let mut item = StorageItem::empty();
    for (name, value) in entries {
        item.insert(name, value.clone());
    }
    item
}

fn s(text: &str) -> AttrValue {
    AttrValue::S(text.to_string())
}

fn n(text: &str) -> AttrValue {
    AttrValue::N(text.to_string())
}

#[test]
fn marshal_renders_the_four_attributes() {
    let item = marshal(&tx("order-1", 1, "u1", 999));
    assert_eq!(item.get("source"), Some(&s("order-1")));
    assert_eq!(item.get("id"), Some(&n("1")));
    assert_eq!(item.get("user_id"), Some(&s("u1")));
    assert_eq!(item.get("amount"), Some(&n("9.99")));
    assert_eq!(item.get("currency"), None);
}

#[test]
fn marshal_renders_negative_ids_and_small_amounts() {
    let item = marshal(&tx("order-2", -123, "u9", 5));
    assert_eq!(item.get("id"), Some(&n("-123")));
    assert_eq!(item.get("amount"), Some(&n("0.05")));
}

#[test]
fn unmarshal_inverts_marshal() {
    let t = tx("order-1", 42, "user-7", 123456);
    assert_eq!(unmarshal(&marshal(&t)).unwrap(), t);
    let t = tx("order-9", -2147483648, "u", 0);
    assert_eq!(unmarshal(&marshal(&t)).unwrap(), t);
    let t = tx("s", 2147483647, "u", u64::MAX);
    assert_eq!(unmarshal(&marshal(&t)).unwrap(), t);
}

#[test]
fn distinct_transactions_marshal_to_distinct_items() {
    let base = tx("order-1", 1, "u1", 999);
    let other_source = tx("order-2", 1, "u1", 999);
    let other_id = tx("order-1", 2, "u1", 999);
    let other_user = tx("order-1", 1, "u2", 999);
    let other_amount = tx("order-1", 1, "u1", 1000);
    let item = marshal(&base);
    assert_ne!(item.get("source"), marshal(&other_source).get("source"));
    assert_ne!(item.get("id"), marshal(&other_id).get("id"));
    assert_ne!(item.get("user_id"), marshal(&other_user).get("user_id"));
    assert_ne!(item.get("amount"), marshal(&other_amount).get("amount"));
}

#[test]
fn missing_attributes_are_reported_in_schema_order() {
    let err = unmarshal(&item_of(&[])).unwrap_err();
    assert_eq!(err, DecodeError::Missing(FieldName::Source));
    let err = unmarshal(&item_of(&[("source", s("order-1"))])).unwrap_err();
    assert_eq!(err, DecodeError::Missing(FieldName::Id));
    let err = unmarshal(&item_of(&[("source", s("order-1")), ("id", n("1"))])).unwrap_err();
    assert_eq!(err, DecodeError::Missing(FieldName::UserId));
    let err = unmarshal(&item_of(&[
        ("source", s("order-1")),
        ("id", n("1")),
        ("user_id", s("u1")),
    ]))
    .unwrap_err();
    assert_eq!(err, DecodeError::Missing(FieldName::Amount));
}

#[test]
fn mistyped_attributes_are_reported() {
    let err = unmarshal(&item_of(&[
        ("source", n("5")),
        ("id", n("1")),
        ("user_id", s("u1")),
        ("amount", n("9.99")),
    ]))
    .unwrap_err();
    assert_eq!(err, DecodeError::WrongKind(FieldName::Source));
    let err = unmarshal(&item_of(&[
        ("source", s("order-1")),
        ("id", s("1")),
        ("user_id", s("u1")),
        ("amount", n("9.99")),
    ]))
    .unwrap_err();
    assert_eq!(err, DecodeError::WrongKind(FieldName::Id));
    let err = unmarshal(&item_of(&[
        ("source", s("order-1")),
        ("id", n("1")),
        ("user_id", n("7")),
        ("amount", n("9.99")),
    ]))
    .unwrap_err();
    assert_eq!(err, DecodeError::WrongKind(FieldName::UserId));
    let err = unmarshal(&item_of(&[
        ("source", s("order-1")),
        ("id", n("1")),
        ("user_id", s("u1")),
        ("amount", s("9.99")),
    ]))
    .unwrap_err();
    assert_eq!(err, DecodeError::WrongKind(FieldName::Amount));
}

#[test]
fn empty_source_is_refused() {
    let err = unmarshal(&item_of(&[
        ("source", s("")),
        ("id", n("1")),
        ("user_id", s("u1")),
        ("amount", n("9.99")),
    ]))
    .unwrap_err();
    assert_eq!(err, DecodeError::EmptySource);
}

#[test]
fn non_canonical_numbers_are_refused() {
    let cases = ["01", "-0", "abc", "1.5", "", "+1", " 1", "2147483648", "-2147483649"];
    for bad in cases {
        let err = unmarshal(&item_of(&[
            ("source", s("order-1")),
            ("id", n(bad)),
            ("user_id", s("u1")),
            ("amount", n("9.99")),
        ]))
        .unwrap_err();
        assert_eq!(err, DecodeError::BadNumber(FieldName::Id), "id case {:?}", bad);
    }
    let cases = ["9.9", "9.999", "9", ".99", "09.99", "9..99", "99", "-1.00", ""];
    for bad in cases {
        let err = unmarshal(&item_of(&[
            ("source", s("order-1")),
            ("id", n("1")),
            ("user_id", s("u1")),
            ("amount", n(bad)),
        ]))
        .unwrap_err();
        assert_eq!(err, DecodeError::BadNumber(FieldName::Amount), "amount case {:?}", bad);
    }
}

#[test]
fn first_entry_of_a_name_wins() {
    let item = item_of(&[
        ("source", s("order-1")),
        ("source", s("order-2")),
        ("id", n("1")),
        ("user_id", s("u1")),
        ("amount", n("9.99")),
    ]);
    assert_eq!(item.get("source"), Some(&s("order-1")));
    assert_eq!(unmarshal(&item).unwrap(), tx("order-1", 1, "u1", 999));
}
