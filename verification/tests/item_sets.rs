use jsonstore::items::{
    add_item, append_digits, create_item, create_set, digit_text, find_item_in_set,
    integer_to_text, Item, ItemError, ItemSet, Types,
};

fn item(id: &str, name: &str, content: &str) -> Item {
    Item::stamped(
        id.to_string(),
        "set1".to_string(),
        name.to_string(),
        content.to_string(),
        1_000,
    )
}

fn ids(set: &ItemSet) -> Vec<String> {
    set.content.iter().map(|i| i.uuid_id.clone()).collect()
}

#[test]
fn stamped_item_expires_thirty_days_later() {
    let it = item("u1", "n1", "c1");
    assert_eq!(it.uuid_id, "u1");
    assert_eq!(it.set_name, "set1");
    assert_eq!(it.item_name, "n1");
    assert_eq!(it.content, "c1");
    assert_eq!(it.created_at, 1_000);
    assert_eq!(it.updated_at, 1_000);
    assert_eq!(it.expired_at, 1_000 + 30 * 24 * 60 * 60);
    assert_eq!(it.data_type, "st");
}

#[test]
fn stamped_item_at_the_last_time_that_can_expire() {
    let last = Item::stamped(
        "u".to_string(),
        "s".to_string(),
        "n".to_string(),
        "c".to_string(),
        i64::MAX - 2_592_000,
    );
    assert_eq!(last.expired_at, i64::MAX);
    let early = Item::stamped(
        "u".to_string(),
        "s".to_string(),
        "n".to_string(),
        "c".to_string(),
        -5,
    );
    assert_eq!(early.expired_at, 2_591_995);
}

#[test]
fn new_item_has_a_fresh_identifier_and_the_current_time() {
    let one = Item::new("s".to_string(), "n".to_string(), "c".to_string());
    let two = create_item("s".to_string(), "n".to_string(), "c".to_string()).unwrap();
    assert_ne!(one.uuid_id, two.uuid_id);
    assert_eq!(one.uuid_id.len(), 36);
    assert_eq!(one.uuid_id.as_bytes()[14], b'4');
    for place in [8usize, 13, 18, 23] {
        assert_eq!(one.uuid_id.as_bytes()[place], b'-');
    }
    assert!(one.created_at < (1i64 << 48));
    assert!(one.created_at > 1_600_000_000);
    assert_eq!(one.updated_at, one.created_at);
    assert_eq!(one.expired_at, one.created_at + 2_592_000);
    assert_eq!(one.set_name, "s");
    assert_eq!(one.item_name, "n");
    assert_eq!(one.content, "c");
    assert_eq!(one.data_type, "st");
}

#[test]
fn write_str_and_update_content() {
    let mut it = item("u1", "n1", "c1");
    assert!(it.write_str("fresh".to_string()).is_ok());
    assert_eq!(it.content, "fresh");
    assert_eq!(it.updated_at, 1_000);
    it.update_content("newer", 2_000);
    assert_eq!(it.content, "newer");
    assert_eq!(it.updated_at, 2_000);
    assert_eq!(it.created_at, 1_000);
}

#[test]
fn write_dict_lists_the_entries_in_order() {
    let mut it = item("u1", "n1", "c1");
    let data = vec![
        ("name".to_string(), Types::Sequence("x".to_string())),
        ("count".to_string(), Types::Integer(-42)),
        ("on".to_string(), Types::Boolean(true)),
        ("off".to_string(), Types::Boolean(false)),
    ];
    assert!(it.write_dict(data).is_ok());
    assert_eq!(it.content, "{\n\"name\":\"x\",\"count\":-42,\"on\":true,\"off\":false,}");
    assert!(it.write_dict(Vec::new()).is_ok());
    assert_eq!(it.content, "{\n}");
    assert!(it
        .write_dict(vec![("m".to_string(), Types::Integer(i64::MIN))])
        .is_ok());
    assert_eq!(it.content, "{\n\"m\":-9223372036854775808,}");
}

#[test]
fn insert_refuses_same_name_with_same_content() {
    let mut set = ItemSet::new("set1".to_string());
    assert_eq!(set.count_items(), 0);
    assert_eq!(set.insert_item(item("u1", "a", "one")), Ok(true));
    assert_eq!(set.insert_item(item("u2", "a", "one")), Err(ItemError::AlreadyExists));
    assert_eq!(set.count_items(), 1);
    assert_eq!(set.insert_item(item("u3", "a", "two")), Ok(true));
    assert_eq!(set.insert_item(item("u4", "b", "one")), Ok(true));
    assert_eq!(set.count_items(), 3);
    assert_eq!(ids(&set), vec!["u1", "u3", "u4"]);
    assert_eq!(set.insert_item(item("u5", "a", "two")), Ok(true));
    assert_eq!(set.count_items(), 4);
}

#[test]
fn get_returns_the_first_match() {
    let mut set = create_set("set1".to_string()).unwrap();
    assert_eq!(set.name, "set1");
    set.content.push(item("u1", "a", "one"));
    set.content.push(item("u2", "b", "two"));
    set.content.push(item("u1", "b", "three"));
    assert_eq!(set.get_item("u1").unwrap().content, "one");
    assert_eq!(set.get_item_by_name("b").unwrap().content, "two");
    assert_eq!(set.get_item("zz").err(), Some(ItemError::NotFound));
    assert_eq!(set.get_item_by_name("zz").err(), Some(ItemError::NotFound));
}

#[test]
fn delete_removes_every_match_and_keeps_the_order() {
    let mut set = ItemSet::new("set1".to_string());
    for (id, name) in [("u1", "a"), ("u2", "b"), ("u1", "c"), ("u3", "b"), ("u4", "d")] {
        set.content.push(item(id, name, "x"));
    }
    assert!(set.delete_item_by_id("u1").is_ok());
    assert_eq!(ids(&set), vec!["u2", "u3", "u4"]);
    assert!(set.delete_item_by_name("b").is_ok());
    assert_eq!(ids(&set), vec!["u4"]);
    assert!(set.delete_item_by_id("nobody").is_ok());
    assert_eq!(ids(&set), vec!["u4"]);
    assert!(set.delete_item_by_name("d").is_ok());
    assert_eq!(set.count_items(), 0);
}

#[test]
fn update_replaces_the_first_match() {
    let mut set = ItemSet::new("set1".to_string());
    set.content.push(item("u1", "a", "one"));
    set.content.push(item("u2", "b", "two"));
    set.content.push(item("u1", "b", "three"));
    assert_eq!(set.update_item_by_id("u1", item("u9", "z", "new")), Ok(()));
    assert_eq!(ids(&set), vec!["u9", "u2", "u1"]);
    assert_eq!(set.update_item_by_name("b", item("u8", "y", "newer")), Ok(()));
    assert_eq!(ids(&set), vec!["u9", "u8", "u1"]);
    assert_eq!(
        set.update_item_by_id("gone", item("u7", "x", "")),
        Err(ItemError::NotFound)
    );
    assert_eq!(
        set.update_item_by_name("gone", item("u7", "x", "")),
        Err(ItemError::NotFound)
    );
    assert_eq!(ids(&set), vec!["u9", "u8", "u1"]);
}

#[test]
fn find_by_identifier_name_both_or_neither() {
    let mut set = ItemSet::new("set1".to_string());
    set.content.push(item("u1", "a", "one"));
    set.content.push(item("u2", "b", "two"));
    set.content.push(item("u1", "b", "three"));
    assert_eq!(find_item_in_set(&set, Some("u1"), None).unwrap().content, "one");
    assert_eq!(find_item_in_set(&set, None, Some("b")).unwrap().content, "two");
    assert_eq!(find_item_in_set(&set, Some("u1"), Some("b")).unwrap().content, "three");
    assert_eq!(find_item_in_set(&set, None, None).unwrap().content, "one");
    assert_eq!(find_item_in_set(&set, Some("u2"), Some("a")).err(), Some(ItemError::NotFound));
    let empty = ItemSet::new("e".to_string());
    assert_eq!(find_item_in_set(&empty, None, None).err(), Some(ItemError::NotFound));
}

#[test]
fn item_error_messages() {
    assert_eq!(ItemError::AlreadyExists.message(), "Item already exists");
    assert_eq!(ItemError::NotFound.message(), "Item not found");
}

#[test]
fn add_item_starts_a_set_where_none_is_stored() {
    let first = item("u1", "a", "one");
    let (set, outcome) = add_item(None, &first);
    assert_eq!(outcome, Ok(true));
    assert_eq!(set.name, "set1");
    assert_eq!(ids(&set), vec!["u1"]);
    assert_eq!(set.content[0].content, "one");
    assert_eq!(set.content[0].expired_at, first.expired_at);

    let (set, outcome) = add_item(Some(set), &item("u2", "a", "one"));
    assert_eq!(outcome, Err(ItemError::AlreadyExists));
    assert_eq!(ids(&set), vec!["u1"]);

    let mut kept = ItemSet::new("kept".to_string());
    kept.content.push(item("u0", "z", "zero"));
    let (set, outcome) = add_item(Some(kept), &item("u3", "b", "two"));
    assert_eq!(outcome, Ok(true));
    assert_eq!(set.name, "kept");
    assert_eq!(ids(&set), vec!["u0", "u3"]);
}

#[test]
fn duplicate_copies_every_field() {
    let mut it = item("u1", "n1", "c1");
    it.update_content("c2", 77);
    let copy = it.duplicate();
    assert_eq!(copy.uuid_id, it.uuid_id);
    assert_eq!(copy.set_name, it.set_name);
    assert_eq!(copy.item_name, it.item_name);
    assert_eq!(copy.content, "c2");
    assert_eq!(copy.created_at, it.created_at);
    assert_eq!(copy.updated_at, 77);
    assert_eq!(copy.expired_at, it.expired_at);
    assert_eq!(copy.data_type, it.data_type);
}

#[test]
fn integers_are_written_in_decimal() {
    let cases: [(i64, &str); 12] = [
        (0, "0"),
        (1, "1"),
        (9, "9"),
        (10, "10"),
        (99, "99"),
        (100, "100"),
        (1_000_000_007, "1000000007"),
        (-1, "-1"),
        (-10, "-10"),
        (-42, "-42"),
        (i64::MAX, "9223372036854775807"),
        (i64::MIN, "-9223372036854775808"),
    ];
    for (value, text) in cases {
        assert_eq!(integer_to_text(value), text);
        assert_eq!(integer_to_text(value), value.to_string());
    }
}

#[test]
fn digits_are_appended_most_significant_first() {
    let mut text = String::from("n=");
    append_digits(&mut text, 0);
    assert_eq!(text, "n=0");
    append_digits(&mut text, 1234567890);
    assert_eq!(text, "n=01234567890");
    append_digits(&mut text, u64::MAX);
    assert_eq!(text, "n=0123456789018446744073709551615");
    let all: Vec<&str> = (0..10u64).map(digit_text).collect();
    assert_eq!(all, vec!["0", "1", "2", "3", "4", "5", "6", "7", "8", "9"]);
}
