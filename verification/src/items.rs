//! Named sets of items: each item carries an identifier, a name, a content
//! and three time stamps; a set keeps its items in the order of arrival.

use vstd::prelude::*;
use vstd::string::StringExecFns;
use crate::primitives::clock_limit;
use crate::primitives::clock_seconds;
use crate::primitives::fresh_identifier;
use crate::primitives::hyphenated_text;
use crate::primitives::identifier_text;

verus! {

/// Seconds after its creation at which an item expires: thirty days.
pub const ITEM_LIFETIME: i64 = 2_592_000;

/// One stored item.
#[derive(Clone, Debug)]
pub struct Item {
    pub uuid_id: String,
    pub set_name: String,
    pub item_name: String,
    pub content: String,
    pub created_at: i64,
    pub updated_at: i64,
    pub expired_at: i64,
    pub data_type: String,
}

/// A named set of items.
#[derive(Debug)]
pub struct ItemSet {
    pub name: String,
    pub content: Vec<Item>,
}

/// A value of a flat dictionary.
#[derive(Debug)]
pub enum Types {
    Sequence(String),
    Integer(i64),
    Boolean(bool),
}

/// Why an operation on a set was refused.
#[derive(Clone, Copy, Debug, PartialEq, Eq, Structural)]
pub enum ItemError {
    /// The set holds an item of that name with the same content.
    AlreadyExists,
    /// The set holds no item of that identifier or name.
    NotFound,
}

impl ItemError {
    /// The error's message.
    pub fn message(&self) -> (text: &'static str)
        ensures
            text@ == (match *self {
                ItemError::AlreadyExists => "Item already exists"@,
                ItemError::NotFound => "Item not found"@,
            }),
    {
        match self {
            ItemError::AlreadyExists => "Item already exists",
            ItemError::NotFound => "Item not found",
        }
    }
}

/// The tag that every item carries as its data type.
pub open spec fn data_type_tag() -> Seq<char> {
    "st"@
}

/// Whether a text and a string hold the same characters.
pub fn same_text(held: &String, given: &str) -> (same: bool)
    ensures
        same == (held@ == given@),
{
    let owned = given.to_owned();
    *held == owned
}

/// `i` is the place of the first item with the identifier.
pub open spec fn first_with_id(items: Seq<Item>, id: Seq<char>, i: int) -> bool {
    &&& 0 <= i < items.len()
    &&& items[i].uuid_id@ == id
    &&& forall|j: int| 0 <= j < i ==> items[j].uuid_id@ != id
}

/// `i` is the place of the first item with the name.
pub open spec fn first_with_name(items: Seq<Item>, name: Seq<char>, i: int) -> bool {
    &&& 0 <= i < items.len()
    &&& items[i].item_name@ == name
    &&& forall|j: int| 0 <= j < i ==> items[j].item_name@ != name
}

/// Some item has the identifier.
pub open spec fn has_id(items: Seq<Item>, id: Seq<char>) -> bool {
    exists|i: int| 0 <= i < items.len() && (#[trigger] items[i]).uuid_id@ == id
}

/// Some item has the name.
pub open spec fn has_name(items: Seq<Item>, name: Seq<char>) -> bool {
    exists|i: int| 0 <= i < items.len() && (#[trigger] items[i]).item_name@ == name
}

/// The items whose identifier is not the given one, in their order.
pub open spec fn without_id(items: Seq<Item>, id: Seq<char>) -> Seq<Item>
    decreases items.len(),
{
    if items.len() == 0 {
        items
    } else if items.last().uuid_id@ == id {
        without_id(items.drop_last(), id)
    } else {
        without_id(items.drop_last(), id).push(items.last())
    }
}

/// The items whose name is not the given one, in their order.
pub open spec fn without_name(items: Seq<Item>, name: Seq<char>) -> Seq<Item>
    decreases items.len(),
{
    if items.len() == 0 {
        items
    } else if items.last().item_name@ == name {
        without_name(items.drop_last(), name)
    } else {
        without_name(items.drop_last(), name).push(items.last())
    }
}

/// Whether an item passes a search by identifier, by name, by both or by
/// neither: each criterion that is given must hold.
pub open spec fn passes(item: Item, id: Option<Seq<char>>, name: Option<Seq<char>>) -> bool {
    &&& id matches Some(wanted) ==> item.uuid_id@ == wanted
    &&& name matches Some(wanted) ==> item.item_name@ == wanted
}

/// The character of one decimal digit.
pub open spec fn digit_char(digit: nat) -> char {
    seq!['0', '1', '2', '3', '4', '5', '6', '7', '8', '9'][digit as int]
}

/// A natural number in decimal, without leading zeros.
pub open spec fn digits_of(n: nat) -> Seq<char>
    decreases n,
{
    if n < 10 {
        seq![digit_char(n)]
    } else {
        digits_of(n / 10).push(digit_char(n % 10))
    }
}

/// An integer in decimal: a minus sign where it is negative, then the
/// digits of its magnitude.
pub open spec fn decimal_text(value: i64) -> Seq<char> {
    if value < 0 {
        seq!['-'] + digits_of((-(value as int)) as nat)
    } else {
        digits_of(value as nat)
    }
}

/// No key occurs twice among the entries.
pub open spec fn distinct_keys(entries: Seq<(String, Types)>) -> bool {
    forall|i: int, j: int| 0 <= i < j < entries.len() ==> entries[i].0@ != entries[j].0@
}

/// One decimal digit as text.
pub fn digit_text(digit: u64) -> (text: &'static str)
    requires
        digit < 10,
    ensures
        text@ == seq![digit_char(digit as nat)],
{
    proof {
        reveal_strlit("0");
        reveal_strlit("1");
        reveal_strlit("2");
        reveal_strlit("3");
        reveal_strlit("4");
        reveal_strlit("5");
        reveal_strlit("6");
        reveal_strlit("7");
        reveal_strlit("8");
        reveal_strlit("9");
    }
    let text = if digit == 0 {
        "0"
    } else if digit == 1 {
        "1"
    } else if digit == 2 {
        "2"
    } else if digit == 3 {
        "3"
    } else if digit == 4 {
        "4"
    } else if digit == 5 {
        "5"
    } else if digit == 6 {
        "6"
    } else if digit == 7 {
        "7"
    } else if digit == 8 {
        "8"
    } else {
        "9"
    };
    assert(text@ =~= seq![digit_char(digit as nat)]);
    text
}

/// Appends a natural number in decimal.
pub fn append_digits(text: &mut String, n: u64)
    ensures
        final(text)@ == old(text)@ + digits_of(n as nat),
    decreases n,
{
    let ghost before = text@;
    if n >= 10 {
        append_digits(text, n / 10);
    }
    text.append(digit_text(n % 10));
    assert(text@ =~= before + digits_of(n as nat));
}

/// Writes an integer in decimal.
pub fn integer_to_text(value: i64) -> (text: String)
    ensures
        text@ == decimal_text(value),
{
    let mut text = String::new();
    if value < 0 {
        proof {
            reveal_strlit("-");
        }
        text.append("-");
        let magnitude: u64 = if value == i64::MIN {
            9_223_372_036_854_775_808u64
        } else {
            (-value) as u64
        };
        append_digits(&mut text, magnitude);
        assert(text@ =~= decimal_text(value));
    } else {
        append_digits(&mut text, value as u64);
        assert(text@ =~= decimal_text(value));
    }
    text
}

/// A dictionary value as it stands in the text: a sequence in double
/// quotes, an integer in decimal, a boolean as `true` or `false`; each with
/// a comma behind it.
pub open spec fn value_text(value: Types) -> Seq<char> {
    match value {
        Types::Sequence(s) => "\""@ + s@ + "\","@,
        Types::Integer(i) => decimal_text(i) + ","@,
        Types::Boolean(b) => if b {
            "true,"@
        } else {
            "false,"@
        },
    }
}

/// The entries of a dictionary as they stand in the text, in their order:
/// each key in double quotes, a colon and the value.
pub open spec fn entries_text(entries: Seq<(String, Types)>) -> Seq<char>
    decreases entries.len(),
{
    if entries.len() == 0 {
        Seq::<char>::empty()
    } else {
        entries_text(entries.drop_last()) + "\""@ + entries.last().0@ + "\":"@ + value_text(
            entries.last().1,
        )
    }
}

/// The text of a dictionary: an opening brace and a line break, the
/// entries, a closing brace.
pub open spec fn dict_text(entries: Seq<(String, Types)>) -> Seq<char> {
    "{\n"@ + entries_text(entries) + "}"@
}

/// Whether a time leaves room for an item's lifetime.
pub open spec fn can_expire(now: i64) -> bool {
    now <= i64::MAX - 2_592_000
}

impl Item {
    /// A new item under a fresh random identifier, made now: created and
    /// updated at the second that the clock gives, expiring thirty days
    /// later. The set name, the item name and the content are the given
    /// ones; the identifier is a 128-bit number in its hyphenated form.
    pub fn new(set_name: String, item_name: String, content: String) -> (item: Item)
        ensures
            item.set_name == set_name,
            item.item_name == item_name,
            item.content == content,
            item.created_at < clock_limit(),
            item.updated_at == item.created_at,
            item.expired_at == item.created_at + 2_592_000,
            item.data_type@ == data_type_tag(),
            exists|id: u128| item.uuid_id@ == hyphenated_text(id),
            item.uuid_id@.len() == 36,
    {
        let id = fresh_identifier();
        let uuid_id = identifier_text(id);
        let now = clock_seconds();
        Item::stamped(uuid_id, set_name, item_name, content, now)
    }

    /// Replaces the content by the text of a dictionary, its entries in the
    /// order given. The entries are those of a dictionary: no key twice.
    pub fn write_dict(&mut self, data: Vec<(String, Types)>) -> (r: Result<(), ItemError>)
        requires
            distinct_keys(data@),
        ensures
            r is Ok,
            final(self).content@ == dict_text(data@),
            final(self).uuid_id == old(self).uuid_id,
            final(self).set_name == old(self).set_name,
            final(self).item_name == old(self).item_name,
            final(self).created_at == old(self).created_at,
            final(self).updated_at == old(self).updated_at,
            final(self).expired_at == old(self).expired_at,
            final(self).data_type == old(self).data_type,
    {
        let mut text = "{\n".to_owned();
        let mut i: usize = 0;
        assert(data@.take(0).len() == 0);
        assert(text@ =~= "{\n"@ + entries_text(data@.take(0)));
        while i < data.len()
            invariant
                i <= data@.len(),
                text@ == "{\n"@ + entries_text(data@.take(i as int)),
            decreases data@.len() - i,
        {
            proof {
                assert(data@.take(i + 1).drop_last() =~= data@.take(i as int));
                assert(data@.take(i + 1).last() == data@[i as int]);
            }
            let ghost before = text@;
            text.append("\"");
            text.append(data[i].0.as_str());
            text.append("\":");
            match &data[i].1 {
                Types::Sequence(s) => {
                    text.append("\"");
                    text.append(s.as_str());
                    text.append("\",");
                },
                Types::Integer(n) => {
                    let digits = integer_to_text(*n);
                    text.append(digits.as_str());
                    text.append(",");
                },
                Types::Boolean(b) => {
                    if *b {
                        text.append("true,");
                    } else {
                        text.append("false,");
                    }
                },
            }
            assert(text@ =~= before + "\""@ + data@[i as int].0@ + "\":"@ + value_text(
                data@[i as int].1,
            ));
            assert(text@ =~= "{\n"@ + entries_text(data@.take(i + 1)));
            i += 1;
        }
        assert(data@.take(i as int) =~= data@);
        text.append("}");
        self.content = text;
        Ok(())
    }

    /// An item made at `now` under a given identifier: created and updated
    /// then, expiring thirty days later.
    pub fn stamped(
        uuid_id: String,
        set_name: String,
        item_name: String,
        content: String,
        now: i64,
    ) -> (item: Item)
        requires
            can_expire(now),
        ensures
            item.uuid_id == uuid_id,
            item.set_name == set_name,
            item.item_name == item_name,
            item.content == content,
            item.created_at == now,
            item.updated_at == now,
            item.expired_at == now + 2_592_000,
            item.data_type@ == data_type_tag(),
    {
        Item {
            uuid_id,
            set_name,
            item_name,
            content,
            created_at: now,
            updated_at: now,
            expired_at: now + ITEM_LIFETIME,
            data_type: "st".to_owned(),
        }
    }

    /// A copy of the item, field by field.
    pub fn duplicate(&self) -> (copy: Item)
        ensures
            copy == *self,
    {
        Item {
            uuid_id: self.uuid_id.clone(),
            set_name: self.set_name.clone(),
            item_name: self.item_name.clone(),
            content: self.content.clone(),
            created_at: self.created_at,
            updated_at: self.updated_at,
            expired_at: self.expired_at,
            data_type: self.data_type.clone(),
        }
    }

    /// Replaces the content; nothing else changes.
    pub fn write_str(&mut self, data: String) -> (r: Result<(), ItemError>)
        ensures
            r is Ok,
            *final(self) == (Item { content: data, ..*old(self) }),
    {
        self.content = data;
        Ok(())
    }

    /// Replaces the content and records `now` as the time of the update.
    pub fn update_content(&mut self, new_content: &str, now: i64)
        ensures
            final(self).content@ == new_content@,
            final(self).updated_at == now,
            final(self).uuid_id == old(self).uuid_id,
            final(self).set_name == old(self).set_name,
            final(self).item_name == old(self).item_name,
            final(self).created_at == old(self).created_at,
            final(self).expired_at == old(self).expired_at,
            final(self).data_type == old(self).data_type,
    {
        self.content = new_content.to_owned();
        self.updated_at = now;
    }
}

impl ItemSet {
    /// An empty set of the given name.
    pub fn new(name: String) -> (set: ItemSet)
        ensures
            set.name == name,
            set.content@.len() == 0,
    {
        ItemSet { name, content: Vec::new() }
    }

    /// The number of items.
    pub fn count_items(&self) -> (n: u64)
        ensures
            n == self.content@.len(),
    {
        self.content.len() as u64
    }

    fn position_by_id(&self, uuid_id: &str) -> (r: Option<usize>)
        ensures
            match r {
                Some(i) => first_with_id(self.content@, uuid_id@, i as int),
                None => !has_id(self.content@, uuid_id@),
            },
    {
        let mut i: usize = 0;
        while i < self.content.len()
            invariant
                i <= self.content@.len(),
                forall|j: int| 0 <= j < i ==> self.content@[j].uuid_id@ != uuid_id@,
            decreases self.content@.len() - i,
        {
            if same_text(&self.content[i].uuid_id, uuid_id) {
                return Some(i);
            }
            i += 1;
        }
        None
    }

    fn position_by_name(&self, name: &str) -> (r: Option<usize>)
        ensures
            match r {
                Some(i) => first_with_name(self.content@, name@, i as int),
                None => !has_name(self.content@, name@),
            },
    {
        let mut i: usize = 0;
        while i < self.content.len()
            invariant
                i <= self.content@.len(),
                forall|j: int| 0 <= j < i ==> self.content@[j].item_name@ != name@,
            decreases self.content@.len() - i,
        {
            if same_text(&self.content[i].item_name, name) {
                return Some(i);
            }
            i += 1;
        }
        None
    }

    /// Adds an item at the end, unless the first item of the same name has
    /// the same content: then the set stays as it is and the item is
    /// refused as already there.
    pub fn insert_item(&mut self, item: Item) -> (r: Result<bool, ItemError>)
        ensures
            final(self).name == old(self).name,
            match r {
                Ok(added) => added && final(self).content@ == old(self).content@.push(item) && (
                forall|i: int|
                    first_with_name(old(self).content@, item.item_name@, i) ==> old(
                        self,
                    ).content@[i].content@ != item.content@),
                Err(e) => e == ItemError::AlreadyExists && final(self).content@ == old(
                    self,
                ).content@ && exists|i: int|
                    first_with_name(old(self).content@, item.item_name@, i) && old(
                        self,
                    ).content@[i].content@ == item.content@,
            },
    {
        match self.position_by_name(item.item_name.as_str()) {
            Some(i) => {
                if self.content[i].content == item.content {
                    Err(ItemError::AlreadyExists)
                } else {
                    self.content.push(item);
                    Ok(true)
                }
            },
            None => {
                self.content.push(item);
                Ok(true)
            },
        }
    }

    /// The first item with the identifier.
    pub fn get_item(&self, uuid_id: &str) -> (r: Result<&Item, ItemError>)
        ensures
            match r {
                Ok(item) => exists|i: int|
                    first_with_id(self.content@, uuid_id@, i) && *item == self.content@[i],
                Err(e) => e == ItemError::NotFound && !has_id(self.content@, uuid_id@),
            },
    {
        match self.position_by_id(uuid_id) {
            Some(i) => Ok(&self.content[i]),
            None => Err(ItemError::NotFound),
        }
    }

    /// The first item with the name.
    pub fn get_item_by_name(&self, name: &str) -> (r: Result<&Item, ItemError>)
        ensures
            match r {
                Ok(item) => exists|i: int|
                    first_with_name(self.content@, name@, i) && *item == self.content@[i],
                Err(e) => e == ItemError::NotFound && !has_name(self.content@, name@),
            },
    {
        match self.position_by_name(name) {
            Some(i) => Ok(&self.content[i]),
            None => Err(ItemError::NotFound),
        }
    }

    /// Removes every item with the identifier; the others keep their order.
    pub fn delete_item_by_id(&mut self, uuid_id: &str) -> (r: Result<(), ItemError>)
        ensures
            r is Ok,
            final(self).name == old(self).name,
            final(self).content@ == without_id(old(self).content@, uuid_id@),
    {
        let ghost before = self.content@;
        let ghost mut seen: int = 0;
        let mut i: usize = 0;
        assert(before.subrange(0, 0) =~= Seq::<Item>::empty());
        assert(before.subrange(0, before.len() as int) =~= before);
        while i < self.content.len()
            invariant
                self.name == old(self).name,
                0 <= seen <= before.len(),
                i <= self.content@.len(),
                i == without_id(before.subrange(0, seen), uuid_id@).len(),
                self.content@ == without_id(before.subrange(0, seen), uuid_id@)
                    + before.subrange(seen, before.len() as int),
            decreases self.content@.len() - i,
        {
            proof {
                assert(before.subrange(0, seen + 1).drop_last() =~= before.subrange(0, seen));
                assert(before.subrange(0, seen + 1).last() == before[seen]);
                assert(self.content@[i as int] == before[seen]);
            }
            if same_text(&self.content[i].uuid_id, uuid_id) {
                self.content.remove(i);
                assert(self.content@ =~= without_id(before.subrange(0, seen + 1), uuid_id@)
                    + before.subrange(seen + 1, before.len() as int));
            } else {
                assert(self.content@ =~= without_id(before.subrange(0, seen + 1), uuid_id@)
                    + before.subrange(seen + 1, before.len() as int));
                i += 1;
            }
            proof {
                seen = seen + 1;
            }
        }
        assert(self.content@ =~= without_id(before, uuid_id@)) by {
            assert(seen == before.len());
            assert(before.subrange(0, seen) =~= before);
        }
        Ok(())
    }

    /// Removes every item with the name; the others keep their order.
    pub fn delete_item_by_name(&mut self, name: &str) -> (r: Result<(), ItemError>)
        ensures
            r is Ok,
            final(self).name == old(self).name,
            final(self).content@ == without_name(old(self).content@, name@),
    {
        let ghost before = self.content@;
        let ghost mut seen: int = 0;
        let mut i: usize = 0;
        assert(before.subrange(0, 0) =~= Seq::<Item>::empty());
        assert(before.subrange(0, before.len() as int) =~= before);
        while i < self.content.len()
            invariant
                self.name == old(self).name,
                0 <= seen <= before.len(),
                i <= self.content@.len(),
                i == without_name(before.subrange(0, seen), name@).len(),
                self.content@ == without_name(before.subrange(0, seen), name@) + before.subrange(
                    seen,
                    before.len() as int,
                ),
            decreases self.content@.len() - i,
        {
            proof {
                assert(before.subrange(0, seen + 1).drop_last() =~= before.subrange(0, seen));
                assert(before.subrange(0, seen + 1).last() == before[seen]);
                assert(self.content@[i as int] == before[seen]);
            }
            if same_text(&self.content[i].item_name, name) {
                self.content.remove(i);
                assert(self.content@ =~= without_name(before.subrange(0, seen + 1), name@)
                    + before.subrange(seen + 1, before.len() as int));
            } else {
                assert(self.content@ =~= without_name(before.subrange(0, seen + 1), name@)
                    + before.subrange(seen + 1, before.len() as int));
                i += 1;
            }
            proof {
                seen = seen + 1;
            }
        }
        assert(self.content@ =~= without_name(before, name@)) by {
            assert(seen == before.len());
            assert(before.subrange(0, seen) =~= before);
        }
        Ok(())
    }

    /// Puts an item in the place of the first one with the identifier.
    pub fn update_item_by_id(&mut self, uuid_id: &str, item: Item) -> (r: Result<(), ItemError>)
        ensures
            final(self).name == old(self).name,
            match r {
                Ok(_) => exists|i: int|
                    first_with_id(old(self).content@, uuid_id@, i) && final(self).content@ == old(
                        self,
                    ).content@.update(i, item),
                Err(e) => e == ItemError::NotFound && !has_id(old(self).content@, uuid_id@)
                    && final(self).content@ == old(self).content@,
            },
    {
        match self.position_by_id(uuid_id) {
            Some(i) => {
                self.content.set(i, item);
                Ok(())
            },
            None => Err(ItemError::NotFound),
        }
    }

    /// Puts an item in the place of the first one with the name.
    pub fn update_item_by_name(&mut self, name: &str, item: Item) -> (r: Result<(), ItemError>)
        ensures
            final(self).name == old(self).name,
            match r {
                Ok(_) => exists|i: int|
                    first_with_name(old(self).content@, name@, i) && final(self).content@ == old(
                        self,
                    ).content@.update(i, item),
                Err(e) => e == ItemError::NotFound && !has_name(old(self).content@, name@)
                    && final(self).content@ == old(self).content@,
            },
    {
        match self.position_by_name(name) {
            Some(i) => {
                self.content.set(i, item);
                Ok(())
            },
            None => Err(ItemError::NotFound),
        }
    }
}

/// The characters of a text that may be absent.
pub open spec fn option_text(text: Option<&str>) -> Option<Seq<char>> {
    match text {
        Some(t) => Some(t@),
        None => None,
    }
}

/// The first item that passes a search by identifier, by name or by
/// both; without either criterion, the first item.
pub fn find_item_in_set<'a>(
    set: &'a ItemSet,
    uuid_id: Option<&str>,
    item_name: Option<&str>,
) -> (r: Result<&'a Item, ItemError>)
    ensures
        match r {
            Ok(item) => exists|i: int|
                0 <= i < set.content@.len() && *item == set.content@[i] && passes(
                    set.content@[i],
                    option_text(uuid_id),
                    option_text(item_name),
                ) && forall|j: int|
                    0 <= j < i ==> !passes(
                        set.content@[j],
                        option_text(uuid_id),
                        option_text(item_name),
                    ),
            Err(e) => e == ItemError::NotFound && forall|j: int|
                0 <= j < set.content@.len() ==> !passes(
                    set.content@[j],
                    option_text(uuid_id),
                    option_text(item_name),
                ),
        },
{
    let mut i: usize = 0;
    while i < set.content.len()
        invariant
            i <= set.content@.len(),
            forall|j: int|
                0 <= j < i ==> !passes(
                    set.content@[j],
                    option_text(uuid_id),
                    option_text(item_name),
                ),
        decreases set.content@.len() - i,
    {
        let by_id = match uuid_id {
            Some(wanted) => same_text(&set.content[i].uuid_id, wanted),
            None => true,
        };
        let by_name = match item_name {
            Some(wanted) => same_text(&set.content[i].item_name, wanted),
            None => true,
        };
        if by_id && by_name {
            return Ok(&set.content[i]);
        }
        i += 1;
    }
    Err(ItemError::NotFound)
}

/// The items of a stored set, or none where no set was stored.
pub open spec fn stored_items(stored: Option<ItemSet>) -> Seq<Item> {
    match stored {
        Some(set) => set.content@,
        None => Seq::<Item>::empty(),
    }
}

/// Adds a copy of an item to the set stored under the item's set name, or,
/// where none is stored, to a new set of that name. The set that comes back
/// is the one to store, whether the item was added or refused as already
/// there.
pub fn add_item(stored: Option<ItemSet>, item: &Item) -> (r: (ItemSet, Result<bool, ItemError>))
    ensures
        r.0.name == (match stored {
            Some(set) => set.name,
            None => item.set_name,
        }),
        match r.1 {
            Ok(added) => added && r.0.content@ == stored_items(stored).push(*item) && (
            forall|i: int|
                first_with_name(stored_items(stored), item.item_name@, i) ==> stored_items(
                    stored,
                )[i].content@ != item.content@),
            Err(e) => e == ItemError::AlreadyExists && r.0.content@ == stored_items(stored)
                && exists|i: int|
                first_with_name(stored_items(stored), item.item_name@, i) && stored_items(
                    stored,
                )[i].content@ == item.content@,
        },
{
    let mut set = match stored {
        Some(set) => set,
        None => ItemSet::new(item.set_name.clone()),
    };
    let outcome = set.insert_item(item.duplicate());
    (set, outcome)
}

/// A new item, as `Item::new` makes it.
pub fn create_item(set_name: String, item_name: String, content: String) -> (r: Result<
    Item,
    ItemError,
>)
    ensures
        r matches Ok(item) && item.set_name == set_name && item.item_name == item_name
            && item.content == content && item.created_at < clock_limit() && item.updated_at
            == item.created_at && item.expired_at == item.created_at + 2_592_000
            && item.data_type@ == data_type_tag() && item.uuid_id@.len() == 36 && exists|
            id: u128,
        |
            item.uuid_id@ == hyphenated_text(id),
{
    Ok(Item::new(set_name, item_name, content))
}

/// An empty set of the given name.
pub fn create_set(set_name: String) -> (r: Result<ItemSet, ItemError>)
    ensures
        r matches Ok(set) && set.name == set_name && set.content@.len() == 0,
{
    Ok(ItemSet::new(set_name))
}

} // verus!
