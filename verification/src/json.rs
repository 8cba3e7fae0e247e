use vstd::prelude::*;

use crate::text::{compare_text, string_from_chars, text_lt, text_order};

verus! {

/// A JSON value as the command layer produces it. Numbers are held in their
/// printed form. An object lists its members in ascending key order with no
/// key twice, the order in which JSON maps are walked.
#[derive(Debug)]
pub enum JsonValue {
    Null,
    Bool(bool),
    Number(String),
    String(String),
    Array(Vec<JsonValue>),
    Object(Vec<(String, JsonValue)>),
}

/// A scalar is anything but an array or an object.
pub open spec fn is_scalar(v: JsonValue) -> bool {
    !(v is Array) && !(v is Object)
}

/// The keys of a member list, in order.
pub open spec fn keys_of<V>(entries: Seq<(String, V)>) -> Seq<Seq<char>> {
    Seq::new(entries.len(), |i: int| entries[i].0@)
}

/// The index of the first member named `key`, if any.
pub open spec fn entry_index<V>(entries: Seq<(String, V)>, key: Seq<char>) -> Option<int>
    decreases entries.len(),
{
    if entries.len() == 0 {
        None
    } else if entries[0].0@ == key {
        Some(0)
    } else {
        match entry_index(entries.drop_first(), key) {
            Some(i) => Some(i + 1),
            None => None,
        }
    }
}

/// The value of the member named `key`, if any.
pub open spec fn entry_get<V>(entries: Seq<(String, V)>, key: Seq<char>) -> Option<V> {
    match entry_index(entries, key) {
        Some(i) => Some(entries[i].1),
        None => None,
    }
}

/// The member named `key` of an object value; `None` for non-objects.
pub open spec fn member(v: JsonValue, key: Seq<char>) -> Option<JsonValue> {
    match v {
        JsonValue::Object(entries) => entry_get(entries@, key),
        _ => None,
    }
}

/// Keys in strictly ascending order (so no key occurs twice).
pub open spec fn keys_ascending<V>(entries: Seq<(String, V)>) -> bool {
    forall|i: int, j: int| 0 <= i < j < entries.len() ==> text_lt(entries[i].0@, entries[j].0@)
}

/// What [`entry_index`] returns: the first position holding `key`, or `None`
/// when no member is named `key`.
pub proof fn lemma_entry_index_spec<V>(entries: Seq<(String, V)>, key: Seq<char>)
    ensures
        match entry_index(entries, key) {
            Some(i) => 0 <= i < entries.len() && entries[i].0@ == key && forall|j: int|
                0 <= j < i ==> entries[j].0@ != key,
            None => forall|j: int| 0 <= j < entries.len() ==> entries[j].0@ != key,
        },
    decreases entries.len(),
{
    if entries.len() > 0 && entries[0].0@ != key {
        lemma_entry_index_spec(entries.drop_first(), key);
        match entry_index(entries.drop_first(), key) {
            Some(i) => {
                assert forall|j: int| 0 <= j < i + 1 implies entries[j].0@ != key by {
                    if j > 0 {
                        assert(entries[j] == entries.drop_first()[j - 1]);
                    }
                }
            },
            None => {
                assert forall|j: int| 0 <= j < entries.len() implies entries[j].0@ != key by {
                    if j > 0 {
                        assert(entries[j] == entries.drop_first()[j - 1]);
                    }
                }
            },
        }
    }
}

/// The position of the member named `key`.
pub fn find_entry<V>(entries: &Vec<(String, V)>, key: &str) -> (r: Option<usize>)
    ensures
        match r {
            Some(i) => entry_index(entries@, key@) == Some(i as int),
            None => entry_index(entries@, key@) is None,
        },
{
    proof {
        lemma_entry_index_spec(entries@, key@);
    }
    let mut i: usize = 0;
    while i < entries.len()
        invariant
            i <= entries.len(),
            forall|j: int| 0 <= j < i ==> entries@[j].0@ != key@,
        decreases entries.len() - i,
    {
        if compare_text(entries[i].0.as_str(), key) == 0 {
            proof {
                crate::text::lemma_text_order_laws(entries@[i as int].0@, key@, key@);
                lemma_entry_index_unique(entries@, key@, i as int);
            }
            return Some(i);
        }
        proof {
            crate::text::lemma_text_order_laws(entries@[i as int].0@, key@, key@);
        }
        i += 1;
    }
    proof {
        lemma_entry_index_none(entries@, key@);
    }
    None
}

proof fn lemma_entry_index_unique<V>(entries: Seq<(String, V)>, key: Seq<char>, i: int)
    requires
        0 <= i < entries.len(),
        entries[i].0@ == key,
        forall|j: int| 0 <= j < i ==> entries[j].0@ != key,
    ensures
        entry_index(entries, key) == Some(i),
{
    lemma_entry_index_spec(entries, key);
}

proof fn lemma_entry_index_none<V>(entries: Seq<(String, V)>, key: Seq<char>)
    requires
        forall|j: int| 0 <= j < entries.len() ==> entries[j].0@ != key,
    ensures
        entry_index(entries, key) is None,
{
    lemma_entry_index_spec(entries, key);
}

/// The member named `key`.
pub fn get_entry<'a, V>(entries: &'a Vec<(String, V)>, key: &str) -> (r: Option<&'a V>)
    ensures
        match r {
            Some(v) => entry_get(entries@, key@) == Some(*v),
            None => entry_get(entries@, key@) is None,
        },
{
    proof {
        lemma_entry_index_spec(entries@, key@);
    }
    match find_entry(entries, key) {
        Some(i) => Some(&entries[i].1),
        None => None,
    }
}

/// Sets member `key` to `value`: an existing member keeps its place and
/// takes the new value, otherwise the member is added where key order puts it.
pub fn object_insert<V>(entries: &mut Vec<(String, V)>, key: String, value: V)
    requires
        keys_ascending(old(entries)@),
    ensures
        keys_ascending(final(entries)@),
        entry_get(final(entries)@, key@) == Some(value),
        forall|k: Seq<char>|
            k != key@ ==> #[trigger] entry_get(final(entries)@, k) == entry_get(old(entries)@, k),
{
    let ghost old_e = entries@;
    let ghost key_v = key@;
    let mut p: usize = 0;
    while p < entries.len()
        invariant
            p <= entries.len(),
            entries@ == old_e,
            key@ == key_v,
            forall|j: int| 0 <= j < p ==> text_lt(entries@[j].0@, key_v),
        ensures
            p <= entries.len(),
            entries@ == old_e,
            forall|j: int| 0 <= j < p ==> text_lt(entries@[j].0@, key_v),
            p < entries.len() ==> text_order(entries@[p as int].0@, key_v) >= 0,
        decreases entries.len() - p,
    {
        let c = compare_text(entries[p].0.as_str(), key.as_str());
        if c >= 0 {
            break;
        }
        p += 1;
    }
    proof {
        lemma_entry_index_spec(old_e, key_v);
        if p < old_e.len() {
            crate::text::lemma_text_order_laws(old_e[p as int].0@, key_v, key_v);
        }
        assert forall|j: int| 0 <= j < old_e.len() && old_e[j].0@ == key_v implies j == p by {
            if j < p {
                crate::text::lemma_text_order_laws(key_v, key_v, key_v);
            } else if j > p {
                crate::text::lemma_text_order_laws(old_e[p as int].0@, old_e[j].0@, key_v);
            }
        }
    }
    if p < entries.len() && compare_text(entries[p].0.as_str(), key.as_str()) == 0 {
        entries.set(p, (key, value));
        proof {
            assert forall|i: int, j: int| 0 <= i < j < entries@.len() implies text_lt(
                entries@[i].0@,
                entries@[j].0@,
            ) by {
                assert(old_e[p as int].0@ == key_v);
            }
            lemma_entry_index_spec(entries@, key_v);
            lemma_entry_index_unique(entries@, key_v, p as int);
            assert forall|k: Seq<char>| k != key_v implies #[trigger] entry_get(entries@, k)
                == entry_get(old_e, k) by {
                lemma_entry_index_spec(entries@, k);
                lemma_entry_index_spec(old_e, k);
                match entry_index(old_e, k) {
                    Some(i) => {
                        lemma_entry_index_unique(entries@, k, i);
                    },
                    None => {
                        lemma_entry_index_none(entries@, k);
                    },
                }
            }
        }
    } else {
        entries.insert(p, (key, value));
        proof {
            old_e.insert_ensures(p as int, (key, value));
            assert forall|i: int, j: int| 0 <= i < j < entries@.len() implies text_lt(
                entries@[i].0@,
                entries@[j].0@,
            ) by {
                if i < p && j > p {
                    crate::text::lemma_text_order_laws(entries@[i].0@, key_v, entries@[j].0@);
                    crate::text::lemma_text_order_laws(key_v, old_e[p as int].0@, entries@[j].0@);
                } else if i == p && j > p + 1 {
                    crate::text::lemma_text_order_laws(key_v, old_e[p as int].0@, entries@[j].0@);
                } else if i == p && j == p + 1 {
                    crate::text::lemma_text_order_laws(key_v, old_e[p as int].0@, old_e[p as int].0@);
                }
            }
            lemma_entry_index_unique(entries@, key_v, p as int);
            assert forall|k: Seq<char>| k != key_v implies #[trigger] entry_get(entries@, k)
                == entry_get(old_e, k) by {
                lemma_entry_index_spec(old_e, k);
                match entry_index(old_e, k) {
                    Some(i) => {
                        if i < p {
                            lemma_entry_index_unique(entries@, k, i);
                        } else {
                            lemma_entry_index_unique(entries@, k, i + 1);
                        }
                    },
                    None => {
                        lemma_entry_index_none(entries@, k);
                    },
                }
            }
        }
    }
}

/// A value of JSON text built from a string slice.
pub fn json_text(s: &str) -> (v: JsonValue)
    ensures
        v matches JsonValue::String(t) && t@ == s@,
{
    JsonValue::String(string_from_chars(&crate::text::chars_of(s)))
}

} // verus!
