use vstd::prelude::*;

verus! {

/// The result envelope of a command whose output is written as JSON.
pub struct JsonEnvelope<T> {
    pub schema_version: &'static str,
    pub ok: bool,
    pub code: Option<String>,
    pub message: Option<String>,
    pub item: Option<T>,
    pub items: Option<Vec<T>>,
}

/// A successful envelope holding one item.
pub fn ok_item<T>(item: T) -> (env: JsonEnvelope<T>)
    ensures
        env.schema_version@ == "1"@,
        env.ok,
        env.code is None,
        env.message is None,
        env.item == Some(item),
        env.items is None,
{
    JsonEnvelope {
        schema_version: "1",
        ok: true,
        code: None,
        message: None,
        item: Some(item),
        items: None,
    }
}

/// A successful envelope holding a list of items.
pub fn ok_items<T>(items: Vec<T>) -> (env: JsonEnvelope<T>)
    ensures
        env.schema_version@ == "1"@,
        env.ok,
        env.code is None,
        env.message is None,
        env.item is None,
        env.items == Some(items),
{
    JsonEnvelope {
        schema_version: "1",
        ok: true,
        code: None,
        message: None,
        item: None,
        items: Some(items),
    }
}

} // verus!
