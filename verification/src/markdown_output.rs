use vstd::prelude::*;

use crate::json::{entry_get, find_entry, get_entry, is_scalar, keys_of, member, JsonValue};
use crate::text::{
    chars_of, compare_text, decimal, has_char, push_char, push_chars, push_decimal, push_repeat,
    push_str, repeat_char, repeat_text, replace_char, replace_chars, string_from_chars,
};

verus! {

/// The result envelope of a command whose output is rendered as Markdown.
pub struct MarkdownEnvelope<T> {
    pub schema_version: &'static str,
    pub ok: bool,
    pub code: Option<String>,
    pub message: Option<String>,
    pub item: Option<T>,
    pub items: Option<Vec<T>>,
}

/// A successful envelope holding one item.
pub fn ok_item<T>(item: T) -> (env: MarkdownEnvelope<T>)
    ensures
        env.schema_version@ == "1"@,
        env.ok,
        env.code is None,
        env.message is None,
        env.item == Some(item),
        env.items is None,
{
    MarkdownEnvelope {
        schema_version: "1",
        ok: true,
        code: None,
        message: None,
        item: Some(item),
        items: None,
    }
}

/// A successful envelope holding a list of items.
pub fn ok_items<T>(items: Vec<T>) -> (env: MarkdownEnvelope<T>)
    ensures
        env.schema_version@ == "1"@,
        env.ok,
        env.code is None,
        env.message is None,
        env.item is None,
        env.items == Some(items),
{
    MarkdownEnvelope {
        schema_version: "1",
        ok: true,
        code: None,
        message: None,
        item: None,
        items: Some(items),
    }
}

// ---------------------------------------------------------------------------
// Escaping
// ---------------------------------------------------------------------------

/// Inline code text: every backtick is preceded by a backslash.
pub open spec fn escape_inline_of(s: Seq<char>) -> Seq<char> {
    replace_char(s, '`', seq!['\\', '`'])
}

/// Table cell text: inline escaping, then every `|` preceded by a backslash.
pub open spec fn escape_cell_of(s: Seq<char>) -> Seq<char> {
    replace_char(escape_inline_of(s), '|', seq!['\\', '|'])
}

/// Escapes backticks for inline code.
pub fn escape_inline(value: &str) -> (r: String)
    ensures
        r@ == escape_inline_of(value@),
{
    let with = vec!['\\', '`'];
    string_from_chars(&replace_chars(&chars_of(value), '`', &with))
}

/// Escapes backticks and pipes for a table cell.
pub fn escape_table_cell(value: &str) -> (r: String)
    ensures
        r@ == escape_cell_of(value@),
{
    let inline = escape_inline(value);
    let with = vec!['\\', '|'];
    string_from_chars(&replace_chars(&chars_of(inline.as_str()), '|', &with))
}

// ---------------------------------------------------------------------------
// Scalars
// ---------------------------------------------------------------------------

/// The text of a boolean.
pub open spec fn bool_text(b: bool) -> Seq<char> {
    if b {
        "true"@
    } else {
        "false"@
    }
}

/// How a scalar is shown inline: code spans, a fenced block for multi-line
/// text, and `_null_` for null.
pub open spec fn inline_of(v: JsonValue) -> Seq<char> {
    match v {
        JsonValue::Null => "_null_"@,
        JsonValue::Bool(b) => seq!['`'] + bool_text(b) + seq!['`'],
        JsonValue::Number(t) => seq!['`'] + t@ + seq!['`'],
        JsonValue::String(t) => if has_char(t@, '\n') {
            "\n```text\n"@ + t@ + "\n```"@
        } else {
            seq!['`'] + escape_inline_of(t@) + seq!['`']
        },
        _ => seq![],
    }
}

fn push_bool(buf: &mut String, b: bool)
    ensures
        final(buf)@ == old(buf)@ + bool_text(b),
{
    if b {
        push_str(buf, "true");
    } else {
        push_str(buf, "false");
    }
}

/// Appends the inline form of a scalar.
fn push_inline(buf: &mut String, value: &JsonValue)
    requires
        is_scalar(*value),
    ensures
        final(buf)@ == old(buf)@ + inline_of(*value),
{
    let ghost start = buf@;
    match value {
        JsonValue::Null => push_str(buf, "_null_"),
        JsonValue::Bool(b) => {
            push_char(buf, '`');
            push_bool(buf, *b);
            push_char(buf, '`');
            assert(buf@ =~= start + inline_of(*value));
        },
        JsonValue::Number(t) => {
            push_char(buf, '`');
            push_str(buf, t.as_str());
            push_char(buf, '`');
            assert(buf@ =~= start + inline_of(*value));
        },
        JsonValue::String(t) => {
            let cs = chars_of(t.as_str());
            match crate::text::find_char(&cs, '\n') {
                Some(_) => {
                    push_str(buf, "\n```text\n");
                    push_str(buf, t.as_str());
                    push_str(buf, "\n```");
                    assert(buf@ =~= start + inline_of(*value));
                },
                None => {
                    push_char(buf, '`');
                    let e = escape_inline(t.as_str());
                    push_str(buf, e.as_str());
                    push_char(buf, '`');
                    assert(buf@ =~= start + inline_of(*value));
                },
            }
        },
        _ => {},
    }
}

/// The inline form of a scalar.
pub fn scalar_to_inline(value: &JsonValue) -> (r: String)
    requires
        is_scalar(*value),
    ensures
        r@ == inline_of(*value),
{
    let mut s = String::new();
    push_inline(&mut s, value);
    assert(s@ =~= inline_of(*value));
    s
}

/// Whether a value is a scalar.
pub fn value_is_scalar(value: &JsonValue) -> (r: bool)
    ensures
        r == is_scalar(*value),
{
    match value {
        JsonValue::Array(_) | JsonValue::Object(_) => false,
        _ => true,
    }
}

/// Every element is a scalar.
pub open spec fn all_scalar(items: Seq<JsonValue>) -> bool {
    forall|i: int| 0 <= i < items.len() ==> is_scalar(#[trigger] items[i])
}

/// The first `n` elements as a bullet list indented by `indent` levels.
pub open spec fn scalar_list_text(items: Seq<JsonValue>, indent: nat, n: nat) -> Seq<char>
    decreases n,
{
    if n == 0 || n > items.len() {
        seq![]
    } else {
        scalar_list_text(items, indent, (n - 1) as nat) + repeat_text("  "@, indent) + "- "@
            + inline_of(items[n - 1]) + seq!['\n']
    }
}

fn push_indent(buf: &mut String, indent: usize)
    ensures
        final(buf)@ == old(buf)@ + repeat_text("  "@, indent as nat),
{
    let ghost start = buf@;
    let mut i: usize = 0;
    while i < indent
        invariant
            i <= indent,
            buf@ == start + repeat_text("  "@, i as nat),
        decreases indent - i,
    {
        push_str(buf, "  ");
        assert(repeat_text("  "@, (i + 1) as nat) == repeat_text("  "@, i as nat) + "  "@);
        assert(buf@ =~= start + repeat_text("  "@, (i + 1) as nat));
        i += 1;
    }
}

/// Appends a bullet list of scalars.
pub fn render_scalar_list(buf: &mut String, items: &Vec<JsonValue>, indent: usize)
    requires
        all_scalar(items@),
    ensures
        final(buf)@ == old(buf)@ + scalar_list_text(items@, indent as nat, items@.len()),
{
    let ghost start = buf@;
    let mut i: usize = 0;
    while i < items.len()
        invariant
            i <= items.len(),
            all_scalar(items@),
            buf@ == start + scalar_list_text(items@, indent as nat, i as nat),
        decreases items.len() - i,
    {
        push_indent(buf, indent);
        push_str(buf, "- ");
        push_inline(buf, &items[i]);
        push_char(buf, '\n');
        assert(buf@ =~= start + scalar_list_text(items@, indent as nat, (i + 1) as nat));
        i += 1;
    }
}

// ---------------------------------------------------------------------------
// Tables
// ---------------------------------------------------------------------------

/// The member list of an object value (empty for other values).
pub open spec fn entries_of(v: JsonValue) -> Seq<(String, JsonValue)> {
    match v {
        JsonValue::Object(e) => e@,
        _ => seq![],
    }
}

/// An object whose members are all scalars.
pub open spec fn flat_object(v: JsonValue) -> bool {
    &&& v is Object
    &&& forall|i: int| 0 <= i < entries_of(v).len() ==> is_scalar(#[trigger] entries_of(v)[i].1)
}

/// The column names for a table: present when the list is non-empty and every
/// element is a flat object with the same keys in the same order.
pub open spec fn table_keys(items: Seq<JsonValue>) -> Option<Seq<Seq<char>>> {
    if items.len() > 0 && forall|i: int|
        0 <= i < items.len() ==> flat_object(#[trigger] items[i]) && keys_of(entries_of(items[i]))
            == keys_of(entries_of(items[0])) {
        Some(keys_of(entries_of(items[0])))
    } else {
        None
    }
}

/// A cell value fits in a table: single-line text of at most 80 characters,
/// or any other scalar.
pub open spec fn cell_fits(v: JsonValue) -> bool {
    v matches JsonValue::String(t) ==> !has_char(t@, '\n') && t@.len() <= 80
}

/// A list is small enough to show as a table with the given columns: at most
/// 100 rows, each an object with every column present and fitting.
pub open spec fn table_fits(items: Seq<JsonValue>, keys: Seq<Seq<char>>) -> bool {
    &&& items.len() <= 100
    &&& forall|i: int|
        0 <= i < items.len() ==> (#[trigger] items[i]) is Object && forall|k: int|
            0 <= k < keys.len() ==> (#[trigger] member(items[i], keys[k])) is Some && cell_fits(
                member(items[i], keys[k])->0,
            )
}

/// The views of a list of strings.
pub open spec fn views_of(v: Seq<String>) -> Seq<Seq<char>> {
    Seq::new(v.len(), |i: int| v[i]@)
}

fn object_keys(entries: &Vec<(String, JsonValue)>) -> (keys: Vec<String>)
    ensures
        views_of(keys@) == keys_of(entries@),
{
    let mut keys: Vec<String> = Vec::new();
    let mut i: usize = 0;
    while i < entries.len()
        invariant
            i <= entries.len(),
            views_of(keys@) == keys_of(entries@.take(i as int)),
        decreases entries.len() - i,
    {
        let ghost old_keys = keys@;
        assert(views_of(old_keys).len() == keys_of(entries@.take(i as int)).len());
        let key = entries[i].0.clone();
        assert(key@ == entries@[i as int].0@);
        keys.push(key);
        assert(keys@.len() == i + 1);
        assert forall|j: int| 0 <= j < i + 1 implies views_of(keys@)[j] == keys_of(
            entries@.take(i + 1),
        )[j] by {
            assert(views_of(keys@)[j] == keys@[j]@);
            assert(keys_of(entries@.take(i + 1))[j] == entries@[j].0@);
            if j < i {
                assert(views_of(old_keys)[j] == keys_of(entries@.take(i as int))[j]);
                assert(views_of(old_keys)[j] == old_keys[j]@);
                assert(keys_of(entries@.take(i as int))[j] == entries@[j].0@);
            }
        }
        assert(views_of(keys@) =~= keys_of(entries@.take(i + 1)));
        i += 1;
    }
    assert(entries@.take(entries.len() as int) =~= entries@);
    keys
}

fn same_keys(entries: &Vec<(String, JsonValue)>, keys: &Vec<String>) -> (r: bool)
    ensures
        r == (keys_of(entries@) == views_of(keys@)),
{
    if entries.len() != keys.len() {
        proof {
            assert(keys_of(entries@).len() != views_of(keys@).len());
        }
        return false;
    }
    let mut i: usize = 0;
    while i < keys.len()
        invariant
            i <= keys.len(),
            entries.len() == keys.len(),
            forall|j: int| 0 <= j < i ==> entries@[j].0@ == keys@[j]@,
        decreases keys.len() - i,
    {
        if compare_text(entries[i].0.as_str(), keys[i].as_str()) != 0 {
            proof {
                crate::text::lemma_text_order_laws(entries@[i as int].0@, keys@[i as int]@, keys@[i as int]@);
                assert(keys_of(entries@)[i as int] != views_of(keys@)[i as int]);
            }
            return false;
        }
        proof {
            crate::text::lemma_text_order_laws(entries@[i as int].0@, keys@[i as int]@, keys@[i as int]@);
        }
        i += 1;
    }
    assert(keys_of(entries@) =~= views_of(keys@));
    true
}

fn all_members_scalar(entries: &Vec<(String, JsonValue)>) -> (r: bool)
    ensures
        r == forall|i: int| 0 <= i < entries@.len() ==> is_scalar(#[trigger] entries@[i].1),
{
    let mut i: usize = 0;
    while i < entries.len()
        invariant
            i <= entries.len(),
            forall|j: int| 0 <= j < i ==> is_scalar(#[trigger] entries@[j].1),
        decreases entries.len() - i,
    {
        if !value_is_scalar(&entries[i].1) {
            return false;
        }
        i += 1;
    }
    true
}

/// The column names for rendering `items` as a table (see [`table_keys`]).
pub fn array_table_keys(items: &Vec<JsonValue>) -> (r: Option<Vec<String>>)
    ensures
        match r {
            Some(keys) => table_keys(items@) == Some(views_of(keys@)),
            None => table_keys(items@) is None,
        },
{
    let mut keys: Option<Vec<String>> = None;
    let mut i: usize = 0;
    while i < items.len()
        invariant
            i <= items.len(),
            i == 0 <==> keys is None,
            forall|j: int|
                0 <= j < i ==> flat_object(#[trigger] items@[j]) && keys_of(entries_of(items@[j]))
                    == keys_of(entries_of(items@[0])),
            keys matches Some(ks) ==> views_of(ks@) == keys_of(entries_of(items@[0])),
        decreases items.len() - i,
    {
        match &items[i] {
            JsonValue::Object(entries) => {
                if !all_members_scalar(entries) {
                    return None;
                }
                match &keys {
                    Some(existing) => {
                        if !same_keys(entries, existing) {
                            return None;
                        }
                    },
                    None => {
                        keys = Some(object_keys(entries));
                    },
                }
            },
            _ => {
                return None;
            },
        }
        i += 1;
    }
    keys
}

fn cell_value_fits(v: &JsonValue) -> (r: bool)
    ensures
        r == cell_fits(*v),
{
    match v {
        JsonValue::String(t) => {
            let cs = chars_of(t.as_str());
            match crate::text::find_char(&cs, '\n') {
                Some(_) => false,
                None => cs.len() <= 80,
            }
        },
        _ => true,
    }
}

/// Whether `items` may be shown as a table with columns `keys`.
pub fn should_render_table(items: &Vec<JsonValue>, keys: &Vec<String>) -> (r: bool)
    ensures
        r == table_fits(items@, views_of(keys@)),
{
    if items.len() > 100 {
        return false;
    }
    let ghost kv = views_of(keys@);
    let mut i: usize = 0;
    while i < items.len()
        invariant
            i <= items.len() <= 100,
            kv == views_of(keys@),
            forall|j: int|
                0 <= j < i ==> (#[trigger] items@[j]) is Object && forall|k: int|
                    0 <= k < kv.len() ==> (#[trigger] member(items@[j], kv[k])) is Some && cell_fits(
                        member(items@[j], kv[k])->0,
                    ),
        decreases items.len() - i,
    {
        match &items[i] {
            JsonValue::Object(entries) => {
                let mut k: usize = 0;
                while k < keys.len()
                    invariant
                        k <= keys.len(),
                        kv == views_of(keys@),
                        i < items@.len(),
                        items@[i as int] == JsonValue::Object(*entries),
                        forall|m: int|
                            0 <= m < k ==> (#[trigger] member(items@[i as int], kv[m])) is Some
                                && cell_fits(member(items@[i as int], kv[m])->0),
                    decreases keys.len() - k,
                {
                    match get_entry(entries, keys[k].as_str()) {
                        None => {
                            proof {
                                assert(kv[k as int] == keys@[k as int]@);
                                assert(member(items@[i as int], kv[k as int]) is None);
                                assert(!table_fits(items@, kv));
                            }
                            return false;
                        },
                        Some(v) => {
                            if !cell_value_fits(v) {
                                proof {
                                    assert(kv[k as int] == keys@[k as int]@);
                                    assert(member(items@[i as int], kv[k as int]) == Some(*v));
                                    assert(!table_fits(items@, kv));
                                }
                                return false;
                            }
                            proof {
                                assert(kv[k as int] == keys@[k as int]@);
                                assert(member(items@[i as int], kv[k as int]) == Some(*v));
                            }
                        },
                    }
                    k += 1;
                }
            },
            _ => {
                proof {
                    assert(!table_fits(items@, kv));
                }
                return false;
            },
        }
        i += 1;
    }
    true
}

/// The text of one table cell.
pub open spec fn cell_text(v: Option<JsonValue>) -> Seq<char> {
    match v {
        Some(JsonValue::String(t)) => escape_cell_of(replace_char(t@, '\n', "<br>"@)),
        Some(JsonValue::Bool(b)) => bool_text(b),
        Some(JsonValue::Number(t)) => t@,
        _ => seq![],
    }
}

/// The header cells for the first `n` columns.
pub open spec fn header_cells(keys: Seq<Seq<char>>, n: nat) -> Seq<char>
    decreases n,
{
    if n == 0 || n > keys.len() {
        seq![]
    } else {
        header_cells(keys, (n - 1) as nat) + seq![' '] + keys[n - 1] + " |"@
    }
}

/// The cells of one row for the first `n` columns.
pub open spec fn row_cells(item: JsonValue, keys: Seq<Seq<char>>, n: nat) -> Seq<char>
    decreases n,
{
    if n == 0 || n > keys.len() {
        seq![]
    } else {
        row_cells(item, keys, (n - 1) as nat) + seq![' '] + cell_text(member(item, keys[n - 1]))
            + " |"@
    }
}

/// The first `n` rows.
pub open spec fn table_rows(items: Seq<JsonValue>, keys: Seq<Seq<char>>, n: nat) -> Seq<char>
    decreases n,
{
    if n == 0 || n > items.len() {
        seq![]
    } else {
        table_rows(items, keys, (n - 1) as nat) + seq!['|'] + row_cells(
            items[n - 1],
            keys,
            keys.len(),
        ) + seq!['\n']
    }
}

/// A Markdown table: header row, separator row, one row per element.
pub open spec fn table_text(items: Seq<JsonValue>, keys: Seq<Seq<char>>) -> Seq<char> {
    seq!['|'] + header_cells(keys, keys.len()) + seq!['\n'] + seq!['|'] + repeat_text(
        " --- |"@,
        keys.len(),
    ) + seq!['\n'] + table_rows(items, keys, items.len())
}

fn push_cell(buf: &mut String, v: Option<&JsonValue>)
    ensures
        final(buf)@ == old(buf)@ + cell_text(
            match v {
                Some(x) => Some(*x),
                None => None,
            },
        ),
{
    match v {
        Some(JsonValue::String(t)) => {
            let br = chars_of("<br>");
            let lines = replace_chars(&chars_of(t.as_str()), '\n', &br);
            let e = escape_table_cell(string_from_chars(&lines).as_str());
            push_str(buf, e.as_str());
        },
        Some(JsonValue::Bool(b)) => push_bool(buf, *b),
        Some(JsonValue::Number(t)) => push_str(buf, t.as_str()),
        _ => {
            assert(buf@ =~= buf@ + Seq::<char>::empty());
        },
    }
}

/// Appends a Markdown table of `items` with columns `keys`.
pub fn render_table(buf: &mut String, items: &Vec<JsonValue>, keys: &Vec<String>)
    requires
        forall|i: int| 0 <= i < items@.len() ==> (#[trigger] items@[i]) is Object,
    ensures
        final(buf)@ == old(buf)@ + table_text(items@, views_of(keys@)),
{
    let ghost start = buf@;
    let ghost kv = views_of(keys@);
    push_char(buf, '|');
    let mut k: usize = 0;
    while k < keys.len()
        invariant
            k <= keys.len(),
            kv == views_of(keys@),
            buf@ == start + seq!['|'] + header_cells(kv, k as nat),
        decreases keys.len() - k,
    {
        push_char(buf, ' ');
        push_str(buf, keys[k].as_str());
        push_str(buf, " |");
        assert(buf@ =~= start + seq!['|'] + header_cells(kv, (k + 1) as nat));
        k += 1;
    }
    push_char(buf, '\n');
    push_char(buf, '|');
    let ghost mid = buf@;
    let mut k: usize = 0;
    while k < keys.len()
        invariant
            k <= keys.len(),
            buf@ == mid + repeat_text(" --- |"@, k as nat),
        decreases keys.len() - k,
    {
        push_str(buf, " --- |");
        assert(buf@ =~= mid + repeat_text(" --- |"@, (k + 1) as nat));
        k += 1;
    }
    push_char(buf, '\n');
    let ghost rows_start = buf@;
    let mut i: usize = 0;
    while i < items.len()
        invariant
            i <= items.len(),
            kv == views_of(keys@),
            forall|j: int| 0 <= j < items@.len() ==> (#[trigger] items@[j]) is Object,
            buf@ == rows_start + table_rows(items@, kv, i as nat),
        decreases items.len() - i,
    {
        let entries = match &items[i] {
            JsonValue::Object(e) => e,
            _ => {
                assert(false);
                return;
            },
        };
        let ghost row_start = buf@;
        push_char(buf, '|');
        let mut k: usize = 0;
        while k < keys.len()
            invariant
                k <= keys.len(),
                kv == views_of(keys@),
                items@[i as int] == JsonValue::Object(*entries),
                buf@ == row_start + seq!['|'] + row_cells(items@[i as int], kv, k as nat),
            decreases keys.len() - k,
        {
            let v = get_entry(entries, keys[k].as_str());
            push_char(buf, ' ');
            push_cell(buf, v);
            push_str(buf, " |");
            assert(buf@ =~= row_start + seq!['|'] + row_cells(items@[i as int], kv, (k + 1) as nat));
            k += 1;
        }
        push_char(buf, '\n');
        assert(buf@ =~= rows_start + table_rows(items@, kv, (i + 1) as nat));
        i += 1;
    }
    assert(buf@ =~= start + table_text(items@, kv));
}

// ---------------------------------------------------------------------------
// Documents
// ---------------------------------------------------------------------------

/// Nesting depth of a value: scalars have depth 0, a container one more than
/// its deepest element.
pub open spec fn json_depth(v: JsonValue) -> nat
    decreases v, 0nat,
{
    match v {
        JsonValue::Array(items) => 1 + items_depth(items@, items@.len()),
        JsonValue::Object(entries) => 1 + entries_depth(entries@, entries@.len()),
        _ => 0,
    }
}

/// The greatest depth among the first `n` elements.
pub open spec fn items_depth(items: Seq<JsonValue>, n: nat) -> nat
    decreases items, n,
{
    if n == 0 || n > items.len() {
        0
    } else {
        let a = items_depth(items, (n - 1) as nat);
        let b = json_depth(items[n - 1]);
        if a > b {
            a
        } else {
            b
        }
    }
}

/// The greatest depth among the values of the first `n` members.
pub open spec fn entries_depth(entries: Seq<(String, JsonValue)>, n: nat) -> nat
    decreases entries, n,
{
    if n == 0 || n > entries.len() {
        0
    } else {
        let a = entries_depth(entries, (n - 1) as nat);
        let b = json_depth(entries[n - 1].1);
        if a > b {
            a
        } else {
            b
        }
    }
}

proof fn lemma_items_depth(items: Seq<JsonValue>, n: nat, i: int)
    requires
        0 <= i < n <= items.len(),
    ensures
        json_depth(items[i]) <= items_depth(items, n),
    decreases n,
{
    if i < n - 1 {
        lemma_items_depth(items, (n - 1) as nat, i);
    }
}

proof fn lemma_entries_depth(entries: Seq<(String, JsonValue)>, n: nat, i: int)
    requires
        0 <= i < n <= entries.len(),
    ensures
        json_depth(entries[i].1) <= entries_depth(entries, n),
    decreases n,
{
    if i < n - 1 {
        lemma_entries_depth(entries, (n - 1) as nat, i);
    }
}

/// The heading line of a titled section (at least one `#`).
pub open spec fn heading_text(title: Option<Seq<char>>, level: nat) -> Seq<char> {
    match title {
        Some(t) => repeat_char('#', if level < 1 {
            1
        } else {
            level
        }) + seq![' '] + t + "\n\n"@,
        None => seq![],
    }
}

/// The title of the `n`-th element (counting from 1) of a list section.
pub open spec fn item_title(n: nat) -> Seq<char> {
    "item "@ + decimal(n)
}

/// The number of scalar members among the first `n`.
pub open spec fn count_scalar(entries: Seq<(String, JsonValue)>, n: nat) -> nat
    decreases n,
{
    if n == 0 || n > entries.len() {
        0
    } else {
        count_scalar(entries, (n - 1) as nat) + if is_scalar(entries[n - 1].1) {
            1nat
        } else {
            0nat
        }
    }
}

/// The number of non-scalar members among the first `n`.
pub open spec fn count_nested(entries: Seq<(String, JsonValue)>, n: nat) -> nat
    decreases n,
{
    if n == 0 || n > entries.len() {
        0
    } else {
        count_nested(entries, (n - 1) as nat) + if is_scalar(entries[n - 1].1) {
            0nat
        } else {
            1nat
        }
    }
}

/// A `- **key**: value` line.
pub open spec fn field_line(key: Seq<char>, v: JsonValue) -> Seq<char> {
    "- **"@ + key + "**: "@ + inline_of(v) + seq!['\n']
}

/// The field lines of the scalar members among the first `n`.
pub open spec fn scalar_lines(entries: Seq<(String, JsonValue)>, n: nat) -> Seq<char>
    decreases n,
{
    if n == 0 || n > entries.len() {
        seq![]
    } else if is_scalar(entries[n - 1].1) {
        scalar_lines(entries, (n - 1) as nat) + field_line(entries[n - 1].0@, entries[n - 1].1)
    } else {
        scalar_lines(entries, (n - 1) as nat)
    }
}

/// A value rendered as a Markdown section at heading `level`: scalars inline,
/// lists as bullet lists, tables or numbered subsections, objects as field
/// lines followed by subsections for their nested members.
pub open spec fn value_text(title: Option<Seq<char>>, v: JsonValue, level: nat) -> Seq<char>
    decreases v, 0nat,
{
    heading_text(title, level) + match v {
        JsonValue::Array(items) => if items@.len() == 0 {
            "_empty list_\n"@
        } else if all_scalar(items@) {
            scalar_list_text(items@, 0, items@.len())
        } else if table_keys(items@) is Some && table_fits(items@, table_keys(items@)->0) {
            table_text(items@, table_keys(items@)->0)
        } else {
            items_text(items@, level + 1, items@.len())
        },
        JsonValue::Object(entries) => scalar_lines(entries@, entries@.len()) + (if count_scalar(
            entries@,
            entries@.len(),
        ) > 0 && count_nested(entries@, entries@.len()) > 0 {
            seq!['\n']
        } else {
            seq![]
        }) + nested_text(entries@, level + 1, entries@.len()) + (if entries@.len() == 0 {
            "_empty object_\n"@
        } else {
            seq![]
        }),
        _ => inline_of(v) + seq!['\n'],
    }
}

/// The first `n` elements as numbered subsections separated by blank lines.
pub open spec fn items_text(items: Seq<JsonValue>, level: nat, n: nat) -> Seq<char>
    decreases items, n,
{
    if n == 0 || n > items.len() {
        seq![]
    } else {
        items_text(items, level, (n - 1) as nat) + (if n > 1 {
            seq!['\n']
        } else {
            seq![]
        }) + value_text(Some(item_title(n)), items[n - 1], level)
    }
}

/// The non-scalar members among the first `n` as subsections titled by their
/// keys, separated by blank lines.
pub open spec fn nested_text(entries: Seq<(String, JsonValue)>, level: nat, n: nat) -> Seq<char>
    decreases entries, n,
{
    if n == 0 || n > entries.len() {
        seq![]
    } else if is_scalar(entries[n - 1].1) {
        nested_text(entries, level, (n - 1) as nat)
    } else {
        nested_text(entries, level, (n - 1) as nat) + (if count_nested(entries, (n - 1) as nat) > 0 {
            seq!['\n']
        } else {
            seq![]
        }) + value_text(Some(entries[n - 1].0@), entries[n - 1].1, level)
    }
}

/// The view of an optional string slice.
pub open spec fn opt_str_view(t: Option<&str>) -> Option<Seq<char>> {
    match t {
        Some(s) => Some(s@),
        None => None,
    }
}

fn push_heading(buf: &mut String, title: Option<&str>, level: usize)
    ensures
        final(buf)@ == old(buf)@ + heading_text(opt_str_view(title), level as nat),
{
    match title {
        Some(t) => {
            let ghost start = buf@;
            let n = if level < 1 {
                1
            } else {
                level
            };
            push_repeat(buf, '#', n);
            push_char(buf, ' ');
            push_str(buf, t);
            push_str(buf, "\n\n");
            assert(buf@ =~= start + heading_text(opt_str_view(title), level as nat));
        },
        None => {
            assert(buf@ =~= buf@ + Seq::<char>::empty());
        },
    }
}

fn push_field_line(buf: &mut String, key: &str, v: &JsonValue)
    requires
        is_scalar(*v),
    ensures
        final(buf)@ == old(buf)@ + field_line(key@, *v),
{
    let ghost start = buf@;
    push_str(buf, "- **");
    push_str(buf, key);
    push_str(buf, "**: ");
    push_inline(buf, v);
    push_char(buf, '\n');
    assert(buf@ =~= start + field_line(key@, *v));
}

fn all_items_scalar(items: &Vec<JsonValue>) -> (r: bool)
    ensures
        r == all_scalar(items@),
{
    let mut i: usize = 0;
    while i < items.len()
        invariant
            i <= items.len(),
            forall|j: int| 0 <= j < i ==> is_scalar(#[trigger] items@[j]),
        decreases items.len() - i,
    {
        if !value_is_scalar(&items[i]) {
            return false;
        }
        i += 1;
    }
    true
}

/// Appends `value` rendered as a section titled `title` at heading `level`.
pub fn render_value(buf: &mut String, title: Option<&str>, value: &JsonValue, level: usize)
    requires
        level + json_depth(*value) < usize::MAX,
    ensures
        final(buf)@ == old(buf)@ + value_text(opt_str_view(title), *value, level as nat),
    decreases value,
{
    let ghost start = buf@;
    push_heading(buf, title, level);
    let ghost head_end = buf@;
    match value {
        JsonValue::Array(items) => {
            if items.len() == 0 {
                push_str(buf, "_empty list_\n");
            } else if all_items_scalar(items) {
                render_scalar_list(buf, items, 0);
            } else {
                let keys = array_table_keys(items);
                let use_table = match &keys {
                    Some(ks) => should_render_table(items, ks),
                    None => false,
                };
                if use_table {
                    match &keys {
                        Some(ks) => render_table(buf, items, ks),
                        None => {},
                    }
                } else {
                    let mut i: usize = 0;
                    while i < items.len()
                        invariant
                            i <= items.len(),
                            level + json_depth(*value) < usize::MAX,
                            *value == JsonValue::Array(*items),
                            buf@ == head_end + items_text(items@, (level + 1) as nat, i as nat),
                        decreases items.len() - i,
                    {
                        if i > 0 {
                            push_char(buf, '\n');
                        }
                        let mut t = String::new();
                        push_str(&mut t, "item ");
                        push_decimal(&mut t, i + 1);
                        proof {
                            assert(t@ =~= item_title((i + 1) as nat));
                            lemma_items_depth(items@, items@.len(), i as int);
                        }
                        render_value(buf, Some(t.as_str()), &items[i], level + 1);
                        proof {
                            assert(buf@ =~= head_end + items_text(
                                items@,
                                (level + 1) as nat,
                                (i + 1) as nat,
                            ));
                        }
                        i += 1;
                    }
                }
            }
        },
        JsonValue::Object(entries) => {
            let mut i: usize = 0;
            let mut n_scalar: usize = 0;
            let mut n_nested: usize = 0;
            while i < entries.len()
                invariant
                    i <= entries.len(),
                    n_scalar == count_scalar(entries@, i as nat),
                    n_nested == count_nested(entries@, i as nat),
                    n_scalar + n_nested == i,
                    buf@ == head_end + scalar_lines(entries@, i as nat),
                decreases entries.len() - i,
            {
                if value_is_scalar(&entries[i].1) {
                    push_field_line(buf, entries[i].0.as_str(), &entries[i].1);
                    n_scalar += 1;
                } else {
                    n_nested += 1;
                }
                assert(buf@ =~= head_end + scalar_lines(entries@, (i + 1) as nat));
                i += 1;
            }
            if n_scalar > 0 && n_nested > 0 {
                push_char(buf, '\n');
            }
            let ghost mid = buf@;
            let mut i: usize = 0;
            let mut seen: usize = 0;
            while i < entries.len()
                invariant
                    i <= entries.len(),
                    level + json_depth(*value) < usize::MAX,
                    *value == JsonValue::Object(*entries),
                    seen == count_nested(entries@, i as nat),
                    seen <= i,
                    buf@ == mid + nested_text(entries@, (level + 1) as nat, i as nat),
                decreases entries.len() - i,
            {
                if !value_is_scalar(&entries[i].1) {
                    if seen > 0 {
                        push_char(buf, '\n');
                    }
                    proof {
                        lemma_entries_depth(entries@, entries@.len(), i as int);
                    }
                    render_value(buf, Some(entries[i].0.as_str()), &entries[i].1, level + 1);
                    seen += 1;
                }
                assert(buf@ =~= mid + nested_text(entries@, (level + 1) as nat, (i + 1) as nat));
                i += 1;
            }
            if entries.len() == 0 {
                push_str(buf, "_empty object_\n");
            }
        },
        _ => {
            push_inline(buf, value);
            push_char(buf, '\n');
        },
    }
    proof {
        assert(buf@ =~= start + value_text(opt_str_view(title), *value, level as nat));
    }
}

/// The value is a result envelope: an object with `schema_version` and `ok`.
pub open spec fn is_envelope(v: JsonValue) -> bool {
    v is Object && member(v, "schema_version"@) is Some && member(v, "ok"@) is Some
}

/// The member `key` when present and not null.
pub open spec fn present(v: JsonValue, key: Seq<char>) -> Option<JsonValue> {
    match member(v, key) {
        Some(x) => if x is Null {
            None
        } else {
            Some(x)
        },
        None => None,
    }
}

/// An envelope's header fields are scalars (the renderer shows them inline).
pub open spec fn document_renderable(v: JsonValue) -> bool {
    is_envelope(v) ==> {
        &&& is_scalar(member(v, "schema_version"@)->0)
        &&& is_scalar(member(v, "ok"@)->0)
        &&& present(v, "code"@) matches Some(c) ==> is_scalar(c)
        &&& present(v, "message"@) matches Some(m) ==> is_scalar(m)
    }
}

/// A header line for an optional envelope field.
pub open spec fn optional_line(v: JsonValue, key: Seq<char>) -> Seq<char> {
    match present(v, key) {
        Some(x) => field_line(key, x),
        None => seq![],
    }
}

/// A section for an optional envelope payload.
pub open spec fn optional_block(v: JsonValue, key: Seq<char>) -> Seq<char> {
    match present(v, key) {
        Some(x) => seq!['\n'] + value_text(Some(key), x, 2),
        None => seq![],
    }
}

/// A whole Markdown document: an envelope gets a `# Result` header with its
/// status fields followed by `item`/`items` sections; any other value is a
/// section titled `Result`.
pub open spec fn document_text(v: JsonValue) -> Seq<char> {
    if is_envelope(v) {
        "# Result\n\n"@ + field_line("schema_version"@, member(v, "schema_version"@)->0)
            + field_line("ok"@, member(v, "ok"@)->0) + optional_line(v, "code"@) + optional_line(
            v,
            "message"@,
        ) + optional_block(v, "item"@) + optional_block(v, "items"@)
    } else {
        value_text(Some("Result"@), v, 1)
    }
}

proof fn lemma_member_depth(v: JsonValue, key: Seq<char>)
    requires
        member(v, key) is Some,
    ensures
        json_depth(member(v, key)->0) < json_depth(v),
{
    match v {
        JsonValue::Object(entries) => {
            crate::json::lemma_entry_index_spec(entries@, key);
            let i = crate::json::entry_index(entries@, key)->0;
            lemma_entries_depth(entries@, entries@.len(), i);
        },
        _ => {},
    }
}

fn push_optional_line(buf: &mut String, v: &JsonValue, entries: &Vec<(String, JsonValue)>, key: &str)
    requires
        *v == JsonValue::Object(*entries),
        present(*v, key@) matches Some(c) ==> is_scalar(c),
    ensures
        final(buf)@ == old(buf)@ + optional_line(*v, key@),
{
    match get_entry(entries, key) {
        Some(x) => {
            match x {
                JsonValue::Null => {
                    assert(buf@ =~= buf@ + Seq::<char>::empty());
                },
                _ => push_field_line(buf, key, x),
            }
        },
        None => {
            assert(buf@ =~= buf@ + Seq::<char>::empty());
        },
    }
}

fn push_optional_block(buf: &mut String, v: &JsonValue, entries: &Vec<(String, JsonValue)>, key: &str)
    requires
        *v == JsonValue::Object(*entries),
        2 + json_depth(*v) < usize::MAX,
    ensures
        final(buf)@ == old(buf)@ + optional_block(*v, key@),
{
    match get_entry(entries, key) {
        Some(x) => {
            match x {
                JsonValue::Null => {
                    assert(buf@ =~= buf@ + Seq::<char>::empty());
                },
                _ => {
                    let ghost start = buf@;
                    proof {
                        lemma_member_depth(*v, key@);
                    }
                    push_char(buf, '\n');
                    render_value(buf, Some(key), x, 2);
                    assert(buf@ =~= start + optional_block(*v, key@));
                },
            }
        },
        None => {
            assert(buf@ =~= buf@ + Seq::<char>::empty());
        },
    }
}

/// Renders a value as a Markdown document (see [`document_text`]).
pub fn render_document(value: &JsonValue) -> (r: String)
    requires
        document_renderable(*value),
        2 + json_depth(*value) < usize::MAX,
    ensures
        r@ == document_text(*value),
{
    let mut buf = String::new();
    if let JsonValue::Object(entries) = value {
        let schema = get_entry(entries, "schema_version");
        let ok = get_entry(entries, "ok");
        match (schema, ok) {
            (Some(schema), Some(ok)) => {
                push_str(&mut buf, "# Result\n\n");
                push_field_line(&mut buf, "schema_version", schema);
                push_field_line(&mut buf, "ok", ok);
                push_optional_line(&mut buf, value, entries, "code");
                push_optional_line(&mut buf, value, entries, "message");
                push_optional_block(&mut buf, value, entries, "item");
                push_optional_block(&mut buf, value, entries, "items");
                assert(buf@ =~= document_text(*value));
                return buf;
            },
            _ => {},
        }
    }
    render_value(&mut buf, Some("Result"), value, 1);
    assert(buf@ =~= document_text(*value));
    buf
}

proof fn lemma_items_depth_bound(items: Seq<JsonValue>, n: nat, bound: nat)
    requires
        n <= items.len(),
        forall|i: int| 0 <= i < n ==> json_depth(#[trigger] items[i]) <= bound,
    ensures
        items_depth(items, n) <= bound,
    decreases n,
{
    if n > 0 {
        lemma_items_depth_bound(items, (n - 1) as nat, bound);
    }
}

proof fn lemma_entries_depth_bound(entries: Seq<(String, JsonValue)>, n: nat, bound: nat)
    requires
        n <= entries.len(),
        forall|i: int| 0 <= i < n ==> json_depth(#[trigger] entries[i].1) <= bound,
    ensures
        entries_depth(entries, n) <= bound,
    decreases n,
{
    if n > 0 {
        lemma_entries_depth_bound(entries, (n - 1) as nat, bound);
    }
}

/// Whether the value nests no deeper than `limit`.
pub fn depth_at_most(value: &JsonValue, limit: usize) -> (r: bool)
    ensures
        r == (json_depth(*value) <= limit),
    decreases value,
{
    match value {
        JsonValue::Array(items) => {
            if limit == 0 {
                return false;
            }
            let mut i: usize = 0;
            while i < items.len()
                invariant
                    i <= items.len(),
                    limit > 0,
                    *value == JsonValue::Array(*items),
                    forall|j: int| 0 <= j < i ==> json_depth(#[trigger] items@[j]) <= limit - 1,
                decreases items.len() - i,
            {
                proof {
                    assert(decreases_to!(*value => (*value)->Array_0));
                }
                if !depth_at_most(&items[i], limit - 1) {
                    proof {
                        lemma_items_depth(items@, items@.len(), i as int);
                    }
                    return false;
                }
                i += 1;
            }
            proof {
                lemma_items_depth_bound(items@, items@.len(), (limit - 1) as nat);
            }
            true
        },
        JsonValue::Object(entries) => {
            if limit == 0 {
                return false;
            }
            let mut i: usize = 0;
            while i < entries.len()
                invariant
                    i <= entries.len(),
                    limit > 0,
                    *value == JsonValue::Object(*entries),
                    forall|j: int| 0 <= j < i ==> json_depth(#[trigger] entries@[j].1) <= limit - 1,
                decreases entries.len() - i,
            {
                proof {
                    assert(decreases_to!(*value => (*value)->Object_0));
                }
                if !depth_at_most(&entries[i].1, limit - 1) {
                    proof {
                        lemma_entries_depth(entries@, entries@.len(), i as int);
                    }
                    return false;
                }
                i += 1;
            }
            proof {
                lemma_entries_depth_bound(entries@, entries@.len(), (limit - 1) as nat);
            }
            true
        },
        _ => true,
    }
}

/// Whether [`render_document`] accepts the value: its envelope header fields
/// are scalars and it nests within the renderer's heading levels.
pub fn document_fits(value: &JsonValue) -> (r: bool)
    ensures
        r == (document_renderable(*value) && 2 + json_depth(*value) < usize::MAX),
{
    if !depth_at_most(value, usize::MAX - 3) {
        return false;
    }
    match value {
        JsonValue::Object(entries) => {
            match (get_entry(entries, "schema_version"), get_entry(entries, "ok")) {
                (Some(schema), Some(ok)) => {
                    let code_ok = match get_entry(entries, "code") {
                        Some(c) => value_is_scalar(c),
                        None => true,
                    };
                    let message_ok = match get_entry(entries, "message") {
                        Some(m) => value_is_scalar(m),
                        None => true,
                    };
                    value_is_scalar(schema) && value_is_scalar(ok) && code_ok && message_ok
                },
                _ => true,
            }
        },
        _ => true,
    }
}

// ---------------------------------------------------------------------------
// Laws of escaping
// ---------------------------------------------------------------------------

/// Every `c` in `s` directly follows a backslash.
pub open spec fn guarded(s: Seq<char>, c: char) -> bool {
    forall|i: int| 0 <= i < s.len() && #[trigger] s[i] == c ==> i > 0 && s[i - 1] == '\\'
}

proof fn lemma_replace_guards(s: Seq<char>, c: char)
    requires
        c != '\\',
    ensures
        guarded(replace_char(s, c, seq!['\\', c]), c),
        s.len() > 0 && s.last() != c ==> replace_char(s, c, seq!['\\', c]).last() == s.last(),
        s.len() > 0 ==> replace_char(s, c, seq!['\\', c]).len() > 0,
    decreases s.len(),
{
    if s.len() > 0 {
        lemma_replace_guards(s.drop_last(), c);
    }
}

proof fn lemma_replace_keeps_guard(s: Seq<char>, c: char, d: char)
    requires
        guarded(s, c),
        c != d,
        c != '\\',
        d != '\\',
    ensures
        guarded(replace_char(s, d, seq!['\\', d]), c),
        s.len() > 0 && s.last() != d ==> replace_char(s, d, seq!['\\', d]).last() == s.last(),
    decreases s.len(),
{
    if s.len() > 0 {
        let t = s.drop_last();
        assert(guarded(t, c)) by {
            assert forall|i: int| 0 <= i < t.len() && #[trigger] t[i] == c implies i > 0 && t[i - 1] == '\\' by {
                assert(s[i] == t[i]);
            }
        }
        lemma_replace_keeps_guard(t, c, d);
        if s.last() == c {
            assert(s[s.len() - 1] == c);
        }
    }
}

proof fn lemma_replace_avoids(s: Seq<char>, c: char, r: Seq<char>, e: char)
    requires
        !has_char(r, e),
        !has_char(s, e) || e == c,
    ensures
        !has_char(replace_char(s, c, r), e),
    decreases s.len(),
{
    if s.len() > 0 {
        let t = s.drop_last();
        assert(!has_char(t, e) || e == c) by {
            if has_char(t, e) && e != c {
                let i = choose|i: int| 0 <= i < t.len() && t[i] == e;
                assert(s[i] == e);
            }
        }
        lemma_replace_avoids(t, c, r, e);
        let out = replace_char(s, c, r);
        if s.last() != c {
            assert(s[s.len() - 1] == s.last());
        }
        assert forall|i: int| 0 <= i < out.len() implies out[i] != e by {
            let prev = replace_char(t, c, r);
            if i < prev.len() {
                assert(out[i] == prev[i]);
            } else if s.last() == c {
                assert(out[i] == r[i - prev.len()]);
            }
        }
    }
}

/// In inline code text every backtick is escaped.
pub proof fn lemma_inline_escape_guards_backticks(s: Seq<char>)
    ensures
        guarded(escape_inline_of(s), '`'),
{
    lemma_replace_guards(s, '`');
}

/// In table cell text every backtick and every pipe is escaped, so a value
/// can neither open a code span nor start a new column.
pub proof fn lemma_cell_escape_guards(s: Seq<char>)
    ensures
        guarded(escape_cell_of(s), '`'),
        guarded(escape_cell_of(s), '|'),
{
    lemma_replace_guards(s, '`');
    lemma_replace_keeps_guard(escape_inline_of(s), '`', '|');
    lemma_replace_guards(escape_inline_of(s), '|');
}

/// A text cell never spans lines: line breaks become `<br>` and escaping
/// adds none.
pub proof fn lemma_text_cell_single_line(t: Seq<char>)
    ensures
        !has_char(escape_cell_of(replace_char(t, '\n', "<br>"@)), '\n'),
{
    reveal_strlit("<br>");
    let br = replace_char(t, '\n', "<br>"@);
    lemma_replace_avoids(t, '\n', "<br>"@, '\n');
    lemma_replace_avoids(br, '`', seq!['\\', '`'], '\n');
    lemma_replace_avoids(escape_inline_of(br), '|', seq!['\\', '|'], '\n');
}

/// The head of a rendered document. An envelope opens with the `# Result`
/// heading followed by its `schema_version` and `ok` field lines, in that
/// order; any other value is one section titled `Result` at the top level
/// (see [`lemma_section_head`] for its heading line).
pub proof fn lemma_document_head(v: JsonValue)
    ensures
        is_envelope(v) ==> ({
            let head = "# Result\n\n"@ + "- **"@ + "schema_version"@ + "**: "@ + inline_of(
                member(v, "schema_version"@)->0,
            ) + seq!['\n'] + "- **"@ + "ok"@ + "**: "@ + inline_of(member(v, "ok"@)->0) + seq!['\n'];
            document_text(v).len() >= head.len() && document_text(v).take(head.len() as int) == head
        }),
        !is_envelope(v) ==> document_text(v) == value_text(Some("Result"@), v, 1),
{
    if is_envelope(v) {
        let head = "# Result\n\n"@ + "- **"@ + "schema_version"@ + "**: "@ + inline_of(
            member(v, "schema_version"@)->0,
        ) + seq!['\n'] + "- **"@ + "ok"@ + "**: "@ + inline_of(member(v, "ok"@)->0) + seq!['\n'];
        let d = document_text(v);
        assert(d =~= head + d.skip(head.len() as int));
    }
}

/// A titled section opens with a heading line of `level` hashes (at least
/// one), a space, the title and a blank line; the value's own text follows.
pub proof fn lemma_section_head(title: Option<Seq<char>>, v: JsonValue, level: nat)
    ensures
        title matches Some(t) ==> {
            let hashes = if level < 1 { 1nat } else { level };
            let head = Seq::new(hashes, |i: int| '#') + seq![' '] + t + seq!['\n', '\n'];
            &&& value_text(title, v, level).len() >= head.len()
            &&& value_text(title, v, level).take(head.len() as int) == head
        },
        is_scalar(v) ==> value_text(None, v, level) == inline_of(v) + seq!['\n'],
{
    reveal_strlit("\n\n");
    if let Some(t) = title {
        let hashes = if level < 1 { 1nat } else { level };
        let head = Seq::new(hashes, |i: int| '#') + seq![' '] + t + seq!['\n', '\n'];
        assert(heading_text(title, level) =~= head);
        let d = value_text(title, v, level);
        assert(d =~= head + d.skip(head.len() as int));
    }
    if is_scalar(v) {
        assert(heading_text(None, level) =~= Seq::<char>::empty());
        assert(value_text(None, v, level) =~= inline_of(v) + seq!['\n']);
    }
}

} // verus!
