//! Reading TOML documents through the `toml` crate: the crate parses the
//! text into its top-level table, which is carried over into [`TomlValue`]s,
//! and the typed fields the course files declare are read from those here,
//! field by field.
use vstd::prelude::*;

use crate::text::{eq_str, extend_str, from_chars, to_chars};

verus! {

#[verifier::external_type_specification]
#[verifier::external_body]
pub struct ExTomlValue(toml::Value);

#[verifier::external_type_specification]
#[verifier::external_body]
#[verifier::reject_recursive_types(K)]
#[verifier::reject_recursive_types(V)]
pub struct ExTomlMap<K, V>(toml::map::Map<K, V>);

/// A TOML value as the course files read it: text, arrays and tables; every
/// other kind of value (numbers, booleans, dates) is `Other`.
#[derive(Debug)]
pub enum TomlValue {
    Text(String),
    Array(Vec<TomlValue>),
    Table(Vec<(String, TomlValue)>),
    Other,
}

/// A [`TomlValue`] as text.
pub enum TomlView {
    Text(Seq<char>),
    Array(Seq<TomlView>),
    Table(Seq<(Seq<char>, TomlView)>),
    Other,
}

/// The text form of a value.
pub open spec fn value_view(v: TomlValue) -> TomlView
    decreases v,
{
    match v {
        TomlValue::Text(s) => TomlView::Text(s@),
        TomlValue::Array(items) => TomlView::Array(
            Seq::new(
                items@.len(),
                |i: int|
                    {
                        if 0 <= i < items@.len() {
                            proof {
                                broadcast use vstd::std_specs::vec::group_vec_axioms;

                                assert(decreases_to!(items => items@));
                            }
                            value_view(items@[i])
                        } else {
                            TomlView::Other
                        }
                    },
            ),
        ),
        TomlValue::Table(entries) => TomlView::Table(
            Seq::new(
                entries@.len(),
                |i: int|
                    {
                        if 0 <= i < entries@.len() {
                            proof {
                                broadcast use vstd::std_specs::vec::group_vec_axioms;

                            }
                            (entries@[i].0@, value_view(entries@[i].1))
                        } else {
                            (Seq::empty(), TomlView::Other)
                        }
                    },
            ),
        ),
        TomlValue::Other => TomlView::Other,
    }
}

/// The text form of a table's entries.
pub open spec fn table_view(entries: Seq<(String, TomlValue)>) -> Seq<(Seq<char>, TomlView)> {
    Seq::new(entries.len(), |i: int| (entries[i].0@, value_view(entries[i].1)))
}

/// The text form of an array's items.
pub open spec fn items_view(items: Seq<TomlValue>) -> Seq<TomlView> {
    Seq::new(items.len(), |i: int| value_view(items[i]))
}

/// What `toml::from_str::<toml::Table>` reads from `raw`: the document's
/// top-level table, entry by entry, or the parser's message.
pub uninterp spec fn toml_document(raw: Seq<char>) -> Result<Seq<(Seq<char>, TomlView)>, Seq<char>>;

/// `toml::from_str::<toml::Table>`, with the table carried over into
/// [`TomlValue`]s: the result is [`toml_document`] of the text.
#[verifier::external_body]
pub(crate) fn parse_document(raw: &str) -> (r: Result<Vec<(String, TomlValue)>, String>)
    ensures
        match toml_document(raw@) {
            Ok(t) => r matches Ok(v) && table_view(v@) == t,
            Err(m) => r matches Err(e) && e@ == m,
        },
{
    toml::from_str::<toml::Table>(raw).map(table_entries).map_err(|e| e.to_string())
}

/// Carries a `toml::Table` over, entry by entry in the table's own order.
#[verifier::external_body]
fn table_entries(table: toml::Table) -> Vec<(String, TomlValue)> {
    table.into_iter().map(|(key, value)| (key, carry_value(value))).collect()
}

/// Carries one `toml::Value` over: strings, arrays and tables keep their
/// contents; every other kind becomes `Other`.
#[verifier::external_body]
fn carry_value(value: toml::Value) -> TomlValue {
    match value {
        toml::Value::String(s) => TomlValue::Text(s),
        toml::Value::Array(items) => TomlValue::Array(items.into_iter().map(carry_value).collect()),
        toml::Value::Table(table) => TomlValue::Table(table_entries(table)),
        _ => TomlValue::Other,
    }
}

/// The value under `key` in `table` from entry `i` on: the first entry with
/// that key.
pub open spec fn lookup_from(table: Seq<(Seq<char>, TomlView)>, key: Seq<char>, i: int) -> Option<TomlView>
    decreases table.len() - i,
{
    if i < 0 || i >= table.len() {
        None
    } else if table[i].0 == key {
        Some(table[i].1)
    } else {
        lookup_from(table, key, i + 1)
    }
}

/// The value under `key` in `table`.
pub open spec fn lookup(table: Seq<(Seq<char>, TomlView)>, key: Seq<char>) -> Option<TomlView> {
    lookup_from(table, key, 0)
}

/// The message for a field the document lacks.
pub open spec fn missing_field(key: Seq<char>) -> Seq<char> {
    "missing field "@ + seq!['`'] + key + seq!['`']
}

/// The message for a field of the wrong type.
pub open spec fn wrong_type(key: Seq<char>, expected: Seq<char>) -> Seq<char> {
    "invalid type for "@ + seq!['`'] + key + seq!['`'] + ", expected "@ + expected
}

/// The string under `key`, which must be there.
pub open spec fn text_field_spec(table: Seq<(Seq<char>, TomlView)>, key: Seq<char>) -> Result<Seq<char>, Seq<char>> {
    match lookup(table, key) {
        None => Err(missing_field(key)),
        Some(TomlView::Text(s)) => Ok(s),
        Some(_) => Err(wrong_type(key, "a string"@)),
    }
}

/// The strings of an array whose items are all strings.
pub open spec fn texts_of(items: Seq<TomlView>, key: Seq<char>) -> Result<Seq<Seq<char>>, Seq<char>> {
    if forall|i: int| 0 <= i < items.len() ==> #[trigger] items[i] is Text {
        Ok(Seq::new(items.len(), |i: int| items[i]->Text_0))
    } else {
        Err(wrong_type(key, "a string"@))
    }
}

/// The strings of the array under `key`; unless `required`, a missing key
/// reads as no strings.
pub open spec fn texts_field_spec(table: Seq<(Seq<char>, TomlView)>, key: Seq<char>, required: bool) -> Result<
    Seq<Seq<char>>,
    Seq<char>,
> {
    match lookup(table, key) {
        None => if required {
            Err(missing_field(key))
        } else {
            Ok(Seq::empty())
        },
        Some(TomlView::Array(items)) => texts_of(items, key),
        Some(_) => Err(wrong_type(key, "a sequence"@)),
    }
}

/// The tables of an array whose items are all tables.
pub open spec fn tables_of(items: Seq<TomlView>, key: Seq<char>) -> Result<Seq<Seq<(Seq<char>, TomlView)>>, Seq<char>> {
    if forall|i: int| 0 <= i < items.len() ==> #[trigger] items[i] is Table {
        Ok(Seq::new(items.len(), |i: int| items[i]->Table_0))
    } else {
        Err(wrong_type(key, "a table"@))
    }
}

/// The tables of the array of tables under `key`; a missing key reads as no
/// tables.
pub open spec fn tables_field_spec(table: Seq<(Seq<char>, TomlView)>, key: Seq<char>) -> Result<
    Seq<Seq<(Seq<char>, TomlView)>>,
    Seq<char>,
> {
    match lookup(table, key) {
        None => Ok(Seq::empty()),
        Some(TomlView::Array(items)) => tables_of(items, key),
        Some(_) => Err(wrong_type(key, "a sequence"@)),
    }
}

pub(crate) fn missing_field_message(key: &str) -> (r: String)
    ensures
        r@ == missing_field(key@),
{
    let mut v = to_chars("missing field ");
    v.push('`');
    extend_str(&mut v, key);
    v.push('`');
    proof {
        reveal_strlit("missing field ");
    }
    from_chars(&v)
}

pub(crate) fn wrong_type_message(key: &str, expected: &str) -> (r: String)
    ensures
        r@ == wrong_type(key@, expected@),
{
    let mut v = to_chars("invalid type for ");
    v.push('`');
    extend_str(&mut v, key);
    v.push('`');
    extend_str(&mut v, ", expected ");
    extend_str(&mut v, expected);
    proof {
        reveal_strlit("invalid type for ");
        reveal_strlit(", expected ");
    }
    from_chars(&v)
}

/// The value under `key`.
fn lookup_value<'a>(table: &'a Vec<(String, TomlValue)>, key: &str) -> (r: Option<&'a TomlValue>)
    ensures
        match lookup(table_view(table@), key@) {
            None => r is None,
            Some(v) => r matches Some(x) && value_view(*x) == v,
        },
{
    let ghost t = table_view(table@);
    let mut i: usize = 0;
    while i < table.len()
        invariant
            i <= table@.len(),
            t == table_view(table@),
            lookup_from(t, key@, 0) == lookup_from(t, key@, i as int),
        decreases table@.len() - i,
    {
        if eq_str(&to_chars(table[i].0.as_str()), key) {
            return Some(&table[i].1);
        }
        i = i + 1;
    }
    None
}

/// The strings of `items`, under `key` for messages.
fn text_items(items: &Vec<TomlValue>, key: &str) -> (r: Result<Vec<String>, String>)
    ensures
        match texts_of(items_view(items@), key@) {
            Ok(v) => r matches Ok(w) && w@.len() == v.len() && forall|i: int|
                0 <= i < v.len() ==> #[trigger] w@[i]@ == v[i],
            Err(m) => r matches Err(e) && e@ == m,
        },
{
    let ghost iv = items_view(items@);
    let mut out: Vec<String> = Vec::new();
    let mut i: usize = 0;
    while i < items.len()
        invariant
            i <= items@.len(),
            iv == items_view(items@),
            out@.len() == i,
            forall|j: int| 0 <= j < i ==> #[trigger] iv[j] is Text && out@[j]@ == iv[j]->Text_0,
        decreases items@.len() - i,
    {
        match &items[i] {
            TomlValue::Text(s) => out.push(s.clone()),
            _ => {
                assert(!(iv[i as int] is Text));
                return Err(wrong_type_message(key, "a string"));
            },
        }
        i = i + 1;
    }
    Ok(out)
}

/// The string under `key`, which must be there.
pub(crate) fn field_text(table: &Vec<(String, TomlValue)>, key: &str) -> (r: Result<String, String>)
    ensures
        match text_field_spec(table_view(table@), key@) {
            Ok(s) => r matches Ok(t) && t@ == s,
            Err(m) => r matches Err(e) && e@ == m,
        },
{
    match lookup_value(table, key) {
        None => Err(missing_field_message(key)),
        Some(TomlValue::Text(s)) => Ok(s.clone()),
        Some(_) => Err(wrong_type_message(key, "a string")),
    }
}

/// The strings of the array under `key`; unless `required`, a missing key
/// reads as no strings.
pub(crate) fn field_texts(table: &Vec<(String, TomlValue)>, key: &str, required: bool) -> (r: Result<Vec<String>, String>)
    ensures
        match texts_field_spec(table_view(table@), key@, required) {
            Ok(v) => r matches Ok(w) && w@.len() == v.len() && forall|i: int|
                0 <= i < v.len() ==> #[trigger] w@[i]@ == v[i],
            Err(m) => r matches Err(e) && e@ == m,
        },
{
    match lookup_value(table, key) {
        None => {
            if required {
                Err(missing_field_message(key))
            } else {
                Ok(Vec::new())
            }
        },
        Some(TomlValue::Array(items)) => {
            assert(items_view(items@) =~= match value_view(TomlValue::Array(*items)) {
                TomlView::Array(v) => v,
                _ => Seq::empty(),
            });
            text_items(items, key)
        },
        Some(_) => Err(wrong_type_message(key, "a sequence")),
    }
}

/// The tables of the array of tables under `key`; a missing key reads as
/// no tables.
pub(crate) fn field_tables<'a>(table: &'a Vec<(String, TomlValue)>, key: &str) -> (r: Result<
    Vec<&'a Vec<(String, TomlValue)>>,
    String,
>)
    ensures
        match tables_field_spec(table_view(table@), key@) {
            Ok(v) => r matches Ok(w) && w@.len() == v.len() && forall|i: int|
                0 <= i < v.len() ==> #[trigger] table_view(w@[i]@) == v[i],
            Err(m) => r matches Err(e) && e@ == m,
        },
{
    match lookup_value(table, key) {
        None => Ok(Vec::new()),
        Some(TomlValue::Array(items)) => {
            let ghost iv = items_view(items@);
            assert(iv =~= match value_view(TomlValue::Array(*items)) {
                TomlView::Array(v) => v,
                _ => Seq::empty(),
            });
            assert(lookup(table_view(table@), key@) == Some(TomlView::Array(iv)));
            let mut out: Vec<&'a Vec<(String, TomlValue)>> = Vec::new();
            let mut i: usize = 0;
            while i < items.len()
                invariant
                    i <= items@.len(),
                    iv == items_view(items@),
                    lookup(table_view(table@), key@) == Some(TomlView::Array(iv)),
                    out@.len() == i,
                    forall|j: int|
                        0 <= j < i ==> #[trigger] iv[j] is Table && table_view(out@[j]@) == iv[j]->Table_0,
                decreases items@.len() - i,
            {
                match &items[i] {
                    TomlValue::Table(t) => {
                        assert(table_view(t@) =~= iv[i as int]->Table_0);
                        out.push(t);
                    },
                    _ => {
                        assert(!(iv[i as int] is Table));
                        assert(tables_of(iv, key@) is Err);
                        return Err(wrong_type_message(key, "a table"));
                    },
                }
                i = i + 1;
            }
            Ok(out)
        },
        Some(_) => Err(wrong_type_message(key, "a sequence")),
    }
}

} // verus!
