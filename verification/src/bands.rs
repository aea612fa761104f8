//! The band plan: where each band is, and what the rig script does on it.
//!
//! Only `name`, `low` and `high` mean anything here, plus `step` for the
//! interface to move by. Everything else the operator wrote is carried
//! through to the script untouched: what to do on a band is the script's.

use vstd::prelude::*;
use toml_edit::{DocumentMut, Item, Value};
use crate::text::{
    lemma_text_less_irreflexive, lemma_text_less_total, lemma_text_less_transitive, same_text, text_before, text_less, trim,
    trimmed,
};

verus! {

/// The file the operator's own band plan is read from.
pub const BANDS_FILE: &'static str = "bands.toml";

/// The plan used when the operator has written none: the amateur HF bands
/// and six metres, each with the frequency SSTV is usually found on.
pub const DEFAULT_PLAN: &'static str = "# The bands the radio panel offers, lowest first.
#
# `name`, `low` and `high` (in hertz) say where a band is, and `step` how far
# the panel's step buttons move. Every other key is handed to rigcontrol.lua
# as it is written: `target` is where the script tunes on changing band, and
# `receive-mode` the mode it sets there.

[[bands]]
name = \"160m\"
low = 1800000
high = 2000000
step = 500
target = 1890000
receive-mode = \"LSB\"

[[bands]]
name = \"80m\"
low = 3500000
high = 4000000
step = 1000
target = 3845000
receive-mode = \"LSB\"

[[bands]]
name = \"40m\"
low = 7000000
high = 7300000
step = 1000
target = 7171000
receive-mode = \"LSB\"

[[bands]]
name = \"30m\"
low = 10100000
high = 10150000
step = 500
target = 10132000
receive-mode = \"USB\"

[[bands]]
name = \"20m\"
low = 14000000
high = 14350000
step = 1000
target = 14230000
receive-mode = \"USB\"

[[bands]]
name = \"17m\"
low = 18068000
high = 18168000
step = 1000
target = 18160000
receive-mode = \"USB\"

[[bands]]
name = \"15m\"
low = 21000000
high = 21450000
step = 1000
target = 21340000
receive-mode = \"USB\"

[[bands]]
name = \"12m\"
low = 24890000
high = 24990000
step = 1000
target = 24975000
receive-mode = \"USB\"

[[bands]]
name = \"10m\"
low = 28000000
high = 29700000
step = 1000
target = 28680000
receive-mode = \"USB\"

[[bands]]
name = \"6m\"
low = 50000000
high = 54000000
step = 1000
target = 50680000
receive-mode = \"USB\"
";

/// A value written under a band in the plan file, as the plan reads it.
#[derive(Clone, Debug, PartialEq, Eq)]
pub enum TomlValue {
    Text(String),
    Integer(i64),
    /// A floating-point number, as it was written.
    Decimal(String),
    Flag(bool),
    /// An array, a table, a date or anything else with no shape the script
    /// has been promised.
    Structured,
}

/// A written value by its contents.
pub enum TomlValueView {
    Text(Seq<char>),
    Integer(i64),
    Decimal(Seq<char>),
    Flag(bool),
    Structured,
}

impl View for TomlValue {
    type V = TomlValueView;

    open spec fn view(&self) -> TomlValueView {
        match self {
            TomlValue::Text(t) => TomlValueView::Text(t@),
            TomlValue::Integer(n) => TomlValueView::Integer(*n),
            TomlValue::Decimal(t) => TomlValueView::Decimal(t@),
            TomlValue::Flag(b) => TomlValueView::Flag(*b),
            TomlValue::Structured => TomlValueView::Structured,
        }
    }
}

/// One table of the plan file: its keys and values, in the order written.
pub open spec fn table_view(table: Seq<(String, TomlValue)>) -> Seq<(Seq<char>, TomlValueView)> {
    table.map_values(|entry: (String, TomlValue)| (entry.0@, entry.1@))
}

/// The tables of the plan file, each by its contents.
pub open spec fn tables_view(tables: Seq<Vec<(String, TomlValue)>>) -> Seq<Seq<(Seq<char>, TomlValueView)>> {
    tables.map_values(|table: Vec<(String, TomlValue)>| table_view(table@))
}

/// What a top-level key of a TOML document holds, as far as the plan tells
/// items apart.
#[derive(Clone, Copy, Debug, PartialEq, Eq, Structural)]
pub enum TomlKind {
    Value,
    /// A `[section]`.
    Table,
    /// A `[[section]]` array of tables.
    Tables,
}

/// What reading a TOML text's top-level keys gave, by its contents.
pub open spec fn kinds_view(read: Result<Vec<(String, TomlKind)>, String>) -> Result<Seq<(Seq<char>, TomlKind)>, Seq<char>> {
    match read {
        Ok(entries) => Ok(entries@.map_values(|entry: (String, TomlKind)| (entry.0@, entry.1))),
        Err(message) => Err(message@),
    }
}

/// What toml_edit makes of `source`: the message it refuses the text with,
/// or the top-level keys of the parsed document and the kind of item each
/// holds, in the order written.
pub uninterp spec fn toml_top_kinds(source: Seq<char>) -> Result<Seq<(Seq<char>, TomlKind)>, Seq<char>>;

/// Parses `source` with `toml_edit` (`DocumentMut::from_str`) and lists the
/// document's top-level keys (`Table::iter`), telling an array of tables and
/// a table from any other item.
#[verifier::external_body]
fn read_toml_kinds(source: &str) -> (read: Result<Vec<(String, TomlKind)>, String>)
    ensures
        kinds_view(read) == toml_top_kinds(source@),
{
    let document = source.parse::<DocumentMut>().map_err(|error| error.to_string())?;
    Ok(document.iter().map(|(key, item)| (key.to_owned(), match item {
        Item::ArrayOfTables(_) => TomlKind::Tables,
        Item::Table(_) => TomlKind::Table,
        _ => TomlKind::Value,
    })).collect())
}

/// What toml_edit makes of `source` at the top-level key `key`: each table
/// of the array of tables there, its keys and values in the order written;
/// none when the text does not parse or the key holds no array of tables.
pub uninterp spec fn toml_array_tables(source: Seq<char>, key: Seq<char>) -> Seq<Seq<(Seq<char>, TomlValueView)>>;

/// Parses `source` with `toml_edit`, takes the array of tables under `key`
/// (`Table::get`, `Item::as_array_of_tables`) and hands back each table's
/// entries (`Table::iter`) as plain values, each read through
/// `Item::as_value`.
#[verifier::external_body]
fn read_toml_array_tables(source: &str, key: &str) -> (tables: Vec<Vec<(String, TomlValue)>>)
    ensures
        tables_view(tables@) == toml_array_tables(source@, key@),
{
    let document = source.parse::<DocumentMut>().unwrap_or_default();
    document.get(key).and_then(Item::as_array_of_tables).map(|tables| tables.iter().map(|table|
        table.iter().map(|(name, item)| (name.to_owned(), match item.as_value() {
            Some(Value::String(text)) => TomlValue::Text(text.value().clone()),
            Some(Value::Integer(number)) => TomlValue::Integer(*number.value()),
            Some(Value::Float(number)) => TomlValue::Decimal(number.display_repr().into_owned()),
            Some(Value::Boolean(flag)) => TomlValue::Flag(*flag.value()),
            _ => TomlValue::Structured,
        })).collect()).collect()).unwrap_or_default()
}

/// Whether the first entry under `bands` among `entries` is an array of
/// tables.
pub open spec fn holds_band_tables(entries: Seq<(Seq<char>, TomlKind)>) -> bool
    decreases entries.len(),
{
    if entries.len() == 0 {
        false
    } else if entries[0].0 == "bands"@ {
        entries[0].1 == TomlKind::Tables
    } else {
        holds_band_tables(entries.skip(1))
    }
}

/// Whether the first entry under `bands` is an array of tables.
fn has_band_tables(entries: &Vec<(String, TomlKind)>) -> (has: bool)
    ensures
        has == holds_band_tables(entries@.map_values(|entry: (String, TomlKind)| (entry.0@, entry.1))),
{
    let ghost all = entries@.map_values(|entry: (String, TomlKind)| (entry.0@, entry.1));
    assert(all.skip(0) =~= all);
    let mut i: usize = 0;
    while i < entries.len()
        invariant
            i <= entries.len(),
            all == entries@.map_values(|entry: (String, TomlKind)| (entry.0@, entry.1)),
            holds_band_tables(all) == holds_band_tables(all.skip(i as int)),
        decreases entries.len() - i,
    {
        assert(all.skip(i as int)[0] == all[i as int]);
        assert(all.skip(i as int).skip(1) =~= all.skip(i + 1));
        proof {
            reveal_strlit("bands");
        }
        if same_text(entries[i].0.as_str(), "bands") {
            return entries[i].1 == TomlKind::Tables;
        }
        i += 1;
    }
    false
}

/// A setting the operator attached to a band, as the script will read it.
#[derive(Clone, Debug, PartialEq, Eq)]
pub enum BandValue {
    Text(String),
    Integer(i64),
    /// A floating-point number, as it was written.
    Decimal(String),
    Flag(bool),
}

/// A band setting by its contents.
pub enum BandValueView {
    Text(Seq<char>),
    Integer(i64),
    Decimal(Seq<char>),
    Flag(bool),
}

impl View for BandValue {
    type V = BandValueView;

    open spec fn view(&self) -> BandValueView {
        match self {
            BandValue::Text(t) => BandValueView::Text(t@),
            BandValue::Integer(n) => BandValueView::Integer(*n),
            BandValue::Decimal(t) => BandValueView::Decimal(t@),
            BandValue::Flag(b) => BandValueView::Flag(*b),
        }
    }
}

/// The setting a written value becomes, if it has a shape the script has
/// been promised.
pub open spec fn setting_of(value: TomlValueView) -> Option<BandValueView> {
    match value {
        TomlValueView::Text(t) => Some(BandValueView::Text(t)),
        TomlValueView::Integer(n) => Some(BandValueView::Integer(n)),
        TomlValueView::Decimal(t) => Some(BandValueView::Decimal(t)),
        TomlValueView::Flag(b) => Some(BandValueView::Flag(b)),
        TomlValueView::Structured => None,
    }
}

fn band_value_of(value: &TomlValue) -> (setting: Option<BandValue>)
    ensures
        setting matches Some(s) ==> setting_of(value@) == Some(s@),
        setting is None ==> setting_of(value@) is None,
{
    match value {
        TomlValue::Text(t) => Some(BandValue::Text(t.clone())),
        TomlValue::Integer(n) => Some(BandValue::Integer(*n)),
        TomlValue::Decimal(t) => Some(BandValue::Decimal(t.clone())),
        TomlValue::Flag(b) => Some(BandValue::Flag(*b)),
        TomlValue::Structured => None,
    }
}

/// One band, as the plan describes it.
#[derive(Clone, Debug)]
pub struct BandDefinition {
    pub name: String,
    pub low_hz: u64,
    pub high_hz: u64,
    /// Everything else written under the band, in key order.
    pub settings: Vec<(String, BandValue)>,
}

/// A band by its contents.
pub struct BandView {
    pub name: Seq<char>,
    pub low_hz: u64,
    pub high_hz: u64,
    pub settings: Seq<(Seq<char>, BandValueView)>,
}

impl View for BandDefinition {
    type V = BandView;

    open spec fn view(&self) -> BandView {
        BandView {
            name: self.name@,
            low_hz: self.low_hz,
            high_hz: self.high_hz,
            settings: self.settings@.map_values(|s: (String, BandValue)| (s.0@, s.1@)),
        }
    }
}

/// Where `key` is first written in `entries`, if it is.
pub open spec fn first_key<V>(entries: Seq<(Seq<char>, V)>, key: Seq<char>) -> Option<int>
    decreases entries.len(),
{
    if entries.len() == 0 {
        None
    } else {
        match first_key(entries.drop_last(), key) {
            Some(k) => Some(k),
            None => if entries.last().0 == key {
                Some(entries.len() - 1)
            } else {
                None
            },
        }
    }
}

/// The value written under `key`, if any.
pub open spec fn lookup<V>(entries: Seq<(Seq<char>, V)>, key: Seq<char>) -> Option<V> {
    match first_key(entries, key) {
        Some(k) => Some(entries[k].1),
        None => None,
    }
}

proof fn lemma_first_key_bounds<V>(entries: Seq<(Seq<char>, V)>, key: Seq<char>)
    ensures
        first_key(entries, key) matches Some(k) ==> 0 <= k < entries.len() && entries[k].0 == key,
        first_key(entries, key) is None ==> forall|j: int| 0 <= j < entries.len() ==> entries[j].0 != key,
    decreases entries.len(),
{
    if entries.len() > 0 {
        let shorter = entries.drop_last();
        lemma_first_key_bounds(shorter, key);
        if first_key(shorter, key) is Some {
            let k = first_key(shorter, key)->0;
            assert(shorter[k] == entries[k]);
        }
        assert forall|j: int| 0 <= j < shorter.len() implies shorter[j] == entries[j] by {}
    }
}

/// A count of hertz written as a whole, non-negative number.
pub open spec fn frequency_of(value: Option<TomlValueView>) -> Option<u64> {
    match value {
        Some(TomlValueView::Integer(n)) => if n >= 0 {
            Some(n as u64)
        } else {
            None
        },
        _ => None,
    }
}

/// Whether a key is one of the three the plan reads for itself.
pub open spec fn is_range_key(key: Seq<char>) -> bool {
    key == "name"@ || key == "low"@ || key == "high"@
}

/// `entries`, kept in key order, with `value` put under `key`: in place of
/// the value there, or where the key falls in the order.
pub open spec fn put_in<V>(entries: Seq<(Seq<char>, V)>, key: Seq<char>, value: V) -> Seq<(Seq<char>, V)>
    decreases entries.len(),
{
    if entries.len() == 0 {
        seq![(key, value)]
    } else if entries[0].0 == key {
        entries.update(0, (key, value))
    } else if text_less(key, entries[0].0) {
        seq![(key, value)] + entries
    } else {
        seq![entries[0]] + put_in(entries.drop_first(), key, value)
    }
}

/// The settings a band's table carries through: every entry but the range,
/// with a shape the script has been promised, in key order, a key written
/// twice keeping the value written last.
pub open spec fn settings_of(table: Seq<(Seq<char>, TomlValueView)>) -> Seq<(Seq<char>, BandValueView)>
    decreases table.len(),
{
    if table.len() == 0 {
        Seq::empty()
    } else {
        let rest = settings_of(table.drop_last());
        let (key, value) = table.last();
        if is_range_key(key) {
            rest
        } else {
            match setting_of(value) {
                Some(setting) => put_in(rest, key, setting),
                None => rest,
            }
        }
    }
}

/// Where `put_in` puts a key: at `k`, the first place whose key does not
/// come before it.
proof fn lemma_put_in_at<V>(entries: Seq<(Seq<char>, V)>, key: Seq<char>, value: V, k: int)
    requires
        0 <= k <= entries.len(),
        forall|i: int| 0 <= i < k ==> text_less(#[trigger] entries[i].0, key),
        k < entries.len() ==> !text_less(entries[k].0, key),
    ensures
        put_in(entries, key, value) == if k < entries.len() && entries[k].0 == key {
            entries.update(k, (key, value))
        } else {
            entries.insert(k, (key, value))
        },
    decreases k,
{
    if k == 0 {
        if entries.len() == 0 {
            assert(entries.insert(0, (key, value)) =~= seq![(key, value)]);
        } else if entries[0].0 != key {
            lemma_text_less_total(key, entries[0].0);
            assert(entries.insert(0, (key, value)) =~= seq![(key, value)] + entries);
        }
    } else {
        let first = entries[0].0;
        lemma_text_less_irreflexive(key);
        if text_less(key, first) {
            lemma_text_less_transitive(key, first, key);
        }
        let rest = entries.drop_first();
        assert forall|i: int| 0 <= i < k - 1 implies text_less(#[trigger] rest[i].0, key) by {
            assert(rest[i] == entries[i + 1]);
        }
        lemma_put_in_at(rest, key, value, k - 1);
        if k < entries.len() && entries[k].0 == key {
            assert(seq![entries[0]] + rest.update(k - 1, (key, value)) =~= entries.update(k, (key, value)));
        } else {
            assert(seq![entries[0]] + rest.insert(k - 1, (key, value)) =~= entries.insert(k, (key, value)));
        }
    }
}

/// Whether the keys of `entries` come in order, none of them twice.
pub open spec fn keys_ordered<V>(entries: Seq<(Seq<char>, V)>) -> bool {
    forall|i: int, j: int| 0 <= i < j < entries.len() ==> text_less(#[trigger] entries[i].0, #[trigger] entries[j].0)
}

/// A text before every key of `entries` and before `key` is before every
/// key once `key` is put in.
proof fn lemma_put_in_above<V>(entries: Seq<(Seq<char>, V)>, key: Seq<char>, value: V, bound: Seq<char>)
    requires
        forall|j: int| 0 <= j < entries.len() ==> text_less(bound, #[trigger] entries[j].0),
        text_less(bound, key),
    ensures
        forall|i: int| 0 <= i < put_in(entries, key, value).len() ==> text_less(bound, #[trigger] put_in(entries, key, value)[i].0),
    decreases entries.len(),
{
    if entries.len() > 0 && entries[0].0 != key && !text_less(key, entries[0].0) {
        let rest = entries.drop_first();
        assert forall|j: int| 0 <= j < rest.len() implies text_less(bound, #[trigger] rest[j].0) by {
            assert(rest[j] == entries[j + 1]);
        }
        lemma_put_in_above(rest, key, value, bound);
        let put = put_in(entries, key, value);
        assert forall|i: int| 0 <= i < put.len() implies text_less(bound, #[trigger] put[i].0) by {
            if i > 0 {
                assert(put[i] == put_in(rest, key, value)[i - 1]);
            }
        }
    }
}

/// Putting a key in keeps the keys in order.
proof fn lemma_put_in_ordered<V>(entries: Seq<(Seq<char>, V)>, key: Seq<char>, value: V)
    requires
        keys_ordered(entries),
    ensures
        keys_ordered(put_in(entries, key, value)),
    decreases entries.len(),
{
    let put = put_in(entries, key, value);
    if entries.len() == 0 {
    } else if entries[0].0 == key {
        assert forall|i: int, j: int| 0 <= i < j < put.len() implies text_less(#[trigger] put[i].0, #[trigger] put[j].0) by {
            assert(put[i].0 == entries[i].0 && put[j].0 == entries[j].0);
        }
    } else if text_less(key, entries[0].0) {
        assert forall|i: int, j: int| 0 <= i < j < put.len() implies text_less(#[trigger] put[i].0, #[trigger] put[j].0) by {
            assert(put[j] == entries[j - 1]);
            if i == 0 {
                if j > 1 {
                    lemma_text_less_transitive(key, entries[0].0, entries[j - 1].0);
                }
            } else {
                assert(put[i] == entries[i - 1]);
            }
        }
    } else {
        lemma_text_less_total(key, entries[0].0);
        let rest = entries.drop_first();
        assert forall|i: int, j: int| 0 <= i < j < rest.len() implies text_less(#[trigger] rest[i].0, #[trigger] rest[j].0) by {
            assert(rest[i] == entries[i + 1] && rest[j] == entries[j + 1]);
        }
        assert forall|j: int| 0 <= j < rest.len() implies text_less(entries[0].0, #[trigger] rest[j].0) by {
            assert(rest[j] == entries[j + 1]);
        }
        lemma_put_in_ordered(rest, key, value);
        lemma_put_in_above(rest, key, value, entries[0].0);
        let tail = put_in(rest, key, value);
        assert forall|i: int, j: int| 0 <= i < j < put.len() implies text_less(#[trigger] put[i].0, #[trigger] put[j].0) by {
            assert(put[j] == tail[j - 1]);
            if i > 0 {
                assert(put[i] == tail[i - 1]);
            }
        }
    }
}

/// A band's settings come out in key order, each key once, whatever order
/// they were written in.
pub proof fn lemma_settings_in_key_order(table: Seq<(Seq<char>, TomlValueView)>)
    ensures
        keys_ordered(settings_of(table)),
    decreases table.len(),
{
    if table.len() > 0 {
        lemma_settings_in_key_order(table.drop_last());
        let (key, value) = table.last();
        if !is_range_key(key) {
            if let Some(setting) = setting_of(value) {
                lemma_put_in_ordered(settings_of(table.drop_last()), key, setting);
            }
        }
    }
}

/// Putting `value` under `key` in entries kept in order leaves `key` with
/// that value and every other key with the one it had.
proof fn lemma_put_in_holds<V>(entries: Seq<(Seq<char>, V)>, key: Seq<char>, value: V, other: Seq<char>, v: V)
    requires
        keys_ordered(entries),
    ensures
        put_in(entries, key, value).contains((other, v)) == (if other == key {
            v == value
        } else {
            entries.contains((other, v))
        }),
    decreases entries.len(),
{
    let put = put_in(entries, key, value);
    let entry = (other, v);
    if entries.len() == 0 {
        if put.contains(entry) {
            assert(put[0] == entry);
        } else if other == key && v == value {
            assert(put[0] == entry);
        }
    } else if entries[0].0 == key {
        if put.contains(entry) {
            let i = choose|i: int| 0 <= i < put.len() && put[i] == entry;
            if i > 0 {
                assert(put[i] == entries[i]);
                assert(text_less(entries[0].0, entries[i].0));
                lemma_text_less_irreflexive(key);
            }
        } else {
            if other == key && v == value {
                assert(put[0] == entry);
            }
            if other != key && entries.contains(entry) {
                let i = choose|i: int| 0 <= i < entries.len() && entries[i] == entry;
                assert(put[i] == entry);
            }
        }
    } else if text_less(key, entries[0].0) {
        lemma_text_less_irreflexive(key);
        if put.contains(entry) {
            let i = choose|i: int| 0 <= i < put.len() && put[i] == entry;
            if i > 0 {
                assert(put[i] == entries[i - 1]);
                assert(entries.contains(entry));
                if other == key {
                    if i > 1 {
                        assert(text_less(entries[0].0, entries[i - 1].0));
                        lemma_text_less_transitive(key, entries[0].0, key);
                    }
                }
            }
        } else {
            if other == key && v == value {
                assert(put[0] == entry);
            }
            if other != key && entries.contains(entry) {
                let i = choose|i: int| 0 <= i < entries.len() && entries[i] == entry;
                assert(put[i + 1] == entry);
            }
        }
    } else {
        let rest = entries.drop_first();
        assert forall|i: int, j: int| 0 <= i < j < rest.len() implies text_less(#[trigger] rest[i].0, #[trigger] rest[j].0) by {
            assert(rest[i] == entries[i + 1] && rest[j] == entries[j + 1]);
        }
        lemma_put_in_holds(rest, key, value, other, v);
        let tail = put_in(rest, key, value);
        assert(put == seq![entries[0]] + tail);
        if put.contains(entry) {
            let i = choose|i: int| 0 <= i < put.len() && put[i] == entry;
            if i > 0 {
                assert(tail[i - 1] == entry);
                assert(tail.contains(entry));
                if other != key {
                    let m = choose|m: int| 0 <= m < rest.len() && rest[m] == entry;
                    assert(entries[m + 1] == entry);
                }
            } else {
                assert(entries[0] == entry);
            }
        } else {
            if other == key && v == value {
                assert(tail.contains(entry));
                let m = choose|m: int| 0 <= m < tail.len() && tail[m] == entry;
                assert(put[m + 1] == entry);
            }
            if other != key && entries.contains(entry) {
                let i = choose|i: int| 0 <= i < entries.len() && entries[i] == entry;
                if i == 0 {
                    assert(put[0] == entry);
                } else {
                    assert(rest[i - 1] == entry);
                    assert(tail.contains(entry));
                    let m = choose|m: int| 0 <= m < tail.len() && tail[m] == entry;
                    assert(put[m + 1] == entry);
                }
            }
        }
    }
}

/// The setting written last under `key` in a band's table, leaving out
/// the range and values with no shape the script has been promised.
pub open spec fn last_setting(table: Seq<(Seq<char>, TomlValueView)>, key: Seq<char>) -> Option<BandValueView>
    decreases table.len(),
{
    if table.len() == 0 {
        None
    } else if table.last().0 == key && !is_range_key(key) && setting_of(table.last().1) is Some {
        setting_of(table.last().1)
    } else {
        last_setting(table.drop_last(), key)
    }
}

/// A band's settings hold each key with the setting written last under
/// it, and nothing else.
pub proof fn lemma_settings_hold_what_was_written_last(
    table: Seq<(Seq<char>, TomlValueView)>,
    key: Seq<char>,
    setting: BandValueView,
)
    ensures
        settings_of(table).contains((key, setting)) == (last_setting(table, key) == Some(setting)),
    decreases table.len(),
{
    if table.len() > 0 {
        let shorter = table.drop_last();
        lemma_settings_hold_what_was_written_last(shorter, key, setting);
        let (written, value) = table.last();
        if !is_range_key(written) {
            if let Some(s) = setting_of(value) {
                lemma_settings_in_key_order(shorter);
                lemma_put_in_holds(settings_of(shorter), written, s, key, setting);
            }
        }
    }
}

/// The settings of a band by their contents.
pub open spec fn settings_view(settings: Seq<(String, BandValue)>) -> Seq<(Seq<char>, BandValueView)> {
    settings.map_values(|s: (String, BandValue)| (s.0@, s.1@))
}

/// Puts `value` under `key` in `settings`, kept in key order.
fn put_setting(settings: &mut Vec<(String, BandValue)>, key: String, value: BandValue)
    ensures
        settings_view(final(settings)@) == put_in(settings_view(old(settings)@), key@, value@),
{
    let ghost before = settings_view(settings@);
    let mut k: usize = 0;
    while k < settings.len() && text_before(settings[k].0.as_str(), key.as_str())
        invariant
            k <= settings.len(),
            before == settings_view(settings@),
            forall|i: int| 0 <= i < k ==> text_less(#[trigger] before[i].0, key@),
        decreases settings.len() - k,
    {
        assert(before[k as int] == (settings@[k as int].0@, settings@[k as int].1@));
        k += 1;
    }
    proof {
        if k < settings.len() {
            assert(before[k as int] == (settings@[k as int].0@, settings@[k as int].1@));
        }
        lemma_put_in_at(before, key@, value@, k as int);
    }
    let ghost entry = (key@, value@);
    if k < settings.len() && same_text(settings[k].0.as_str(), key.as_str()) {
        settings.set(k, (key, value));
        assert(settings_view(settings@) =~= before.update(k as int, entry));
    } else {
        settings.insert(k, (key, value));
        assert(settings_view(settings@) =~= before.insert(k as int, entry));
    }
}

/// The band a table describes, when it names one: a name that is not blank
/// once trimmed, and a range from `low` to `high` of whole hertz.
pub open spec fn band_of(table: Seq<(Seq<char>, TomlValueView)>) -> Option<BandView> {
    match (lookup(table, "name"@), frequency_of(lookup(table, "low"@)), frequency_of(lookup(table, "high"@))) {
        (Some(TomlValueView::Text(name)), Some(low), Some(high)) => if trimmed(name).len() > 0 && low <= high {
            Some(BandView { name: trimmed(name), low_hz: low, high_hz: high, settings: settings_of(table) })
        } else {
            None
        },
        _ => None,
    }
}

/// The bands the tables describe, in order, leaving out every table that
/// names no band.
pub open spec fn bands_of(tables: Seq<Seq<(Seq<char>, TomlValueView)>>) -> Seq<BandView>
    decreases tables.len(),
{
    if tables.len() == 0 {
        Seq::empty()
    } else {
        match band_of(tables.last()) {
            Some(band) => bands_of(tables.drop_last()).push(band),
            None => bands_of(tables.drop_last()),
        }
    }
}

/// Where `key` is first written in `table`.
fn find_key(table: &Vec<(String, TomlValue)>, key: &str) -> (k: Option<usize>)
    ensures
        k matches Some(i) ==> first_key(table_view(table@), key@) == Some(i as int) && i < table.len(),
        k is None ==> first_key(table_view(table@), key@) is None,
{
    let mut i: usize = 0;
    while i < table.len()
        invariant
            i <= table.len(),
            forall|j: int| 0 <= j < i ==> table_view(table@)[j].0 != key@,
        decreases table.len() - i,
    {
        assert(table_view(table@)[i as int].0 == table@[i as int].0@);
        if same_text(table[i].0.as_str(), key) {
            proof {
                lemma_first_key_bounds(table_view(table@), key@);
                lemma_first_key_is_first(table_view(table@), key@, i as int);
            }
            return Some(i);
        }
        i += 1;
    }
    proof {
        lemma_first_key_bounds(table_view(table@), key@);
        if first_key(table_view(table@), key@) is Some {
            let k = first_key(table_view(table@), key@)->0;
            assert(table_view(table@)[k].0 != key@);
        }
    }
    None
}

proof fn lemma_first_key_is_first<V>(entries: Seq<(Seq<char>, V)>, key: Seq<char>, i: int)
    requires
        0 <= i < entries.len(),
        entries[i].0 == key,
        forall|j: int| 0 <= j < i ==> entries[j].0 != key,
    ensures
        first_key(entries, key) == Some(i),
    decreases entries.len(),
{
    if i < entries.len() - 1 {
        let shorter = entries.drop_last();
        assert(shorter[i] == entries[i]);
        assert forall|j: int| 0 <= j < i implies shorter[j].0 != key by {
            assert(shorter[j] == entries[j]);
        }
        lemma_first_key_is_first(shorter, key, i);
    } else {
        lemma_first_key_bounds(entries.drop_last(), key);
        if first_key(entries.drop_last(), key) is Some {
            let k = first_key(entries.drop_last(), key)->0;
            assert(entries.drop_last()[k] == entries[k]);
        }
    }
}

/// The whole hertz written under `key`, if that is what is written there.
fn frequency_under(table: &Vec<(String, TomlValue)>, key: &str) -> (hz: Option<u64>)
    ensures
        hz == frequency_of(lookup(table_view(table@), key@)),
{
    match find_key(table, key) {
        Some(i) => {
            assert(table_view(table@)[i as int].1 == table@[i as int].1@);
            match &table[i].1 {
                TomlValue::Integer(n) => if *n >= 0 {
                    Some(*n as u64)
                } else {
                    None
                },
                _ => None,
            }
        },
        None => None,
    }
}

/// The settings `table` carries through.
fn settings_in(table: &Vec<(String, TomlValue)>) -> (settings: Vec<(String, BandValue)>)
    ensures
        settings@.map_values(|s: (String, BandValue)| (s.0@, s.1@)) == settings_of(table_view(table@)),
{
    let mut settings: Vec<(String, BandValue)> = Vec::new();
    let mut i: usize = 0;
    proof {
        reveal_strlit("name");
        reveal_strlit("low");
        reveal_strlit("high");
    }
    while i < table.len()
        invariant
            i <= table.len(),
            settings@.map_values(|s: (String, BandValue)| (s.0@, s.1@)) == settings_of(
                table_view(table@).take(i as int),
            ),
        decreases table.len() - i,
    {
        let ghost before = settings@;
        assert(table_view(table@).take(i + 1).drop_last() == table_view(table@).take(i as int));
        assert(table_view(table@).take(i + 1).last() == (table@[i as int].0@, table@[i as int].1@));
        let key = table[i].0.as_str();
        let range = same_text(key, "name") || same_text(key, "low") || same_text(key, "high");
        if !range {
            match band_value_of(&table[i].1) {
                Some(setting) => {
                    put_setting(&mut settings, table[i].0.clone(), setting);
                },
                None => {},
            }
        }
        i += 1;
    }
    assert(table_view(table@).take(table.len() as int) == table_view(table@));
    settings
}

/// The band `table` describes, if it names one.
fn band_in(table: &Vec<(String, TomlValue)>) -> (band: Option<BandDefinition>)
    ensures
        band matches Some(b) ==> band_of(table_view(table@)) == Some(b@),
        band is None ==> band_of(table_view(table@)) is None,
{
    let name = match find_key(table, "name") {
        Some(i) => {
            assert(table_view(table@)[i as int].1 == table@[i as int].1@);
            match &table[i].1 {
                TomlValue::Text(text) => trim(text.as_str()),
                _ => {
                    return None;
                },
            }
        },
        None => {
            return None;
        },
    };
    let low_hz = match frequency_under(table, "low") {
        Some(hz) => hz,
        None => {
            return None;
        },
    };
    let high_hz = match frequency_under(table, "high") {
        Some(hz) => hz,
        None => {
            return None;
        },
    };
    if name.as_str().unicode_len() == 0 || low_hz > high_hz {
        return None;
    }
    let settings = settings_in(table);
    Some(BandDefinition { name, low_hz, high_hz, settings })
}

/// The step a band's settings give: a `step` written as a whole number of
/// hertz above zero.
pub open spec fn step_of(settings: Seq<(Seq<char>, BandValueView)>) -> Option<u64> {
    match lookup(settings, "step"@) {
        Some(BandValueView::Integer(n)) => if n > 0 {
            Some(n as u64)
        } else {
            None
        },
        _ => None,
    }
}

impl BandDefinition {
    /// Whether `frequency_hz` is inside the band, edges included.
    pub fn contains(&self, frequency_hz: u64) -> (inside: bool)
        ensures
            inside == (self.low_hz <= frequency_hz <= self.high_hz),
    {
        self.low_hz <= frequency_hz && frequency_hz <= self.high_hz
    }

    /// How far one press of the step buttons moves, if the band says; a
    /// band without a step has nothing to move by.
    pub fn step_hz(&self) -> (step: Option<u64>)
        ensures
            step == step_of(self@.settings),
    {
        let ghost view = self@.settings;
        let mut i: usize = 0;
        proof {
            reveal_strlit("step");
        }
        while i < self.settings.len()
            invariant
                i <= self.settings.len(),
                view == self@.settings,
                forall|j: int| 0 <= j < i ==> view[j].0 != "step"@,
            decreases self.settings.len() - i,
        {
            assert(view[i as int] == (self.settings@[i as int].0@, self.settings@[i as int].1@));
            if same_text(self.settings[i].0.as_str(), "step") {
                proof {
                    lemma_first_key_bounds(view, "step"@);
                    lemma_first_key_is_first(view, "step"@, i as int);
                }
                return match &self.settings[i].1 {
                    BandValue::Integer(n) => if *n > 0 {
                        Some(*n as u64)
                    } else {
                        None
                    },
                    _ => None,
                };
            }
            i += 1;
        }
        proof {
            lemma_first_key_bounds(view, "step"@);
            if first_key(view, "step"@) is Some {
                let k = first_key(view, "step"@)->0;
                assert(view[k].0 != "step"@);
            }
        }
        None
    }
}

/// Where a press of the step buttons puts a rig at `frequency_hz` on a band
/// with `low`, `high` and `step`: `steps` steps on, when that stays inside
/// the band; stepping out of the band is not tuning.
pub open spec fn spec_stepped(frequency_hz: u64, low: u64, high: u64, step: Option<u64>, steps: i64) -> Option<u64> {
    match step {
        Some(s) => if frequency_hz <= i64::MAX && s <= i64::MAX && i64::MIN <= steps * s <= i64::MAX {
            let moved = frequency_hz + steps * s;
            if 0 <= moved && low <= moved <= high {
                Some(moved as u64)
            } else {
                None
            }
        } else {
            None
        },
        None => None,
    }
}

/// Whether working out a step from `frequency_hz` stays inside what a
/// signed 64-bit count of hertz can hold.
pub open spec fn step_fits(frequency_hz: u64, step: Option<u64>, steps: i64) -> bool {
    match step {
        Some(s) => (frequency_hz <= i64::MAX && s <= i64::MAX && i64::MIN <= steps * s <= i64::MAX) ==> i64::MIN
            <= frequency_hz + steps * s <= i64::MAX,
        None => true,
    }
}

/// Whether `frequency_hz` is inside `band`, edges included.
pub open spec fn holds(band: BandView, frequency_hz: u64) -> bool {
    band.low_hz <= frequency_hz <= band.high_hz
}

/// What reading `source` as a plan file gives: the message toml_edit
/// refuses the text with; [`NO_BANDS`] when no `[[bands]]` array of tables
/// is written; otherwise the bands that its tables name, in order.
pub open spec fn plan_read(source: Seq<char>) -> Result<Seq<BandView>, Seq<char>> {
    match toml_top_kinds(source) {
        Err(message) => Err(message),
        Ok(entries) => if holds_band_tables(entries) {
            Ok(bands_of(toml_array_tables(source, "bands"@)))
        } else {
            Err(NO_BANDS@)
        },
    }
}

/// A plan that was read, or the message it was refused with, by contents.
pub open spec fn plan_view(plan: Result<BandPlan, String>) -> Result<Seq<BandView>, Seq<char>> {
    match plan {
        Ok(p) => Ok(p.spec_bands()),
        Err(message) => Err(message@),
    }
}

/// The bands, in the order the interface offers them.
#[derive(Clone, Debug)]
pub struct BandPlan {
    bands: Vec<BandDefinition>,
}

/// The message a file with no `[[bands]]` array of tables is refused with.
pub const NO_BANDS: &'static str = "no [[bands]] entries";

impl BandPlan {
    pub closed spec fn spec_bands(&self) -> Seq<BandView> {
        self.bands@.map_values(|b: BandDefinition| b@)
    }

    /// A plan with no bands in it.
    pub fn empty() -> (plan: BandPlan)
        ensures
            plan.spec_bands() == Seq::<BandView>::empty(),
    {
        BandPlan { bands: Vec::new() }
    }

    /// The plan the tables of a plan file describe: every table that names
    /// a band, in order.
    pub fn from_tables(tables: Vec<Vec<(String, TomlValue)>>) -> (plan: BandPlan)
        ensures
            plan.spec_bands() == bands_of(tables_view(tables@)),
    {
        let mut bands: Vec<BandDefinition> = Vec::new();
        let mut i: usize = 0;
        while i < tables.len()
            invariant
                i <= tables.len(),
                bands@.map_values(|b: BandDefinition| b@) == bands_of(tables_view(tables@).take(i as int)),
            decreases tables.len() - i,
        {
            let ghost before = bands@;
            assert(tables_view(tables@).take(i + 1).drop_last() == tables_view(tables@).take(i as int));
            assert(tables_view(tables@).take(i + 1).last() == table_view(tables@[i as int]@));
            match band_in(&tables[i]) {
                Some(band) => {
                    bands.push(band);
                    assert(bands@.map_values(|b: BandDefinition| b@) =~= before.map_values(
                        |b: BandDefinition| b@,
                    ).push(band@));
                },
                None => {},
            }
            i += 1;
        }
        assert(tables_view(tables@).take(tables.len() as int) == tables_view(tables@));
        BandPlan { bands }
    }

    /// Reads a plan file: the text toml_edit refuses is refused with its
    /// message, a file without a `[[bands]]` array of tables is refused
    /// rather than read as empty, and otherwise the plan is every table that
    /// names a band.
    pub fn parse(source: &str) -> (plan: Result<BandPlan, String>)
        ensures
            plan_view(plan) == plan_read(source@),
    {
        match read_toml_kinds(source) {
            Err(message) => Err(message),
            Ok(entries) => if has_band_tables(&entries) {
                Ok(BandPlan::from_tables(read_toml_array_tables(source, "bands")))
            } else {
                Err(NO_BANDS.to_owned())
            },
        }
    }

    /// The plan that comes with the application, read from [`DEFAULT_PLAN`].
    pub fn built_in() -> (plan: Result<BandPlan, String>)
        ensures
            plan_view(plan) == plan_read(DEFAULT_PLAN@),
    {
        BandPlan::parse(DEFAULT_PLAN)
    }

    /// The built-in plan, or no bands at all if it could not be read.
    pub fn built_in_or_empty() -> (plan: BandPlan)
        ensures
            plan_read(DEFAULT_PLAN@) matches Ok(bands) ==> plan.spec_bands() == bands,
            plan_read(DEFAULT_PLAN@) is Err ==> plan.spec_bands() == Seq::<BandView>::empty(),
    {
        match BandPlan::built_in() {
            Ok(plan) => plan,
            Err(_) => BandPlan::empty(),
        }
    }

    /// The plan read from the operator's file, `None` when there is none
    /// and the built-in plan is read in its place. A file that cannot be
    /// read as a plan is reported with its message, and the built-in plan is
    /// used: one hand-edited value is not a reason to go without bands.
    pub fn from_file(source: Option<&str>) -> (loaded: (BandPlan, Option<String>))
        ensures
            ({
                let text = match source {
                    Some(s) => s@,
                    None => DEFAULT_PLAN@,
                };
                match plan_read(text) {
                    Ok(bands) => loaded.0.spec_bands() == bands && loaded.1 is None,
                    Err(message) => loaded.1 matches Some(m) && m@ == message && (plan_read(DEFAULT_PLAN@) matches Ok(
                        b,
                    ) ==> loaded.0.spec_bands() == b) && (plan_read(DEFAULT_PLAN@) is Err
                        ==> loaded.0.spec_bands() == Seq::<BandView>::empty()),
                }
            }),
    {
        let text = match source {
            Some(s) => s,
            None => DEFAULT_PLAN,
        };
        match BandPlan::parse(text) {
            Ok(plan) => (plan, None),
            Err(message) => (BandPlan::built_in_or_empty(), Some(message)),
        }
    }

    /// The bands, in order.
    pub fn bands(&self) -> (bands: &Vec<BandDefinition>)
        ensures
            bands@.map_values(|b: BandDefinition| b@) == self.spec_bands(),
    {
        &self.bands
    }

    pub fn is_empty(&self) -> (empty: bool)
        ensures
            empty == (self.spec_bands().len() == 0),
    {
        self.bands.len() == 0
    }

    /// The band `frequency_hz` falls in, if it falls in one at all: the
    /// first such band in the plan. A frequency between the bands has none.
    pub fn for_frequency(&self, frequency_hz: u64) -> (band: Option<&BandDefinition>)
        ensures
            band matches Some(b) ==> exists|k: int|
                #![trigger self.spec_bands()[k]]
                0 <= k < self.spec_bands().len() && self.spec_bands()[k] == b@ && holds(b@, frequency_hz)
                    && forall|j: int| 0 <= j < k ==> !holds(#[trigger] self.spec_bands()[j], frequency_hz),
            band is None ==> forall|j: int|
                0 <= j < self.spec_bands().len() ==> !holds(#[trigger] self.spec_bands()[j], frequency_hz),
    {
        let mut i: usize = 0;
        while i < self.bands.len()
            invariant
                i <= self.bands.len(),
                forall|j: int| 0 <= j < i ==> !holds(#[trigger] self.spec_bands()[j], frequency_hz),
            decreases self.bands.len() - i,
        {
            assert(self.spec_bands()[i as int] == self.bands@[i as int]@);
            if self.bands[i].contains(frequency_hz) {
                return Some(&self.bands[i]);
            }
            i += 1;
        }
        None
    }

    /// The band named `name`, the first of them if the plan names it twice.
    pub fn by_name(&self, name: &str) -> (band: Option<&BandDefinition>)
        ensures
            band matches Some(b) ==> exists|k: int|
                #![trigger self.spec_bands()[k]]
                0 <= k < self.spec_bands().len() && self.spec_bands()[k] == b@ && b.name@ == name@
                    && forall|j: int| 0 <= j < k ==> self.spec_bands()[j].name != name@,
            band is None ==> forall|j: int| 0 <= j < self.spec_bands().len() ==> self.spec_bands()[j].name != name@,
    {
        let mut i: usize = 0;
        while i < self.bands.len()
            invariant
                i <= self.bands.len(),
                forall|j: int| 0 <= j < i ==> self.spec_bands()[j].name != name@,
            decreases self.bands.len() - i,
        {
            assert(self.spec_bands()[i as int] == self.bands@[i as int]@);
            if same_text(self.bands[i].name.as_str(), name) {
                return Some(&self.bands[i]);
            }
            i += 1;
        }
        None
    }
}

/// Where a press of the step buttons would put a rig at `frequency_hz` on
/// `band`, if anywhere: `steps` of the band's steps on, as long as that
/// stays inside the band.
pub fn stepped_frequency(band: &BandDefinition, frequency_hz: u64, steps: i64) -> (target: Option<u64>)
    requires
        step_fits(frequency_hz, step_of(band@.settings), steps),
    ensures
        target == spec_stepped(frequency_hz, band.low_hz, band.high_hz, step_of(band@.settings), steps),
{
    let step = match band.step_hz() {
        Some(step) => step,
        None => {
            return None;
        },
    };
    if frequency_hz > i64::MAX as u64 || step > i64::MAX as u64 {
        return None;
    }
    let offset = match steps.checked_mul(step as i64) {
        Some(offset) => offset,
        None => {
            return None;
        },
    };
    let moved = frequency_hz as i64 + offset;
    if moved < 0 {
        return None;
    }
    let moved = moved as u64;
    if band.contains(moved) {
        Some(moved)
    } else {
        None
    }
}

} // verus!
