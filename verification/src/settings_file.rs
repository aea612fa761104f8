//! The configuration file as a document: parsing its text, reading the
//! settings out of it, and writing them back into it.
//!
//! The document is toml_edit's, which keeps comments and hand-written layout
//! through a save. What it holds is named by `document_entries`, in the tree
//! of sections `document` describes; each operation below says what it does
//! to that tree, so that reading and writing are proved against the same
//! model the round trip is proved over.

use vstd::prelude::*;
use toml_edit::{value, DocumentMut, Item, Table};
use crate::config::{
    edit_view, edits_view, store_plan, ConfigEdit, EditValue, EditView, NumberSetting, Settings, StoredPort,
    StoredSettings, StoredValue, StoredVariable,
};
use crate::document::{
    apply_edit, apply_edits, address_path, below_gap, is_section, leads, on_way, port_path, reachable, section_at,
    sections_to, seen, stored, stored_document, stored_in, value_at, variable_path, variables_in, without, ports_in,
    Entry,
};

verus! {

#[verifier::external_type_specification]
#[verifier::external_body]
pub struct ExDocumentMut(DocumentMut);

/// What a toml_edit document holds, as the tree of sections `document`
/// describes: a table item (`Item::Table`: a `[section]`, or one that
/// dotted keys make) is a section, a string and a boolean are those values,
/// an integer or a float is a number, and any other item (an array, an
/// inline table, a date, an array of tables) is a value the settings do not
/// read; nothing below an inline table is part of the tree.
pub uninterp spec fn document_entries(d: DocumentMut) -> Map<Seq<Seq<char>>, Entry>;

/// What toml_edit makes of a text: the message it refuses it with, or what
/// the document it parses holds.
pub uninterp spec fn toml_config(source: Seq<char>) -> Result<Map<Seq<Seq<char>>, Entry>, Seq<char>>;

/// The names of a path, each by its characters.
pub open spec fn names_view(path: Seq<String>) -> Seq<Seq<char>> {
    path.map_values(|name: String| name@)
}

/// Parses `source` with toml_edit (`DocumentMut::from_str`).
#[verifier::external_body]
fn toml_parse(source: &str) -> (parsed: Result<DocumentMut, String>)
    ensures
        match toml_config(source@) {
            Ok(entries) => parsed is Ok && document_entries(parsed->Ok_0) == entries,
            Err(message) => parsed is Err && parsed->Err_0@ == message,
        },
{
    source.parse::<DocumentMut>().map_err(|error| error.to_string())
}

/// An empty document, through `DocumentMut::new`.
#[verifier::external_body]
fn toml_new() -> (document: DocumentMut)
    ensures
        document_entries(document).dom().len() == 0 && document_entries(document).dom().finite(),
{
    DocumentMut::new()
}

/// Reads the value under `key` in the section at `table`, walking the
/// sections with `Table::get` and `Item::as_table`, and reading the item
/// with `Item::as_str` and `Item::as_bool`.
#[verifier::external_body]
fn toml_value_at(d: &DocumentMut, table: &Vec<String>, key: &str) -> (v: Option<StoredValue>)
    ensures
        stored(v) == value_at(document_entries(*d), names_view(table@).push(key@)),
{
    let mut section = d.as_table();
    for name in table {
        section = section.get(name)?.as_table()?;
    }
    let item = section.get(key)?;
    Some(match (item.as_str(), item.as_bool()) {
        (Some(text), _) => StoredValue::Text(text.to_owned()),
        (None, Some(flag)) => StoredValue::Flag(flag),
        (None, None) => StoredValue::Other,
    })
}

/// Whether `path` names a section, walking with `Table::get` and
/// `Item::as_table`.
#[verifier::external_body]
fn toml_section_at(d: &DocumentMut, path: &Vec<String>) -> (is: bool)
    requires
        path.len() >= 1,
    ensures
        is == section_at(document_entries(*d), names_view(path@)),
{
    let mut section = d.as_table();
    for name in path {
        match section.get(name).and_then(Item::as_table) {
            Some(next) => section = next,
            None => return false,
        }
    }
    true
}

/// The keys of the section at `path` (`Table::iter`), when it is one.
#[verifier::external_body]
fn toml_keys(d: &DocumentMut, path: &Vec<String>) -> (keys: Option<Vec<String>>)
    requires
        path.len() >= 1,
    ensures
        keys is Some == section_at(document_entries(*d), names_view(path@)),
        keys matches Some(k) ==> {
            &&& forall|i: int, j: int| 0 <= i < j < k.len() ==> #[trigger] k@[i]@ != #[trigger] k@[j]@
            &&& forall|i: int|
                0 <= i < k.len() ==> seen(document_entries(*d), names_view(path@).push(#[trigger] k@[i]@)) is Some
            &&& forall|name: Seq<char>|
                #[trigger] seen(document_entries(*d), names_view(path@).push(name)) is Some ==> exists|i: int|
                    0 <= i < k.len() && k@[i]@ == name
        },
{
    let mut section = d.as_table();
    for name in path {
        section = section.get(name)?.as_table()?;
    }
    Some(section.iter().map(|(key, _)| key.to_owned()).collect())
}

/// Puts an empty section under `key` in the section at `table`, in place of
/// whatever stands there (`IndexMut` on `Table`, which keeps the key as it
/// was written, comments included), reaching it with `Table::get_mut` and
/// `Item::as_table_mut`.
#[verifier::external_body]
fn toml_open_section(d: &mut DocumentMut, table: &Vec<String>, key: &str)
    requires
        reachable(document_entries(*old(d)), names_view(table@).push(key@)),
    ensures
        document_entries(*final(d)) == without(document_entries(*old(d)), names_view(table@).push(key@)).insert(
            names_view(table@).push(key@),
            Entry::Section,
        ),
{
    let mut section = d.as_table_mut();
    for name in table {
        match section.get_mut(name).and_then(Item::as_table_mut) {
            Some(next) => section = next,
            None => return,
        }
    }
    section[key] = Item::Table(Table::new());
}

/// Puts a value under `key` in the section at `table` (`IndexMut`),
/// reached as `toml_open_section` reaches it: a text as a string, a switch
/// as a boolean, and a value of no shape the settings read as an empty
/// array.
#[verifier::external_body]
fn toml_assign(d: &mut DocumentMut, table: &Vec<String>, key: &str, v: &StoredValue)
    requires
        reachable(document_entries(*old(d)), names_view(table@).push(key@)),
    ensures
        document_entries(*final(d)) == without(document_entries(*old(d)), names_view(table@).push(key@)).insert(
            names_view(table@).push(key@),
            Entry::Value(v@),
        ),
{
    let item = match v {
        StoredValue::Text(text) => value(text.as_str()),
        StoredValue::Flag(flag) => value(*flag),
        StoredValue::Other => value(toml_edit::Array::new()),
    };
    let mut section = d.as_table_mut();
    for name in table {
        match section.get_mut(name).and_then(Item::as_table_mut) {
            Some(next) => section = next,
            None => return,
        }
    }
    section[key] = item;
}

/// Puts under `key` in the section at `table` a copy of the number that
/// `numbers` holds at its top under `name` (`Table::get`, `IndexMut`).
#[verifier::external_body]
fn toml_assign_number(d: &mut DocumentMut, table: &Vec<String>, key: &str, numbers: &DocumentMut, name: &str)
    requires
        reachable(document_entries(*old(d)), names_view(table@).push(key@)),
        seen(document_entries(*numbers), seq![name@]) == Some(Entry::Number),
    ensures
        document_entries(*final(d)) == without(document_entries(*old(d)), names_view(table@).push(key@)).insert(
            names_view(table@).push(key@),
            Entry::Number,
        ),
{
    let Some(item) = numbers.get(name).cloned() else { return };
    let mut section = d.as_table_mut();
    for name in table {
        match section.get_mut(name).and_then(Item::as_table_mut) {
            Some(next) => section = next,
            None => return,
        }
    }
    section[key] = item;
}

/// Takes `key` and what lies below it out of the section at `table`
/// (`Table::remove`).
#[verifier::external_body]
fn toml_remove(d: &mut DocumentMut, table: &Vec<String>, key: &str)
    requires
        reachable(document_entries(*old(d)), names_view(table@).push(key@)),
    ensures
        document_entries(*final(d)) == without(document_entries(*old(d)), names_view(table@).push(key@)),
{
    let mut section = d.as_table_mut();
    for name in table {
        match section.get_mut(name).and_then(Item::as_table_mut) {
            Some(next) => section = next,
            None => return,
        }
    }
    section.remove(key);
}

/// Keeps in the section under `key` of the section at `table` only the
/// entries named in `names` (`Table::retain`).
#[verifier::external_body]
fn toml_retain(d: &mut DocumentMut, table: &Vec<String>, key: &str, names: &Vec<String>)
    requires
        section_at(document_entries(*old(d)), names_view(table@).push(key@)),
    ensures
        document_entries(*final(d)) == kept_only(
            document_entries(*old(d)),
            names_view(table@).push(key@),
            names_view(names@),
        ),
{
    let mut section = d.as_table_mut();
    for name in table {
        match section.get_mut(name).and_then(Item::as_table_mut) {
            Some(next) => section = next,
            None => return,
        }
    }
    if let Some(kept) = section.get_mut(key).and_then(Item::as_table_mut) {
        kept.retain(|name, _| is_listed(names, name));
    }
}

/// Whether `name` is one of `names`.
fn is_listed(names: &Vec<String>, name: &str) -> (listed: bool)
    ensures
        listed == names_view(names@).contains(name@),
{
    let mut i: usize = 0;
    while i < names.len()
        invariant
            i <= names.len(),
            forall|k: int| 0 <= k < i ==> names_view(names@)[k] != name@,
        decreases names.len() - i,
    {
        if crate::text::same_text(names[i].as_str(), name) {
            assert(names_view(names@)[i as int] == name@);
            return true;
        }
        i += 1;
    }
    false
}

/// `d` with only the entries named in `names` left in the section at `p`.
pub open spec fn kept_only(d: Map<Seq<Seq<char>>, Entry>, p: Seq<Seq<char>>, names: Seq<Seq<char>>) -> Map<
    Seq<Seq<char>>,
    Entry,
> {
    Map::new(
        |q: Seq<Seq<char>>| d.contains_key(q) && !(leads(p, q) && q.len() > p.len() && !names.contains(q[p.len() as int])),
        |q: Seq<Seq<char>>| d[q],
    )
}

/// Parses the text of a configuration file: the message toml_edit refuses
/// it with, or the document.
pub fn parse_config(source: &str) -> (parsed: Result<DocumentMut, String>)
    ensures
        match toml_config(source@) {
            Ok(entries) => parsed is Ok && document_entries(parsed->Ok_0) == entries,
            Err(message) => parsed is Err && parsed->Err_0@ == message,
        },
{
    toml_parse(source)
}

/// The document of a file that is not there yet: empty.
pub fn empty_config() -> (d: DocumentMut)
    ensures
        document_entries(d) == Map::<Seq<Seq<char>>, Entry>::empty(),
{
    toml_new()
}

/// A path of literal names.
fn path_of(names: &[&str]) -> (path: Vec<String>)
    ensures
        path@.len() == names@.len(),
        forall|i: int| 0 <= i < names@.len() ==> #[trigger] path@[i]@ == names@[i]@,
{
    let mut path: Vec<String> = Vec::new();
    let mut i: usize = 0;
    while i < names.len()
        invariant
            i <= names.len(),
            path@.len() == i,
            forall|k: int| 0 <= k < i ==> #[trigger] path@[k]@ == names@[k]@,
        decreases names.len() - i,
    {
        path.push(names[i].to_owned());
        i += 1;
    }
    path
}

/// What the document holds under `key` in `section`, or at the top for "".
fn read_key(d: &DocumentMut, section: &str, key: &str) -> (v: Option<StoredValue>)
    ensures
        stored(v) == value_at(document_entries(*d), if section@.len() == 0 {
            seq![key@]
        } else {
            seq![section@, key@]
        }),
{
    let mut table: Vec<String> = Vec::new();
    if section.unicode_len() > 0 {
        table.push(section.to_owned());
    }
    assert(names_view(table@).push(key@) =~= if section@.len() == 0 {
        seq![key@]
    } else {
        seq![section@, key@]
    });
    toml_value_at(d, &table, key)
}

/// The `[variables]` entries: one per name, each with what it holds. Whether
/// a name is one a template can hold is for the template rules to say, so
/// every entry is marked usable here and the caller marks the others.
fn read_variables(d: &DocumentMut) -> (vars: Vec<StoredVariable>)
    ensures
        variables_in(document_entries(*d), vars@),
{
    let entries = Ghost(document_entries(*d));
    let section = path_of(&["variables"]);
    proof {
        reveal_strlit("variables");
        assert(names_view(section@) =~= seq!["variables"@]);
    }
    let mut vars: Vec<StoredVariable> = Vec::new();
    match toml_keys(d, &section) {
        None => {},
        Some(keys) => {
            let mut i: usize = 0;
            while i < keys.len()
                invariant
                    i <= keys.len(),
                    vars@.len() == i,
                    entries@ == document_entries(*d),
                    names_view(section@) == seq!["variables"@],
                    forall|k: int| 0 <= k < i ==> #[trigger] vars@[k].name@ == keys@[k]@,
                    forall|k: int|
                        0 <= k < i ==> stored(#[trigger] vars@[k].value) == value_at(entries@, variable_path(keys@[k]@)),
                decreases keys.len() - i,
            {
                assert(names_view(section@).push(keys@[i as int]@) =~= variable_path(keys@[i as int]@));
                let value = toml_value_at(d, &section, keys[i].as_str());
                vars.push(StoredVariable { name: keys[i].clone(), value, usable: true });
                i += 1;
            }
            assert forall|k: int| 0 <= k < vars.len() implies seen(entries@, variable_path(#[trigger] vars@[k].name@))
                is Some by {
                assert(names_view(section@).push(keys@[k]@) =~= variable_path(keys@[k]@));
            }
            assert forall|name: Seq<char>| #[trigger] seen(entries@, variable_path(name)) is Some implies exists|i: int|
                0 <= i < vars.len() && vars@[i].name@ == name by {
                assert(names_view(section@).push(name) =~= variable_path(name));
                let i = choose|i: int| 0 <= i < keys.len() && keys@[i]@ == name;
                assert(vars@[i].name@ == name);
            }
        },
    }
    vars
}

/// The sections under `[rig.ports]`, each with what its address key holds;
/// nothing when `rig.ports` is not a section.
fn read_ports(d: &DocumentMut) -> (ports: Option<Vec<StoredPort>>)
    ensures
        ports_in(document_entries(*d), ports),
{
    let entries = Ghost(document_entries(*d));
    let section = path_of(&["rig", "ports"]);
    proof {
        reveal_strlit("rig");
        reveal_strlit("ports");
        assert(names_view(section@) =~= seq!["rig"@, "ports"@]);
    }
    match toml_keys(d, &section) {
        None => None,
        Some(keys) => {
            let mut list: Vec<StoredPort> = Vec::new();
            let ghost mut picked: Seq<int> = Seq::empty();
            let mut i: usize = 0;
            while i < keys.len()
                invariant
                    i <= keys.len(),
                    entries@ == document_entries(*d),
                    names_view(section@) == seq!["rig"@, "ports"@],
                    forall|a: int, b: int| 0 <= a < b < keys.len() ==> #[trigger] keys@[a]@ != #[trigger] keys@[b]@,
                    picked.len() == list@.len(),
                    forall|k: int| 0 <= k < picked.len() ==> 0 <= #[trigger] picked[k] < i,
                    forall|a: int, b: int| 0 <= a < b < picked.len() ==> #[trigger] picked[a] < #[trigger] picked[b],
                    forall|k: int| 0 <= k < list.len() ==> #[trigger] list@[k].name@ == keys@[picked[k]]@,
                    forall|k: int|
                        0 <= k < list.len() ==> section_at(entries@, port_path(#[trigger] list@[k].name@)) && stored(
                            list@[k].address,
                        ) == value_at(entries@, address_path(list@[k].name@)),
                    forall|j: int|
                        0 <= j < i && section_at(entries@, port_path(#[trigger] keys@[j]@)) ==> exists|k: int|
                            0 <= k < list.len() && list@[k].name@ == keys@[j]@,
                decreases keys.len() - i,
            {
                let ghost listed = list@;
                let mut port = path_of(&["rig", "ports"]);
                port.push(keys[i].clone());
                proof {
                    assert(names_view(port@) =~= port_path(keys@[i as int]@));
                }
                if toml_section_at(d, &port) {
                    let address = toml_value_at(d, &port, "address");
                    proof {
                        reveal_strlit("address");
                        assert(names_view(port@).push("address"@) =~= address_path(keys@[i as int]@));
                    }
                    let ghost before = list@;
                    list.push(StoredPort { name: keys[i].clone(), address });
                    proof {
                        picked = picked.push(i as int);
                        assert(list@[list.len() - 1].name@ == keys@[i as int]@);
                        assert forall|k: int| 0 <= k < list.len() implies #[trigger] list@[k].name@ == keys@[picked[k]]@ by {
                            if k < before.len() {
                                assert(list@[k] == before[k]);
                            }
                        }
                    }
                }
                proof {
                    assert forall|j: int|
                        0 <= j < i + 1 && section_at(entries@, port_path(#[trigger] keys@[j]@)) implies exists|k: int|
                            0 <= k < list.len() && list@[k].name@ == keys@[j]@ by {
                        if j < i {
                            let k = choose|k: int| 0 <= k < listed.len() && listed[k].name@ == keys@[j]@;
                            assert(list@[k] == listed[k]);
                        } else {
                            assert(list@[list.len() - 1].name@ == keys@[j]@);
                        }
                    }
                }
                i += 1;
            }
            assert forall|a: int, b: int| 0 <= a < b < list.len() implies #[trigger] list@[a].name@ != #[trigger] list@[b].name@ by {
                assert(picked[a] < picked[b]);
            }
            assert forall|name: Seq<char>| #[trigger] section_at(entries@, port_path(name)) implies exists|k: int|
                0 <= k < list.len() && list@[k].name@ == name by {
                assert(names_view(section@).push(name) =~= port_path(name));
                assert(seen(entries@, names_view(section@).push(name)) is Some);
                let j = choose|j: int| 0 <= j < keys.len() && keys@[j]@ == name;
                assert(section_at(entries@, port_path(keys@[j]@)));
            }
            Some(list)
        },
    }
}

/// Reads every key the settings read out of the document.
pub fn read_settings(d: &DocumentMut) -> (st: StoredSettings)
    ensures
        stored_in(document_entries(*d), st),
{
    proof {
        reveal_strlit("");
        crate::document::lemma_keys();
    }
    StoredSettings {
        language: read_key(d, "", "language"),
        input_device: read_key(d, "audio", "input-device"),
        output_device: read_key(d, "audio", "output-device"),
        station_callsign: read_key(d, "station", "callsign"),
        legacy_callsign: read_key(d, "", "callsign"),
        station_qth: read_key(d, "station", "qth"),
        station_grid: read_key(d, "station", "grid"),
        qso_number: read_key(d, "qso", "number"),
        variables: read_variables(d),
        template: read_key(d, "library", "template"),
        stock: read_key(d, "library", "stock"),
        rx_mode: read_key(d, "receive", "mode"),
        tx_mode: read_key(d, "transmit", "mode"),
        auto_vis: read_key(d, "receive", "auto-vis"),
        afc: read_key(d, "receive", "afc"),
        lms: read_key(d, "receive", "lms"),
        slant: read_key(d, "receive", "slant"),
        vis_restart: read_key(d, "receive", "vis-restart"),
        send_fskid: read_key(d, "transmit", "fskid"),
        contest: read_key(d, "transmit", "contest"),
        auto_history: read_key(d, "receive", "auto-history"),
        history_format: read_key(d, "receive", "history-format"),
        rig_enabled: read_key(d, "rig", "enabled"),
        ports: read_ports(d),
    }
}

/// The key a number is kept under in the document of numbers handed to
/// `store_settings`.
pub open spec fn number_key(setting: NumberSetting) -> Seq<char> {
    match setting {
        NumberSetting::UiScale => "ui-scale"@,
        NumberSetting::TxVolume => "volume"@,
        NumberSetting::PollSeconds => "poll-interval"@,
        NumberSetting::LeadInSeconds => "lead-in"@,
        NumberSetting::TailSeconds => "tail"@,
    }
}

fn number_key_of(setting: NumberSetting) -> (key: &'static str)
    ensures
        key@ == number_key(setting),
{
    match setting {
        NumberSetting::UiScale => "ui-scale",
        NumberSetting::TxVolume => "volume",
        NumberSetting::PollSeconds => "poll-interval",
        NumberSetting::LeadInSeconds => "lead-in",
        NumberSetting::TailSeconds => "tail",
    }
}

/// Whether `numbers` holds a number at the top under each setting's key.
pub open spec fn holds_numbers(numbers: Map<Seq<Seq<char>>, Entry>) -> bool {
    forall|setting: NumberSetting| seen(numbers, seq![#[trigger] number_key(setting)]) == Some(Entry::Number)
}

/// The path of `prefix` and one name more.
fn extended(prefix: &Vec<String>, name: &String) -> (path: Vec<String>)
    ensures
        names_view(path@) == names_view(prefix@).push(name@),
        path@.len() == prefix@.len() + 1,
{
    let mut path: Vec<String> = Vec::new();
    let mut i: usize = 0;
    while i < prefix.len()
        invariant
            i <= prefix.len(),
            names_view(path@) == names_view(prefix@).take(i as int),
        decreases prefix.len() - i,
    {
        let ghost before = path@;
        path.push(prefix[i].clone());
        assert(names_view(path@) =~= names_view(before).push(prefix@[i as int]@));
        assert(names_view(prefix@).take(i + 1) =~= names_view(prefix@).take(i as int).push(prefix@[i as int]@));
        i += 1;
    }
    assert(names_view(prefix@).take(prefix.len() as int) =~= names_view(prefix@));
    let ghost before = path@;
    path.push(name.clone());
    assert(names_view(path@) =~= names_view(before).push(name@));
    path
}

/// Makes each section on the way to `key` in the section at `table` one,
/// putting an empty section in place of anything else standing there.
fn open_sections(d: &mut DocumentMut, table: &Vec<String>, key: &str)
    ensures
        document_entries(*final(d)) == sections_to(document_entries(*old(d)), names_view(table@).push(key@)),
{
    let ghost start = document_entries(*d);
    let ghost names = names_view(table@);
    let mut prefix: Vec<String> = Vec::new();
    proof {
        assert(names.take(0) =~= names_view(prefix@));
        lemma_no_sections_on_way(start, names.take(0).push(key@));
    }
    let mut i: usize = 0;
    while i < table.len()
        invariant
            i <= table.len(),
            names == names_view(table@),
            names_view(prefix@) == names.take(i as int),
            document_entries(*d) == sections_to(start, names.take(i as int).push(key@)),
        decreases table.len() - i,
    {
        let ghost r = names.take(i + 1);
        proof {
            assert(r =~= names.take(i as int).push(names[i as int]));
            assert(r.drop_last() =~= names.take(i as int));
            assert(names.take(i as int).push(key@).drop_last() =~= names.take(i as int));
            lemma_sections_to_last(start, r, names.take(i as int).push(key@));
            lemma_sections_to_reach(start, r);
            lemma_sections_step(start, r, key@);
        }
        let path = extended(&prefix, &table[i]);
        assert(names_view(path@) == r);
        if !toml_section_at(d, &path) {
            toml_open_section(d, &prefix, table[i].as_str());
        }
        let ghost before = prefix@;
        prefix.push(table[i].clone());
        assert(names_view(prefix@) =~= names_view(before).push(table@[i as int]@));
        assert(names.take(i + 1) =~= names.take(i as int).push(table@[i as int]@));
        i += 1;
    }
    assert(names.take(table.len() as int) =~= names);
}

/// Whether every section on the way to `key` in the section at `table` is
/// one.
fn reaches(d: &DocumentMut, table: &Vec<String>) -> (reached: bool)
    ensures
        forall|key: Seq<char>| reached == reachable(document_entries(*d), #[trigger] names_view(table@).push(key)),
{
    let ghost t = names_view(table@);
    if table.len() == 0 {
        return true;
    }
    let reached = toml_section_at(d, table);
    proof {
        assert forall|key: Seq<char>| reached == reachable(document_entries(*d), #[trigger] t.push(key)) by {
            let p = t.push(key);
            assert(p.take(t.len() as int) =~= t);
            assert forall|k: int| 1 <= k < t.len() implies #[trigger] p.take(k) == t.take(k) by {
                assert(p.take(k) =~= t.take(k));
            }
            if reached {
                assert forall|k: int| 1 <= k < p.len() implies #[trigger] is_section(document_entries(*d), p.take(k)) by {
                    if k < t.len() {
                        assert(is_section(document_entries(*d), t.take(k)));
                    }
                }
            }
            if reachable(document_entries(*d), p) {
                assert(is_section(document_entries(*d), p.take(t.len() as int)));
                assert forall|k: int| 1 <= k < t.len() implies #[trigger] is_section(document_entries(*d), t.take(k)) by {
                    assert(is_section(document_entries(*d), p.take(k)));
                }
            }
        }
    }
    reached
}

/// Makes one edit in the document, taking a number from `numbers`.
fn apply_config_edit(d: &mut DocumentMut, e: &ConfigEdit, numbers: &DocumentMut)
    requires
        holds_numbers(document_entries(*numbers)),
    ensures
        document_entries(*final(d)) == apply_edit(document_entries(*old(d)), edit_view(*e)),
{
    let ghost start = document_entries(*d);
    let ghost p = names_view(e.table@).push(e.key@);
    assert(names_view(e.table@) =~= e.table@.map_values(|t: String| t@));
    if let EditValue::Remove = &e.value {
        if reaches(d, &e.table) {
            toml_remove(d, &e.table, e.key.as_str());
        }
        return;
    }
    open_sections(d, &e.table, e.key.as_str());
    proof {
        lemma_sections_to_reach(start, p);
    }
    let key = e.key.as_str();
    match &e.value {
        EditValue::Assign(v) => toml_assign(d, &e.table, key, v),
        EditValue::Number(setting) => {
            let name = number_key_of(*setting);
            toml_assign_number(d, &e.table, key, numbers, name);
        },
        EditValue::Remove => {},
        EditValue::KeepOnly(names) => {
            let path = extended(&e.table, &e.key);
            if toml_section_at(d, &path) {
                toml_retain(d, &e.table, key, names);
                assert(names_view(names@) =~= names@.map_values(|n: String| n@));
            } else {
                toml_open_section(d, &e.table, key);
            }
        },
        EditValue::Section => {
            let path = extended(&e.table, &e.key);
            if !toml_section_at(d, &path) {
                toml_open_section(d, &e.table, key);
            }
        },
    }
}

/// Writes the settings back into the document: every edit `store_plan`
/// makes, in order, with the numbers taken from `numbers`, a document that
/// holds each of them at the top under its setting's key.
pub fn store_settings(d: &mut DocumentMut, s: &Settings, rx_mode: &str, tx_mode: &str, numbers: &DocumentMut)
    requires
        holds_numbers(document_entries(*numbers)),
    ensures
        document_entries(*final(d)) == stored_document(document_entries(*old(d)), *s, rx_mode@, tx_mode@),
{
    let edits = store_plan(s, rx_mode, tx_mode);
    let ghost start = document_entries(*d);
    assert(edits_view(edits@).take(0) =~= Seq::<(Seq<Seq<char>>, Seq<char>, EditView)>::empty());
    let mut i: usize = 0;
    while i < edits.len()
        invariant
            i <= edits.len(),
            holds_numbers(document_entries(*numbers)),
            document_entries(*d) == apply_edits(start, edits_view(edits@).take(i as int)),
        decreases edits.len() - i,
    {
        apply_config_edit(d, &edits[i], numbers);
        proof {
            let done = edits_view(edits@).take(i as int);
            assert(edits_view(edits@).take(i + 1) =~= done.push(edit_view(edits@[i as int])));
            crate::document::lemma_apply_push(start, done, edit_view(edits@[i as int]));
        }
        i += 1;
    }
    assert(edits_view(edits@).take(edits.len() as int) =~= edits_view(edits@));
}

/// The configuration document as loaded: the document, whether it must not
/// be written over, and why it was not read.
pub struct ConfigDocument {
    pub document: DocumentMut,
    /// Set when the file could not be read back: saving over it would
    /// replace whatever the operator was in the middle of editing.
    pub read_only: bool,
    pub error: Option<String>,
}

impl ConfigDocument {
    /// The document a read of the file gives: `None` when there is no file,
    /// which is an empty document; the text the file held, parsed, with a
    /// malformed one reported and left alone; or the message a read that
    /// failed for another reason gave, which is reported and left alone too.
    pub fn from_read(read: Option<Result<String, String>>) -> (c: ConfigDocument)
        ensures
            match read {
                None => document_entries(c.document) == Map::<Seq<Seq<char>>, Entry>::empty() && !c.read_only
                    && c.error is None,
                Some(Err(message)) => document_entries(c.document) == Map::<Seq<Seq<char>>, Entry>::empty()
                    && c.read_only && (c.error matches Some(e) && e@ == message@),
                Some(Ok(source)) => match toml_config(source@) {
                    Ok(entries) => document_entries(c.document) == entries && !c.read_only && c.error is None,
                    Err(message) => document_entries(c.document) == Map::<Seq<Seq<char>>, Entry>::empty()
                        && c.read_only && (c.error matches Some(e) && e@ == message),
                },
            },
    {
        match read {
            None => ConfigDocument { document: empty_config(), read_only: false, error: None },
            Some(Err(message)) => ConfigDocument { document: empty_config(), read_only: true, error: Some(message) },
            Some(Ok(source)) => match parse_config(&source) {
                Ok(document) => ConfigDocument { document, read_only: false, error: None },
                Err(message) => ConfigDocument { document: empty_config(), read_only: true, error: Some(message) },
            },
        }
    }

    /// Writes the settings back into the document, unless it must not be
    /// written over; says whether it did, and so whether there is a file to
    /// write.
    pub fn store(&mut self, s: &Settings, rx_mode: &str, tx_mode: &str, numbers: &DocumentMut) -> (stored: bool)
        requires
            holds_numbers(document_entries(*numbers)),
        ensures
            stored == !old(self).read_only,
            final(self).read_only == old(self).read_only,
            final(self).error == old(self).error,
            old(self).read_only ==> document_entries(final(self).document) == document_entries(old(self).document),
            !old(self).read_only ==> document_entries(final(self).document) == stored_document(
                document_entries(old(self).document),
                *s,
                rx_mode@,
                tx_mode@,
            ),
    {
        if self.read_only {
            return false;
        }
        store_settings(&mut self.document, s, rx_mode, tx_mode, numbers);
        true
    }
}

/// A configuration file that `store_settings` wrote `s` into reads `s`
/// back through `read_settings`, whatever the file held before: for
/// settings the file can give back as they are, written with the modes they
/// name, when the reader takes as usable exactly the variable names that
/// `usable` accepts and it accepts every name among the settings.
pub proof fn lemma_a_stored_file_reads_back(
    before: DocumentMut,
    after: DocumentMut,
    s: Settings,
    rx_mode: Seq<char>,
    tx_mode: Seq<char>,
    st: StoredSettings,
    usable: spec_fn(Seq<char>) -> bool,
)
    requires
        crate::document::storable(s),
        crate::config::opt_view(s.rx_mode) == Some(rx_mode),
        crate::config::opt_view(s.tx_mode) == Some(tx_mode),
        document_entries(after) == stored_document(document_entries(before), s, rx_mode, tx_mode),
        stored_in(document_entries(after), st),
        forall|k: int| 0 <= k < st.variables.len() ==> (#[trigger] st.variables@[k]).usable == usable(st.variables@[k].name@),
        forall|k: int| 0 <= k < s.custom_variables.len() ==> usable(#[trigger] s.custom_variables@[k].0@),
    ensures
        crate::config::settings_read(st, s),
{
    crate::document::lemma_read_variables_were_stored(document_entries(before), s, rx_mode, tx_mode, st);
    assert forall|i: int| 0 <= i < st.variables.len() implies (#[trigger] st.variables@[i]).usable by {
        let k = choose|k: int|
            0 <= k < s.custom_variables.len() && crate::app::variables_view(s.custom_variables@)[k].0
                == st.variables@[i].name@;
        assert(crate::app::variables_view(s.custom_variables@)[k].0 == s.custom_variables@[k].0@);
        assert(usable(s.custom_variables@[k].0@));
    }
    crate::document::lemma_stored_settings_read_back(s, rx_mode, tx_mode, document_entries(before), st);
}

/// `d` with a section at `r`: the one there, or an empty one in place of
/// whatever stands there.
pub open spec fn opened(d: Map<Seq<Seq<char>>, Entry>, r: Seq<Seq<char>>) -> Map<Seq<Seq<char>>, Entry> {
    if is_section(d, r) {
        d
    } else {
        without(d, r).insert(r, Entry::Section)
    }
}

/// A path of one name has no section on its way.
proof fn lemma_no_sections_on_way(d: Map<Seq<Seq<char>>, Entry>, p: Seq<Seq<char>>)
    requires
        p.len() <= 1,
    ensures
        sections_to(d, p) == d,
{
    assert(sections_to(d, p) =~= d);
}

/// The sections on the way to a path do not depend on its last name.
proof fn lemma_sections_to_last(d: Map<Seq<Seq<char>>, Entry>, p: Seq<Seq<char>>, q: Seq<Seq<char>>)
    requires
        p.len() >= 1,
        q.len() == p.len(),
        p.drop_last() == q.drop_last(),
    ensures
        sections_to(d, p) == sections_to(d, q),
{
    assert forall|k: int| 0 <= k < p.len() - 1 implies p[k] == q[k] by {
        assert(p.drop_last()[k] == q.drop_last()[k]);
    }
    assert forall|k: int| 1 <= k < p.len() implies #[trigger] p.take(k) == q.take(k) by {
        assert(p.take(k) =~= q.take(k));
    }
    assert forall|x: Seq<Seq<char>>| on_way(p, x) == on_way(q, x) by {}
    assert forall|x: Seq<Seq<char>>| below_gap(d, p, x) == below_gap(d, q, x) by {
        if below_gap(d, p, x) {
            let k = choose|k: int| 1 <= k < p.len() && !is_section(d, p.take(k)) && #[trigger] leads(p.take(k), x);
            assert(q.take(k) == p.take(k));
        }
        if below_gap(d, q, x) {
            let k = choose|k: int| 1 <= k < q.len() && !is_section(d, q.take(k)) && #[trigger] leads(q.take(k), x);
            assert(q.take(k) == p.take(k));
        }
    }
    assert(sections_to(d, p) =~= sections_to(d, q));
}

/// Every section on the way to `r` is one once they are made.
proof fn lemma_sections_to_reach(d: Map<Seq<Seq<char>>, Entry>, r: Seq<Seq<char>>)
    ensures
        reachable(sections_to(d, r), r),
{
    assert forall|k: int| 1 <= k < r.len() implies #[trigger] is_section(sections_to(d, r), r.take(k)) by {
        assert(on_way(r, r.take(k)));
    }
}

/// Making the sections on the way to `r` and a name beyond it is making
/// those on the way to `r`, and then `r`.
proof fn lemma_sections_step(d: Map<Seq<Seq<char>>, Entry>, r: Seq<Seq<char>>, x: Seq<char>)
    requires
        r.len() >= 1,
    ensures
        sections_to(d, r.push(x)) == opened(sections_to(d, r), r),
{
    let p = r.push(x);
    let e = sections_to(d, r);
    let n = sections_to(d, p);
    assert(p.take(r.len() as int) =~= r);
    assert forall|k: int| 1 <= k <= r.len() implies #[trigger] p.take(k) == r.take(k) by {
        assert(p.take(k) =~= r.take(k));
    }
    assert(leads(r, r));
    assert forall|q: Seq<Seq<char>>| on_way(p, q) == (on_way(r, q) || q == r) by {
        if on_way(p, q) && q.len() == r.len() {
            assert(q =~= r);
        }
    }
    assert forall|q: Seq<Seq<char>>|
        below_gap(d, p, q) == (below_gap(d, r, q) || (!is_section(d, r) && leads(r, q))) by {
        if below_gap(d, p, q) {
            let k = choose|k: int| 1 <= k < p.len() && !is_section(d, p.take(k)) && #[trigger] leads(p.take(k), q);
            if k < r.len() {
                assert(leads(r.take(k), q));
            }
        }
        if below_gap(d, r, q) {
            let k = choose|k: int| 1 <= k < r.len() && !is_section(d, r.take(k)) && #[trigger] leads(r.take(k), q);
            assert(leads(p.take(k), q));
        }
        if !is_section(d, r) && leads(r, q) {
            assert(leads(p.take(r.len() as int), q));
        }
    }
    if is_section(e, r) {
        assert(!below_gap(d, r, r));
        assert forall|k: int| 1 <= k < r.len() implies is_section(d, #[trigger] r.take(k)) by {
            if !is_section(d, r.take(k)) {
                assert(leads(r.take(k), r));
            }
        }
        assert forall|q: Seq<Seq<char>>| !below_gap(d, r, q) by {
            if below_gap(d, r, q) {
                let k = choose|k: int| 1 <= k < r.len() && !is_section(d, r.take(k)) && #[trigger] leads(r.take(k), q);
            }
        }
        assert(n =~= e);
    } else {
        assert forall|q: Seq<Seq<char>>| leads(r, q) && q != r implies !n.contains_key(q) by {
            if below_gap(d, r, r) {
                let k = choose|k: int| 1 <= k < r.len() && !is_section(d, r.take(k)) && #[trigger] leads(r.take(k), r);
                assert(leads(r.take(k), q));
            }
            if on_way(p, q) {
                assert(q =~= r);
            }
        }
        let o = opened(e, r);
        assert(o == without(e, r).insert(r, Entry::Section));
        assert forall|q: Seq<Seq<char>>| !leads(r, q) implies n.contains_key(q) == e.contains_key(q) && (n.contains_key(q)
            ==> n[q] == e[q]) by {
            assert(q != r);
            assert(below_gap(d, p, q) == below_gap(d, r, q));
            assert(on_way(p, q) == on_way(r, q));
        }
        assert forall|q: Seq<Seq<char>>| n.contains_key(q) == o.contains_key(q) by {
            if leads(r, q) && q != r {
                assert(!n.contains_key(q));
                assert(!o.contains_key(q));
            } else if q == r {
                assert(on_way(p, q));
            }
        }
        assert forall|q: Seq<Seq<char>>| #[trigger] n.contains_key(q) implies n[q] == o[q] by {
            if q == r {
                assert(on_way(p, q));
            }
        }
        assert(n =~= o);
    }
}

} // verus!
