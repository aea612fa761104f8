//! Settings that survive a restart, and what the configuration file holds
//! for them.
//!
//! The file is edited in place through a format preserving document, so
//! comments and hand-written layout outlive a save. What is read from it and
//! what is written back are decided here, key by key; the document itself is
//! the file's text and is worked where the file is read and written.

use vstd::prelude::*;
use crate::app::{DspFlags, FIRST_QSO_NUMBER};
use crate::history::HistoryFormat;
use crate::i18n::Locale;
use crate::text::{trim, trimmed};

verus! {

/// The address a rig port is reached at when the file names none.
pub const DEFAULT_ADDRESS: &'static str = "127.0.0.1:4532";

/// The name the default port is offered to the script under.
pub const DEFAULT_PORT_NAME: &'static str = "rig";

/// What a key of the file holds, as far as the settings read it.
#[derive(Clone, Debug, PartialEq, Eq)]
pub enum StoredValue {
    Text(String),
    Flag(bool),
    /// A number, a table, an array or anything else no setting reads as text
    /// or as a switch.
    Other,
}

/// A stored value by its contents.
pub enum StoredView {
    Text(Seq<char>),
    Flag(bool),
    Other,
}

impl View for StoredValue {
    type V = StoredView;

    open spec fn view(&self) -> StoredView {
        match self {
            StoredValue::Text(t) => StoredView::Text(t@),
            StoredValue::Flag(b) => StoredView::Flag(*b),
            StoredValue::Other => StoredView::Other,
        }
    }
}

/// The text a key holds, if it holds text.
pub open spec fn text_in(v: Option<StoredValue>) -> Option<Seq<char>> {
    match v {
        Some(StoredValue::Text(t)) => Some(t@),
        _ => None,
    }
}

/// The text a key holds once trimmed, if that leaves anything.
pub open spec fn owned_in(v: Option<StoredValue>) -> Option<Seq<char>> {
    match text_in(v) {
        Some(t) => if trimmed(t).len() > 0 {
            Some(trimmed(t))
        } else {
            None
        },
        None => None,
    }
}

/// The switch a key holds, or `default` when it holds none.
pub open spec fn flag_in(v: Option<StoredValue>, default: bool) -> bool {
    match v {
        Some(StoredValue::Flag(b)) => b,
        _ => default,
    }
}

/// One `[rig.ports]` entry as the file holds it: its name, and what its
/// `address` key holds.
#[derive(Clone, Debug)]
pub struct StoredPort {
    pub name: String,
    pub address: Option<StoredValue>,
}

/// One `[variables]` entry: its name, what it holds, and whether the name is
/// one a template expression could hold.
#[derive(Clone, Debug)]
pub struct StoredVariable {
    pub name: String,
    pub value: Option<StoredValue>,
    pub usable: bool,
}

/// What the configuration file holds under every key the settings read.
///
/// A key lives at the top of the file or in one section; `legacy_callsign`
/// is the top-level `callsign` an earlier version wrote before the station
/// had a section of its own.
#[derive(Clone, Debug)]
pub struct StoredSettings {
    pub language: Option<StoredValue>,
    pub input_device: Option<StoredValue>,
    pub output_device: Option<StoredValue>,
    pub station_callsign: Option<StoredValue>,
    pub legacy_callsign: Option<StoredValue>,
    pub station_qth: Option<StoredValue>,
    pub station_grid: Option<StoredValue>,
    pub qso_number: Option<StoredValue>,
    /// The entries of `[variables]`, in the order written, or nothing when
    /// there is no such section.
    pub variables: Vec<StoredVariable>,
    pub template: Option<StoredValue>,
    pub stock: Option<StoredValue>,
    pub rx_mode: Option<StoredValue>,
    pub tx_mode: Option<StoredValue>,
    pub auto_vis: Option<StoredValue>,
    pub afc: Option<StoredValue>,
    pub lms: Option<StoredValue>,
    pub slant: Option<StoredValue>,
    pub vis_restart: Option<StoredValue>,
    pub send_fskid: Option<StoredValue>,
    pub contest: Option<StoredValue>,
    pub auto_history: Option<StoredValue>,
    pub history_format: Option<StoredValue>,
    pub rig_enabled: Option<StoredValue>,
    /// The sections under `[rig.ports]`, or nothing when `rig.ports` is not a
    /// section at all.
    pub ports: Option<Vec<StoredPort>>,
}

/// Everything the application restores on the next start, but for the
/// scales, levels and timings, which are kept as numbers beside these.
///
/// The modes are kept as the names the file gives them; which mode a name
/// means is for the mode table to say.
#[derive(Clone, Debug)]
pub struct Settings {
    pub locale: Locale,
    pub input_device: Option<String>,
    pub output_device: Option<String>,
    pub station_callsign: String,
    pub station_qth: String,
    pub station_grid: String,
    pub qso_number: String,
    /// Names the operator defined, in the order of their names.
    pub custom_variables: Vec<(String, String)>,
    pub template: Option<String>,
    pub stock: Option<String>,
    pub rx_mode: Option<String>,
    pub tx_mode: Option<String>,
    pub auto_mode: bool,
    pub dsp: DspFlags,
    pub vis_restart: bool,
    pub send_fskid: bool,
    pub contest_mode: bool,
    pub auto_history: bool,
    pub history_format: HistoryFormat,
    pub rig_enabled: bool,
    /// The rig ports to open, in order of their names.
    pub ports: Vec<(String, PortSettings)>,
}

/// How to reach one rig port.
#[derive(Clone, Debug, PartialEq, Eq)]
pub struct PortSettings {
    pub address: String,
}

/// The ports of the settings by name and address.
pub open spec fn ports_view(v: Seq<(String, PortSettings)>) -> Seq<(Seq<char>, Seq<char>)> {
    v.map_values(|p: (String, PortSettings)| (p.0@, p.1.address@))
}

/// The text of an optional text.
pub open spec fn opt_view(o: Option<String>) -> Option<Seq<char>> {
    match o {
        Some(t) => Some(t@),
        None => None,
    }
}

/// The pairs of texts of `v`.
pub open spec fn pairs_view(v: Seq<(String, String)>) -> Seq<(Seq<char>, Seq<char>)> {
    v.map_values(|p: (String, String)| (p.0@, p.1@))
}

/// The port a `[rig.ports]` section describes: its address trimmed, or the
/// default address when it gives none.
pub open spec fn port_of(p: StoredPort) -> (Seq<char>, Seq<char>) {
    (p.name@, match owned_in(p.address) {
        Some(a) => a,
        None => DEFAULT_ADDRESS@,
    })
}

/// The address the last section named `name` under `[rig.ports]` gives.
pub open spec fn port_in(ports: Seq<StoredPort>, name: Seq<char>) -> Option<Seq<char>>
    decreases ports.len(),
{
    if ports.len() == 0 {
        None
    } else if ports.last().name@ == name {
        Some(port_of(ports.last()).1)
    } else {
        port_in(ports.drop_last(), name)
    }
}

/// The address the file gives the port named `name`: from the sections under
/// `[rig.ports]`, or, when there is no such section, the default port alone.
pub open spec fn port_address(ports: Option<Vec<StoredPort>>, name: Seq<char>) -> Option<Seq<char>> {
    match ports {
        Some(v) => port_in(v@, name),
        None => if name == DEFAULT_PORT_NAME@ {
            Some(DEFAULT_ADDRESS@)
        } else {
            None
        },
    }
}

/// Whether `s` is what the settings read from `st`, each setting falling
/// back to its default when the file holds nothing usable for it.
pub open spec fn settings_read(st: StoredSettings, s: Settings) -> bool {
    &&& s.locale == (match text_in(st.language) {
        Some(t) => match Locale::spec_from_tag(t) {
            Some(l) => l,
            None => Locale::En,
        },
        None => Locale::En,
    })
    &&& opt_view(s.input_device) == owned_in(st.input_device)
    &&& opt_view(s.output_device) == owned_in(st.output_device)
    &&& s.station_callsign@ == (match owned_in(st.station_callsign) {
        Some(c) => c,
        None => match owned_in(st.legacy_callsign) {
            Some(c) => c,
            None => Seq::empty(),
        },
    })
    &&& s.station_qth@ == (match owned_in(st.station_qth) {
        Some(c) => c,
        None => Seq::empty(),
    })
    &&& s.station_grid@ == (match owned_in(st.station_grid) {
        Some(c) => c,
        None => Seq::empty(),
    })
    &&& s.qso_number@ == (match owned_in(st.qso_number) {
        Some(c) => c,
        None => "001"@,
    })
    &&& opt_view(s.template) == owned_in(st.template)
    &&& opt_view(s.stock) == owned_in(st.stock)
    &&& opt_view(s.rx_mode) == text_in(st.rx_mode)
    &&& opt_view(s.tx_mode) == text_in(st.tx_mode)
    &&& s.auto_mode == flag_in(st.auto_vis, true)
    &&& s.dsp == (DspFlags {
        afc: flag_in(st.afc, true),
        lms_filter: flag_in(st.lms, false),
        live_slant: flag_in(st.slant, true),
    })
    &&& s.vis_restart == flag_in(st.vis_restart, true)
    &&& s.send_fskid == flag_in(st.send_fskid, true)
    &&& s.contest_mode == flag_in(st.contest, false)
    &&& s.auto_history == flag_in(st.auto_history, true)
    &&& s.history_format == (match text_in(st.history_format) {
        Some(t) => match HistoryFormat::spec_from_config(t) {
            Some(f) => f,
            None => HistoryFormat::Webp,
        },
        None => HistoryFormat::Webp,
    })
    &&& s.rig_enabled == flag_in(st.rig_enabled, false)
    &&& crate::app::strictly_ordered(ports_view(s.ports@))
    &&& forall|name: Seq<char>| crate::app::value_of(ports_view(s.ports@), name) == port_address(st.ports, name)
    &&& crate::app::strictly_ordered(crate::app::variables_view(s.custom_variables@))
    &&& forall|name: Seq<char>|
        crate::app::value_of(crate::app::variables_view(s.custom_variables@), name) == variable_in(
            st.variables@,
            name,
        )
}

/// What the last usable text entry of `[variables]` named `name` holds.
pub open spec fn variable_in(vars: Seq<StoredVariable>, name: Seq<char>) -> Option<Seq<char>>
    decreases vars.len(),
{
    if vars.len() == 0 {
        None
    } else if vars.last().usable && vars.last().name@ == name && text_in(vars.last().value) is Some {
        text_in(vars.last().value)
    } else {
        variable_in(vars.drop_last(), name)
    }
}

fn text_of(v: &Option<StoredValue>) -> (t: Option<String>)
    ensures
        opt_view(t) == text_in(*v),
{
    match v {
        Some(StoredValue::Text(t)) => Some(t.clone()),
        _ => None,
    }
}

fn owned_of(v: &Option<StoredValue>) -> (t: Option<String>)
    ensures
        opt_view(t) == owned_in(*v),
{
    match v {
        Some(StoredValue::Text(t)) => {
            let trimmed_text = trim(t.as_str());
            if trimmed_text.as_str().unicode_len() > 0 {
                Some(trimmed_text)
            } else {
                None
            }
        },
        _ => None,
    }
}

fn flag_of(v: &Option<StoredValue>, default: bool) -> (b: bool)
    ensures
        b == flag_in(*v, default),
{
    match v {
        Some(StoredValue::Flag(b)) => *b,
        _ => default,
    }
}

fn text_or(v: Option<String>, default: &str) -> (t: String)
    ensures
        t@ == (match opt_view(v) {
            Some(x) => x,
            None => default@,
        }),
{
    match v {
        Some(t) => t,
        None => default.to_owned(),
    }
}

/// Reads the stored settings, substituting the default for anything
/// missing, mistyped, or unrecognized.
pub fn settings_from(st: &StoredSettings) -> (s: Settings)
    ensures
        settings_read(*st, s),
{
    proof {
        reveal_strlit("");
        assert(""@ =~= Seq::<char>::empty());
    }
    let locale = match text_of(&st.language) {
        Some(t) => match Locale::from_tag(t.as_str()) {
            Some(l) => l,
            None => Locale::En,
        },
        None => Locale::En,
    };
    let station_callsign = match owned_of(&st.station_callsign) {
        Some(c) => c,
        None => text_or(owned_of(&st.legacy_callsign), ""),
    };
    let history_format = match text_of(&st.history_format) {
        Some(t) => match HistoryFormat::from_config(t.as_str()) {
            Some(f) => f,
            None => HistoryFormat::Webp,
        },
        None => HistoryFormat::Webp,
    };
    Settings {
        locale,
        input_device: owned_of(&st.input_device),
        output_device: owned_of(&st.output_device),
        station_callsign,
        station_qth: text_or(owned_of(&st.station_qth), ""),
        station_grid: text_or(owned_of(&st.station_grid), ""),
        qso_number: text_or(owned_of(&st.qso_number), FIRST_QSO_NUMBER),
        custom_variables: variables_from(&st.variables),
        template: owned_of(&st.template),
        stock: owned_of(&st.stock),
        rx_mode: text_of(&st.rx_mode),
        tx_mode: text_of(&st.tx_mode),
        auto_mode: flag_of(&st.auto_vis, true),
        dsp: DspFlags {
            afc: flag_of(&st.afc, true),
            lms_filter: flag_of(&st.lms, false),
            live_slant: flag_of(&st.slant, true),
        },
        vis_restart: flag_of(&st.vis_restart, true),
        send_fskid: flag_of(&st.send_fskid, true),
        contest_mode: flag_of(&st.contest, false),
        auto_history: flag_of(&st.auto_history, true),
        history_format,
        rig_enabled: flag_of(&st.rig_enabled, false),
        ports: ports_from(&st.ports),
    }
}

/// The operator's variables the file holds: every usable text entry, a later
/// one winning over an earlier one of the same name, in the order of names.
fn variables_from(vars: &Vec<StoredVariable>) -> (v: Vec<(String, String)>)
    ensures
        crate::app::strictly_ordered(crate::app::variables_view(v@)),
        forall|name: Seq<char>|
            crate::app::value_of(crate::app::variables_view(v@), name) == variable_in(vars@, name),
{
    let mut rows: Vec<(String, String)> = Vec::new();
    let mut usable: Vec<bool> = Vec::new();
    let mut i: usize = 0;
    while i < vars.len()
        invariant
            i <= vars.len(),
            rows@.len() == i,
            usable@.len() == i,
            forall|name: Seq<char>|
                crate::app::last_value(crate::app::variables_view(rows@), usable@, name) == variable_in(
                    vars@.take(i as int),
                    name,
                ),
        decreases vars.len() - i,
    {
        let ghost before_rows = rows@;
        let ghost before_usable = usable@;
        let text = text_of(&vars[i].value);
        let keep = vars[i].usable && text.is_some();
        let value = match text {
            Some(t) => t,
            None => String::new(),
        };
        let ghost value_view = value@;
        assert(keep ==> text_in(vars@[i as int].value) == Some(value_view));
        let name = vars[i].name.clone();
        assert(name@ == vars@[i as int].name@);
        rows.push((name, value));
        usable.push(keep);
        proof {
            let taken = vars@.take(i + 1);
            let view = crate::app::variables_view(rows@);
            assert(taken.drop_last() == vars@.take(i as int));
            assert(taken.last() == vars@[i as int]);
            assert(view.drop_last() == crate::app::variables_view(before_rows));
            assert(view.last() == (vars@[i as int].name@, value_view));
            assert(usable@.take(i as int) == before_usable);
            assert(usable@[i as int] == keep);
            assert forall|name: Seq<char>|
                crate::app::last_value(view, usable@, name) == variable_in(taken, name) by {
                assert(crate::app::last_value(view, usable@, name) == if usable@[i as int] && view.last().0
                    == name {
                    Some(view.last().1)
                } else {
                    crate::app::last_value(view.drop_last(), usable@.take(i as int), name)
                });
            }
        }
        i += 1;
    }
    assert(vars@.take(vars.len() as int) == vars@);
    crate::app::commit_variables(&rows, &usable)
}

fn ports_from(ports: &Option<Vec<StoredPort>>) -> (v: Vec<(String, PortSettings)>)
    ensures
        crate::app::strictly_ordered(ports_view(v@)),
        forall|name: Seq<char>| crate::app::value_of(ports_view(v@), name) == port_address(*ports, name),
{
    let mut rows: Vec<(String, String)> = Vec::new();
    let mut usable: Vec<bool> = Vec::new();
    match ports {
        None => {
            rows.push((DEFAULT_PORT_NAME.to_owned(), DEFAULT_ADDRESS.to_owned()));
            usable.push(true);
            proof {
                let view = crate::app::variables_view(rows@);
                assert forall|name: Seq<char>| crate::app::last_value(view, usable@, name) == port_address(*ports, name) by {
                    assert(view.drop_last().len() == 0);
                    assert(crate::app::last_value(view, usable@, name) == if usable@[0] && view.last().0 == name {
                        Some(view.last().1)
                    } else {
                        crate::app::last_value(view.drop_last(), usable@.take(0), name)
                    });
                }
            }
        },
        Some(list) => {
            let mut i: usize = 0;
            while i < list.len()
                invariant
                    i <= list.len(),
                    rows@.len() == i,
                    usable@.len() == i,
                    forall|k: int| 0 <= k < i ==> #[trigger] usable@[k],
                    forall|name: Seq<char>|
                        crate::app::last_value(crate::app::variables_view(rows@), usable@, name) == port_in(
                            list@.take(i as int),
                            name,
                        ),
                decreases list.len() - i,
            {
                let ghost before_rows = rows@;
                let ghost before_usable = usable@;
                let address = text_or(owned_of(&list[i].address), DEFAULT_ADDRESS);
                let name = list[i].name.clone();
                assert((name@, address@) == port_of(list@[i as int]));
                rows.push((name, address));
                usable.push(true);
                proof {
                    let taken = list@.take(i + 1);
                    let view = crate::app::variables_view(rows@);
                    assert(taken.drop_last() == list@.take(i as int));
                    assert(taken.last() == list@[i as int]);
                    assert(view.drop_last() == crate::app::variables_view(before_rows));
                    assert(usable@.take(i as int) == before_usable);
                    assert forall|name: Seq<char>| crate::app::last_value(view, usable@, name) == port_in(taken, name) by {
                        assert(crate::app::last_value(view, usable@, name) == if usable@[i as int]
                            && view.last().0 == name {
                            Some(view.last().1)
                        } else {
                            crate::app::last_value(view.drop_last(), usable@.take(i as int), name)
                        });
                    }
                }
                i += 1;
            }
            assert(list@.take(list.len() as int) == list@);
        },
    }
    let committed = crate::app::commit_variables(&rows, &usable);
    let mut result: Vec<(String, PortSettings)> = Vec::new();
    let mut i: usize = 0;
    while i < committed.len()
        invariant
            i <= committed.len(),
            ports_view(result@) == crate::app::variables_view(committed@).take(i as int),
        decreases committed.len() - i,
    {
        let ghost before = result@;
        result.push((committed[i].0.clone(), PortSettings { address: committed[i].1.clone() }));
        assert(ports_view(result@) =~= ports_view(before).push(crate::app::variables_view(committed@)[i as int]));
        assert(crate::app::variables_view(committed@).take(i + 1) =~= crate::app::variables_view(committed@).take(i as int).push(
            crate::app::variables_view(committed@)[i as int],
        ));
        i += 1;
    }
    assert(crate::app::variables_view(committed@).take(committed.len() as int) == crate::app::variables_view(committed@));
    result
}

/// A number the settings keep beside these, written where the file has it.
#[derive(Clone, Copy, Debug, PartialEq, Eq, Structural)]
pub enum NumberSetting {
    UiScale,
    TxVolume,
    PollSeconds,
    LeadInSeconds,
    TailSeconds,
}

/// What an edit does at its key.
#[derive(Clone, Debug, PartialEq, Eq)]
pub enum EditValue {
    /// Assigns the value, making each section on the way a section.
    Assign(StoredValue),
    /// Assigns the number kept for this setting, the same way.
    Number(NumberSetting),
    /// Takes the key out of its section, when the section is there.
    Remove,
    /// Makes the key a section, keeping only the entries with these names.
    KeepOnly(Vec<String>),
    /// Makes the key a section, keeping what it holds when it already is one.
    Section,
}

/// An edit by its contents.
pub enum EditView {
    Assign(StoredView),
    Number(NumberSetting),
    Remove,
    KeepOnly(Seq<Seq<char>>),
    Section,
}

impl View for EditValue {
    type V = EditView;

    open spec fn view(&self) -> EditView {
        match self {
            EditValue::Assign(v) => EditView::Assign(v@),
            EditValue::Number(n) => EditView::Number(*n),
            EditValue::Remove => EditView::Remove,
            EditValue::KeepOnly(names) => EditView::KeepOnly(names@.map_values(|n: String| n@)),
            EditValue::Section => EditView::Section,
        }
    }
}

/// One change to the configuration file: the sections leading to a key, the
/// key, and what is done there.
#[derive(Clone, Debug)]
pub struct ConfigEdit {
    pub table: Vec<String>,
    pub key: String,
    pub value: EditValue,
}

/// An edit by its contents.
pub open spec fn edit_view(e: ConfigEdit) -> (Seq<Seq<char>>, Seq<char>, EditView) {
    (e.table@.map_values(|t: String| t@), e.key@, e.value@)
}

pub open spec fn edits_view(v: Seq<ConfigEdit>) -> Seq<(Seq<Seq<char>>, Seq<char>, EditView)> {
    v.map_values(|e: ConfigEdit| edit_view(e))
}

/// A key in `section`, or at the top of the file for an empty name.
pub open spec fn at(section: Seq<char>, key: Seq<char>, value: EditView) -> (Seq<Seq<char>>, Seq<char>, EditView) {
    (if section.len() == 0 {
        Seq::empty()
    } else {
        seq![section]
    }, key, value)
}

/// Text stored as it is, or the key taken out when there is none.
pub open spec fn text_or_remove(t: Option<Seq<char>>) -> EditView {
    match t {
        Some(x) => EditView::Assign(StoredView::Text(x)),
        None => EditView::Remove,
    }
}

/// Text stored when there is any, the key taken out when it is empty.
pub open spec fn nonempty_or_remove(t: Seq<char>) -> EditView {
    if t.len() > 0 {
        EditView::Assign(StoredView::Text(t))
    } else {
        EditView::Remove
    }
}

pub open spec fn flag(b: bool) -> EditView {
    EditView::Assign(StoredView::Flag(b))
}

pub open spec fn text(t: Seq<char>) -> EditView {
    EditView::Assign(StoredView::Text(t))
}

/// The `[variables]` section: taken out when there are none, and otherwise
/// kept to their names and assigned each, in order.
pub open spec fn variable_edits(vars: Seq<(Seq<char>, Seq<char>)>) -> Seq<(Seq<Seq<char>>, Seq<char>, EditView)> {
    if vars.len() == 0 {
        seq![at(Seq::empty(), "variables"@, EditView::Remove)]
    } else {
        seq![at(Seq::empty(), "variables"@, EditView::KeepOnly(vars.map_values(|v: (Seq<char>, Seq<char>)| v.0)))]
            + vars.map_values(|v: (Seq<char>, Seq<char>)| at("variables"@, v.0, text(v.1)))
    }
}

/// The path of the section a port is written in.
pub open spec fn port_table(name: Seq<char>) -> Seq<Seq<char>> {
    seq!["rig"@, "ports"@, name]
}

/// The edits that write one port: its section, without the transport kind an
/// earlier version wrote, and with its address.
pub open spec fn port_edits(port: (Seq<char>, Seq<char>)) -> Seq<(Seq<Seq<char>>, Seq<char>, EditView)> {
    seq![
        (seq!["rig"@, "ports"@], port.0, EditView::Section),
        (port_table(port.0), "kind"@, EditView::Remove),
        (port_table(port.0), "address"@, text(port.1)),
    ]
}

pub open spec fn ports_edits(ports: Seq<(Seq<char>, Seq<char>)>) -> Seq<(Seq<Seq<char>>, Seq<char>, EditView)>
    decreases ports.len(),
{
    if ports.len() == 0 {
        Seq::empty()
    } else {
        ports_edits(ports.drop_last()) + port_edits(ports.last())
    }
}

/// Every change that writes `s` back, in order, with `rx_mode` and `tx_mode`
/// naming the modes in use: each setting under its key, a setting with no
/// value taken out rather than emptied, the keys an earlier version wrote
/// taken out, and the rig ports written even at their defaults.
pub open spec fn store_edits(s: Settings, rx_mode: Seq<char>, tx_mode: Seq<char>) -> Seq<
    (Seq<Seq<char>>, Seq<char>, EditView),
> {
    head_edits(s) + variable_edits(pairs_view(s.custom_variables@)) + middle_edits(s, rx_mode, tx_mode)
        + rig_edits(s) + ports_edits(ports_view(s.ports@))
}

/// The language, the scale, the devices and the station, and the serial.
pub open spec fn head_edits(s: Settings) -> Seq<(Seq<Seq<char>>, Seq<char>, EditView)> {
    seq![
        at(Seq::empty(), "language"@, text(s.locale.spec_tag())),
        at(Seq::empty(), "ui-scale"@, EditView::Number(NumberSetting::UiScale)),
        at("audio"@, "input-device"@, text_or_remove(opt_view(s.input_device))),
        at("audio"@, "output-device"@, text_or_remove(opt_view(s.output_device))),
        at(Seq::empty(), "callsign"@, EditView::Remove),
        at("station"@, "callsign"@, nonempty_or_remove(s.station_callsign@)),
        at("station"@, "qth"@, nonempty_or_remove(s.station_qth@)),
        at("station"@, "grid"@, nonempty_or_remove(s.station_grid@)),
        at("qso"@, "number"@, text(s.qso_number@)),
    ]
}

/// The library selection, and how pictures are received and sent.
pub open spec fn middle_edits(s: Settings, rx_mode: Seq<char>, tx_mode: Seq<char>) -> Seq<
    (Seq<Seq<char>>, Seq<char>, EditView),
> {
    seq![
        at("library"@, "template"@, text_or_remove(opt_view(s.template))),
        at("library"@, "stock"@, text_or_remove(opt_view(s.stock))),
        at("receive"@, "mode"@, text(rx_mode)),
        at("receive"@, "auto-vis"@, flag(s.auto_mode)),
        at("receive"@, "afc"@, flag(s.dsp.afc)),
        at("receive"@, "lms"@, flag(s.dsp.lms_filter)),
        at("receive"@, "slant"@, flag(s.dsp.live_slant)),
        at("receive"@, "vis-restart"@, flag(s.vis_restart)),
        at("transmit"@, "fskid"@, flag(s.send_fskid)),
        at("transmit"@, "contest"@, flag(s.contest_mode)),
        at("transmit"@, "volume"@, EditView::Number(NumberSetting::TxVolume)),
        at("receive"@, "auto-history"@, flag(s.auto_history)),
        at("receive"@, "history-format"@, text(s.history_format.spec_config_name())),
        at("transmit"@, "mode"@, text(tx_mode)),
    ]
}

/// The rig section: whether it connects, its timings, the keys an earlier
/// version wrote taken out, and the ports kept to the ones in use.
pub open spec fn rig_edits(s: Settings) -> Seq<(Seq<Seq<char>>, Seq<char>, EditView)> {
    seq![
        at("rig"@, "enabled"@, flag(s.rig_enabled)),
        at("rig"@, "poll-interval"@, EditView::Number(NumberSetting::PollSeconds)),
        at("rig"@, "lead-in"@, EditView::Number(NumberSetting::LeadInSeconds)),
        at("rig"@, "tail"@, EditView::Number(NumberSetting::TailSeconds)),
        at("rig"@, "address"@, EditView::Remove),
        at("rig"@, "commands"@, EditView::Remove),
        at("rig"@, "bands"@, EditView::Remove),
        at("rig"@, "ports"@, EditView::KeepOnly(ports_view(s.ports@).map_values(|p: (Seq<char>, Seq<char>)| p.0))),
    ]
}

/// An edit of `key` in `section`, or at the top of the file for "".
fn edit(section: &str, key: &str, value: EditValue) -> (e: ConfigEdit)
    ensures
        edit_view(e) == at(section@, key@, value@),
{
    let mut table: Vec<String> = Vec::new();
    if section.unicode_len() > 0 {
        table.push(section.to_owned());
    }
    let e = ConfigEdit { table, key: key.to_owned(), value };
    assert(edit_view(e).0 =~= at(section@, key@, value@).0);
    e
}

fn set_text(t: &String) -> (v: EditValue)
    ensures
        v@ == text(t@),
{
    EditValue::Assign(StoredValue::Text(t.clone()))
}

fn set_flag(b: bool) -> (v: EditValue)
    ensures
        v@ == flag(b),
{
    EditValue::Assign(StoredValue::Flag(b))
}

fn text_or_removal(t: &Option<String>) -> (v: EditValue)
    ensures
        v@ == text_or_remove(opt_view(*t)),
{
    match t {
        Some(x) => EditValue::Assign(StoredValue::Text(x.clone())),
        None => EditValue::Remove,
    }
}

fn nonempty_or_removal(t: &String) -> (v: EditValue)
    ensures
        v@ == nonempty_or_remove(t@),
{
    if t.as_str().unicode_len() > 0 {
        EditValue::Assign(StoredValue::Text(t.clone()))
    } else {
        EditValue::Remove
    }
}

/// Appends the edit `e` to `edits`.
fn push_edit(edits: &mut Vec<ConfigEdit>, e: ConfigEdit)
    ensures
        edits_view(final(edits)@) == edits_view(old(edits)@).push(edit_view(e)),
{
    edits.push(e);
    assert(edits_view(edits@) =~= edits_view(old(edits)@).push(edit_view(e)));
}

fn variable_edits_of(vars: &Vec<(String, String)>, edits: &mut Vec<ConfigEdit>)
    ensures
        edits_view(final(edits)@) == edits_view(old(edits)@) + variable_edits(pairs_view(vars@)),
{
    proof {
        reveal_strlit("");
        assert(""@ =~= Seq::<char>::empty());
    }
    let ghost start = edits_view(edits@);
    if vars.len() == 0 {
        push_edit(edits, edit("", "variables", EditValue::Remove));
        assert(edits_view(edits@) =~= start + variable_edits(pairs_view(vars@)));
        return;
    }
    let mut names: Vec<String> = Vec::new();
    let mut i: usize = 0;
    while i < vars.len()
        invariant
            i <= vars.len(),
            names@.map_values(|n: String| n@) == pairs_view(vars@).take(i as int).map_values(
                |v: (Seq<char>, Seq<char>)| v.0,
            ),
        decreases vars.len() - i,
    {
        let ghost before = names@;
        names.push(vars[i].0.clone());
        assert(names@.map_values(|n: String| n@) =~= before.map_values(|n: String| n@).push(vars@[i as int].0@));
        assert(pairs_view(vars@).take(i + 1) =~= pairs_view(vars@).take(i as int).push(pairs_view(vars@)[i as int]));
        assert(pairs_view(vars@).take(i + 1).map_values(|v: (Seq<char>, Seq<char>)| v.0) =~= pairs_view(vars@).take(
            i as int,
        ).map_values(|v: (Seq<char>, Seq<char>)| v.0).push(vars@[i as int].0@));
        i += 1;
    }
    assert(pairs_view(vars@).take(vars.len() as int) == pairs_view(vars@));
    push_edit(edits, edit("", "variables", EditValue::KeepOnly(names)));
    let ghost head = edits_view(edits@);
    let ghost assign = pairs_view(vars@).map_values(|v: (Seq<char>, Seq<char>)| at("variables"@, v.0, text(v.1)));
    let mut k: usize = 0;
    while k < vars.len()
        invariant
            k <= vars.len(),
            edits_view(edits@) == head + assign.take(k as int),
            assign == pairs_view(vars@).map_values(|v: (Seq<char>, Seq<char>)| at("variables"@, v.0, text(v.1))),
        decreases vars.len() - k,
    {
        let e = edit("variables", vars[k].0.as_str(), set_text(&vars[k].1));
        push_edit(edits, e);
        assert(assign.take(k + 1) =~= assign.take(k as int).push(assign[k as int]));
        k += 1;
    }
    assert(assign.take(vars.len() as int) == assign);
    assert(edits_view(edits@) =~= start + variable_edits(pairs_view(vars@)));
}

fn port_edits_of(ports: &Vec<(String, PortSettings)>, edits: &mut Vec<ConfigEdit>)
    ensures
        edits_view(final(edits)@) == edits_view(old(edits)@) + ports_edits(ports_view(ports@)),
{
    let ghost start = edits_view(edits@);
    let mut i: usize = 0;
    assert(ports_view(ports@).take(0) == Seq::<(Seq<char>, Seq<char>)>::empty());
    while i < ports.len()
        invariant
            i <= ports.len(),
            edits_view(edits@) == start + ports_edits(ports_view(ports@).take(i as int)),
        decreases ports.len() - i,
    {
        let ghost before = edits_view(edits@);
        let mut section_path: Vec<String> = Vec::new();
        section_path.push("rig".to_owned());
        section_path.push("ports".to_owned());
        let mut kind_path: Vec<String> = Vec::new();
        kind_path.push("rig".to_owned());
        kind_path.push("ports".to_owned());
        kind_path.push(ports[i].0.clone());
        let mut address_path: Vec<String> = Vec::new();
        address_path.push("rig".to_owned());
        address_path.push("ports".to_owned());
        address_path.push(ports[i].0.clone());
        let section = ConfigEdit { table: section_path, key: ports[i].0.clone(), value: EditValue::Section };
        let kind = ConfigEdit { table: kind_path, key: "kind".to_owned(), value: EditValue::Remove };
        let address = ConfigEdit { table: address_path, key: "address".to_owned(), value: set_text(&ports[i].1.address) };
        assert(edit_view(section).0 =~= seq!["rig"@, "ports"@]);
        assert(edit_view(kind).0 =~= port_table(ports@[i as int].0@));
        assert(edit_view(address).0 =~= port_table(ports@[i as int].0@));
        push_edit(edits, section);
        push_edit(edits, kind);
        push_edit(edits, address);
        let ghost taken = ports_view(ports@).take(i + 1);
        assert(taken.drop_last() =~= ports_view(ports@).take(i as int));
        assert(taken.last() == (ports@[i as int].0@, ports@[i as int].1.address@));
        assert(edits_view(edits@) =~= before + port_edits(taken.last()));
        i += 1;
    }
    assert(ports_view(ports@).take(ports.len() as int) == ports_view(ports@));
}

fn head_edits_of(s: &Settings, edits: &mut Vec<ConfigEdit>)
    ensures
        edits_view(final(edits)@) == edits_view(old(edits)@) + head_edits(*s),
{
    proof {
        reveal_strlit("");
        assert(""@ =~= Seq::<char>::empty());
    }
    let ghost start = edits_view(edits@);
    push_edit(edits, edit("", "language", EditValue::Assign(StoredValue::Text(s.locale.tag().to_owned()))));
    push_edit(edits, edit("", "ui-scale", EditValue::Number(NumberSetting::UiScale)));
    push_edit(edits, edit("audio", "input-device", text_or_removal(&s.input_device)));
    push_edit(edits, edit("audio", "output-device", text_or_removal(&s.output_device)));
    push_edit(edits, edit("", "callsign", EditValue::Remove));
    push_edit(edits, edit("station", "callsign", nonempty_or_removal(&s.station_callsign)));
    push_edit(edits, edit("station", "qth", nonempty_or_removal(&s.station_qth)));
    push_edit(edits, edit("station", "grid", nonempty_or_removal(&s.station_grid)));
    push_edit(edits, edit("qso", "number", set_text(&s.qso_number)));
    assert(edits_view(edits@) =~= start + head_edits(*s));
}

fn middle_edits_of(s: &Settings, rx_mode: &str, tx_mode: &str, edits: &mut Vec<ConfigEdit>)
    ensures
        edits_view(final(edits)@) == edits_view(old(edits)@) + middle_edits(*s, rx_mode@, tx_mode@),
{
    let ghost start = edits_view(edits@);
    push_edit(edits, edit("library", "template", text_or_removal(&s.template)));
    push_edit(edits, edit("library", "stock", text_or_removal(&s.stock)));
    push_edit(edits, edit("receive", "mode", EditValue::Assign(StoredValue::Text(rx_mode.to_owned()))));
    push_edit(edits, edit("receive", "auto-vis", set_flag(s.auto_mode)));
    push_edit(edits, edit("receive", "afc", set_flag(s.dsp.afc)));
    push_edit(edits, edit("receive", "lms", set_flag(s.dsp.lms_filter)));
    push_edit(edits, edit("receive", "slant", set_flag(s.dsp.live_slant)));
    push_edit(edits, edit("receive", "vis-restart", set_flag(s.vis_restart)));
    push_edit(edits, edit("transmit", "fskid", set_flag(s.send_fskid)));
    push_edit(edits, edit("transmit", "contest", set_flag(s.contest_mode)));
    push_edit(edits, edit("transmit", "volume", EditValue::Number(NumberSetting::TxVolume)));
    push_edit(edits, edit("receive", "auto-history", set_flag(s.auto_history)));
    push_edit(
        edits,
        edit("receive", "history-format", EditValue::Assign(StoredValue::Text(s.history_format.config_name().to_owned()))),
    );
    push_edit(edits, edit("transmit", "mode", EditValue::Assign(StoredValue::Text(tx_mode.to_owned()))));
    assert(edits_view(edits@) =~= start + middle_edits(*s, rx_mode@, tx_mode@));
}

fn rig_edits_of(s: &Settings, edits: &mut Vec<ConfigEdit>)
    ensures
        edits_view(final(edits)@) == edits_view(old(edits)@) + rig_edits(*s),
{
    let ghost start = edits_view(edits@);
    push_edit(edits, edit("rig", "enabled", set_flag(s.rig_enabled)));
    push_edit(edits, edit("rig", "poll-interval", EditValue::Number(NumberSetting::PollSeconds)));
    push_edit(edits, edit("rig", "lead-in", EditValue::Number(NumberSetting::LeadInSeconds)));
    push_edit(edits, edit("rig", "tail", EditValue::Number(NumberSetting::TailSeconds)));
    push_edit(edits, edit("rig", "address", EditValue::Remove));
    push_edit(edits, edit("rig", "commands", EditValue::Remove));
    push_edit(edits, edit("rig", "bands", EditValue::Remove));
    let mut names: Vec<String> = Vec::new();
    let mut i: usize = 0;
    while i < s.ports.len()
        invariant
            i <= s.ports.len(),
            names@.map_values(|n: String| n@) == ports_view(s.ports@).take(i as int).map_values(
                |p: (Seq<char>, Seq<char>)| p.0,
            ),
        decreases s.ports.len() - i,
    {
        let ghost before = names@;
        names.push(s.ports[i].0.clone());
        assert(names@.map_values(|n: String| n@) =~= before.map_values(|n: String| n@).push(s.ports@[i as int].0@));
        assert(ports_view(s.ports@).take(i + 1).map_values(|p: (Seq<char>, Seq<char>)| p.0) =~= ports_view(
            s.ports@,
        ).take(i as int).map_values(|p: (Seq<char>, Seq<char>)| p.0).push(s.ports@[i as int].0@));
        i += 1;
    }
    assert(ports_view(s.ports@).take(s.ports.len() as int) == ports_view(s.ports@));
    push_edit(edits, edit("rig", "ports", EditValue::KeepOnly(names)));
    assert(edits_view(edits@) =~= start + rig_edits(*s));
}

/// Every change that writes `s` back, in the order they are made, with
/// `rx_mode` and `tx_mode` naming the modes in use.
pub fn store_plan(s: &Settings, rx_mode: &str, tx_mode: &str) -> (edits: Vec<ConfigEdit>)
    ensures
        edits_view(edits@) == store_edits(*s, rx_mode@, tx_mode@),
{
    let mut edits: Vec<ConfigEdit> = Vec::new();
    assert(edits_view(edits@) =~= Seq::empty());
    head_edits_of(s, &mut edits);
    variable_edits_of(&s.custom_variables, &mut edits);
    middle_edits_of(s, rx_mode, tx_mode, &mut edits);
    rig_edits_of(s, &mut edits);
    port_edits_of(&s.ports, &mut edits);
    edits
}

} // verus!
