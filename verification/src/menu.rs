//! The application menu, described once as a model that every renderer
//! consumes, so the native menu bar and the one drawn in the window cannot
//! drift apart.

use vstd::prelude::*;
use crate::history::HistoryFormat;
use crate::i18n::{arguments_view, shown, I18n, Locale};
use crate::paths::Folder;
use crate::text::same_text;

verus! {

/// What activating a menu entry asks the application to do.
#[derive(Clone, Debug, PartialEq, Eq)]
pub enum Action {
    SelectDevice(String),
    SelectOutputDevice(String),
    SelectLocale(Locale),
    ShowStation,
    ShowCustomVariables,
    ToggleSendFskid,
    ToggleVisRestart,
    WriteRigScript,
    WriteBandPlan,
    ToggleAutoHistory,
    SelectHistoryFormat(HistoryFormat),
    OpenManual,
    ZoomIn,
    ZoomOut,
    ZoomReset,
    Reveal(Folder),
    Quit,
}

/// One entry of a menu.
#[derive(Debug)]
pub enum Item {
    Submenu { label: String, items: Vec<Item> },
    Check { label: String, checked: bool, action: Action },
    Command { label: String, action: Action },
    /// An entry there is nothing to activate on: shown disabled.
    Pending(String),
    Separator,
}

/// One menu of the bar.
#[derive(Debug)]
pub struct Menu {
    pub label: String,
    pub items: Vec<Item>,
}

/// An item followed by everything under it, submenus before their contents.
pub open spec fn flat_item(item: Item) -> Seq<Item>
    decreases item,
{
    match item {
        Item::Submenu { items, .. } => seq![item] + flat_items(items@),
        _ => seq![item],
    }
}

/// Every item of `items` and of the submenus under them, in the order a
/// renderer creates them.
pub open spec fn flat_items(items: Seq<Item>) -> Seq<Item>
    decreases items,
{
    if items.len() == 0 {
        Seq::empty()
    } else {
        flat_item(items[0]) + flat_items(items.drop_first())
    }
}

/// Every item of every menu, in order.
pub open spec fn flat_menus(menus: Seq<Menu>) -> Seq<Item>
    decreases menus.len(),
{
    if menus.len() == 0 {
        Seq::empty()
    } else {
        flat_menus(menus.drop_last()) + flat_items(menus.last().items@)
    }
}

/// Appending one more item to a list appends its flattening.
pub proof fn lemma_flat_items_push(items: Seq<Item>, item: Item)
    ensures
        flat_items(items.push(item)) == flat_items(items) + flat_item(item),
    decreases items.len(),
{
    if items.len() == 0 {
        assert(items.push(item).drop_first() == Seq::<Item>::empty());
        assert(flat_items(items.push(item)) == flat_item(item) + flat_items(Seq::<Item>::empty()));
    } else {
        assert(items.push(item).drop_first() == items.drop_first().push(item));
        lemma_flat_items_push(items.drop_first(), item);
        assert(items.push(item)[0] == items[0]);
    }
}

/// The items `refs` point at.
pub open spec fn targets(refs: Seq<&Item>) -> Seq<Item> {
    refs.map_values(|r: &Item| *r)
}

fn walk<'a>(items: &'a Vec<Item>, out: &mut Vec<&'a Item>)
    ensures
        targets(final(out)@) == targets(old(out)@) + flat_items(items@),
    decreases items,
{
    let ghost start = targets(out@);
    let mut i: usize = 0;
    while i < items.len()
        invariant
            i <= items.len(),
            targets(out@) == start + flat_items(items@.take(i as int)),
        decreases items.len() - i,
    {
        let item = &items[i];
        proof {
            lemma_flat_items_push(items@.take(i as int), items@[i as int]);
            assert(items@.take(i + 1) == items@.take(i as int).push(items@[i as int]));
        }
        let ghost before = out@;
        out.push(item);
        assert(targets(out@) == targets(before).push(*item));
        match item {
            Item::Submenu { items: inner, .. } => {
                assert(decreases_to!(items => inner));
                walk(inner, out);
            },
            _ => {},
        }
        assert(targets(out@) == start + flat_items(items@.take(i + 1)));
        i += 1;
    }
    assert(items@.take(items.len() as int) == items@);
}

/// Every item of every menu, in the order a renderer creates them:
/// each item before the items of its submenu, separators included.
pub fn flatten(menus: &Vec<Menu>) -> (flat: Vec<&Item>)
    ensures
        targets(flat@) == flat_menus(menus@),
{
    let mut out: Vec<&Item> = Vec::new();
    let mut i: usize = 0;
    while i < menus.len()
        invariant
            i <= menus.len(),
            targets(out@) == flat_menus(menus@.take(i as int)),
        decreases menus.len() - i,
    {
        assert(menus@.take(i + 1).drop_last() == menus@.take(i as int));
        walk(&menus[i].items, &mut out);
        i += 1;
    }
    assert(menus@.take(menus.len() as int) == menus@);
    out
}

/// What kind of entry an item is, whatever it is labelled.
#[derive(Clone, Copy, Debug, PartialEq, Eq, Structural)]
pub enum ItemKind {
    Submenu,
    Check,
    Command,
    Pending,
    Separator,
}

pub open spec fn kind_of(item: Item) -> ItemKind {
    match item {
        Item::Submenu { .. } => ItemKind::Submenu,
        Item::Check { .. } => ItemKind::Check,
        Item::Command { .. } => ItemKind::Command,
        Item::Pending(_) => ItemKind::Pending,
        Item::Separator => ItemKind::Separator,
    }
}

/// Whether two items have the same shape: the same kind, and for a
/// submenu, items of the same shapes under it.
pub open spec fn same_shape_item(a: Item, b: Item) -> bool
    decreases a,
{
    match a {
        Item::Submenu { items: x, .. } => match b {
            Item::Submenu { items: y, .. } => same_shape_items(x@, y@),
            _ => false,
        },
        _ => kind_of(a) == kind_of(b),
    }
}

/// Whether two lists of items have the same shape, item by item.
pub open spec fn same_shape_items(a: Seq<Item>, b: Seq<Item>) -> bool
    decreases a,
{
    a.len() == b.len() && forall|i: int| 0 <= i < a.len() ==> same_shape_item(a[i], b[i])
}

/// Whether two models have the same structure: as many menus, with items of
/// the same shapes, so that only labels and check marks tell them apart.
pub open spec fn same_structure(a: Seq<Menu>, b: Seq<Menu>) -> bool {
    a.len() == b.len() && forall|k: int| 0 <= k < a.len() ==> same_shape_items(a[k].items@, b[k].items@)
}

/// The kinds of the items in `items`, in order.
pub open spec fn kinds(items: Seq<Item>) -> Seq<ItemKind> {
    items.map_values(|i: Item| kind_of(i))
}

proof fn lemma_same_shape_flat_item(a: Item, b: Item)
    requires
        same_shape_item(a, b),
    ensures
        kinds(flat_item(a)) == kinds(flat_item(b)),
    decreases a,
{
    match a {
        Item::Submenu { items: x, .. } => match b {
            Item::Submenu { items: y, .. } => {
                assert(decreases_to!(a => x@));
                lemma_same_shape_flat_items(x@, y@);
                assert(kinds(flat_item(a)) =~= seq![ItemKind::Submenu] + kinds(flat_items(x@)));
                assert(kinds(flat_item(b)) =~= seq![ItemKind::Submenu] + kinds(flat_items(y@)));
            },
            _ => {},
        },
        _ => {
            assert(kinds(flat_item(a)) =~= seq![kind_of(a)]);
            assert(kinds(flat_item(b)) =~= seq![kind_of(b)]);
        },
    }
}

proof fn lemma_same_shape_flat_items(a: Seq<Item>, b: Seq<Item>)
    requires
        same_shape_items(a, b),
    ensures
        kinds(flat_items(a)) == kinds(flat_items(b)),
    decreases a,
{
    if a.len() > 0 {
        assert(decreases_to!(a => a[0]));
        lemma_same_shape_flat_item(a[0], b[0]);
        let (ra, rb) = (a.drop_first(), b.drop_first());
        assert forall|i: int| 0 <= i < ra.len() implies same_shape_item(ra[i], rb[i]) by {
            assert(ra[i] == a[i + 1]);
            assert(rb[i] == b[i + 1]);
        }
        assert(decreases_to!(a => ra));
        lemma_same_shape_flat_items(ra, rb);
        assert(kinds(flat_items(a)) =~= kinds(flat_item(a[0])) + kinds(flat_items(ra)));
        assert(kinds(flat_items(b)) =~= kinds(flat_item(b[0])) + kinds(flat_items(rb)));
    } else {
        assert(kinds(flat_items(a)) =~= Seq::<ItemKind>::empty());
        assert(kinds(flat_items(b)) =~= Seq::<ItemKind>::empty());
    }
}

/// Two models of the same structure flatten into entries of the same kinds
/// at the same places, so a menu built from one can be relabelled from the
/// other entry by entry without any label landing on the wrong entry.
pub proof fn lemma_same_structure_flattens_alike(a: Seq<Menu>, b: Seq<Menu>)
    requires
        same_structure(a, b),
    ensures
        kinds(flat_menus(a)) == kinds(flat_menus(b)),
    decreases a.len(),
{
    if a.len() > 0 {
        let (ra, rb) = (a.drop_last(), b.drop_last());
        assert forall|k: int| 0 <= k < ra.len() implies same_shape_items(ra[k].items@, rb[k].items@) by {
            assert(ra[k] == a[k]);
            assert(rb[k] == b[k]);
        }
        lemma_same_structure_flattens_alike(ra, rb);
        lemma_same_shape_flat_items(a.last().items@, b.last().items@);
        assert(kinds(flat_menus(a)) =~= kinds(flat_menus(ra)) + kinds(flat_items(a.last().items@)));
        assert(kinds(flat_menus(b)) =~= kinds(flat_menus(rb)) + kinds(flat_items(b.last().items@)));
    } else {
        assert(kinds(flat_menus(a)) =~= Seq::<ItemKind>::empty());
        assert(kinds(flat_menus(b)) =~= Seq::<ItemKind>::empty());
    }
}

fn same_shape(a: &Item, b: &Item) -> (same: bool)
    ensures
        same == same_shape_item(*a, *b),
    decreases a,
{
    match a {
        Item::Submenu { items: x, .. } => match b {
            Item::Submenu { items: y, .. } => {
                assert(decreases_to!(a => x));
                same_shapes(x, y)
            },
            _ => false,
        },
        Item::Check { .. } => matches!(b, Item::Check { .. }),
        Item::Command { .. } => matches!(b, Item::Command { .. }),
        Item::Pending(_) => matches!(b, Item::Pending(_)),
        Item::Separator => matches!(b, Item::Separator),
    }
}

fn same_shapes(a: &Vec<Item>, b: &Vec<Item>) -> (same: bool)
    ensures
        same == same_shape_items(a@, b@),
    decreases a,
{
    if a.len() != b.len() {
        return false;
    }
    let mut i: usize = 0;
    while i < a.len()
        invariant
            i <= a.len() == b.len(),
            forall|j: int| 0 <= j < i ==> same_shape_item(a@[j], b@[j]),
        decreases a.len() - i,
    {
        assert(decreases_to!(a => a@[i as int]));
        if !same_shape(&a[i], &b[i]) {
            return false;
        }
        i += 1;
    }
    true
}

/// Whether two models have the same structure, which is what decides
/// between relabelling a built menu and building it again.
pub fn structure_matches(a: &Vec<Menu>, b: &Vec<Menu>) -> (same: bool)
    ensures
        same == same_structure(a@, b@),
{
    if a.len() != b.len() {
        return false;
    }
    let mut k: usize = 0;
    while k < a.len()
        invariant
            k <= a.len() == b.len(),
            forall|j: int| 0 <= j < k ==> same_shape_items(a@[j].items@, b@[j].items@),
        decreases a.len() - k,
    {
        if !same_shapes(&a[k].items, &b[k].items) {
            return false;
        }
        k += 1;
    }
    true
}

/// The menu host where the menu is drawn inside the window: the model is
/// drawn straight from each frame, so there is nothing to keep in step and
/// nothing activated outside the window.
#[derive(Clone, Copy, Debug, Default)]
pub struct MenuHost;

impl MenuHost {
    /// Brings the host in line with `model`: nothing is held, so nothing
    /// changes.
    pub fn sync(&mut self, model: &Vec<Menu>)
        ensures
            *final(self) == *old(self),
    {
    }

    /// What the operator activated since the last frame: nothing reaches
    /// this host, since the in-window bar reports its own clicks.
    pub fn poll(&self) -> (actions: Vec<Action>)
        ensures
            actions@.len() == 0,
    {
        Vec::new()
    }

    /// Readies the host for the window closing: there is nothing to take
    /// off the screen.
    pub fn prepare_for_close(&self) {
    }
}

/// Whether `item` is a command labelled `label` that asks for `action`.
pub open spec fn is_command(item: Item, label: Seq<char>, action: Action) -> bool {
    item matches Item::Command { label: l, action: a } && l@ == label && a == action
}

/// Whether `item` is a check entry labelled `label`, marked as `checked`,
/// that asks for `action`.
pub open spec fn is_check(item: Item, label: Seq<char>, checked: bool, action: Action) -> bool {
    item matches Item::Check { label: l, checked: c, action: a } && l@ == label && c == checked && a == action
}

/// Whether `item` is a disabled entry labelled `label`.
pub open spec fn is_pending(item: Item, label: Seq<char>) -> bool {
    item matches Item::Pending(l) && l@ == label
}

/// Whether `item` is a submenu labelled `label` with `items` under it.
pub open spec fn is_submenu(item: Item, label: Seq<char>, items: spec_fn(Seq<Item>) -> bool) -> bool {
    item matches Item::Submenu { label: l, items: i } && l@ == label && items(i@)
}

/// The File menu: a command for every folder the application keeps, in the
/// order they are listed, labelled by `labels`, then a separator and Quit.
pub open spec fn is_folder_items(items: Seq<Item>, labels: Seq<Seq<char>>, quit: Seq<char>) -> bool {
    &&& items.len() == 8
    &&& is_command(items[0], labels[0], Action::Reveal(Folder::Received))
    &&& is_command(items[1], labels[1], Action::Reveal(Folder::Sent))
    &&& is_command(items[2], labels[2], Action::Reveal(Folder::Stocks))
    &&& is_command(items[3], labels[3], Action::Reveal(Folder::Templates))
    &&& is_command(items[4], labels[4], Action::Reveal(Folder::Assets))
    &&& is_command(items[5], labels[5], Action::Reveal(Folder::Config))
    &&& items[6] is Separator
    &&& is_command(items[7], quit, Action::Quit)
}

/// The entries of the File menu, with `labels` naming the folders in the
/// order `Folder::all` lists them.
pub fn folder_items(labels: &Vec<String>, quit: String) -> (items: Vec<Item>)
    requires
        labels.len() == 6,
    ensures
        is_folder_items(items@, labels@.map_values(|l: String| l@), quit@),
{
    let folders = Folder::all();
    let mut items: Vec<Item> = Vec::new();
    let mut i: usize = 0;
    while i < 6
        invariant
            i <= 6,
            labels.len() == 6,
            folders@ == seq![
                Folder::Received,
                Folder::Sent,
                Folder::Stocks,
                Folder::Templates,
                Folder::Assets,
                Folder::Config,
            ],
            items@.len() == i,
            forall|k: int| 0 <= k < i ==> is_command(#[trigger] items@[k], labels@[k]@, Action::Reveal(folders@[k])),
        decreases 6 - i,
    {
        items.push(Item::Command { label: labels[i].clone(), action: Action::Reveal(folders[i]) });
        i += 1;
    }
    items.push(Item::Separator);
    items.push(Item::Command { label: quit, action: Action::Quit });
    items
}

/// A device list: a check entry per device, marked on the selected one, or
/// a single disabled entry saying there is none.
pub open spec fn is_device_items(
    items: Seq<Item>,
    names: Seq<Seq<char>>,
    selected: Option<Seq<char>>,
    empty: Seq<char>,
    output: bool,
) -> bool {
    if names.len() == 0 {
        items.len() == 1 && is_pending(items[0], empty)
    } else {
        &&& items.len() == names.len()
        &&& forall|k: int|
            0 <= k < names.len() ==> (#[trigger] items[k] matches Item::Check { label, checked, action }
                && label@ == names[k] && checked == (selected == Some(names[k])) && (if output {
                action matches Action::SelectOutputDevice(n) && n@ == names[k]
            } else {
                action matches Action::SelectDevice(n) && n@ == names[k]
            }))
    }
}

/// The entries of a device submenu: the input devices, or with `output` the
/// output devices, named `names`, with `selected` marked.
pub fn device_items(names: &Vec<String>, selected: Option<&str>, empty: String, output: bool) -> (items: Vec<Item>)
    ensures
        is_device_items(
            items@,
            names@.map_values(|n: String| n@),
            match selected {
                Some(s) => Some(s@),
                None => None,
            },
            empty@,
            output,
        ),
{
    let mut items: Vec<Item> = Vec::new();
    if names.len() == 0 {
        items.push(Item::Pending(empty));
        return items;
    }
    let ghost chosen = match selected {
        Some(s) => Some(s@),
        None => None::<Seq<char>>,
    };
    let mut i: usize = 0;
    while i < names.len()
        invariant
            i <= names.len(),
            chosen == (match selected {
                Some(s) => Some(s@),
                None => None::<Seq<char>>,
            }),
            items@.len() == i,
            forall|k: int|
                0 <= k < i ==> (#[trigger] items@[k] matches Item::Check { label, checked, action }
                    && label@ == names@[k]@ && checked == (chosen == Some(names@[k]@)) && (if output {
                    action matches Action::SelectOutputDevice(n) && n@ == names@[k]@
                } else {
                    action matches Action::SelectDevice(n) && n@ == names@[k]@
                })),
        decreases names.len() - i,
    {
        let checked = match selected {
            Some(s) => same_text(s, names[i].as_str()),
            None => false,
        };
        let action = if output {
            Action::SelectOutputDevice(names[i].clone())
        } else {
            Action::SelectDevice(names[i].clone())
        };
        items.push(Item::Check { label: names[i].clone(), checked, action });
        i += 1;
    }
    items
}

/// The language submenu: a check entry per locale, labelled with the
/// language's own name, marked on the one in use.
pub open spec fn is_locale_items(items: Seq<Item>, current: Locale) -> bool {
    &&& items.len() == 2
    &&& is_check(items[0], Locale::En.spec_name(), current == Locale::En, Action::SelectLocale(Locale::En))
    &&& is_check(items[1], Locale::Ja.spec_name(), current == Locale::Ja, Action::SelectLocale(Locale::Ja))
}

pub fn locale_items(current: Locale) -> (items: Vec<Item>)
    ensures
        is_locale_items(items@, current),
{
    let mut items: Vec<Item> = Vec::new();
    items.push(Item::Check {
        label: Locale::En.name().to_owned(),
        checked: current == Locale::En,
        action: Action::SelectLocale(Locale::En),
    });
    items.push(Item::Check {
        label: Locale::Ja.name().to_owned(),
        checked: current == Locale::Ja,
        action: Action::SelectLocale(Locale::Ja),
    });
    items
}

/// The received-image submenu: whether receptions are kept, a separator,
/// and a check entry per format, labelled by `formats` in the order
/// `HistoryFormat::all` lists them, marked on the one in use.
pub open spec fn is_history_items(
    items: Seq<Item>,
    auto_history: bool,
    auto_label: Seq<char>,
    formats: Seq<Seq<char>>,
    current: HistoryFormat,
) -> bool {
    &&& items.len() == 5
    &&& is_check(items[0], auto_label, auto_history, Action::ToggleAutoHistory)
    &&& items[1] is Separator
    &&& is_check(items[2], formats[0], current == HistoryFormat::Webp, Action::SelectHistoryFormat(HistoryFormat::Webp))
    &&& is_check(items[3], formats[1], current == HistoryFormat::Png, Action::SelectHistoryFormat(HistoryFormat::Png))
    &&& is_check(items[4], formats[2], current == HistoryFormat::Jpeg, Action::SelectHistoryFormat(HistoryFormat::Jpeg))
}

pub fn history_items(auto_history: bool, auto_label: String, formats: &Vec<String>, current: HistoryFormat) -> (items: Vec<Item>)
    requires
        formats.len() == 3,
    ensures
        is_history_items(items@, auto_history, auto_label@, formats@.map_values(|l: String| l@), current),
{
    let mut items: Vec<Item> = Vec::new();
    items.push(Item::Check { label: auto_label, checked: auto_history, action: Action::ToggleAutoHistory });
    items.push(Item::Separator);
    let all = HistoryFormat::all();
    let mut i: usize = 0;
    while i < 3
        invariant
            i <= 3,
            formats.len() == 3,
            all@ == seq![HistoryFormat::Webp, HistoryFormat::Png, HistoryFormat::Jpeg],
            items@.len() == i + 2,
            is_check(items@[0], auto_label@, auto_history, Action::ToggleAutoHistory),
            items@[1] is Separator,
            forall|k: int|
                0 <= k < i ==> is_check(
                    #[trigger] items@[k + 2],
                    formats@[k]@,
                    current == all@[k],
                    Action::SelectHistoryFormat(all@[k]),
                ),
        decreases 3 - i,
    {
        items.push(Item::Check {
            label: formats[i].clone(),
            checked: current == all[i],
            action: Action::SelectHistoryFormat(all[i]),
        });
        i += 1;
    }
    assert(is_check(items@[0int + 2], formats@[0]@, current == all@[0], Action::SelectHistoryFormat(all@[0])));
    assert(is_check(items@[1int + 2], formats@[1]@, current == all@[1], Action::SelectHistoryFormat(all@[1])));
    assert(is_check(items@[2int + 2], formats@[2]@, current == all@[2], Action::SelectHistoryFormat(all@[2])));
    items
}

/// Every text the menu shows, already in the interface's language.
pub struct MenuLabels {
    pub file: String,
    /// One per folder, in the order `Folder::all` lists them.
    pub folders: Vec<String>,
    pub quit: String,
    pub view: String,
    pub zoom_in: String,
    pub zoom_out: String,
    /// The reset entry, which shows the scale in use.
    pub zoom_reset: String,
    pub settings: String,
    pub station: String,
    pub custom_variables: String,
    pub input_device: String,
    pub no_input: String,
    pub output_device: String,
    pub no_output: String,
    pub transmit: String,
    pub send_fskid: String,
    pub receive: String,
    pub vis_restart: String,
    pub history: String,
    pub auto_history: String,
    /// One per format, in the order `HistoryFormat::all` lists them.
    pub formats: Vec<String>,
    pub rig: String,
    pub rig_write_script: String,
    pub rig_write_bands: String,
    pub language: String,
    pub help: String,
    pub manual: String,
}

/// Every text the menu shows, by its characters.
pub struct MenuTexts {
    pub file: Seq<char>,
    pub folders: Seq<Seq<char>>,
    pub quit: Seq<char>,
    pub view: Seq<char>,
    pub zoom_in: Seq<char>,
    pub zoom_out: Seq<char>,
    pub zoom_reset: Seq<char>,
    pub settings: Seq<char>,
    pub station: Seq<char>,
    pub custom_variables: Seq<char>,
    pub input_device: Seq<char>,
    pub no_input: Seq<char>,
    pub output_device: Seq<char>,
    pub no_output: Seq<char>,
    pub transmit: Seq<char>,
    pub send_fskid: Seq<char>,
    pub receive: Seq<char>,
    pub vis_restart: Seq<char>,
    pub history: Seq<char>,
    pub auto_history: Seq<char>,
    pub formats: Seq<Seq<char>>,
    pub rig: Seq<char>,
    pub rig_write_script: Seq<char>,
    pub rig_write_bands: Seq<char>,
    pub language: Seq<char>,
    pub help: Seq<char>,
    pub manual: Seq<char>,
}

impl View for MenuLabels {
    type V = MenuTexts;

    open spec fn view(&self) -> MenuTexts {
        MenuTexts {
            file: self.file@,
            folders: texts_of(self.folders@),
            quit: self.quit@,
            view: self.view@,
            zoom_in: self.zoom_in@,
            zoom_out: self.zoom_out@,
            zoom_reset: self.zoom_reset@,
            settings: self.settings@,
            station: self.station@,
            custom_variables: self.custom_variables@,
            input_device: self.input_device@,
            no_input: self.no_input@,
            output_device: self.output_device@,
            no_output: self.no_output@,
            transmit: self.transmit@,
            send_fskid: self.send_fskid@,
            receive: self.receive@,
            vis_restart: self.vis_restart@,
            history: self.history@,
            auto_history: self.auto_history@,
            formats: texts_of(self.formats@),
            rig: self.rig@,
            rig_write_script: self.rig_write_script@,
            rig_write_bands: self.rig_write_bands@,
            language: self.language@,
            help: self.help@,
            manual: self.manual@,
        }
    }
}

/// What the menu marks and lists from the application's state.
pub struct MenuState {
    pub input_devices: Vec<String>,
    pub input_selected: Option<String>,
    pub output_devices: Vec<String>,
    pub output_selected: Option<String>,
    pub send_fskid: bool,
    pub vis_restart: bool,
    pub auto_history: bool,
    pub history_format: HistoryFormat,
    pub locale: Locale,
}

pub open spec fn texts_of(v: Seq<String>) -> Seq<Seq<char>> {
    v.map_values(|t: String| t@)
}

pub open spec fn text_of(o: Option<String>) -> Option<Seq<char>> {
    match o {
        Some(t) => Some(t@),
        None => None,
    }
}

/// The View menu: zooming in, out, and back.
pub open spec fn is_view_items(items: Seq<Item>, l: MenuTexts) -> bool {
    &&& items.len() == 3
    &&& is_command(items[0], l.zoom_in, Action::ZoomIn)
    &&& is_command(items[1], l.zoom_out, Action::ZoomOut)
    &&& is_command(items[2], l.zoom_reset, Action::ZoomReset)
}

/// The Settings menu: the station and the operator's variables, then the
/// devices, what is sent and received, the kept receptions, the rig files,
/// and the language.
pub open spec fn is_settings_items(items: Seq<Item>, l: MenuTexts, st: MenuState) -> bool {
    &&& items.len() == 11
    &&& is_command(items[0], l.station, Action::ShowStation)
    &&& is_command(items[1], l.custom_variables, Action::ShowCustomVariables)
    &&& items[2] is Separator
    &&& is_submenu(items[3], l.input_device, |i: Seq<Item>| is_device_items(i, texts_of(st.input_devices@), text_of(st.input_selected), l.no_input, false))
    &&& is_submenu(items[4], l.output_device, |i: Seq<Item>| is_device_items(i, texts_of(st.output_devices@), text_of(st.output_selected), l.no_output, true))
    &&& is_submenu(items[5], l.transmit, |i: Seq<Item>| i.len() == 1 && is_check(i[0], l.send_fskid, st.send_fskid, Action::ToggleSendFskid))
    &&& is_submenu(items[6], l.receive, |i: Seq<Item>| i.len() == 1 && is_check(i[0], l.vis_restart, st.vis_restart, Action::ToggleVisRestart))
    &&& is_submenu(items[7], l.history, |i: Seq<Item>| is_history_items(i, st.auto_history, l.auto_history, l.formats, st.history_format))
    &&& is_submenu(items[8], l.rig, |i: Seq<Item>| i.len() == 2 && is_command(i[0], l.rig_write_script, Action::WriteRigScript) && is_command(i[1], l.rig_write_bands, Action::WriteBandPlan))
    &&& items[9] is Separator
    &&& is_submenu(items[10], l.language, |i: Seq<Item>| is_locale_items(i, st.locale))
}

/// The whole menu bar: File, View, Settings and Help.
pub open spec fn is_model(menus: Seq<Menu>, l: MenuTexts, st: MenuState) -> bool {
    &&& menus.len() == 4
    &&& menus[0].label@ == l.file && is_folder_items(menus[0].items@, l.folders, l.quit)
    &&& menus[1].label@ == l.view && is_view_items(menus[1].items@, l)
    &&& menus[2].label@ == l.settings && is_settings_items(menus[2].items@, l, st)
    &&& menus[3].label@ == l.help && menus[3].items@.len() == 1 && is_command(menus[3].items@[0], l.manual, Action::OpenManual)
}

/// Describes the menu as it should currently appear, from the texts it shows
/// and the state it marks.
pub fn model_from_labels(l: &MenuLabels, st: &MenuState) -> (menus: Vec<Menu>)
    requires
        l.folders.len() == 6,
        l.formats.len() == 3,
    ensures
        is_model(menus@, l@, *st),
{
    let file = Menu { label: l.file.clone(), items: folder_items(&l.folders, l.quit.clone()) };
    let view = Menu {
        label: l.view.clone(),
        items: vec![
            Item::Command { label: l.zoom_in.clone(), action: Action::ZoomIn },
            Item::Command { label: l.zoom_out.clone(), action: Action::ZoomOut },
            Item::Command { label: l.zoom_reset.clone(), action: Action::ZoomReset },
        ],
    };
    let input_selected = match &st.input_selected {
        Some(s) => Some(s.as_str()),
        None => None,
    };
    let output_selected = match &st.output_selected {
        Some(s) => Some(s.as_str()),
        None => None,
    };
    let settings = Menu {
        label: l.settings.clone(),
        items: vec![
            Item::Command { label: l.station.clone(), action: Action::ShowStation },
            Item::Command { label: l.custom_variables.clone(), action: Action::ShowCustomVariables },
            Item::Separator,
            Item::Submenu {
                label: l.input_device.clone(),
                items: device_items(&st.input_devices, input_selected, l.no_input.clone(), false),
            },
            Item::Submenu {
                label: l.output_device.clone(),
                items: device_items(&st.output_devices, output_selected, l.no_output.clone(), true),
            },
            Item::Submenu {
                label: l.transmit.clone(),
                items: vec![
                    Item::Check {
                        label: l.send_fskid.clone(),
                        checked: st.send_fskid,
                        action: Action::ToggleSendFskid,
                    },
                ],
            },
            Item::Submenu {
                label: l.receive.clone(),
                items: vec![
                    Item::Check {
                        label: l.vis_restart.clone(),
                        checked: st.vis_restart,
                        action: Action::ToggleVisRestart,
                    },
                ],
            },
            Item::Submenu {
                label: l.history.clone(),
                items: history_items(st.auto_history, l.auto_history.clone(), &l.formats, st.history_format),
            },
            Item::Submenu {
                label: l.rig.clone(),
                items: vec![
                    Item::Command { label: l.rig_write_script.clone(), action: Action::WriteRigScript },
                    Item::Command { label: l.rig_write_bands.clone(), action: Action::WriteBandPlan },
                ],
            },
            Item::Separator,
            Item::Submenu { label: l.language.clone(), items: locale_items(st.locale) },
        ],
    };
    let help = Menu {
        label: l.help.clone(),
        items: vec![Item::Command { label: l.manual.clone(), action: Action::OpenManual }],
    };
    vec![file, view, settings, help]
}

/// The texts the menu shows in the language of `m`: each entry the message
/// of its key, as `shown` gives it, and the zoom reset entry with the scale
/// in use, in percent, handed to its message as `percent`.
pub open spec fn menu_texts(
    m: Map<(Seq<char>, Option<Seq<(Seq<char>, Seq<char>)>>), Seq<char>>,
    percent: Seq<char>,
) -> MenuTexts {
    MenuTexts {
        file: shown(m, "menu-file"@, None),
        quit: shown(m, "menu-quit"@, None),
        view: shown(m, "menu-view"@, None),
        zoom_in: shown(m, "menu-zoom-in"@, None),
        zoom_out: shown(m, "menu-zoom-out"@, None),
        settings: shown(m, "menu-settings"@, None),
        station: shown(m, "menu-station"@, None),
        custom_variables: shown(m, "menu-custom-variables"@, None),
        input_device: shown(m, "input-device"@, None),
        no_input: shown(m, "status-no-audio"@, None),
        output_device: shown(m, "output-device"@, None),
        no_output: shown(m, "status-no-output"@, None),
        transmit: shown(m, "menu-transmit"@, None),
        send_fskid: shown(m, "action-send-fskid"@, None),
        receive: shown(m, "menu-receive"@, None),
        vis_restart: shown(m, "action-vis-restart"@, None),
        history: shown(m, "menu-history"@, None),
        auto_history: shown(m, "action-auto-history"@, None),
        rig: shown(m, "menu-rig"@, None),
        rig_write_script: shown(m, "action-rig-write-script"@, None),
        rig_write_bands: shown(m, "action-rig-write-bands"@, None),
        language: shown(m, "menu-language"@, None),
        help: shown(m, "menu-help"@, None),
        manual: shown(m, "menu-manual"@, None),
        zoom_reset: shown(m, "menu-zoom-reset"@, Some(seq![("percent"@, percent)])),
        folders: seq![
            shown(m, Folder::Received.spec_label_key(), None),
            shown(m, Folder::Sent.spec_label_key(), None),
            shown(m, Folder::Stocks.spec_label_key(), None),
            shown(m, Folder::Templates.spec_label_key(), None),
            shown(m, Folder::Assets.spec_label_key(), None),
            shown(m, Folder::Config.spec_label_key(), None),
        ],
        formats: seq![
            shown(m, HistoryFormat::Webp.spec_label_key(), None),
            shown(m, HistoryFormat::Png.spec_label_key(), None),
            shown(m, HistoryFormat::Jpeg.spec_label_key(), None),
        ],
    }
}

/// Every text the menu shows, looked up in `i18n`, with the scale in use
/// (in percent, as text) for the zoom reset entry.
pub fn menu_labels(i18n: &I18n, percent: &str) -> (l: MenuLabels)
    ensures
        l@ == menu_texts(i18n.messages(), percent@),
        l.folders.len() == 6,
        l.formats.len() == 3,
{
    let all_folders = Folder::all();
    let mut folders: Vec<String> = Vec::new();
    let mut i: usize = 0;
    while i < 6
        invariant
            i <= 6,
            all_folders@ == seq![
                Folder::Received,
                Folder::Sent,
                Folder::Stocks,
                Folder::Templates,
                Folder::Assets,
                Folder::Config,
            ],
            folders@.len() == i,
            forall|k: int| 0 <= k < i ==> #[trigger] folders@[k]@ == shown(i18n.messages(), all_folders@[k].spec_label_key(), None),
        decreases 6 - i,
    {
        folders.push(i18n.text(all_folders[i].label_key()));
        i += 1;
    }
    let all_formats = HistoryFormat::all();
    let mut formats: Vec<String> = Vec::new();
    let mut j: usize = 0;
    while j < 3
        invariant
            j <= 3,
            all_formats@ == seq![HistoryFormat::Webp, HistoryFormat::Png, HistoryFormat::Jpeg],
            formats@.len() == j,
            forall|k: int| 0 <= k < j ==> #[trigger] formats@[k]@ == shown(i18n.messages(), all_formats@[k].spec_label_key(), None),
        decreases 3 - j,
    {
        formats.push(i18n.text(all_formats[j].label_key()));
        j += 1;
    }
    let args = [("percent", percent)];
    assert(arguments_view(args@) =~= seq![("percent"@, percent@)]);
    let l = MenuLabels {
        file: i18n.text("menu-file"),
        quit: i18n.text("menu-quit"),
        view: i18n.text("menu-view"),
        zoom_in: i18n.text("menu-zoom-in"),
        zoom_out: i18n.text("menu-zoom-out"),
        settings: i18n.text("menu-settings"),
        station: i18n.text("menu-station"),
        custom_variables: i18n.text("menu-custom-variables"),
        input_device: i18n.text("input-device"),
        no_input: i18n.text("status-no-audio"),
        output_device: i18n.text("output-device"),
        no_output: i18n.text("status-no-output"),
        transmit: i18n.text("menu-transmit"),
        send_fskid: i18n.text("action-send-fskid"),
        receive: i18n.text("menu-receive"),
        vis_restart: i18n.text("action-vis-restart"),
        history: i18n.text("menu-history"),
        auto_history: i18n.text("action-auto-history"),
        rig: i18n.text("menu-rig"),
        rig_write_script: i18n.text("action-rig-write-script"),
        rig_write_bands: i18n.text("action-rig-write-bands"),
        language: i18n.text("menu-language"),
        help: i18n.text("menu-help"),
        manual: i18n.text("menu-manual"),
        zoom_reset: i18n.text_with("menu-zoom-reset", &args),
        folders,
        formats,
    };
    let ghost want = menu_texts(i18n.messages(), percent@);
    assert(l@.folders =~= want.folders);
    assert(l@.formats =~= want.formats);
    l
}

/// Describes the menu as it should currently appear: its texts in the
/// language of `i18n`, the zoom reset entry showing `zoom_percent`, and the
/// marks and lists of `st`.
pub fn model(i18n: &I18n, zoom_percent: &str, st: &MenuState) -> (menus: Vec<Menu>)
    ensures
        is_model(menus@, menu_texts(i18n.messages(), zoom_percent@), *st),
{
    let l = menu_labels(i18n, zoom_percent);
    model_from_labels(&l, st)
}

/// The message key an entry that asks for `action` is labelled by, where
/// the action fixes one: devices and languages are named by themselves, and
/// the zoom reset entry carries the scale in use.
pub open spec fn action_key(action: Action) -> Option<Seq<char>> {
    match action {
        Action::ShowStation => Some("menu-station"@),
        Action::ShowCustomVariables => Some("menu-custom-variables"@),
        Action::ToggleSendFskid => Some("action-send-fskid"@),
        Action::ToggleVisRestart => Some("action-vis-restart"@),
        Action::WriteRigScript => Some("action-rig-write-script"@),
        Action::WriteBandPlan => Some("action-rig-write-bands"@),
        Action::ToggleAutoHistory => Some("action-auto-history"@),
        Action::SelectHistoryFormat(format) => Some(format.spec_label_key()),
        Action::OpenManual => Some("menu-manual"@),
        Action::ZoomIn => Some("menu-zoom-in"@),
        Action::ZoomOut => Some("menu-zoom-out"@),
        Action::Reveal(folder) => Some(folder.spec_label_key()),
        Action::Quit => Some("menu-quit"@),
        _ => None,
    }
}

/// Whether `item`, if it asks for an action that fixes a message key, is
/// labelled by that key's message in `m`.
pub open spec fn labelled_by_its_action(
    item: Item,
    m: Map<(Seq<char>, Option<Seq<(Seq<char>, Seq<char>)>>), Seq<char>>,
) -> bool {
    match item {
        Item::Command { label, action } => action_key(action) matches Some(key) ==> label@ == shown(m, key, None),
        Item::Check { label, action, .. } => action_key(action) matches Some(key) ==> label@ == shown(m, key, None),
        _ => true,
    }
}

/// Whether every entry of `items`, and every entry of a submenu among them,
/// is labelled by its action's message in `m`.
pub open spec fn all_labelled_by_their_actions(
    items: Seq<Item>,
    m: Map<(Seq<char>, Option<Seq<(Seq<char>, Seq<char>)>>), Seq<char>>,
) -> bool {
    forall|j: int|
        0 <= j < items.len() ==> labelled_by_its_action(#[trigger] items[j], m) && (items[j] matches Item::Submenu {
            items: inner,
            ..
        } ==> forall|k: int| 0 <= k < inner.len() ==> labelled_by_its_action(#[trigger] inner@[k], m))
}

/// The menu a model describes speaks the language of its messages: the bar
/// reads File, View, Settings and Help in it, every entry that asks for an
/// action is labelled by the message of that action's own key (zooming in
/// by `menu-zoom-in`, out by `menu-zoom-out`, a folder by its label key, and
/// so on), and the zoom reset entry by `menu-zoom-reset` with the scale in
/// use.
pub proof fn lemma_each_entry_is_labelled_by_its_action(
    menus: Seq<Menu>,
    m: Map<(Seq<char>, Option<Seq<(Seq<char>, Seq<char>)>>), Seq<char>>,
    percent: Seq<char>,
    st: MenuState,
)
    requires
        is_model(menus, menu_texts(m, percent), st),
    ensures
        menus[0].label@ == shown(m, "menu-file"@, None),
        menus[1].label@ == shown(m, "menu-view"@, None),
        menus[2].label@ == shown(m, "menu-settings"@, None),
        menus[3].label@ == shown(m, "menu-help"@, None),
        forall|i: int| 0 <= i < menus.len() ==> all_labelled_by_their_actions(#[trigger] menus[i].items@, m),
        is_command(menus[1].items@[2], shown(m, "menu-zoom-reset"@, Some(seq![("percent"@, percent)])), Action::ZoomReset),
        menus[2].items@[3] matches Item::Submenu { label, items } && label@ == shown(m, "input-device"@, None) && (
        st.input_devices.len() == 0 ==> (items@[0] matches Item::Pending(p) && p@ == shown(m, "status-no-audio"@, None))),
        menus[2].items@[4] matches Item::Submenu { label, items } && label@ == shown(m, "output-device"@, None) && (
        st.output_devices.len() == 0 ==> (items@[0] matches Item::Pending(p) && p@ == shown(m, "status-no-output"@, None))),
        menus[2].items@[5] matches Item::Submenu { label, .. } && label@ == shown(m, "menu-transmit"@, None),
        menus[2].items@[6] matches Item::Submenu { label, .. } && label@ == shown(m, "menu-receive"@, None),
        menus[2].items@[7] matches Item::Submenu { label, .. } && label@ == shown(m, "menu-history"@, None),
        menus[2].items@[8] matches Item::Submenu { label, .. } && label@ == shown(m, "menu-rig"@, None),
        menus[2].items@[10] matches Item::Submenu { label, .. } && label@ == shown(m, "menu-language"@, None),
{
    reveal_strlit("menu-zoom-reset");
    let t = menu_texts(m, percent);
    assert forall|i: int| 0 <= i < menus.len() implies all_labelled_by_their_actions(#[trigger] menus[i].items@, m) by {
        let items = menus[i].items@;
        assert forall|j: int| 0 <= j < items.len() implies labelled_by_its_action(#[trigger] items[j], m) && (
        items[j] matches Item::Submenu { items: inner, .. } ==> forall|k: int|
            0 <= k < inner.len() ==> labelled_by_its_action(#[trigger] inner@[k], m)) by {
            if i == 0 {
                assert(t.folders[0] == shown(m, Folder::Received.spec_label_key(), None));
                assert(t.folders[1] == shown(m, Folder::Sent.spec_label_key(), None));
                assert(t.folders[2] == shown(m, Folder::Stocks.spec_label_key(), None));
                assert(t.folders[3] == shown(m, Folder::Templates.spec_label_key(), None));
                assert(t.folders[4] == shown(m, Folder::Assets.spec_label_key(), None));
                assert(t.folders[5] == shown(m, Folder::Config.spec_label_key(), None));
            } else if i == 2 {
                if j == 3 || j == 4 {
                    if let Item::Submenu { items: inner, .. } = items[j] {
                        assert forall|k: int| 0 <= k < inner.len() implies labelled_by_its_action(#[trigger] inner@[k], m) by {
                            if inner@.len() == 1 && inner@[0] is Pending {
                            } else {
                                assert(inner@[k] is Check);
                            }
                        }
                    }
                } else if j == 7 {
                    assert(t.formats[0] == shown(m, HistoryFormat::Webp.spec_label_key(), None));
                    assert(t.formats[1] == shown(m, HistoryFormat::Png.spec_label_key(), None));
                    assert(t.formats[2] == shown(m, HistoryFormat::Jpeg.spec_label_key(), None));
                }
            }
        }
    }
}

/// Whether activating `action` asks the application to close.
pub fn asks_to_close(action: &Action) -> (close: bool)
    ensures
        close == (*action is Quit),
{
    match action {
        Action::Quit => true,
        _ => false,
    }
}

/// What asking for the manual comes to.
pub enum ManualOpening {
    /// The page to open.
    Open(String),
    /// There is no manual to open; the text says so to the operator.
    Missing(String),
}

/// What asking for the manual comes to, given the page shipped beside the
/// executable, if there is one: that page is opened; without one, the
/// operator is told so in the language of `i18n`, rather than the entry
/// seeming to do nothing.
pub fn manual_opening(shipped: Option<String>, i18n: &I18n) -> (opening: ManualOpening)
    ensures
        match shipped {
            Some(page) => opening matches ManualOpening::Open(p) && p@ == page@,
            None => opening matches ManualOpening::Missing(m) && m@ == shown(i18n.messages(), "error-manual-missing"@, None),
        },
{
    match shipped {
        Some(page) => ManualOpening::Open(page),
        None => ManualOpening::Missing(i18n.text("error-manual-missing")),
    }
}

} // verus!
