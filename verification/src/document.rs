//! What the configuration document holds, as the settings see it, and what
//! each edit does to it.
//!
//! A document is a tree of sections: every key sits at a path of section
//! names, and a key can only be read when each section on the way to it is a
//! section. The edits the settings are written back with are described here by
//! what they do to that tree, which is what lets the settings be shown to
//! come back as they were stored.

use vstd::prelude::*;
use crate::config::{at, store_edits, EditView, Settings, StoredPort, StoredSettings, StoredValue, StoredVariable, StoredView};
use crate::text::trimmed;

verus! {

/// What a document holds at a path.
pub enum Entry {
    Value(StoredView),
    /// A number the settings keep beside the ones they read.
    Number,
    Section,
}

/// Whether `a` is `b` or a section on the way to it.
pub open spec fn leads(a: Seq<Seq<char>>, b: Seq<Seq<char>>) -> bool {
    a.len() <= b.len() && forall|j: int| 0 <= j < a.len() ==> a[j] == b[j]
}

/// Whether neither of `a` and `b` leads to the other.
pub open spec fn apart(a: Seq<Seq<char>>, b: Seq<Seq<char>>) -> bool {
    exists|j: int| 0 <= j < a.len() && j < b.len() && a[j] != b[j]
}

/// Whether `d` holds a section at `p`.
pub open spec fn is_section(d: Map<Seq<Seq<char>>, Entry>, p: Seq<Seq<char>>) -> bool {
    d.contains_key(p) && d[p] is Section
}

/// Whether every section on the way to `p` is one.
pub open spec fn reachable(d: Map<Seq<Seq<char>>, Entry>, p: Seq<Seq<char>>) -> bool {
    forall|k: int| 1 <= k < p.len() ==> #[trigger] is_section(d, p.take(k))
}

/// What a reader finds at `p`.
pub open spec fn seen(d: Map<Seq<Seq<char>>, Entry>, p: Seq<Seq<char>>) -> Option<Entry> {
    if reachable(d, p) && d.contains_key(p) {
        Some(d[p])
    } else {
        None
    }
}

/// What `p` holds, read as a stored value.
pub open spec fn value_at(d: Map<Seq<Seq<char>>, Entry>, p: Seq<Seq<char>>) -> Option<StoredView> {
    match seen(d, p) {
        Some(Entry::Value(v)) => Some(v),
        Some(_) => Some(StoredView::Other),
        None => None,
    }
}

/// Whether `p` can be read as a section.
pub open spec fn section_at(d: Map<Seq<Seq<char>>, Entry>, p: Seq<Seq<char>>) -> bool {
    seen(d, p) == Some(Entry::Section)
}

/// Whether `q` lies at or below a section on the way to `p` that `d` does not
/// hold as a section.
pub open spec fn below_gap(d: Map<Seq<Seq<char>>, Entry>, p: Seq<Seq<char>>, q: Seq<Seq<char>>) -> bool {
    exists|k: int| 1 <= k < p.len() && !is_section(d, p.take(k)) && #[trigger] leads(p.take(k), q)
}

/// Whether `q` names a section on the way to `p`.
pub open spec fn on_way(p: Seq<Seq<char>>, q: Seq<Seq<char>>) -> bool {
    1 <= q.len() < p.len() && leads(q, p)
}

/// `d` with each section on the way to `p` made one: anything else held
/// there is replaced by an empty section.
pub open spec fn sections_to(d: Map<Seq<Seq<char>>, Entry>, p: Seq<Seq<char>>) -> Map<Seq<Seq<char>>, Entry> {
    Map::new(
        |q: Seq<Seq<char>>| (d.contains_key(q) && !below_gap(d, p, q)) || on_way(p, q),
        |q: Seq<Seq<char>>| if on_way(p, q) {
            Entry::Section
        } else {
            d[q]
        },
    )
}

/// `d` without `p` and what lies below it.
pub open spec fn without(d: Map<Seq<Seq<char>>, Entry>, p: Seq<Seq<char>>) -> Map<Seq<Seq<char>>, Entry> {
    Map::new(|q: Seq<Seq<char>>| d.contains_key(q) && !leads(p, q), |q: Seq<Seq<char>>| d[q])
}

/// The path an edit works at.
pub open spec fn edit_path(e: (Seq<Seq<char>>, Seq<char>, EditView)) -> Seq<Seq<char>> {
    e.0.push(e.1)
}

/// `d` once `e` is made.
pub open spec fn apply_edit(d: Map<Seq<Seq<char>>, Entry>, e: (Seq<Seq<char>>, Seq<char>, EditView)) -> Map<
    Seq<Seq<char>>,
    Entry,
> {
    let p = edit_path(e);
    let d1 = sections_to(d, p);
    match e.2 {
        EditView::Assign(v) => without(d1, p).insert(p, Entry::Value(v)),
        EditView::Number(_) => without(d1, p).insert(p, Entry::Number),
        EditView::Remove => if reachable(d, p) {
            without(d, p)
        } else {
            d
        },
        EditView::KeepOnly(names) => if is_section(d1, p) {
            Map::new(
                |q: Seq<Seq<char>>| d1.contains_key(q) && !(leads(p, q) && q.len() > p.len() && !names.contains(q[p.len() as int])),
                |q: Seq<Seq<char>>| d1[q],
            )
        } else {
            without(d1, p).insert(p, Entry::Section)
        },
        EditView::Section => if is_section(d1, p) {
            d1
        } else {
            without(d1, p).insert(p, Entry::Section)
        },
    }
}

/// `d` once every edit of `edits` is made, in order.
pub open spec fn apply_edits(d: Map<Seq<Seq<char>>, Entry>, edits: Seq<(Seq<Seq<char>>, Seq<char>, EditView)>) -> Map<
    Seq<Seq<char>>,
    Entry,
>
    decreases edits.len(),
{
    if edits.len() == 0 {
        d
    } else {
        apply_edit(apply_edits(d, edits.drop_last()), edits.last())
    }
}

/// Making `a` and then `b` is making `a + b`.
pub proof fn lemma_apply_append(
    d: Map<Seq<Seq<char>>, Entry>,
    a: Seq<(Seq<Seq<char>>, Seq<char>, EditView)>,
    b: Seq<(Seq<Seq<char>>, Seq<char>, EditView)>,
)
    ensures
        apply_edits(d, a + b) == apply_edits(apply_edits(d, a), b),
    decreases b.len(),
{
    if b.len() == 0 {
        assert(a + b =~= a);
    } else {
        assert((a + b).drop_last() =~= a + b.drop_last());
        assert((a + b).last() == b.last());
        lemma_apply_append(d, a, b.drop_last());
    }
}

/// Whether `d` and `e` hold the same at `q` and at each section on the way.
pub open spec fn agree_on_way(d: Map<Seq<Seq<char>>, Entry>, e: Map<Seq<Seq<char>>, Entry>, q: Seq<Seq<char>>) -> bool {
    forall|x: Seq<Seq<char>>|
        1 <= x.len() && #[trigger] leads(x, q) ==> (e.contains_key(x) == d.contains_key(x) && (d.contains_key(x)
            ==> e[x] == d[x]))
}

/// Documents that agree at `q` and on the way to it read alike there.
proof fn lemma_agree_seen(d: Map<Seq<Seq<char>>, Entry>, e: Map<Seq<Seq<char>>, Entry>, q: Seq<Seq<char>>)
    requires
        1 <= q.len(),
        agree_on_way(d, e, q),
    ensures
        seen(e, q) == seen(d, q),
{
    assert forall|k: int|
        #![trigger is_section(e, q.take(k))]
        #![trigger is_section(d, q.take(k))]
        1 <= k < q.len() implies is_section(e, q.take(k)) == is_section(d, q.take(k)) by {
        assert(leads(q.take(k), q));
    }
    assert(leads(q, q));
}

/// A path apart from the one an edit works at reads as it did.
pub proof fn lemma_apart_kept(d: Map<Seq<Seq<char>>, Entry>, e: (Seq<Seq<char>>, Seq<char>, EditView), q: Seq<Seq<char>>)
    requires
        apart(edit_path(e), q),
    ensures
        seen(apply_edit(d, e), q) == seen(d, q),
{
    let p = edit_path(e);
    let i = choose|j: int| 0 <= j < p.len() && j < q.len() && p[j] != q[j];
    let d1 = sections_to(d, p);
    let d2 = apply_edit(d, e);
    // Nothing at or on the way to `q` lies below `p`.
    assert forall|x: Seq<Seq<char>>| leads(x, q) implies !leads(p, x) by {
        if leads(p, x) {
            assert(p[i] == x[i]);
        }
    }
    if e.2 is Remove {
        if reachable(d, p) {
            assert(agree_on_way(d, d2, q));
            lemma_agree_seen(d, d2, q);
        }
        return;
    }
    // Below `p` aside, the edit leaves what `sections_to` made.
    assert(agree_on_way(d1, d2, q)) by {
        assert forall|x: Seq<Seq<char>>| 1 <= x.len() && #[trigger] leads(x, q) implies (d2.contains_key(x)
            == d1.contains_key(x) && (d1.contains_key(x) ==> d2[x] == d1[x])) by {
            assert(!leads(p, x));
            assert(x != p) by {
                assert(leads(p, p));
            }
            match e.2 {
                EditView::Assign(v) => {},
                EditView::Number(n) => {},
                EditView::KeepOnly(names) => {},
                EditView::Section => {},
                EditView::Remove => {},
            }
        }
    }
    lemma_agree_seen(d1, d2, q);
    if exists|k: int| 1 <= k < p.len() && !is_section(d, p.take(k)) && #[trigger] leads(p.take(k), q) {
        let k = choose|k: int| 1 <= k < p.len() && !is_section(d, p.take(k)) && #[trigger] leads(p.take(k), q);
        assert(k <= i) by {
            if k > i {
                assert(p.take(k)[i] == p[i]);
            }
        }
        assert(q.take(k) =~= p.take(k));
        assert(!reachable(d, q)) by {
            assert(!is_section(d, q.take(k)));
        }
        assert(below_gap(d, p, q));
        assert(!on_way(p, q)) by {
            if on_way(p, q) {
                assert(q[i] == p[i]);
            }
        }
        assert(!d1.contains_key(q));
    } else {
        assert(agree_on_way(d, d1, q)) by {
            assert forall|x: Seq<Seq<char>>| 1 <= x.len() && #[trigger] leads(x, q) implies (d1.contains_key(x)
                == d.contains_key(x) && (d.contains_key(x) ==> d1[x] == d[x])) by {
                assert(!below_gap(d, p, x)) by {
                    if below_gap(d, p, x) {
                        let k = choose|k: int| 1 <= k < p.len() && !is_section(d, p.take(k)) && #[trigger] leads(p.take(k), x);
                        assert(leads(p.take(k), q));
                    }
                }
                if on_way(p, x) {
                    assert(x =~= p.take(x.len() as int));
                    assert(leads(p.take(x.len() as int), q));
                }
            }
        }
        lemma_agree_seen(d, d1, q);
    }
}

/// Making `es` and then `e` is making `es.push(e)`.
pub proof fn lemma_apply_push(
    d: Map<Seq<Seq<char>>, Entry>,
    es: Seq<(Seq<Seq<char>>, Seq<char>, EditView)>,
    e: (Seq<Seq<char>>, Seq<char>, EditView),
)
    ensures
        apply_edits(d, es.push(e)) == apply_edit(apply_edits(d, es), e),
{
    assert(es.push(e).drop_last() =~= es);
}

/// Whether `a` and `b` part at one of their first four names.
pub open spec fn differ(a: Seq<Seq<char>>, b: Seq<Seq<char>>) -> bool {
    ||| (a.len() > 0 && b.len() > 0 && a[0] != b[0])
    ||| (a.len() > 1 && b.len() > 1 && a[1] != b[1])
    ||| (a.len() > 2 && b.len() > 2 && a[2] != b[2])
    ||| (a.len() > 3 && b.len() > 3 && a[3] != b[3])
}

/// Paths that part at one of their first names are apart.
pub proof fn lemma_differ_apart(a: Seq<Seq<char>>, b: Seq<Seq<char>>)
    requires
        differ(a, b),
    ensures
        apart(a, b),
{
    if a.len() > 0 && b.len() > 0 && a[0] != b[0] {
        assert(0 < a.len() && 0 < b.len() && a[0] != b[0]);
    } else if a.len() > 1 && b.len() > 1 && a[1] != b[1] {
        assert(1 < a.len() && 1 < b.len() && a[1] != b[1]);
    } else if a.len() > 2 && b.len() > 2 && a[2] != b[2] {
        assert(2 < a.len() && 2 < b.len() && a[2] != b[2]);
    } else {
        assert(3 < a.len() && 3 < b.len() && a[3] != b[3]);
    }
}

/// An assignment is read back where it was made.
pub proof fn lemma_assign_read(d: Map<Seq<Seq<char>>, Entry>, e: (Seq<Seq<char>>, Seq<char>, EditView))
    requires
        e.2 is Assign,
    ensures
        seen(apply_edit(d, e), edit_path(e)) == Some(Entry::Value(e.2->Assign_0)),
{
    let p = edit_path(e);
    let d2 = apply_edit(d, e);
    assert forall|k: int| 1 <= k < p.len() implies #[trigger] is_section(d2, p.take(k)) by {
        assert(on_way(p, p.take(k)));
        assert(!leads(p, p.take(k)));
    }
}

/// A section on the way to where an edit works stays a section.
pub proof fn lemma_section_on_way_kept(
    d: Map<Seq<Seq<char>>, Entry>,
    e: (Seq<Seq<char>>, Seq<char>, EditView),
    x: Seq<Seq<char>>,
)
    requires
        section_at(d, x),
        1 <= x.len() < edit_path(e).len(),
        leads(x, edit_path(e)),
    ensures
        section_at(apply_edit(d, e), x),
{
    let p = edit_path(e);
    let d1 = sections_to(d, p);
    let d2 = apply_edit(d, e);
    assert(forall|y: Seq<Seq<char>>| leads(y, x) ==> !leads(p, y));
    assert forall|k: int| 1 <= k < x.len() implies #[trigger] is_section(d2, x.take(k)) by {
        assert(is_section(d, x.take(k)));
        assert(leads(x.take(k), x));
        assert(on_way(p, x.take(k)));
    }
    assert(on_way(p, x));
    assert(leads(x, x));
}

/// A removal leaves nothing readable at or below where it was made.
pub proof fn lemma_remove_read(d: Map<Seq<Seq<char>>, Entry>, e: (Seq<Seq<char>>, Seq<char>, EditView), q: Seq<Seq<char>>)
    requires
        e.2 is Remove,
        leads(edit_path(e), q),
    ensures
        seen(apply_edit(d, e), q) == None::<Entry>,
{
    let p = edit_path(e);
    if !reachable(d, p) {
        let k = choose|k: int| 1 <= k < p.len() && !is_section(d, #[trigger] p.take(k));
        assert(q.take(k) =~= p.take(k));
    }
}

/// A section kept to some names is a section, and holds nothing readable
/// under any other name.
pub proof fn lemma_keep_only_read(
    d: Map<Seq<Seq<char>>, Entry>,
    e: (Seq<Seq<char>>, Seq<char>, EditView),
    q: Seq<Seq<char>>,
)
    requires
        e.2 is KeepOnly,
    ensures
        section_at(apply_edit(d, e), edit_path(e)),
        leads(edit_path(e), q) && q.len() > edit_path(e).len() && !e.2->KeepOnly_0.contains(q[edit_path(e).len() as int])
            ==> seen(apply_edit(d, e), q) == None::<Entry>,
{
    let p = edit_path(e);
    let d1 = sections_to(d, p);
    let d2 = apply_edit(d, e);
    assert forall|k: int| 1 <= k < p.len() implies #[trigger] is_section(d2, p.take(k)) by {
        assert(on_way(p, p.take(k)));
        assert(!leads(p, p.take(k)));
    }
    assert(leads(p, p));
}

/// A section made so is a section.
pub proof fn lemma_section_read(d: Map<Seq<Seq<char>>, Entry>, e: (Seq<Seq<char>>, Seq<char>, EditView))
    requires
        e.2 is Section,
    ensures
        section_at(apply_edit(d, e), edit_path(e)),
{
    let p = edit_path(e);
    let d2 = apply_edit(d, e);
    assert forall|k: int| 1 <= k < p.len() implies #[trigger] is_section(d2, p.take(k)) by {
        assert(on_way(p, p.take(k)));
        assert(!leads(p, p.take(k)));
    }
    assert(leads(p, p));
}

/// Reading a write that no later edit comes near finds what the write made.
pub proof fn lemma_write_read(
    d: Map<Seq<Seq<char>>, Entry>,
    es: Seq<(Seq<Seq<char>>, Seq<char>, EditView)>,
    k: int,
)
    requires
        0 <= k < es.len(),
        forall|j: int| k < j < es.len() ==> differ(edit_path(#[trigger] es[j]), edit_path(es[k])),
    ensures
        seen(apply_edits(d, es), edit_path(es[k])) == seen(apply_edit(apply_edits(d, es.take(k)), es[k]), edit_path(es[k])),
    decreases es.len(),
{
    if es.len() == k + 1 {
        assert(es.drop_last() =~= es.take(k));
    } else {
        let q = edit_path(es[k]);
        assert(es.drop_last()[k] == es[k]);
        assert(es.drop_last().take(k) =~= es.take(k));
        lemma_write_read(d, es.drop_last(), k);
        assert(differ(edit_path(es[es.len() - 1]), q));
        lemma_differ_apart(edit_path(es.last()), q);
        lemma_apart_kept(apply_edits(d, es.drop_last()), es.last(), q);
    }
}

/// The names the settings are kept under, each by its length and first
/// letter, which is all it takes to tell them apart.
pub(crate) proof fn lemma_keys()
    ensures
        "language"@.len() == 8 && "language"@[0] == 'l',
        "ui-scale"@.len() == 8 && "ui-scale"@[0] == 'u',
        "audio"@.len() == 5 && "audio"@[0] == 'a',
        "input-device"@.len() == 12 && "input-device"@[0] == 'i',
        "output-device"@.len() == 13 && "output-device"@[0] == 'o',
        "callsign"@.len() == 8 && "callsign"@[0] == 'c',
        "station"@.len() == 7 && "station"@[0] == 's',
        "qth"@.len() == 3 && "qth"@[0] == 'q',
        "grid"@.len() == 4 && "grid"@[0] == 'g',
        "qso"@.len() == 3 && "qso"@[0] == 'q',
        "number"@.len() == 6 && "number"@[0] == 'n',
        "variables"@.len() == 9 && "variables"@[0] == 'v',
        "library"@.len() == 7 && "library"@[0] == 'l',
        "template"@.len() == 8 && "template"@[0] == 't',
        "stock"@.len() == 5 && "stock"@[0] == 's',
        "receive"@.len() == 7 && "receive"@[0] == 'r',
        "mode"@.len() == 4 && "mode"@[0] == 'm',
        "auto-vis"@.len() == 8 && "auto-vis"@[0] == 'a',
        "afc"@.len() == 3 && "afc"@[0] == 'a',
        "lms"@.len() == 3 && "lms"@[0] == 'l',
        "slant"@.len() == 5 && "slant"@[0] == 's',
        "vis-restart"@.len() == 11 && "vis-restart"@[0] == 'v',
        "transmit"@.len() == 8 && "transmit"@[0] == 't',
        "fskid"@.len() == 5 && "fskid"@[0] == 'f',
        "contest"@.len() == 7 && "contest"@[0] == 'c',
        "volume"@.len() == 6 && "volume"@[0] == 'v',
        "auto-history"@.len() == 12 && "auto-history"@[0] == 'a',
        "history-format"@.len() == 14 && "history-format"@[0] == 'h',
        "rig"@.len() == 3 && "rig"@[0] == 'r',
        "enabled"@.len() == 7 && "enabled"@[0] == 'e',
        "poll-interval"@.len() == 13 && "poll-interval"@[0] == 'p',
        "lead-in"@.len() == 7 && "lead-in"@[0] == 'l',
        "tail"@.len() == 4 && "tail"@[0] == 't',
        "address"@.len() == 7 && "address"@[0] == 'a',
        "commands"@.len() == 8 && "commands"@[0] == 'c',
        "bands"@.len() == 5 && "bands"@[0] == 'b',
        "ports"@.len() == 5 && "ports"@[0] == 'p',
        "kind"@.len() == 4 && "kind"@[0] == 'k',
{
    reveal_strlit("language");
    reveal_strlit("ui-scale");
    reveal_strlit("audio");
    reveal_strlit("input-device");
    reveal_strlit("output-device");
    reveal_strlit("callsign");
    reveal_strlit("station");
    reveal_strlit("qth");
    reveal_strlit("grid");
    reveal_strlit("qso");
    reveal_strlit("number");
    reveal_strlit("variables");
    reveal_strlit("library");
    reveal_strlit("template");
    reveal_strlit("stock");
    reveal_strlit("receive");
    reveal_strlit("mode");
    reveal_strlit("auto-vis");
    reveal_strlit("afc");
    reveal_strlit("lms");
    reveal_strlit("slant");
    reveal_strlit("vis-restart");
    reveal_strlit("transmit");
    reveal_strlit("fskid");
    reveal_strlit("contest");
    reveal_strlit("volume");
    reveal_strlit("auto-history");
    reveal_strlit("history-format");
    reveal_strlit("rig");
    reveal_strlit("enabled");
    reveal_strlit("poll-interval");
    reveal_strlit("lead-in");
    reveal_strlit("tail");
    reveal_strlit("address");
    reveal_strlit("commands");
    reveal_strlit("bands");
    reveal_strlit("ports");
    reveal_strlit("kind");
}

/// Where an edit made with `at` works.
proof fn lemma_at_path(section: Seq<char>, key: Seq<char>, value: EditView)
    ensures
        edit_path(at(section, key, value)) == (if section.len() == 0 {
            seq![key]
        } else {
            seq![section, key]
        }),
{
    assert(edit_path(at(section, key, value)) =~= (if section.len() == 0 {
        seq![key]
    } else {
        seq![section, key]
    }));
}

/// What an assignment or a removal leaves readable where it is made.
pub open spec fn written(v: EditView) -> Option<StoredView> {
    match v {
        EditView::Assign(x) => Some(x),
        _ => None,
    }
}

proof fn lemma_written_read(d: Map<Seq<Seq<char>>, Entry>, e: (Seq<Seq<char>>, Seq<char>, EditView))
    requires
        e.2 is Assign || e.2 is Remove,
    ensures
        value_at(apply_edit(d, e), edit_path(e)) == written(e.2),
{
    if e.2 is Assign {
        lemma_assign_read(d, e);
    } else {
        assert(leads(edit_path(e), edit_path(e)));
        lemma_remove_read(d, e, edit_path(e));
    }
}

/// Where each edit of `es` works.
pub open spec fn paths_of(es: Seq<(Seq<Seq<char>>, Seq<char>, EditView)>) -> Seq<Seq<Seq<char>>> {
    es.map_values(|e: (Seq<Seq<char>>, Seq<char>, EditView)| edit_path(e))
}

/// Whether each edit of `es` works apart from every one before it.
pub open spec fn spread(es: Seq<(Seq<Seq<char>>, Seq<char>, EditView)>) -> bool {
    forall|i: int, j: int| 0 <= i < j < es.len() ==> differ(#[trigger] paths_of(es)[j], #[trigger] paths_of(es)[i])
}

/// What a write among edits that all work apart reads as.
proof fn lemma_spread_read(d: Map<Seq<Seq<char>>, Entry>, es: Seq<(Seq<Seq<char>>, Seq<char>, EditView)>, k: int)
    requires
        spread(es),
        0 <= k < es.len(),
        es[k].2 is Assign || es[k].2 is Remove,
    ensures
        value_at(apply_edits(d, es), edit_path(es[k])) == written(es[k].2),
{
    assert forall|j: int| k < j < es.len() implies differ(edit_path(#[trigger] es[j]), edit_path(es[k])) by {
        assert(paths_of(es)[j] == edit_path(es[j]));
        assert(paths_of(es)[k] == edit_path(es[k]));
    }
    lemma_write_read(d, es, k);
    lemma_written_read(apply_edits(d, es.take(k)), es[k]);
}

/// The paths the station's head edits work at.
pub open spec fn head_paths() -> Seq<Seq<Seq<char>>> {
    seq![
        seq!["language"@],
        seq!["ui-scale"@],
        seq!["audio"@, "input-device"@],
        seq!["audio"@, "output-device"@],
        seq!["callsign"@],
        seq!["station"@, "callsign"@],
        seq!["station"@, "qth"@],
        seq!["station"@, "grid"@],
        seq!["qso"@, "number"@],
    ]
}

/// The head edits work at the head paths, each apart from the others.
proof fn lemma_head_spread(s: crate::config::Settings)
    ensures
        paths_of(crate::config::head_edits(s)) == head_paths(),
        spread(crate::config::head_edits(s)),
{
    lemma_keys();
    let h = crate::config::head_edits(s);
    lemma_at_path(Seq::empty(), "language"@, h[0].2);
    lemma_at_path(Seq::empty(), "ui-scale"@, h[1].2);
    lemma_at_path("audio"@, "input-device"@, h[2].2);
    lemma_at_path("audio"@, "output-device"@, h[3].2);
    lemma_at_path(Seq::empty(), "callsign"@, h[4].2);
    lemma_at_path("station"@, "callsign"@, h[5].2);
    lemma_at_path("station"@, "qth"@, h[6].2);
    lemma_at_path("station"@, "grid"@, h[7].2);
    lemma_at_path("qso"@, "number"@, h[8].2);
    assert(paths_of(h) =~= head_paths());
    let ps = head_paths();
    assert forall|i: int, j: int| 0 <= i < j < h.len() implies differ(#[trigger] paths_of(h)[j], #[trigger] paths_of(h)[i]) by {
        assert(0 <= i < 9 && 0 <= j < 9);
        assert(ps[0][0] != ps[1][0]);
    }
}

/// Edits that each work apart from `q` leave it reading as it did.
pub proof fn lemma_frame(d: Map<Seq<Seq<char>>, Entry>, es: Seq<(Seq<Seq<char>>, Seq<char>, EditView)>, q: Seq<Seq<char>>)
    requires
        forall|j: int| 0 <= j < es.len() ==> differ(#[trigger] paths_of(es)[j], q),
    ensures
        seen(apply_edits(d, es), q) == seen(d, q),
    decreases es.len(),
{
    if es.len() > 0 {
        assert forall|j: int| 0 <= j < es.drop_last().len() implies differ(#[trigger] paths_of(es.drop_last())[j], q) by {
            assert(paths_of(es.drop_last())[j] == paths_of(es)[j]);
        }
        lemma_frame(d, es.drop_last(), q);
        assert(paths_of(es)[es.len() - 1] == edit_path(es.last()));
        lemma_differ_apart(edit_path(es.last()), q);
        lemma_apart_kept(apply_edits(d, es.drop_last()), es.last(), q);
    }
}

/// The paths the edits for the library, reception and transmission work at.
pub open spec fn middle_paths() -> Seq<Seq<Seq<char>>> {
    seq![
        seq!["library"@, "template"@],
        seq!["library"@, "stock"@],
        seq!["receive"@, "mode"@],
        seq!["receive"@, "auto-vis"@],
        seq!["receive"@, "afc"@],
        seq!["receive"@, "lms"@],
        seq!["receive"@, "slant"@],
        seq!["receive"@, "vis-restart"@],
        seq!["transmit"@, "fskid"@],
        seq!["transmit"@, "contest"@],
        seq!["transmit"@, "volume"@],
        seq!["receive"@, "auto-history"@],
        seq!["receive"@, "history-format"@],
        seq!["transmit"@, "mode"@],
    ]
}

/// The middle edits work at the middle paths, each apart from the others.
proof fn lemma_middle_spread(s: crate::config::Settings, rx_mode: Seq<char>, tx_mode: Seq<char>)
    ensures
        paths_of(crate::config::middle_edits(s, rx_mode, tx_mode)) == middle_paths(),
        spread(crate::config::middle_edits(s, rx_mode, tx_mode)),
{
    lemma_keys();
    let h = crate::config::middle_edits(s, rx_mode, tx_mode);
    lemma_at_path("library"@, "template"@, h[0].2);
    lemma_at_path("library"@, "stock"@, h[1].2);
    lemma_at_path("receive"@, "mode"@, h[2].2);
    lemma_at_path("receive"@, "auto-vis"@, h[3].2);
    lemma_at_path("receive"@, "afc"@, h[4].2);
    lemma_at_path("receive"@, "lms"@, h[5].2);
    lemma_at_path("receive"@, "slant"@, h[6].2);
    lemma_at_path("receive"@, "vis-restart"@, h[7].2);
    lemma_at_path("transmit"@, "fskid"@, h[8].2);
    lemma_at_path("transmit"@, "contest"@, h[9].2);
    lemma_at_path("transmit"@, "volume"@, h[10].2);
    lemma_at_path("receive"@, "auto-history"@, h[11].2);
    lemma_at_path("receive"@, "history-format"@, h[12].2);
    lemma_at_path("transmit"@, "mode"@, h[13].2);
    assert(paths_of(h) =~= middle_paths());
    assert forall|i: int, j: int| 0 <= i < j < h.len() implies differ(#[trigger] paths_of(h)[j], #[trigger] paths_of(h)[i]) by {
        assert(0 <= i < 14 && 0 <= j < 14);
    }
}

/// The paths the rig edits work at.
pub open spec fn rig_paths() -> Seq<Seq<Seq<char>>> {
    seq![
        seq!["rig"@, "enabled"@],
        seq!["rig"@, "poll-interval"@],
        seq!["rig"@, "lead-in"@],
        seq!["rig"@, "tail"@],
        seq!["rig"@, "address"@],
        seq!["rig"@, "commands"@],
        seq!["rig"@, "bands"@],
        seq!["rig"@, "ports"@],
    ]
}

/// The rig edits work at the rig paths, each apart from the others.
proof fn lemma_rig_spread(s: crate::config::Settings)
    ensures
        paths_of(crate::config::rig_edits(s)) == rig_paths(),
        spread(crate::config::rig_edits(s)),
{
    lemma_keys();
    let h = crate::config::rig_edits(s);
    lemma_at_path("rig"@, "enabled"@, h[0].2);
    lemma_at_path("rig"@, "poll-interval"@, h[1].2);
    lemma_at_path("rig"@, "lead-in"@, h[2].2);
    lemma_at_path("rig"@, "tail"@, h[3].2);
    lemma_at_path("rig"@, "address"@, h[4].2);
    lemma_at_path("rig"@, "commands"@, h[5].2);
    lemma_at_path("rig"@, "bands"@, h[6].2);
    lemma_at_path("rig"@, "ports"@, h[7].2);
    assert(paths_of(h) =~= rig_paths());
    assert forall|i: int, j: int| 0 <= i < j < h.len() implies differ(#[trigger] paths_of(h)[j], #[trigger] paths_of(h)[i]) by {
        assert(0 <= i < 8 && 0 <= j < 8);
    }
}

/// Whether no name occurs twice among `vars`.
pub open spec fn distinct_names(vars: Seq<(Seq<char>, Seq<char>)>) -> bool {
    forall|i: int, j: int| 0 <= i < j < vars.len() ==> #[trigger] vars[i].0 != #[trigger] vars[j].0
}

/// The path of the variable named `name`.
pub open spec fn variable_path(name: Seq<char>) -> Seq<Seq<char>> {
    seq!["variables"@, name]
}

/// The assignments of the variables, one per name.
proof fn lemma_variable_assigns(
    d: Map<Seq<Seq<char>>, Entry>,
    vars: Seq<(Seq<char>, Seq<char>)>,
    m: int,
)
    requires
        distinct_names(vars),
        0 <= m <= vars.len(),
        section_at(d, seq!["variables"@]),
    ensures
        ({
            let a = vars.map_values(|v: (Seq<char>, Seq<char>)| at("variables"@, v.0, crate::config::text(v.1)));
            let e = apply_edits(d, a.take(m));
            &&& section_at(e, seq!["variables"@])
            &&& forall|k: int| 0 <= k < m ==> value_at(e, variable_path(#[trigger] vars[k].0)) == Some(StoredView::Text(vars[k].1))
            &&& forall|name: Seq<char>| (forall|k: int| 0 <= k < m ==> #[trigger] vars[k].0 != name) ==> seen(e, variable_path(name)) == seen(d, variable_path(name))
        }),
    decreases m,
{
    lemma_keys();
    let a = vars.map_values(|v: (Seq<char>, Seq<char>)| at("variables"@, v.0, crate::config::text(v.1)));
    if m == 0 {
        assert(a.take(0) =~= Seq::<(Seq<Seq<char>>, Seq<char>, EditView)>::empty());
    } else {
        lemma_variable_assigns(d, vars, m - 1);
        let before = apply_edits(d, a.take(m - 1));
        assert(a.take(m) =~= a.take(m - 1).push(a[m - 1]));
        lemma_apply_push(d, a.take(m - 1), a[m - 1]);
        let e = apply_edits(d, a.take(m));
        let n = vars[m - 1].0;
        lemma_at_path("variables"@, n, crate::config::text(vars[m - 1].1));
        assert(edit_path(a[m - 1]) == variable_path(n));
        lemma_section_on_way_kept(before, a[m - 1], seq!["variables"@]);
        lemma_written_read(before, a[m - 1]);
        assert forall|k: int| 0 <= k < m implies value_at(e, variable_path(#[trigger] vars[k].0)) == Some(
            StoredView::Text(vars[k].1),
        ) by {
            if k < m - 1 {
                assert(vars[k].0 != n);
                assert(differ(edit_path(a[m - 1]), variable_path(vars[k].0)));
                lemma_differ_apart(edit_path(a[m - 1]), variable_path(vars[k].0));
                lemma_apart_kept(before, a[m - 1], variable_path(vars[k].0));
            }
        }
        assert forall|name: Seq<char>| (forall|k: int| 0 <= k < m ==> #[trigger] vars[k].0 != name) implies seen(
            e,
            variable_path(name),
        ) == seen(d, variable_path(name)) by {
            assert(vars[m - 1].0 != name);
            assert(forall|k: int| 0 <= k < m - 1 ==> #[trigger] vars[k].0 != name);
            assert(differ(edit_path(a[m - 1]), variable_path(name)));
            lemma_differ_apart(edit_path(a[m - 1]), variable_path(name));
            lemma_apart_kept(before, a[m - 1], variable_path(name));
        }
    }
}

/// What the variable edits leave: a section holding each variable, and
/// nothing under any other name; or no section at all when there are none.
proof fn lemma_variables_read(d: Map<Seq<Seq<char>>, Entry>, vars: Seq<(Seq<char>, Seq<char>)>)
    requires
        distinct_names(vars),
    ensures
        ({
            let e = apply_edits(d, crate::config::variable_edits(vars));
            &&& section_at(e, seq!["variables"@]) == (vars.len() > 0)
            &&& forall|k: int| 0 <= k < vars.len() ==> value_at(e, variable_path(#[trigger] vars[k].0)) == Some(StoredView::Text(vars[k].1))
            &&& forall|name: Seq<char>| (forall|k: int| 0 <= k < vars.len() ==> #[trigger] vars[k].0 != name) ==> seen(e, variable_path(name)) == None::<Entry>
        }),
{
    lemma_keys();
    let es = crate::config::variable_edits(vars);
    let head = es[0];
    lemma_at_path(Seq::empty(), "variables"@, head.2);
    assert(edit_path(head) == seq!["variables"@]);
    assert(seq![head] =~= Seq::<(Seq<Seq<char>>, Seq<char>, EditView)>::empty().push(head));
    lemma_apply_push(d, Seq::empty(), head);
    let d1 = apply_edit(d, head);
    if vars.len() == 0 {
        assert(es =~= seq![head]);
        assert(leads(seq!["variables"@], seq!["variables"@]));
        lemma_remove_read(d, head, seq!["variables"@]);
        assert forall|name: Seq<char>| true implies seen(apply_edits(d, es), variable_path(name)) == None::<Entry> by {
            assert(leads(seq!["variables"@], variable_path(name)));
            lemma_remove_read(d, head, variable_path(name));
        }
    } else {
        let names = vars.map_values(|v: (Seq<char>, Seq<char>)| v.0);
        let a = vars.map_values(|v: (Seq<char>, Seq<char>)| at("variables"@, v.0, crate::config::text(v.1)));
        assert(es == seq![head] + a);
        lemma_apply_append(d, seq![head], a);
        lemma_keep_only_read(d, head, seq!["variables"@]);
        lemma_variable_assigns(d1, vars, vars.len() as int);
        assert(a.take(vars.len() as int) =~= a);
        assert forall|name: Seq<char>| (forall|k: int| 0 <= k < vars.len() ==> #[trigger] vars[k].0 != name) implies seen(
            apply_edits(d, es),
            variable_path(name),
        ) == None::<Entry> by {
            assert(!names.contains(name)) by {
                if names.contains(name) {
                    let k = choose|k: int| 0 <= k < names.len() && names[k] == name;
                    assert(vars[k].0 == name);
                }
            }
            assert(variable_path(name)[1] == name);
            lemma_keep_only_read(d, head, variable_path(name));
        }
    }
}

/// Making three edits in a row is making each in turn.
pub proof fn lemma_apply_three(
    d: Map<Seq<Seq<char>>, Entry>,
    a: (Seq<Seq<char>>, Seq<char>, EditView),
    b: (Seq<Seq<char>>, Seq<char>, EditView),
    c: (Seq<Seq<char>>, Seq<char>, EditView),
)
    ensures
        apply_edits(d, seq![a, b, c]) == apply_edit(apply_edit(apply_edit(d, a), b), c),
{
    let none = Seq::<(Seq<Seq<char>>, Seq<char>, EditView)>::empty();
    assert(seq![a, b, c] =~= none.push(a).push(b).push(c));
    lemma_apply_push(d, none, a);
    lemma_apply_push(d, none.push(a), b);
    lemma_apply_push(d, none.push(a).push(b), c);
}

/// The section of the port named `name`.
pub open spec fn port_path(name: Seq<char>) -> Seq<Seq<char>> {
    seq!["rig"@, "ports"@, name]
}

/// Where the address of the port named `name` is kept.
pub open spec fn address_path(name: Seq<char>) -> Seq<Seq<char>> {
    seq!["rig"@, "ports"@, name, "address"@]
}

/// Three edits of one port leave alone what lies apart from its section.
proof fn lemma_port_edits_apart(
    d: Map<Seq<Seq<char>>, Entry>,
    port: (Seq<char>, Seq<char>),
    q: Seq<Seq<char>>,
)
    requires
        q.len() >= 3,
        q[0] == "rig"@,
        q[1] == "ports"@,
        q[2] != port.0,
    ensures
        seen(apply_edits(d, crate::config::port_edits(port)), q) == seen(d, q),
{
    let es = crate::config::port_edits(port);
    lemma_apply_three(d, es[0], es[1], es[2]);
    assert(es =~= seq![es[0], es[1], es[2]]);
    assert(edit_path(es[0]) =~= port_path(port.0));
    assert(edit_path(es[1]) =~= seq!["rig"@, "ports"@, port.0, "kind"@]);
    assert(edit_path(es[2]) =~= address_path(port.0));
    assert(differ(edit_path(es[0]), q));
    assert(differ(edit_path(es[1]), q));
    assert(differ(edit_path(es[2]), q));
    lemma_differ_apart(edit_path(es[0]), q);
    lemma_differ_apart(edit_path(es[1]), q);
    lemma_differ_apart(edit_path(es[2]), q);
    let d1 = apply_edit(d, es[0]);
    let d2 = apply_edit(d1, es[1]);
    lemma_apart_kept(d, es[0], q);
    lemma_apart_kept(d1, es[1], q);
    lemma_apart_kept(d2, es[2], q);
}

/// The edits of one port leave it a section holding its address, and the
/// ports section a section.
proof fn lemma_port_edits_read(d: Map<Seq<Seq<char>>, Entry>, port: (Seq<char>, Seq<char>))
    requires
        section_at(d, seq!["rig"@, "ports"@]),
    ensures
        section_at(apply_edits(d, crate::config::port_edits(port)), seq!["rig"@, "ports"@]),
        section_at(apply_edits(d, crate::config::port_edits(port)), port_path(port.0)),
        value_at(apply_edits(d, crate::config::port_edits(port)), address_path(port.0)) == Some(StoredView::Text(port.1)),
{
    lemma_keys();
    let es = crate::config::port_edits(port);
    lemma_apply_three(d, es[0], es[1], es[2]);
    assert(es =~= seq![es[0], es[1], es[2]]);
    let ports = seq!["rig"@, "ports"@];
    let n = port_path(port.0);
    assert(edit_path(es[0]) =~= n);
    assert(edit_path(es[1]) =~= seq!["rig"@, "ports"@, port.0, "kind"@]);
    assert(edit_path(es[2]) =~= address_path(port.0));
    let d1 = apply_edit(d, es[0]);
    let d2 = apply_edit(d1, es[1]);
    let d3 = apply_edit(d2, es[2]);
    lemma_section_on_way_kept(d, es[0], ports);
    lemma_section_read(d, es[0]);
    lemma_section_on_way_kept(d1, es[1], ports);
    lemma_section_on_way_kept(d1, es[1], n);
    lemma_section_on_way_kept(d2, es[2], ports);
    lemma_section_on_way_kept(d2, es[2], n);
    lemma_written_read(d2, es[2]);
}

/// What the port edits leave: each port a section holding its address, the
/// ports section still one, and nothing new under any other name.
proof fn lemma_ports_read(d: Map<Seq<Seq<char>>, Entry>, ports: Seq<(Seq<char>, Seq<char>)>)
    requires
        distinct_names(ports),
        section_at(d, seq!["rig"@, "ports"@]),
    ensures
        ({
            let e = apply_edits(d, crate::config::ports_edits(ports));
            &&& section_at(e, seq!["rig"@, "ports"@])
            &&& forall|k: int| 0 <= k < ports.len() ==> section_at(e, port_path(#[trigger] ports[k].0))
            &&& forall|k: int| 0 <= k < ports.len() ==> value_at(e, address_path(#[trigger] ports[k].0)) == Some(StoredView::Text(ports[k].1))
            &&& forall|q: Seq<Seq<char>>| q.len() >= 3 && q[0] == "rig"@ && q[1] == "ports"@ && (forall|k: int| 0 <= k < ports.len() ==> #[trigger] ports[k].0 != q[2]) ==> seen(e, q) == seen(d, q)
        }),
    decreases ports.len(),
{
    if ports.len() == 0 {
        assert(crate::config::ports_edits(ports) =~= Seq::<(Seq<Seq<char>>, Seq<char>, EditView)>::empty());
    } else {
        let rest = ports.drop_last();
        let last = ports.last();
        assert(distinct_names(rest));
        lemma_ports_read(d, rest);
        let d1 = apply_edits(d, crate::config::ports_edits(rest));
        lemma_apply_append(d, crate::config::ports_edits(rest), crate::config::port_edits(last));
        let e = apply_edits(d, crate::config::ports_edits(ports));
        assert(e == apply_edits(d1, crate::config::port_edits(last)));
        lemma_port_edits_read(d1, last);
        assert forall|k: int| 0 <= k < ports.len() implies section_at(e, port_path(#[trigger] ports[k].0)) && value_at(
            e,
            address_path(ports[k].0),
        ) == Some(StoredView::Text(ports[k].1)) by {
            if k < ports.len() - 1 {
                assert(rest[k] == ports[k]);
                assert(ports[k].0 != last.0);
                lemma_port_edits_apart(d1, last, port_path(ports[k].0));
                lemma_port_edits_apart(d1, last, address_path(ports[k].0));
            }
        }
        assert forall|q: Seq<Seq<char>>| q.len() >= 3 && q[0] == "rig"@ && q[1] == "ports"@ && (forall|k: int|
            0 <= k < ports.len() ==> #[trigger] ports[k].0 != q[2]) implies seen(e, q) == seen(d, q) by {
            assert(ports[ports.len() - 1].0 != q[2]);
            assert forall|k: int| 0 <= k < rest.len() implies #[trigger] rest[k].0 != q[2] by {
                assert(rest[k] == ports[k]);
            }
            lemma_port_edits_apart(d1, last, q);
        }
    }
}

/// The variable edits all work in the variables section.
proof fn lemma_variable_paths(vars: Seq<(Seq<char>, Seq<char>)>)
    ensures
        forall|j: int| 0 <= j < crate::config::variable_edits(vars).len() ==> (#[trigger] paths_of(crate::config::variable_edits(vars))[j]).len() >= 1
            && paths_of(crate::config::variable_edits(vars))[j][0] == "variables"@,
{
    lemma_keys();
    let es = crate::config::variable_edits(vars);
    assert forall|j: int| 0 <= j < es.len() implies (#[trigger] paths_of(es)[j]).len() >= 1 && paths_of(es)[j][0] == "variables"@ by {
        if j == 0 {
            lemma_at_path(Seq::empty(), "variables"@, es[0].2);
        } else {
            let v = vars[j - 1];
            lemma_at_path("variables"@, v.0, crate::config::text(v.1));
        }
    }
}

/// The port edits all work below the ports section.
proof fn lemma_port_paths(ports: Seq<(Seq<char>, Seq<char>)>)
    ensures
        forall|j: int| 0 <= j < crate::config::ports_edits(ports).len() ==> {
            let p = #[trigger] paths_of(crate::config::ports_edits(ports))[j];
            p.len() >= 3 && p[0] == "rig"@ && p[1] == "ports"@
        },
    decreases ports.len(),
{
    if ports.len() > 0 {
        let rest = crate::config::ports_edits(ports.drop_last());
        let last = crate::config::port_edits(ports.last());
        lemma_port_paths(ports.drop_last());
        assert(edit_path(last[0]) =~= port_path(ports.last().0));
        assert(edit_path(last[1]) =~= seq!["rig"@, "ports"@, ports.last().0, "kind"@]);
        assert(edit_path(last[2]) =~= address_path(ports.last().0));
        assert forall|j: int| 0 <= j < crate::config::ports_edits(ports).len() implies {
            let p = #[trigger] paths_of(crate::config::ports_edits(ports))[j];
            p.len() >= 3 && p[0] == "rig"@ && p[1] == "ports"@
        } by {
            if j < rest.len() {
                assert(paths_of(crate::config::ports_edits(ports))[j] == paths_of(rest)[j]);
            } else {
                assert(paths_of(crate::config::ports_edits(ports))[j] == edit_path(last[j - rest.len()]));
            }
        }
    }
}

/// The middle edits all work apart from a path outside their sections.
proof fn lemma_middle_paths(s: crate::config::Settings, rx_mode: Seq<char>, tx_mode: Seq<char>, q: Seq<Seq<char>>)
    requires
        q.len() >= 1,
        q[0] != "library"@,
        q[0] != "receive"@,
        q[0] != "transmit"@,
    ensures
        forall|j: int| 0 <= j < crate::config::middle_edits(s, rx_mode, tx_mode).len() ==> differ(
            #[trigger] paths_of(crate::config::middle_edits(s, rx_mode, tx_mode))[j],
            q,
        ),
{
    lemma_middle_spread(s, rx_mode, tx_mode);
    let ps = middle_paths();
    assert forall|j: int| 0 <= j < 14 implies ps[j].len() == 2 && (ps[j][0] == "library"@ || ps[j][0] == "receive"@
        || ps[j][0] == "transmit"@) by {
        assert(0 <= j < 14);
    }
}

/// The rig edits all work apart from a path outside the rig section.
proof fn lemma_rig_paths(s: crate::config::Settings, q: Seq<Seq<char>>)
    requires
        q.len() >= 1,
        q[0] != "rig"@,
    ensures
        forall|j: int| 0 <= j < crate::config::rig_edits(s).len() ==> differ(#[trigger] paths_of(crate::config::rig_edits(s))[j], q),
{
    lemma_rig_spread(s);
    let ps = rig_paths();
    assert forall|j: int| 0 <= j < 8 implies ps[j].len() == 2 && ps[j][0] == "rig"@ by {
        assert(0 <= j < 8);
    }
}

/// The document once the settings are written back over `before`.
pub open spec fn stored_document(
    before: Map<Seq<Seq<char>>, Entry>,
    s: Settings,
    rx_mode: Seq<char>,
    tx_mode: Seq<char>,
) -> Map<Seq<Seq<char>>, Entry> {
    apply_edits(before, store_edits(s, rx_mode, tx_mode))
}

/// The document once the head edits are made over `before`.
pub open spec fn after_head(before: Map<Seq<Seq<char>>, Entry>, s: Settings) -> Map<Seq<Seq<char>>, Entry> {
    apply_edits(before, crate::config::head_edits(s))
}

/// The document once the variable edits follow.
pub open spec fn after_variables(before: Map<Seq<Seq<char>>, Entry>, s: Settings) -> Map<Seq<Seq<char>>, Entry> {
    apply_edits(after_head(before, s), crate::config::variable_edits(crate::config::pairs_view(s.custom_variables@)))
}

/// The document once the middle edits follow.
pub open spec fn after_middle(before: Map<Seq<Seq<char>>, Entry>, s: Settings, rx_mode: Seq<char>, tx_mode: Seq<char>) -> Map<
    Seq<Seq<char>>,
    Entry,
> {
    apply_edits(after_variables(before, s), crate::config::middle_edits(s, rx_mode, tx_mode))
}

/// The document once the rig edits follow; only the ports remain.
pub open spec fn after_rig(before: Map<Seq<Seq<char>>, Entry>, s: Settings, rx_mode: Seq<char>, tx_mode: Seq<char>) -> Map<
    Seq<Seq<char>>,
    Entry,
> {
    apply_edits(after_middle(before, s, rx_mode, tx_mode), crate::config::rig_edits(s))
}

/// The stored document is the ports written over what the rest left.
proof fn lemma_document_segments(before: Map<Seq<Seq<char>>, Entry>, s: Settings, rx_mode: Seq<char>, tx_mode: Seq<char>)
    ensures
        stored_document(before, s, rx_mode, tx_mode) == apply_edits(
            after_rig(before, s, rx_mode, tx_mode),
            crate::config::ports_edits(crate::config::ports_view(s.ports@)),
        ),
{
    let h = crate::config::head_edits(s);
    let v = crate::config::variable_edits(crate::config::pairs_view(s.custom_variables@));
    let m = crate::config::middle_edits(s, rx_mode, tx_mode);
    let r = crate::config::rig_edits(s);
    let p = crate::config::ports_edits(crate::config::ports_view(s.ports@));
    lemma_apply_append(before, h, v);
    lemma_apply_append(before, h + v, m);
    lemma_apply_append(before, h + v + m, r);
    lemma_apply_append(before, h + v + m + r, p);
}

/// Reading past the ports, for a path outside their section.
proof fn lemma_past_ports(before: Map<Seq<Seq<char>>, Entry>, s: Settings, rx_mode: Seq<char>, tx_mode: Seq<char>, q: Seq<Seq<char>>)
    requires
        q.len() >= 2,
        q[0] != "rig"@ || q[1] != "ports"@,
    ensures
        seen(stored_document(before, s, rx_mode, tx_mode), q) == seen(after_rig(before, s, rx_mode, tx_mode), q),
{
    let ports = crate::config::ports_view(s.ports@);
    lemma_document_segments(before, s, rx_mode, tx_mode);
    lemma_port_paths(ports);
    lemma_frame(after_rig(before, s, rx_mode, tx_mode), crate::config::ports_edits(ports), q);
}

/// Reading past the rig and the ports, for a path outside the rig section.
proof fn lemma_past_rig(before: Map<Seq<Seq<char>>, Entry>, s: Settings, rx_mode: Seq<char>, tx_mode: Seq<char>, q: Seq<Seq<char>>)
    requires
        q.len() >= 1,
        q[0] != "rig"@,
    ensures
        seen(stored_document(before, s, rx_mode, tx_mode), q) == seen(after_middle(before, s, rx_mode, tx_mode), q),
{
    let ports = crate::config::ports_view(s.ports@);
    lemma_document_segments(before, s, rx_mode, tx_mode);
    lemma_port_paths(ports);
    lemma_frame(after_rig(before, s, rx_mode, tx_mode), crate::config::ports_edits(ports), q);
    lemma_rig_paths(s, q);
    lemma_frame(after_middle(before, s, rx_mode, tx_mode), crate::config::rig_edits(s), q);
}

/// Reading back to where the variables were written.
proof fn lemma_past_middle(before: Map<Seq<Seq<char>>, Entry>, s: Settings, rx_mode: Seq<char>, tx_mode: Seq<char>, q: Seq<Seq<char>>)
    requires
        q.len() >= 1,
        q[0] != "rig"@,
        q[0] != "library"@,
        q[0] != "receive"@,
        q[0] != "transmit"@,
    ensures
        seen(stored_document(before, s, rx_mode, tx_mode), q) == seen(after_variables(before, s), q),
{
    lemma_past_rig(before, s, rx_mode, tx_mode, q);
    lemma_middle_paths(s, rx_mode, tx_mode, q);
    lemma_frame(after_variables(before, s), crate::config::middle_edits(s, rx_mode, tx_mode), q);
}

/// Reading back to where the head edits were made.
proof fn lemma_past_variables(before: Map<Seq<Seq<char>>, Entry>, s: Settings, rx_mode: Seq<char>, tx_mode: Seq<char>, q: Seq<Seq<char>>)
    requires
        q.len() >= 1,
        q[0] != "rig"@,
        q[0] != "library"@,
        q[0] != "receive"@,
        q[0] != "transmit"@,
        q[0] != "variables"@,
    ensures
        seen(stored_document(before, s, rx_mode, tx_mode), q) == seen(after_head(before, s), q),
{
    let vars = crate::config::pairs_view(s.custom_variables@);
    lemma_past_middle(before, s, rx_mode, tx_mode, q);
    lemma_variable_paths(vars);
    lemma_frame(after_head(before, s), crate::config::variable_edits(vars), q);
}

/// What the head edits leave readable once everything is written.
proof fn lemma_head_values(before: Map<Seq<Seq<char>>, Entry>, s: Settings, rx_mode: Seq<char>, tx_mode: Seq<char>)
    ensures
        ({
            let d = stored_document(before, s, rx_mode, tx_mode);
            &&& value_at(d, seq!["language"@]) == Some(StoredView::Text(s.locale.spec_tag()))
            &&& value_at(d, seq!["audio"@, "input-device"@]) == written(
                crate::config::text_or_remove(crate::config::opt_view(s.input_device)),
            )
            &&& value_at(d, seq!["audio"@, "output-device"@]) == written(
                crate::config::text_or_remove(crate::config::opt_view(s.output_device)),
            )
            &&& value_at(d, seq!["callsign"@]) == None::<StoredView>
            &&& value_at(d, seq!["station"@, "callsign"@]) == written(crate::config::nonempty_or_remove(s.station_callsign@))
            &&& value_at(d, seq!["station"@, "qth"@]) == written(crate::config::nonempty_or_remove(s.station_qth@))
            &&& value_at(d, seq!["station"@, "grid"@]) == written(crate::config::nonempty_or_remove(s.station_grid@))
            &&& value_at(d, seq!["qso"@, "number"@]) == Some(StoredView::Text(s.qso_number@))
        }),
{
    lemma_keys();
    let h = crate::config::head_edits(s);
    lemma_head_spread(s);
    let ps = head_paths();
    assert forall|k: int| 0 <= k < 9 && k != 1 implies value_at(after_head(before, s), #[trigger] ps[k]) == written(h[k].2) by {
        assert(paths_of(h)[k] == edit_path(h[k]));
        lemma_spread_read(before, h, k);
    }
    assert forall|k: int| 0 <= k < 9 implies seen(stored_document(before, s, rx_mode, tx_mode), #[trigger] ps[k]) == seen(
        after_head(before, s),
        ps[k],
    ) by {
        assert(ps[k].len() >= 1);
        assert(ps[k][0] != "rig"@ && ps[k][0] != "library"@ && ps[k][0] != "receive"@ && ps[k][0] != "transmit"@
            && ps[k][0] != "variables"@);
        lemma_past_variables(before, s, rx_mode, tx_mode, ps[k]);
    }
    assert(value_at(stored_document(before, s, rx_mode, tx_mode), ps[0]) == written(h[0].2));
    assert(value_at(stored_document(before, s, rx_mode, tx_mode), ps[2]) == written(h[2].2));
    assert(value_at(stored_document(before, s, rx_mode, tx_mode), ps[3]) == written(h[3].2));
    assert(value_at(stored_document(before, s, rx_mode, tx_mode), ps[4]) == written(h[4].2));
    assert(value_at(stored_document(before, s, rx_mode, tx_mode), ps[5]) == written(h[5].2));
    assert(value_at(stored_document(before, s, rx_mode, tx_mode), ps[6]) == written(h[6].2));
    assert(value_at(stored_document(before, s, rx_mode, tx_mode), ps[7]) == written(h[7].2));
    assert(value_at(stored_document(before, s, rx_mode, tx_mode), ps[8]) == written(h[8].2));
}

/// What the middle edits leave readable once everything is written.
proof fn lemma_middle_values(before: Map<Seq<Seq<char>>, Entry>, s: Settings, rx_mode: Seq<char>, tx_mode: Seq<char>)
    ensures
        ({
            let d = stored_document(before, s, rx_mode, tx_mode);
            &&& value_at(d, seq!["library"@, "template"@]) == written(crate::config::text_or_remove(crate::config::opt_view(s.template)))
            &&& value_at(d, seq!["library"@, "stock"@]) == written(crate::config::text_or_remove(crate::config::opt_view(s.stock)))
            &&& value_at(d, seq!["receive"@, "mode"@]) == Some(StoredView::Text(rx_mode))
            &&& value_at(d, seq!["receive"@, "auto-vis"@]) == Some(StoredView::Flag(s.auto_mode))
            &&& value_at(d, seq!["receive"@, "afc"@]) == Some(StoredView::Flag(s.dsp.afc))
            &&& value_at(d, seq!["receive"@, "lms"@]) == Some(StoredView::Flag(s.dsp.lms_filter))
            &&& value_at(d, seq!["receive"@, "slant"@]) == Some(StoredView::Flag(s.dsp.live_slant))
            &&& value_at(d, seq!["receive"@, "vis-restart"@]) == Some(StoredView::Flag(s.vis_restart))
            &&& value_at(d, seq!["transmit"@, "fskid"@]) == Some(StoredView::Flag(s.send_fskid))
            &&& value_at(d, seq!["transmit"@, "contest"@]) == Some(StoredView::Flag(s.contest_mode))
            &&& value_at(d, seq!["receive"@, "auto-history"@]) == Some(StoredView::Flag(s.auto_history))
            &&& value_at(d, seq!["receive"@, "history-format"@]) == Some(StoredView::Text(s.history_format.spec_config_name()))
            &&& value_at(d, seq!["transmit"@, "mode"@]) == Some(StoredView::Text(tx_mode))
        }),
{
    lemma_keys();
    let m = crate::config::middle_edits(s, rx_mode, tx_mode);
    lemma_middle_spread(s, rx_mode, tx_mode);
    let ps = middle_paths();
    assert forall|k: int| 0 <= k < 14 && k != 10 implies value_at(
        stored_document(before, s, rx_mode, tx_mode),
        #[trigger] ps[k],
    ) == written(m[k].2) by {
        assert(paths_of(m)[k] == edit_path(m[k]));
        lemma_spread_read(after_variables(before, s), m, k);
        assert(ps[k].len() >= 1 && ps[k][0] != "rig"@);
        lemma_past_rig(before, s, rx_mode, tx_mode, ps[k]);
    }
    assert(value_at(stored_document(before, s, rx_mode, tx_mode), ps[0]) == written(m[0].2));
    assert(value_at(stored_document(before, s, rx_mode, tx_mode), ps[1]) == written(m[1].2));
    assert(value_at(stored_document(before, s, rx_mode, tx_mode), ps[2]) == written(m[2].2));
    assert(value_at(stored_document(before, s, rx_mode, tx_mode), ps[3]) == written(m[3].2));
    assert(value_at(stored_document(before, s, rx_mode, tx_mode), ps[4]) == written(m[4].2));
    assert(value_at(stored_document(before, s, rx_mode, tx_mode), ps[5]) == written(m[5].2));
    assert(value_at(stored_document(before, s, rx_mode, tx_mode), ps[6]) == written(m[6].2));
    assert(value_at(stored_document(before, s, rx_mode, tx_mode), ps[7]) == written(m[7].2));
    assert(value_at(stored_document(before, s, rx_mode, tx_mode), ps[8]) == written(m[8].2));
    assert(value_at(stored_document(before, s, rx_mode, tx_mode), ps[9]) == written(m[9].2));
    assert(value_at(stored_document(before, s, rx_mode, tx_mode), ps[11]) == written(m[11].2));
    assert(value_at(stored_document(before, s, rx_mode, tx_mode), ps[12]) == written(m[12].2));
    assert(value_at(stored_document(before, s, rx_mode, tx_mode), ps[13]) == written(m[13].2));
}

/// What the rig edits leave: whether it connects, and a ports section that
/// holds nothing under a name other than the ports'.
proof fn lemma_rig_values(before: Map<Seq<Seq<char>>, Entry>, s: Settings, rx_mode: Seq<char>, tx_mode: Seq<char>)
    ensures
        value_at(stored_document(before, s, rx_mode, tx_mode), seq!["rig"@, "enabled"@]) == Some(StoredView::Flag(s.rig_enabled)),
        section_at(after_rig(before, s, rx_mode, tx_mode), seq!["rig"@, "ports"@]),
        forall|q: Seq<Seq<char>>|
            q.len() >= 3 && q[0] == "rig"@ && q[1] == "ports"@ && !crate::config::ports_view(s.ports@).map_values(
                |p: (Seq<char>, Seq<char>)| p.0,
            ).contains(q[2]) ==> seen(after_rig(before, s, rx_mode, tx_mode), q) == None::<Entry>,
{
    lemma_keys();
    let r = crate::config::rig_edits(s);
    lemma_rig_spread(s);
    let ps = rig_paths();
    assert(paths_of(r)[0] == edit_path(r[0]));
    lemma_spread_read(after_middle(before, s, rx_mode, tx_mode), r, 0);
    lemma_past_ports(before, s, rx_mode, tx_mode, ps[0]);
    let d7 = apply_edits(after_middle(before, s, rx_mode, tx_mode), r.drop_last());
    assert(paths_of(r)[7] == edit_path(r[7]));
    assert(r.last() == r[7]);
    assert forall|q: Seq<Seq<char>>|
        q.len() >= 3 && q[0] == "rig"@ && q[1] == "ports"@ && !crate::config::ports_view(s.ports@).map_values(
            |p: (Seq<char>, Seq<char>)| p.0,
        ).contains(q[2]) implies seen(after_rig(before, s, rx_mode, tx_mode), q) == None::<Entry> by {
        assert(leads(edit_path(r[7]), q));
        lemma_keep_only_read(d7, r[7], q);
    }
    lemma_keep_only_read(d7, r[7], ps[7]);
}

/// What the port edits leave once everything is written.
proof fn lemma_port_values(before: Map<Seq<Seq<char>>, Entry>, s: Settings, rx_mode: Seq<char>, tx_mode: Seq<char>)
    requires
        distinct_names(crate::config::ports_view(s.ports@)),
    ensures
        ({
            let d = stored_document(before, s, rx_mode, tx_mode);
            let ports = crate::config::ports_view(s.ports@);
            &&& section_at(d, seq!["rig"@, "ports"@])
            &&& forall|k: int| 0 <= k < ports.len() ==> section_at(d, port_path(#[trigger] ports[k].0))
            &&& forall|k: int| 0 <= k < ports.len() ==> value_at(d, address_path(#[trigger] ports[k].0)) == Some(StoredView::Text(ports[k].1))
            &&& forall|name: Seq<char>| (forall|k: int| 0 <= k < ports.len() ==> #[trigger] ports[k].0 != name) ==> seen(d, port_path(name)) == None::<Entry>
        }),
{
    let ports = crate::config::ports_view(s.ports@);
    let names = ports.map_values(|p: (Seq<char>, Seq<char>)| p.0);
    lemma_rig_values(before, s, rx_mode, tx_mode);
    lemma_document_segments(before, s, rx_mode, tx_mode);
    lemma_ports_read(after_rig(before, s, rx_mode, tx_mode), ports);
    assert forall|name: Seq<char>| (forall|k: int| 0 <= k < ports.len() ==> #[trigger] ports[k].0 != name) implies seen(
        stored_document(before, s, rx_mode, tx_mode),
        port_path(name),
    ) == None::<Entry> by {
        assert(!names.contains(name)) by {
            if names.contains(name) {
                let k = choose|k: int| 0 <= k < names.len() && names[k] == name;
                assert(ports[k].0 == name);
            }
        }
        assert(port_path(name)[2] == name);
    }
}

/// What the variable edits leave once everything is written.
proof fn lemma_variable_values(before: Map<Seq<Seq<char>>, Entry>, s: Settings, rx_mode: Seq<char>, tx_mode: Seq<char>)
    requires
        distinct_names(crate::app::variables_view(s.custom_variables@)),
    ensures
        ({
            let d = stored_document(before, s, rx_mode, tx_mode);
            let vars = crate::app::variables_view(s.custom_variables@);
            &&& section_at(d, seq!["variables"@]) == (vars.len() > 0)
            &&& forall|k: int| 0 <= k < vars.len() ==> value_at(d, variable_path(#[trigger] vars[k].0)) == Some(StoredView::Text(vars[k].1))
            &&& forall|name: Seq<char>| (forall|k: int| 0 <= k < vars.len() ==> #[trigger] vars[k].0 != name) ==> seen(d, variable_path(name)) == None::<Entry>
        }),
{
    lemma_keys();
    let vars = crate::app::variables_view(s.custom_variables@);
    assert(vars == crate::config::pairs_view(s.custom_variables@));
    lemma_variables_read(after_head(before, s), vars);
    lemma_past_middle(before, s, rx_mode, tx_mode, seq!["variables"@]);
    assert forall|name: Seq<char>| true implies seen(stored_document(before, s, rx_mode, tx_mode), variable_path(name)) == seen(
        after_variables(before, s),
        variable_path(name),
    ) by {
        lemma_past_middle(before, s, rx_mode, tx_mode, variable_path(name));
    }
}

/// What an optional stored value holds.
pub open spec fn stored(v: Option<StoredValue>) -> Option<StoredView> {
    match v {
        Some(x) => Some(x@),
        None => None,
    }
}

/// Whether `vars` are the entries of the variables section of `d`: one per
/// name, each holding what the document holds under it; none at all when
/// there is no such section.
pub open spec fn variables_in(d: Map<Seq<Seq<char>>, Entry>, vars: Seq<StoredVariable>) -> bool {
    if section_at(d, seq!["variables"@]) {
        &&& forall|i: int, j: int| 0 <= i < j < vars.len() ==> #[trigger] vars[i].name@ != #[trigger] vars[j].name@
        &&& forall|i: int|
            0 <= i < vars.len() ==> seen(d, variable_path(#[trigger] vars[i].name@)) is Some && stored(vars[i].value)
                == value_at(d, variable_path(vars[i].name@))
        &&& forall|name: Seq<char>|
            #[trigger] seen(d, variable_path(name)) is Some ==> exists|i: int| 0 <= i < vars.len() && vars[i].name@ == name
    } else {
        vars.len() == 0
    }
}

/// Whether `ports` are the sections under the ports section of `d`, each
/// with what its address key holds; nothing when there is no such section.
pub open spec fn ports_in(d: Map<Seq<Seq<char>>, Entry>, ports: Option<Vec<StoredPort>>) -> bool {
    if section_at(d, seq!["rig"@, "ports"@]) {
        match ports {
            Some(list) => {
                &&& forall|i: int, j: int| 0 <= i < j < list.len() ==> #[trigger] list@[i].name@ != #[trigger] list@[j].name@
                &&& forall|i: int|
                    0 <= i < list.len() ==> section_at(d, port_path(#[trigger] list@[i].name@)) && stored(list@[i].address)
                        == value_at(d, address_path(list@[i].name@))
                &&& forall|name: Seq<char>|
                    #[trigger] section_at(d, port_path(name)) ==> exists|i: int| 0 <= i < list.len() && list@[i].name@ == name
            },
            None => false,
        }
    } else {
        ports is None
    }
}

/// Whether `st` is what the settings find in `d`, key by key.
pub open spec fn stored_in(d: Map<Seq<Seq<char>>, Entry>, st: StoredSettings) -> bool {
    &&& stored(st.language) == value_at(d, seq!["language"@])
    &&& stored(st.input_device) == value_at(d, seq!["audio"@, "input-device"@])
    &&& stored(st.output_device) == value_at(d, seq!["audio"@, "output-device"@])
    &&& stored(st.station_callsign) == value_at(d, seq!["station"@, "callsign"@])
    &&& stored(st.legacy_callsign) == value_at(d, seq!["callsign"@])
    &&& stored(st.station_qth) == value_at(d, seq!["station"@, "qth"@])
    &&& stored(st.station_grid) == value_at(d, seq!["station"@, "grid"@])
    &&& stored(st.qso_number) == value_at(d, seq!["qso"@, "number"@])
    &&& variables_in(d, st.variables@)
    &&& stored(st.template) == value_at(d, seq!["library"@, "template"@])
    &&& stored(st.stock) == value_at(d, seq!["library"@, "stock"@])
    &&& stored(st.rx_mode) == value_at(d, seq!["receive"@, "mode"@])
    &&& stored(st.tx_mode) == value_at(d, seq!["transmit"@, "mode"@])
    &&& stored(st.auto_vis) == value_at(d, seq!["receive"@, "auto-vis"@])
    &&& stored(st.afc) == value_at(d, seq!["receive"@, "afc"@])
    &&& stored(st.lms) == value_at(d, seq!["receive"@, "lms"@])
    &&& stored(st.slant) == value_at(d, seq!["receive"@, "slant"@])
    &&& stored(st.vis_restart) == value_at(d, seq!["receive"@, "vis-restart"@])
    &&& stored(st.send_fskid) == value_at(d, seq!["transmit"@, "fskid"@])
    &&& stored(st.contest) == value_at(d, seq!["transmit"@, "contest"@])
    &&& stored(st.auto_history) == value_at(d, seq!["receive"@, "auto-history"@])
    &&& stored(st.history_format) == value_at(d, seq!["receive"@, "history-format"@])
    &&& stored(st.rig_enabled) == value_at(d, seq!["rig"@, "enabled"@])
    &&& ports_in(d, st.ports)
}

/// Whether an optional text reads back as itself: trimmed, and not empty.
pub open spec fn reads_back(t: Option<String>) -> bool {
    match t {
        Some(x) => trimmed(x@) == x@ && x@.len() > 0,
        None => true,
    }
}

/// Whether `s` holds only what the file can give back: texts already
/// trimmed, a serial that is not empty, names kept in order, and each port
/// with an address.
pub open spec fn storable(s: Settings) -> bool {
    &&& reads_back(s.input_device)
    &&& reads_back(s.output_device)
    &&& reads_back(s.template)
    &&& reads_back(s.stock)
    &&& trimmed(s.station_callsign@) == s.station_callsign@
    &&& trimmed(s.station_qth@) == s.station_qth@
    &&& trimmed(s.station_grid@) == s.station_grid@
    &&& trimmed(s.qso_number@) == s.qso_number@ && s.qso_number@.len() > 0
    &&& crate::app::strictly_ordered(crate::app::variables_view(s.custom_variables@))
    &&& crate::app::strictly_ordered(crate::config::ports_view(s.ports@))
    &&& forall|k: int|
        0 <= k < s.ports.len() ==> trimmed(#[trigger] s.ports@[k].1.address@) == s.ports@[k].1.address@ && s.ports@[k].1.address@.len() > 0
}

/// Names kept in order are distinct.
proof fn lemma_ordered_distinct(v: Seq<(Seq<char>, Seq<char>)>)
    requires
        crate::app::strictly_ordered(v),
    ensures
        distinct_names(v),
{
    assert forall|i: int, j: int| 0 <= i < j < v.len() implies #[trigger] v[i].0 != #[trigger] v[j].0 by {
        assert(crate::text::text_less(v[i].0, v[j].0));
        crate::text::lemma_text_less_irreflexive(v[i].0);
    }
}

/// Among distinct names, a port is found by its own name.
proof fn lemma_port_in_found(list: Seq<StoredPort>, i: int)
    requires
        0 <= i < list.len(),
        forall|a: int, b: int| 0 <= a < b < list.len() ==> #[trigger] list[a].name@ != #[trigger] list[b].name@,
    ensures
        crate::config::port_in(list, list[i].name@) == Some(crate::config::port_of(list[i]).1),
    decreases list.len(),
{
    if i < list.len() - 1 {
        assert(list.drop_last()[i] == list[i]);
        lemma_port_in_found(list.drop_last(), i);
    }
}

/// A name no port has finds none.
proof fn lemma_port_in_absent(list: Seq<StoredPort>, name: Seq<char>)
    requires
        forall|i: int| 0 <= i < list.len() ==> (#[trigger] list[i]).name@ != name,
    ensures
        crate::config::port_in(list, name) == None::<Seq<char>>,
    decreases list.len(),
{
    if list.len() > 0 {
        assert(list[list.len() - 1] == list.last());
        lemma_port_in_absent(list.drop_last(), name);
    }
}

/// Among distinct names, a usable text entry is found by its own name.
proof fn lemma_variable_in_found(vars: Seq<StoredVariable>, i: int)
    requires
        0 <= i < vars.len(),
        vars[i].usable,
        crate::config::text_in(vars[i].value) is Some,
        forall|a: int, b: int| 0 <= a < b < vars.len() ==> #[trigger] vars[a].name@ != #[trigger] vars[b].name@,
    ensures
        crate::config::variable_in(vars, vars[i].name@) == crate::config::text_in(vars[i].value),
    decreases vars.len(),
{
    if i < vars.len() - 1 {
        assert(vars.drop_last()[i] == vars[i]);
        lemma_variable_in_found(vars.drop_last(), i);
    }
}

/// A name no entry has finds nothing.
proof fn lemma_variable_in_absent(vars: Seq<StoredVariable>, name: Seq<char>)
    requires
        forall|i: int| 0 <= i < vars.len() ==> (#[trigger] vars[i]).name@ != name,
    ensures
        crate::config::variable_in(vars, name) == None::<Seq<char>>,
    decreases vars.len(),
{
    if vars.len() > 0 {
        assert(vars[vars.len() - 1] == vars.last());
        lemma_variable_in_absent(vars.drop_last(), name);
    }
}

/// The ports read from the stored document are the ports stored.
proof fn lemma_ports_read_back(d: Map<Seq<Seq<char>>, Entry>, s: Settings, ports: Option<Vec<StoredPort>>)
    requires
        storable(s),
        ports_in(d, ports),
        section_at(d, seq!["rig"@, "ports"@]),
        forall|k: int| 0 <= k < s.ports.len() ==> section_at(d, port_path(#[trigger] crate::config::ports_view(s.ports@)[k].0)),
        forall|k: int|
            0 <= k < s.ports.len() ==> value_at(d, address_path(#[trigger] crate::config::ports_view(s.ports@)[k].0))
                == Some(StoredView::Text(crate::config::ports_view(s.ports@)[k].1)),
        forall|name: Seq<char>|
            (forall|k: int| 0 <= k < s.ports.len() ==> #[trigger] crate::config::ports_view(s.ports@)[k].0 != name)
                ==> seen(d, port_path(name)) == None::<Entry>,
    ensures
        forall|name: Seq<char>|
            crate::app::value_of(crate::config::ports_view(s.ports@), name) == crate::config::port_address(ports, name),
{
    let pv = crate::config::ports_view(s.ports@);
    let list = ports->Some_0@;
    assert forall|name: Seq<char>| crate::app::value_of(pv, name) == crate::config::port_address(ports, name) by {
        if exists|k: int| 0 <= k < pv.len() && pv[k].0 == name {
            let k = choose|k: int| 0 <= k < pv.len() && pv[k].0 == name;
            crate::app::lemma_ordered_value(pv, k);
            assert(section_at(d, port_path(pv[k].0)));
            let i = choose|i: int| 0 <= i < list.len() && list[i].name@ == name;
            assert(stored(list[i].address) == Some(StoredView::Text(pv[k].1)));
            assert(trimmed(s.ports@[k].1.address@) == s.ports@[k].1.address@);
            lemma_port_in_found(list, i);
        } else {
            assert forall|i: int| 0 <= i < list.len() implies (#[trigger] list[i]).name@ != name by {
                assert(section_at(d, port_path(list[i].name@)));
                if list[i].name@ == name {
                    assert(forall|k: int| 0 <= k < s.ports.len() ==> #[trigger] pv[k].0 != name);
                }
            }
            lemma_port_in_absent(list, name);
        }
    }
}

/// The variables read from the stored document are the ones stored.
proof fn lemma_variables_read_back(d: Map<Seq<Seq<char>>, Entry>, s: Settings, st: StoredSettings)
    requires
        storable(s),
        variables_in(d, st.variables@),
        forall|k: int| 0 <= k < st.variables.len() ==> (#[trigger] st.variables@[k]).usable,
        section_at(d, seq!["variables"@]) == (s.custom_variables.len() > 0),
        forall|k: int|
            0 <= k < s.custom_variables.len() ==> value_at(d, variable_path(#[trigger] crate::app::variables_view(s.custom_variables@)[k].0))
                == Some(StoredView::Text(crate::app::variables_view(s.custom_variables@)[k].1)),
        forall|name: Seq<char>|
            (forall|k: int| 0 <= k < s.custom_variables.len() ==> #[trigger] crate::app::variables_view(s.custom_variables@)[k].0 != name)
                ==> seen(d, variable_path(name)) == None::<Entry>,
    ensures
        forall|name: Seq<char>|
            crate::app::value_of(crate::app::variables_view(s.custom_variables@), name) == crate::config::variable_in(
                st.variables@,
                name,
            ),
{
    let vv = crate::app::variables_view(s.custom_variables@);
    let vars = st.variables@;
    assert forall|name: Seq<char>| crate::app::value_of(vv, name) == crate::config::variable_in(vars, name) by {
        if exists|k: int| 0 <= k < vv.len() && vv[k].0 == name {
            let k = choose|k: int| 0 <= k < vv.len() && vv[k].0 == name;
            crate::app::lemma_ordered_value(vv, k);
            assert(value_at(d, variable_path(vv[k].0)) == Some(StoredView::Text(vv[k].1)));
            assert(seen(d, variable_path(name)) is Some);
            let i = choose|i: int| 0 <= i < vars.len() && vars[i].name@ == name;
            assert(stored(vars[i].value) == Some(StoredView::Text(vv[k].1)));
            lemma_variable_in_found(vars, i);
        } else {
            if section_at(d, seq!["variables"@]) {
                assert forall|i: int| 0 <= i < vars.len() implies (#[trigger] vars[i]).name@ != name by {
                    assert(seen(d, variable_path(vars[i].name@)) is Some);
                    if vars[i].name@ == name {
                        assert(forall|k: int| 0 <= k < s.custom_variables.len() ==> #[trigger] vv[k].0 != name);
                    }
                }
            }
            lemma_variable_in_absent(vars, name);
        }
    }
}

/// Every variable read back from a document the settings were written into
/// is one of the settings' own.
pub(crate) proof fn lemma_read_variables_were_stored(
    before: Map<Seq<Seq<char>>, Entry>,
    s: Settings,
    rx_mode: Seq<char>,
    tx_mode: Seq<char>,
    st: StoredSettings,
)
    requires
        storable(s),
        stored_in(stored_document(before, s, rx_mode, tx_mode), st),
    ensures
        forall|i: int|
            0 <= i < st.variables.len() ==> exists|k: int|
                0 <= k < s.custom_variables.len() && crate::app::variables_view(s.custom_variables@)[k].0
                    == (#[trigger] st.variables@[i]).name@,
{
    let d = stored_document(before, s, rx_mode, tx_mode);
    let vv = crate::app::variables_view(s.custom_variables@);
    lemma_ordered_distinct(vv);
    lemma_variable_values(before, s, rx_mode, tx_mode);
    assert forall|i: int| 0 <= i < st.variables.len() implies exists|k: int|
        0 <= k < s.custom_variables.len() && vv[k].0 == (#[trigger] st.variables@[i]).name@ by {
        let name = st.variables@[i].name@;
        assert(seen(d, variable_path(name)) is Some);
        if forall|k: int| 0 <= k < vv.len() ==> #[trigger] vv[k].0 != name {
            assert(seen(d, variable_path(name)) == None::<Entry>);
        }
    }
}

/// A setting with no value is taken out rather than written empty: whatever
/// the document held before, once `s` is written back nothing stands at the
/// input or output device key under `[audio]`, nor at the template or stock
/// key under `[library]`, for each of them that `s` leaves unset.
pub proof fn lemma_unset_settings_leave_no_key(
    before: Map<Seq<Seq<char>>, Entry>,
    s: Settings,
    rx_mode: Seq<char>,
    tx_mode: Seq<char>,
)
    ensures
        s.input_device is None ==> seen(stored_document(before, s, rx_mode, tx_mode), seq!["audio"@, "input-device"@]) is None,
        s.output_device is None ==> seen(stored_document(before, s, rx_mode, tx_mode), seq!["audio"@, "output-device"@])
            is None,
        s.template is None ==> seen(stored_document(before, s, rx_mode, tx_mode), seq!["library"@, "template"@]) is None,
        s.stock is None ==> seen(stored_document(before, s, rx_mode, tx_mode), seq!["library"@, "stock"@]) is None,
{
    lemma_head_values(before, s, rx_mode, tx_mode);
    lemma_middle_values(before, s, rx_mode, tx_mode);
}

/// Settings written back are read as they were stored: whatever the
/// document held before, once the edits that write `s` are made, what the
/// settings read from the document is `s`.
///
/// This holds of settings the file can give back as they are (see
/// `storable`), written with the modes they name, and read by a reader that
/// takes each of the operator's variable names as one a template can hold.
pub proof fn lemma_stored_settings_read_back(
    s: Settings,
    rx_mode: Seq<char>,
    tx_mode: Seq<char>,
    before: Map<Seq<Seq<char>>, Entry>,
    st: StoredSettings,
)
    requires
        storable(s),
        crate::config::opt_view(s.rx_mode) == Some(rx_mode),
        crate::config::opt_view(s.tx_mode) == Some(tx_mode),
        stored_in(stored_document(before, s, rx_mode, tx_mode), st),
        forall|k: int| 0 <= k < st.variables.len() ==> (#[trigger] st.variables@[k]).usable,
    ensures
        crate::config::settings_read(st, s),
{
    let d = stored_document(before, s, rx_mode, tx_mode);
    lemma_ordered_distinct(crate::config::ports_view(s.ports@));
    lemma_ordered_distinct(crate::app::variables_view(s.custom_variables@));
    lemma_head_values(before, s, rx_mode, tx_mode);
    lemma_middle_values(before, s, rx_mode, tx_mode);
    lemma_rig_values(before, s, rx_mode, tx_mode);
    lemma_port_values(before, s, rx_mode, tx_mode);
    lemma_variable_values(before, s, rx_mode, tx_mode);
    crate::i18n::lemma_tag_round_trips(s.locale);
    crate::history::lemma_config_name_round_trips(s.history_format);
    lemma_ports_read_back(d, s, st.ports);
    lemma_variables_read_back(d, s, st);
    assert(s.locale == (match crate::config::text_in(st.language) {
        Some(t) => match crate::i18n::Locale::spec_from_tag(t) {
            Some(l) => l,
            None => crate::i18n::Locale::En,
        },
        None => crate::i18n::Locale::En,
    }));
    assert(crate::config::opt_view(s.input_device) == crate::config::owned_in(st.input_device));
    assert(crate::config::opt_view(s.output_device) == crate::config::owned_in(st.output_device));
    assert(crate::config::opt_view(s.template) == crate::config::owned_in(st.template));
    assert(crate::config::opt_view(s.stock) == crate::config::owned_in(st.stock));
    assert(s.station_qth@ == (match crate::config::owned_in(st.station_qth) {
        Some(c) => c,
        None => Seq::empty(),
    }));
    assert(s.qso_number@ == (match crate::config::owned_in(st.qso_number) {
        Some(c) => c,
        None => "001"@,
    }));
    assert(s.station_callsign@ == (match crate::config::owned_in(st.station_callsign) {
        Some(c) => c,
        None => match crate::config::owned_in(st.legacy_callsign) {
            Some(c) => c,
            None => Seq::empty(),
        },
    }));
    assert(crate::config::opt_view(s.rx_mode) == crate::config::text_in(st.rx_mode));
    assert(s.auto_mode == crate::config::flag_in(st.auto_vis, true));
    assert(s.dsp == (crate::app::DspFlags {
        afc: crate::config::flag_in(st.afc, true),
        lms_filter: crate::config::flag_in(st.lms, false),
        live_slant: crate::config::flag_in(st.slant, true),
    }));
    assert(s.rig_enabled == crate::config::flag_in(st.rig_enabled, false));
    assert(s.station_grid@ == (match crate::config::owned_in(st.station_grid) {
        Some(c) => c,
        None => Seq::empty(),
    }));
    assert(crate::config::opt_view(s.tx_mode) == crate::config::text_in(st.tx_mode));
    assert(s.vis_restart == crate::config::flag_in(st.vis_restart, true));
    assert(s.send_fskid == crate::config::flag_in(st.send_fskid, true));
    assert(s.contest_mode == crate::config::flag_in(st.contest, false));
    assert(s.auto_history == crate::config::flag_in(st.auto_history, true));
    assert(forall|name: Seq<char>| crate::app::value_of(crate::config::ports_view(s.ports@), name) == crate::config::port_address(st.ports, name));
    assert(forall|name: Seq<char>|
        crate::app::value_of(crate::app::variables_view(s.custom_variables@), name) == crate::config::variable_in(
            st.variables@,
            name,
        ));
    assert(s.history_format == (match crate::config::text_in(st.history_format) {
        Some(t) => match crate::history::HistoryFormat::spec_from_config(t) {
            Some(f) => f,
            None => crate::history::HistoryFormat::Webp,
        },
        None => crate::history::HistoryFormat::Webp,
    }));
}

} // verus!
