//! The lists the operator picks a template and a background from.
//!
//! The selections are indices rather than names because the lists are
//! rebuilt from the directories they name, and what is stored between runs is
//! the name the index stood for.

use vstd::prelude::*;
use crate::paths::trim_trailing_separators;
use crate::text::{
    chars_of, eq_ignore_ascii_case, eq_ignoring_ascii_case, lemma_text_less_irreflexive,
    lemma_text_less_total, lemma_text_less_transitive, same_text, string_of_range, text_before, text_less,
    to_lowercase, unicode_lowercase,
};

verus! {

/// One file the operator can pick.
#[derive(Clone, Debug)]
pub struct Entry {
    /// The file's name, as the list shows it.
    pub name: String,
    /// What the list says about the file's size, for a background.
    pub geometry: String,
    /// Where the file is.
    pub path: String,
}

/// Where the last `/` of `p` is, if it has one.
pub open spec fn last_slash(p: Seq<char>) -> Option<int>
    decreases p.len(),
{
    if p.len() == 0 {
        None
    } else if p.last() == '/' {
        Some(p.len() - 1)
    } else {
        last_slash(p.drop_last())
    }
}

/// The last component of `path`, as a list names a file: the text after the
/// last separator once trailing separators are set aside, or the whole path
/// when that is empty or `..`.
pub open spec fn file_name_of(path: Seq<char>) -> Seq<char> {
    let p = trim_trailing_separators(path);
    let last = match last_slash(p) {
        Some(k) => p.skip(k + 1),
        None => p,
    };
    if last.len() == 0 || last == ".."@ {
        path
    } else {
        last
    }
}

/// Where the last `/` of `chars` is.
fn find_last_slash(chars: &Vec<char>, end: usize) -> (k: Option<usize>)
    requires
        end <= chars.len(),
    ensures
        k is None ==> last_slash(chars@.take(end as int)) is None,
        k matches Some(i) ==> last_slash(chars@.take(end as int)) == Some(i as int) && i < end,
    decreases end,
{
    if end == 0 {
        return None;
    }
    assert(chars@.take(end as int).drop_last() == chars@.take(end - 1));
    if chars[end - 1] == '/' {
        Some(end - 1)
    } else {
        find_last_slash(chars, end - 1)
    }
}

impl Entry {
    /// An entry for the file at `path`, named by its last component.
    pub fn new(path: String, geometry: String) -> (entry: Entry)
        ensures
            entry.name@ == file_name_of(path@),
            entry.geometry@ == geometry@,
            entry.path@ == path@,
    {
        let trimmed = crate::paths::trimmed_separators(path.as_str());
        let chars = chars_of(trimmed.as_str());
        let start = match find_last_slash(&chars, chars.len()) {
            Some(k) => k + 1,
            None => 0,
        };
        proof {
            assert(chars@.take(chars.len() as int) == chars@);
        }
        let last = string_of_range(&chars, start, chars.len());
        proof {
            reveal_strlit("..");
            if start == 0 {
                assert(last@ == chars@);
            }
        }
        let name = if chars.len() == start || same_text(last.as_str(), "..") {
            path.clone()
        } else {
            last
        };
        Entry { name, geometry, path }
    }
}

/// The names of `entries`, in order.
pub open spec fn names(entries: Seq<Entry>) -> Seq<Seq<char>> {
    entries.map_values(|e: Entry| e.name@)
}

/// The paths of `entries`, in order.
pub open spec fn paths(entries: Seq<Entry>) -> Seq<Seq<char>> {
    entries.map_values(|e: Entry| e.path@)
}

/// Whether `k` is the first place `x` occurs in `s`.
pub open spec fn is_first_match(s: Seq<Seq<char>>, x: Seq<char>, k: int) -> bool {
    &&& 0 <= k < s.len()
    &&& s[k] == x
    &&& forall|j: int| 0 <= j < k ==> s[j] != x
}

/// Where `x` first occurs in `s`, if it does.
pub open spec fn first_match(s: Seq<Seq<char>>, x: Seq<char>) -> Option<int> {
    if exists|k: int| is_first_match(s, x, k) {
        Some(choose|k: int| is_first_match(s, x, k))
    } else {
        None
    }
}

proof fn lemma_first_match_is(s: Seq<Seq<char>>, x: Seq<char>, k: int)
    requires
        is_first_match(s, x, k),
    ensures
        first_match(s, x) == Some(k),
{
    let c = choose|k: int| is_first_match(s, x, k);
    assert(is_first_match(s, x, c));
    if c < k {
        assert(s[c] != x);
    } else if c > k {
        assert(s[k] != x);
    }
}

proof fn lemma_no_match(s: Seq<Seq<char>>, x: Seq<char>)
    requires
        forall|j: int| 0 <= j < s.len() ==> s[j] != x,
    ensures
        first_match(s, x) is None,
{
}

/// Where the entry named `name` is in `entries`.
pub fn index_of(entries: &Vec<Entry>, name: Option<&str>) -> (index: Option<usize>)
    ensures
        index == (match name {
            Some(n) => match first_match(names(entries@), n@) {
                Some(k) => Some(k as usize),
                None => None,
            },
            None => None,
        }),
{
    let n = match name {
        Some(n) => n,
        None => {
            return None;
        },
    };
    let mut i: usize = 0;
    while i < entries.len()
        invariant
            i <= entries.len(),
            name == Some(n),
            forall|j: int| 0 <= j < i ==> names(entries@)[j] != n@,
        decreases entries.len() - i,
    {
        assert(names(entries@)[i as int] == entries@[i as int].name@);
        if same_text(entries[i].name.as_str(), n) {
            proof {
                lemma_first_match_is(names(entries@), n@, i as int);
            }
            return Some(i);
        }
        i += 1;
    }
    proof {
        lemma_no_match(names(entries@), n@);
    }
    None
}

/// The name the selection stands for, to be stored between runs.
pub fn selected_name(entries: &Vec<Entry>, selected: Option<usize>) -> (name: Option<String>)
    ensures
        name is Some <==> (selected matches Some(i) && i < entries.len()),
        name matches Some(n) ==> n@ == entries@[selected->0 as int].name@,
{
    match selected {
        Some(i) => if i < entries.len() {
            Some(entries[i].name.clone())
        } else {
            None
        },
        None => None,
    }
}

/// Where the selection lands once the list is replaced by `next`: on the
/// same file if it is still there, else on the first entry, else nowhere.
pub open spec fn reselected(old_paths: Seq<Seq<char>>, selected: Option<usize>, next_paths: Seq<Seq<char>>) -> Option<usize> {
    let kept = match selected {
        Some(i) => if (i as int) < old_paths.len() {
            match first_match(next_paths, old_paths[i as int]) {
                Some(k) => Some(k as usize),
                None => None,
            }
        } else {
            None
        },
        None => None,
    };
    match kept {
        Some(k) => Some(k),
        None => if next_paths.len() > 0 {
            Some(0usize)
        } else {
            None
        },
    }
}

/// Replaces the list with `next`, keeping the selection on the file it was
/// on when that file is still listed.
pub fn replace_entries(entries: &mut Vec<Entry>, selected: &mut Option<usize>, next: Vec<Entry>)
    ensures
        final(entries)@ == next@,
        *final(selected) == reselected(paths(old(entries)@), *old(selected), paths(next@)),
{
    let mut kept: Option<usize> = None;
    match *selected {
        Some(i) => if i < entries.len() {
            let ghost target = paths(entries@)[i as int];
            assert(target == entries@[i as int].path@);
            let mut k: usize = 0;
            while kept.is_none() && k < next.len()
                invariant
                    k <= next.len(),
                    i < entries.len(),
                    target == entries@[i as int].path@,
                    kept matches Some(found) ==> is_first_match(paths(next@), target, found as int),
                    kept is None ==> forall|j: int| 0 <= j < k ==> paths(next@)[j] != target,
                decreases next.len() - k + (if kept is None { 1int } else { 0int }),
            {
                assert(paths(next@)[k as int] == next@[k as int].path@);
                if same_text(next[k].path.as_str(), entries[i].path.as_str()) {
                    kept = Some(k);
                } else {
                    k += 1;
                }
            }
            proof {
                match kept {
                    Some(found) => lemma_first_match_is(paths(next@), target, found as int),
                    None => lemma_no_match(paths(next@), target),
                }
            }
        },
        None => {},
    }
    let chosen = match kept {
        Some(k) => Some(k),
        None => if next.len() > 0 {
            Some(0)
        } else {
            None
        },
    };
    *entries = next;
    *selected = chosen;
}

/// The extension of a file name: what follows its last dot, when the dot is
/// not the name's first character and the name is not `..`.
pub open spec fn extension_of(name: Seq<char>) -> Option<Seq<char>> {
    if name == ".."@ {
        None
    } else {
        match last_dot(name) {
            Some(k) => if k > 0 {
                Some(name.skip(k + 1))
            } else {
                None
            },
            None => None,
        }
    }
}

/// Where the last `.` of `p` is, if it has one.
pub open spec fn last_dot(p: Seq<char>) -> Option<int>
    decreases p.len(),
{
    if p.len() == 0 {
        None
    } else if p.last() == '.' {
        Some(p.len() - 1)
    } else {
        last_dot(p.drop_last())
    }
}

fn find_last_dot(chars: &Vec<char>, end: usize) -> (k: Option<usize>)
    requires
        end <= chars.len(),
    ensures
        k is None ==> last_dot(chars@.take(end as int)) is None,
        k matches Some(i) ==> last_dot(chars@.take(end as int)) == Some(i as int) && i < end,
    decreases end,
{
    if end == 0 {
        return None;
    }
    assert(chars@.take(end as int).drop_last() == chars@.take(end - 1));
    if chars[end - 1] == '.' {
        Some(end - 1)
    } else {
        find_last_dot(chars, end - 1)
    }
}

/// Whether a file is a template: its extension is `kdl`, in any case.
pub fn is_template_file(file_name: &str) -> (template: bool)
    ensures
        template == (extension_of(file_name@) matches Some(e) && eq_ignoring_ascii_case(e, "kdl"@)),
{
    let chars = chars_of(file_name);
    proof {
        assert(chars@.take(chars.len() as int) == chars@);
        reveal_strlit("..");
    }
    if same_text(file_name, "..") {
        return false;
    }
    match find_last_dot(&chars, chars.len()) {
        Some(k) => if k > 0 {
            let extension = string_of_range(&chars, k + 1, chars.len());
            eq_ignore_ascii_case(extension.as_str(), "kdl")
        } else {
            false
        },
        None => false,
    }
}

/// Reselects the entry a stored name stands for; a name that no longer
/// exists leaves the selection the library already made, so a deleted file
/// does not empty the panel.
pub fn restore_selection(entries: &Vec<Entry>, name: Option<&str>, current: Option<usize>) -> (selected: Option<usize>)
    ensures
        selected == (match name {
            Some(n) => match first_match(names(entries@), n@) {
                Some(k) => Some(k as usize),
                None => current,
            },
            None => current,
        }),
{
    match index_of(entries, name) {
        Some(k) => Some(k),
        None => current,
    }
}

/// What a background's list entry says about its size: `width×height`.
pub fn geometry_label(width: u32, height: u32) -> (label: String)
    ensures
        label@ == crate::text::decimal_digits(width as nat) + seq!['×'] + crate::text::decimal_digits(height as nat),
{
    let mut label = crate::text::format_decimal(width as u64);
    crate::text::push_char(&mut label, '×');
    let h = crate::text::format_decimal(height as u64);
    label.append(h.as_str());
    label
}

/// Whether `a` is listed before `b`: by name without regard to case, and
/// by the name itself between names that differ only in case.
pub open spec fn listed_before(a: Entry, b: Entry) -> bool {
    ||| text_less(unicode_lowercase(a.name@), unicode_lowercase(b.name@))
    ||| (unicode_lowercase(a.name@) == unicode_lowercase(b.name@) && text_less(a.name@, b.name@))
}

/// Whether `entries` are in the order the lists show them.
pub open spec fn in_list_order(entries: Seq<Entry>) -> bool {
    forall|i: int, j: int| 0 <= i < j < entries.len() ==> !listed_before(#[trigger] entries[j], #[trigger] entries[i])
}

proof fn lemma_listed_before_order(a: Entry, b: Entry, c: Entry)
    ensures
        !listed_before(a, a),
        listed_before(a, b) ==> !listed_before(b, a),
        listed_before(a, b) && listed_before(b, c) ==> listed_before(a, c),
        listed_before(a, b) || listed_before(b, a) || a.name@ == b.name@,
{
    let (la, lb, lc) = (unicode_lowercase(a.name@), unicode_lowercase(b.name@), unicode_lowercase(c.name@));
    lemma_text_less_irreflexive(la);
    lemma_text_less_irreflexive(a.name@);
    lemma_text_less_total(la, lb);
    lemma_text_less_total(a.name@, b.name@);
    if text_less(la, lb) && text_less(lb, la) {
        lemma_text_less_transitive(la, lb, la);
    }
    if text_less(a.name@, b.name@) && text_less(b.name@, a.name@) {
        lemma_text_less_transitive(a.name@, b.name@, a.name@);
    }
    if listed_before(a, b) && listed_before(b, c) {
        if text_less(la, lb) && text_less(lb, lc) {
            lemma_text_less_transitive(la, lb, lc);
        }
        if text_less(a.name@, b.name@) && text_less(b.name@, c.name@) {
            lemma_text_less_transitive(a.name@, b.name@, c.name@);
        }
    }
}

/// Whether `a` is listed before `b`.
fn listed_first(a: &Entry, a_lower: &String, b: &Entry, b_lower: &String) -> (first: bool)
    requires
        a_lower@ == unicode_lowercase(a.name@),
        b_lower@ == unicode_lowercase(b.name@),
    ensures
        first == listed_before(*a, *b),
{
    if text_before(a_lower.as_str(), b_lower.as_str()) {
        true
    } else if same_text(a_lower.as_str(), b_lower.as_str()) {
        text_before(a.name.as_str(), b.name.as_str())
    } else {
        false
    }
}

/// Puts `entries` in the order the lists show them: by name without regard
/// to case, and by the name itself between names that differ only in case.
pub fn sort_entries(entries: Vec<Entry>) -> (sorted: Vec<Entry>)
    ensures
        in_list_order(sorted@),
        sorted@.to_multiset() == entries@.to_multiset(),
{
    broadcast use vstd::seq_lib::group_to_multiset_ensures;

    let ghost given = entries@;
    let mut rest = entries;
    let mut sorted: Vec<Entry> = Vec::new();
    let mut keys: Vec<String> = Vec::new();
    while rest.len() > 0
        invariant
            in_list_order(sorted@),
            keys@.len() == sorted@.len(),
            forall|k: int| 0 <= k < keys@.len() ==> #[trigger] keys@[k]@ == unicode_lowercase(sorted@[k].name@),
            sorted@.to_multiset().add(rest@.to_multiset()) == given.to_multiset(),
        decreases rest.len(),
    {
        let ghost before_rest = rest@;
        let entry = rest.pop().unwrap();
        assert(before_rest == rest@.push(entry));
        let key = to_lowercase(entry.name.as_str());
        let mut k: usize = 0;
        while k < sorted.len() && listed_first(&sorted[k], &keys[k], &entry, &key)
            invariant
                k <= sorted.len(),
                keys@.len() == sorted@.len(),
                forall|k: int| 0 <= k < keys@.len() ==> #[trigger] keys@[k]@ == unicode_lowercase(sorted@[k].name@),
                key@ == unicode_lowercase(entry.name@),
                forall|i: int| 0 <= i < k ==> listed_before(#[trigger] sorted@[i], entry),
            decreases sorted.len() - k,
        {
            k += 1;
        }
        let ghost old_sorted = sorted@;
        let ghost old_keys = keys@;
        proof {
            assert forall|i: int, j: int| 0 <= i < j < old_sorted.len() + 1 implies !listed_before(
                #[trigger] old_sorted.insert(k as int, entry)[j],
                #[trigger] old_sorted.insert(k as int, entry)[i],
            ) by {
                let s = old_sorted.insert(k as int, entry);
                if j < k {
                    assert(s[i] == old_sorted[i] && s[j] == old_sorted[j]);
                } else if j == k {
                    assert(s[i] == old_sorted[i]);
                    lemma_listed_before_order(old_sorted[i], entry, entry);
                } else if i == k {
                    assert(s[j] == old_sorted[j - 1]);
                    assert(!listed_before(old_sorted[k as int], entry));
                    if k < j - 1 {
                        assert(!listed_before(old_sorted[j - 1], old_sorted[k as int]));
                    }
                    lemma_listed_before_order(old_sorted[j - 1], entry, old_sorted[k as int]);
                    lemma_listed_before_order(entry, old_sorted[k as int], old_sorted[j - 1]);
                } else if i < k {
                    assert(s[i] == old_sorted[i] && s[j] == old_sorted[j - 1]);
                } else {
                    assert(s[i] == old_sorted[i - 1] && s[j] == old_sorted[j - 1]);
                }
            }
        }
        sorted.insert(k, entry);
        keys.insert(k, key);
        proof {
            assert(sorted@ == old_sorted.insert(k as int, entry));
            assert(keys@ == old_keys.insert(k as int, key));
            assert forall|m: int| 0 <= m < keys@.len() implies #[trigger] keys@[m]@ == unicode_lowercase(
                sorted@[m].name@,
            ) by {
                if m > k {
                    assert(keys@[m] == old_keys[m - 1]);
                    assert(sorted@[m] == old_sorted[m - 1]);
                } else if m < k {
                    assert(keys@[m] == old_keys[m]);
                    assert(sorted@[m] == old_sorted[m]);
                }
            }
            vstd::seq_lib::to_multiset_insert(old_sorted, k as int, entry);
            vstd::seq_lib::to_multiset_build(rest@, entry);
            assert(sorted@.to_multiset() == old_sorted.to_multiset().insert(entry));
            assert(before_rest.to_multiset() == rest@.to_multiset().insert(entry));
            assert(sorted@.to_multiset().add(rest@.to_multiset()) =~= given.to_multiset());
        }
    }
    proof {
        assert(rest@ =~= Seq::<Entry>::empty());
        vstd::multiset::lemma_multiset_empty_len(rest@.to_multiset());
        assert(rest@.to_multiset() =~= vstd::multiset::Multiset::<Entry>::empty());
        assert(sorted@.to_multiset().add(rest@.to_multiset()) =~= sorted@.to_multiset());
    }
    sorted
}

} // verus!
