use rssstv::library::{
    geometry_label, index_of, is_template_file, replace_entries, restore_selection, selected_name, sort_entries,
    Entry,
};

fn entry(path: &str) -> Entry {
    Entry::new(path.to_owned(), String::new())
}

fn names(entries: &[Entry]) -> Vec<&str> {
    entries.iter().map(|entry| entry.name.as_str()).collect()
}

#[test]
fn an_entry_is_named_by_its_file() {
    assert_eq!(entry("/t/alpha.kdl").name, "alpha.kdl");
    assert_eq!(entry("alpha.kdl").name, "alpha.kdl");
    assert_eq!(entry("/t/dir/").name, "dir");
    assert_eq!(entry("/").name, "/");
    assert_eq!(entry("/t/..").name, "/t/..");
    assert_eq!(entry("/t/alpha.kdl").path, "/t/alpha.kdl");
}

#[test]
fn library_refresh_lists_matching_files_and_preserves_selection() {
    let listed: Vec<Entry> = ["/t/beta.kdl", "/t/alpha.KDL", "/t/ignored.txt"]
        .into_iter()
        .filter(|path| is_template_file(path.rsplit('/').next().unwrap()))
        .map(entry)
        .collect();
    let mut templates = Vec::new();
    let mut selected = None;
    replace_entries(&mut templates, &mut selected, sort_entries(listed));
    assert_eq!(names(&templates), ["alpha.KDL", "beta.kdl"]);
    assert_eq!(selected, Some(0));

    selected = Some(1);
    let rescanned = sort_entries(vec![entry("/t/beta.kdl"), entry("/t/alpha.KDL"), entry("/t/aardvark.kdl")]);
    replace_entries(&mut templates, &mut selected, rescanned);
    assert_eq!(names(&templates), ["aardvark.kdl", "alpha.KDL", "beta.kdl"]);
    assert_eq!(selected.map(|index| templates[index].name.as_str()), Some("beta.kdl"));
}

#[test]
fn a_stored_selection_that_disappeared_falls_back_to_the_first_entry() {
    let mut templates = Vec::new();
    let mut selected = None;
    replace_entries(&mut templates, &mut selected, sort_entries(vec![entry("/t/beta.kdl"), entry("/t/alpha.kdl")]));
    let restored = restore_selection(&templates, Some("gone.kdl"), selected);
    assert_eq!(templates[restored.unwrap()].name, "alpha.kdl");
    let restored = restore_selection(&templates, Some("beta.kdl"), selected);
    assert_eq!(templates[restored.unwrap()].name, "beta.kdl");
}

#[test]
fn a_selection_whose_file_went_moves_to_the_first_entry_or_nowhere() {
    let mut entries = vec![entry("/s/a.png"), entry("/s/b.png")];
    let mut selected = Some(1);
    replace_entries(&mut entries, &mut selected, vec![entry("/s/c.png"), entry("/s/a.png")]);
    assert_eq!(selected, Some(0));
    replace_entries(&mut entries, &mut selected, Vec::new());
    assert_eq!(selected, None);
    assert!(entries.is_empty());
}

#[test]
fn the_list_is_ordered_without_regard_to_case() {
    let sorted = sort_entries(vec![entry("b"), entry("B"), entry("a"), entry("Ä"), entry("C")]);
    assert_eq!(names(&sorted), ["a", "B", "b", "C", "Ä"]);
    assert!(sort_entries(Vec::new()).is_empty());
}

#[test]
fn a_name_finds_its_entry() {
    let entries = vec![entry("a"), entry("b"), entry("b")];
    assert_eq!(index_of(&entries, Some("b")), Some(1));
    assert_eq!(index_of(&entries, Some("c")), None);
    assert_eq!(index_of(&entries, None), None);
    assert_eq!(selected_name(&entries, Some(0)).as_deref(), Some("a"));
    assert_eq!(selected_name(&entries, Some(3)), None);
    assert_eq!(selected_name(&entries, None), None);
}

#[test]
fn a_template_is_a_kdl_file_in_any_case() {
    assert!(is_template_file("a.kdl"));
    assert!(is_template_file("a.KDL"));
    assert!(is_template_file("a.b.Kdl"));
    assert!(!is_template_file(".kdl"));
    assert!(!is_template_file("kdl"));
    assert!(!is_template_file("a.kdl.txt"));
    assert!(!is_template_file(".."));
}

#[test]
fn a_background_says_how_large_it_is() {
    assert_eq!(geometry_label(7, 5), "7×5");
    assert_eq!(geometry_label(320, 256), "320×256");
}
