use smol::delta::{compute_delta, next_document, render_document, Delta};
use smol::journal::{parse_document, Entry};
use smol::known::{reconstruct, KnownSet};

fn strings(v: &[&str]) -> Vec<String> {
    v.iter().map(|s| s.to_string()).collect()
}

fn sorted(k: &KnownSet) -> Vec<String> {
    let mut v = k.to_vec();
    v.sort();
    v
}

fn sorted_vec(mut v: Vec<String>) -> Vec<String> {
    v.sort();
    v
}

#[test]
fn empty_store_lists_every_file_as_added() {
    let run = next_document(&Vec::new(), &strings(&["a", "b"]), "2024-05-01_10:00:00", "first");
    assert_eq!(run.delta.added, strings(&["a", "b"]));
    assert!(run.delta.removed.is_empty());
    assert_eq!(run.text, "# (2024-05-01_10:00:00) first\na\nb\n");
    assert!(!run.text.contains("Deleted"));
    let k = reconstruct(&vec![run.text.clone()]);
    assert_eq!(sorted(&k), strings(&["a", "b"]));
}

#[test]
fn second_run_records_addition_and_removal() {
    let first = "# (2024-05-01_10:00:00) \na\nb\n".to_string();
    let history = vec![first];
    let run = next_document(&history, &strings(&["b", "c"]), "2024-05-02_10:00:00", "");
    assert_eq!(run.delta.added, strings(&["c"]));
    assert_eq!(run.delta.removed, strings(&["a"]));
    assert_eq!(run.text, "# (2024-05-02_10:00:00) \nc\n\n# Deleted\n a\n");
    let mut all = history.clone();
    all.push(run.text.clone());
    assert_eq!(sorted(&reconstruct(&all)), strings(&["b", "c"]));
}

#[test]
fn later_removal_overrides_earlier_addition() {
    let docs = vec![
        "# (2024-05-01_10:00:00) \na\n".to_string(),
        "# (2024-05-02_10:00:00) \n\n# Deleted\n a\n".to_string(),
    ];
    let k = reconstruct(&docs);
    assert!(!k.contains("a"));
    assert!(sorted(&k).is_empty());
}

#[test]
fn empty_root_reports_everything_removed() {
    let history = vec!["# (2024-05-01_10:00:00) \na\n".to_string()];
    let run = next_document(&history, &Vec::new(), "2024-05-02_10:00:00", "");
    assert!(run.delta.added.is_empty());
    assert_eq!(run.delta.removed, strings(&["a"]));
    assert_eq!(run.text, "# (2024-05-02_10:00:00) \n\n# Deleted\n a\n");
}

#[test]
fn empty_store_and_empty_root_give_header_only() {
    let run = next_document(&Vec::new(), &Vec::new(), "2024-05-01_10:00:00", "nothing");
    assert_eq!(run.text, "# (2024-05-01_10:00:00) nothing\n");
    assert!(run.delta.added.is_empty());
    assert!(run.delta.removed.is_empty());
}

#[test]
fn replaying_history_twice_gives_same_set() {
    let docs = vec![
        "# (1) \na\nb\nc\n".to_string(),
        "# (2) \nd\n\n# Deleted\n b\n".to_string(),
        "# (3) \nb\n\n# Deleted\n a\n d\n".to_string(),
    ];
    let once = sorted(&reconstruct(&docs));
    let again = sorted(&reconstruct(&docs));
    let mut doubled = docs.clone();
    doubled.extend(docs.iter().cloned());
    let twice = sorted(&reconstruct(&doubled));
    assert_eq!(once, strings(&["b", "c"]));
    assert_eq!(again, once);
    assert_eq!(twice, once);
}

#[test]
fn fold_matches_plain_set_operations() {
    let entries = vec![
        Entry::Added("x".to_string()),
        Entry::Added("y".to_string()),
        Entry::Removed("x".to_string()),
        Entry::Added("z".to_string()),
        Entry::Added("x".to_string()),
        Entry::Removed("y".to_string()),
        Entry::Added("z".to_string()),
    ];
    let mut k = KnownSet::new();
    k.apply_all(&entries);
    let mut expected = std::collections::BTreeSet::new();
    for e in &entries {
        match e {
            Entry::Added(p) => {
                expected.insert(p.clone());
            }
            Entry::Removed(p) => {
                expected.remove(p);
            }
        }
    }
    assert_eq!(sorted(&k), expected.into_iter().collect::<Vec<_>>());
}

#[test]
fn removing_absent_path_changes_nothing() {
    let mut k = KnownSet::new();
    k.insert("a".to_string());
    k.remove("b");
    assert_eq!(sorted(&k), strings(&["a"]));
    k.replay_document(" c\n");
    assert_eq!(sorted(&k), strings(&["a"]));
    let mut e = KnownSet::new();
    e.replay_document("# (1) \n\n# Deleted\n gone\n");
    assert!(sorted(&e).is_empty());
}

#[test]
fn delta_is_both_set_differences() {
    let mut k = KnownSet::new();
    for p in ["a", "b", "c"] {
        k.insert(p.to_string());
    }
    let d = compute_delta(&k, &strings(&["c", "d", "a", "e"]));
    assert_eq!(d.added, strings(&["d", "e"]));
    assert_eq!(sorted_vec(d.removed.clone()), strings(&["b"]));
    for p in &d.added {
        assert!(!d.removed.contains(p));
    }
}

#[test]
fn round_trip_reaches_live_listing() {
    let history = vec![
        "# (1) \n/r/a\n/r/b\n/r/c\n".to_string(),
        "# (2) \n/r/d\n\n# Deleted\n /r/a\n".to_string(),
    ];
    let live = strings(&["/r/b", "/r/e", "/r/d", "/r/f"]);
    let run = next_document(&history, &live, "3", "again");
    let mut all = history.clone();
    all.push(run.text);
    assert_eq!(sorted(&reconstruct(&all)), sorted_vec(live));
}

#[test]
fn parser_reads_lines_markers_and_comments() {
    let entries = parse_document("# (1) header\r\nadded one\r\n\r\n# Deleted\n gone\n \nlast");
    assert_eq!(entries.len(), 4);
    assert!(matches!(&entries[0], Entry::Added(p) if p == "added one"));
    assert!(matches!(&entries[1], Entry::Removed(p) if p == "gone"));
    assert!(matches!(&entries[2], Entry::Removed(p) if p.is_empty()));
    assert!(matches!(&entries[3], Entry::Added(p) if p == "last"));
}

#[test]
fn parser_of_empty_text_gives_nothing() {
    assert!(parse_document("").is_empty());
    assert!(parse_document("\n\n#x\n").is_empty());
}

#[test]
fn renderer_writes_sections_in_order() {
    let delta = Delta { added: strings(&["n1", "n2"]), removed: strings(&["o1"]) };
    assert_eq!(render_document("S", "d", &delta), "# (S) d\nn1\nn2\n\n# Deleted\n o1\n");
}

#[test]
fn known_set_keeps_paths_unique() {
    let mut k = KnownSet::new();
    k.insert("p".to_string());
    k.insert("p".to_string());
    assert_eq!(k.to_vec().len(), 1);
    assert!(k.contains("p"));
    k.remove("p");
    assert!(!k.contains("p"));
    let copy = {
        let mut c = KnownSet::new();
        c.insert("q".to_string());
        c.duplicate()
    };
    assert_eq!(sorted(&copy), strings(&["q"]));
}

#[test]
fn removals_come_out_in_path_order() {
    let history = vec!["# (1) \n/z\n/a/b\n/a\n/é\n/m\n".to_string()];
    let run = next_document(&history, &strings(&["/m"]), "2", "");
    assert_eq!(run.delta.removed, strings(&["/a", "/a/b", "/z", "/é"]));
    assert_eq!(run.text, "# (2) \n\n# Deleted\n /a\n /a/b\n /z\n /é\n");
}

#[test]
fn known_set_lists_paths_in_increasing_order() {
    let mut k = KnownSet::new();
    for p in ["b", "a", "ab", "", "B"] {
        k.insert(p.to_string());
    }
    assert_eq!(k.to_vec(), strings(&["", "B", "a", "ab", "b"]));
}
