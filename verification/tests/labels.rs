use workload_sched::DedupedLabels;
use workload_sched::Label;

fn label(text: &str, name: &str) -> Label {
    Label { text: text.to_string(), name: name.to_string() }
}

#[test]
fn add_dedups_by_canonical_text() {
    let mut set = DedupedLabels::new();
    assert!(set.add(label("x", "first spelling")));
    assert!(!set.add(label("x", "second spelling")));
    assert_eq!(set.len(), 1);
}

#[test]
fn contains_goes_by_canonical_text_only() {
    let mut set = DedupedLabels::new();
    set.add(label("x", "a"));
    assert!(set.contains(&label("x", "entirely different display")));
    assert!(!set.contains(&label("y", "a")));
}

#[test]
fn text_sequence_preserves_first_insertion_order() {
    let mut set = DedupedLabels::new();
    set.add(label("x", "a"));
    set.add(label("y", "b"));
    set.add(label("x", "c"));
    set.add(label("z", "d"));
    assert_eq!(
        set.to_string_vec(),
        vec!["x".to_string(), "y".to_string(), "z".to_string()]
    );
}

#[test]
fn retain_keeps_matching_labels_in_order() {
    let mut set = DedupedLabels::new();
    set.add(label("x", "a"));
    set.add(label("y", "b"));
    set.add(label("z", "c"));
    set.retain(|l| l.text != "y");
    assert_eq!(set.to_string_vec(), vec!["x".to_string(), "z".to_string()]);
    assert!(!set.contains(&label("y", "b")));
    // a removed label can be inserted anew
    assert!(set.add(label("y", "b")));
    assert_eq!(
        set.to_string_vec(),
        vec!["x".to_string(), "z".to_string(), "y".to_string()]
    );
}

#[test]
fn len_is_empty_and_clear() {
    let mut set = DedupedLabels::with_capacity(4);
    assert!(set.is_empty());
    assert_eq!(set.len(), 0);
    set.add(label("x", "a"));
    set.add(label("y", "b"));
    assert!(!set.is_empty());
    assert_eq!(set.len(), 2);
    set.clear();
    assert!(set.is_empty());
    assert_eq!(set.len(), 0);
    assert!(!set.contains(&label("x", "a")));
}

#[test]
fn to_vec_copies_labels_in_order() {
    let mut set = DedupedLabels::new();
    set.add(label("x", "a"));
    set.add(label("y", "b"));
    let v = set.to_vec();
    assert_eq!(v, vec![label("x", "a"), label("y", "b")]);
}

#[test]
fn iter_walks_labels_in_order() {
    let mut set = DedupedLabels::new();
    set.add(label("x", "a"));
    set.add(label("y", "b"));
    let mut it = set.iter();
    assert_eq!(it.next(), Some(label("x", "a")));
    assert_eq!(it.next(), Some(label("y", "b")));
    assert_eq!(it.next(), None);
    assert_eq!(it.next(), None);
}

#[test]
fn extend_adds_each_label_with_dedup() {
    let mut set = DedupedLabels::new();
    set.add(label("x", "a"));
    set.extend(vec![label("y", "b"), label("x", "again"), label("z", "c")]);
    assert_eq!(
        set.to_string_vec(),
        vec!["x".to_string(), "y".to_string(), "z".to_string()]
    );
}

#[test]
fn default_is_empty() {
    let set = DedupedLabels::default();
    assert!(set.is_empty());
}
