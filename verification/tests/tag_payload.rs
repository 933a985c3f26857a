use post_store::Tag;

#[test]
fn get_returns_what_was_inserted() {
    let mut tag = Tag::new();
    tag.insert("lang".to_string(), "en".to_string());
    tag.insert("topic".to_string(), "rust".to_string());
    assert_eq!(tag.get(&"lang".to_string()), Some(&"en".to_string()));
    assert_eq!(tag.get(&"topic".to_string()), Some(&"rust".to_string()));
    assert_eq!(tag.get(&"missing".to_string()), None);
}

#[test]
fn later_binding_of_a_key_wins() {
    let mut tag = Tag::new();
    tag.insert("lang".to_string(), "en".to_string());
    tag.insert("lang".to_string(), "fr".to_string());
    assert_eq!(tag.get(&"lang".to_string()), Some(&"fr".to_string()));
}

#[test]
fn the_empty_fragment_is_contained_in_anything() {
    let empty = Tag::new();
    let mut tag = Tag::new();
    tag.insert("lang".to_string(), "en".to_string());
    assert!(tag.contains_fragment(&empty));
    assert!(Tag::new().contains_fragment(&empty));
}

#[test]
fn containment_needs_equal_values() {
    let mut tag = Tag::new();
    tag.insert("lang".to_string(), "en".to_string());
    tag.insert("topic".to_string(), "rust".to_string());

    let mut en = Tag::new();
    en.insert("lang".to_string(), "en".to_string());
    assert!(tag.contains_fragment(&en));

    let mut fr = Tag::new();
    fr.insert("lang".to_string(), "fr".to_string());
    assert!(!tag.contains_fragment(&fr));

    let mut extra = Tag::new();
    extra.insert("lang".to_string(), "en".to_string());
    extra.insert("year".to_string(), "2020".to_string());
    assert!(!tag.contains_fragment(&extra));

    assert!(!en.contains_fragment(&tag));
}

#[test]
fn a_clone_reads_the_same() {
    let mut tag = Tag::new();
    tag.insert("lang".to_string(), "en".to_string());
    let copy = tag.clone();
    assert_eq!(copy, tag);
    assert_eq!(copy.get(&"lang".to_string()), Some(&"en".to_string()));
}

#[test]
fn entries_list_each_key_once_with_the_value_that_counts() {
    let mut tag = Tag::new();
    tag.insert("lang".to_string(), "en".to_string());
    tag.insert("topic".to_string(), "rust".to_string());
    tag.insert("lang".to_string(), "fr".to_string());
    let mut entries = tag.entries();
    entries.sort();
    assert_eq!(
        entries,
        vec![
            ("lang".to_string(), "fr".to_string()),
            ("topic".to_string(), "rust".to_string()),
        ]
    );
    assert!(Tag::new().entries().is_empty());
}
