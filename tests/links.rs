use webxr::links::{convert_references_to_topic_counts, count_hyperlinks, extract_references};

fn names(v: &[&str]) -> Vec<String> {
    v.iter().map(|s| s.to_string()).collect()
}

#[test]
fn references_to_known_documents_are_extracted_in_order() {
    let valid = names(&["a", "b", "[c"]);
    let text = "See [[a]] and [[b]], again [[a]], not [[zzz]]; [[[c]] counts";
    assert_eq!(extract_references(text, &valid), names(&["a", "b", "a", "[c"]));
}

#[test]
fn malformed_references_are_not_matched() {
    let valid = names(&["a", "a]b", ""]);
    assert!(extract_references("[[a]b]] [[]] [a]] [[a", &valid).is_empty());
    assert_eq!(extract_references("[[a]]]]", &valid), names(&["a"]));
    assert!(extract_references("", &valid).is_empty());
}

#[test]
fn references_are_counted_per_name() {
    let counts = convert_references_to_topic_counts(names(&["b", "a", "b", "b", "c"]));
    assert_eq!(
        counts,
        vec![("b".to_string(), 3), ("a".to_string(), 1), ("c".to_string(), 1)]
    );
    assert!(convert_references_to_topic_counts(vec![]).is_empty());
}

#[test]
fn markdown_hyperlinks_are_counted() {
    assert_eq!(count_hyperlinks("[x](y) and [z](https://w) here"), 2);
    assert_eq!(count_hyperlinks("[bad] (no) [](e) [t]() [[w]](v)"), 0);
    assert_eq!(count_hyperlinks("[a [b](c)"), 1);
    assert_eq!(count_hyperlinks("[a](b)(c)[d](e)"), 2);
    assert_eq!(count_hyperlinks(""), 0);
}
