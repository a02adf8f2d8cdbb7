use shin::xml_iterator::{
    strip_decl, str_eq, Attribute, AttributeIterator, Element, ElementIterator, EmptyTag, EndTag,
    StartTag,
};

#[test]
fn test_strip_decl() {
    const WITH_DECL: &str = r#"
<?xml version="1.0" encoding="UTF-8"?>
<protocol name="wayland">
"#;
    assert!(strip_decl(WITH_DECL)
        .unwrap()
        .starts_with(r#"<protocol name="wayland">"#));

    const WITHOUT_DECL: &str = r#"
<protocol name="wayland">
"#;
    assert_eq!(strip_decl(WITHOUT_DECL), None);
}

#[test]
fn test_attribute_iterator() {
    const ATTRS: &str = r#"name="wl_display" version="1""#;
    let mut iterator = AttributeIterator::new(ATTRS);
    assert_eq!(
        iterator.next(),
        Some(Attribute {
            key: "name",
            value: "wl_display"
        })
    );
    assert_eq!(
        iterator.next(),
        Some(Attribute {
            key: "version",
            value: "1"
        })
    );
    assert_eq!(iterator.next(), None);
}

#[test]
fn test_next_empty_tag() {
    const INPUT: &str = r#"
<entry name="wheel" value="0" summary="a physical wheel rotation" />
"#;
    assert_eq!(
        ElementIterator::new(INPUT.trim()).next_empty_tag(),
        Some(Element::EmptyTag(EmptyTag {
            name: "entry",
            attrs: r#"name="wheel" value="0" summary="a physical wheel rotation""#
        }))
    );
}

#[test]
fn test_next_end_tag() {
    const INPUT: &str = r#"
</protocol>
"#;
    assert_eq!(
        ElementIterator::new(INPUT.trim()).next_end_tag(),
        Some(Element::EndTag(EndTag { name: "protocol" }))
    );
}

#[test]
fn test_next_start_tag() {
    const INPUT: &str = r#"
<interface name="wl_display" version="1">
"#;
    assert_eq!(
        ElementIterator::new(INPUT.trim()).next_start_tag(),
        Some(Element::StartTag(StartTag {
            name: "interface",
            attrs: r#"name="wl_display" version="1""#
        }))
    );
}

#[test]
fn test_next_text() {
    const INPUT: &str = r#"
    text
"#;
    assert_eq!(
        ElementIterator::new(INPUT.trim()).next_text(),
        Some(Element::Text("text"))
    );
}

#[test]
fn test_next_comment() {
    const INPUT: &str = r#"
<!-- SECTION: GL type definitions. -->
"#;
    assert_eq!(
        ElementIterator::new(INPUT.trim()).next_comment(),
        Some(Element::Comment(" SECTION: GL type definitions. ")),
    );
}

// ---- further scenarios

#[test]
fn element_iterator_walks_a_document() {
    const DOC: &str = "<?xml version=\"1.0\"?>\n  <protocol name=\"p\"><!-- c --><arg name=\"x\"/>hi</protocol>";
    let mut it = ElementIterator::new(DOC);
    assert_eq!(
        it.next(),
        Some(Element::StartTag(StartTag { name: "protocol", attrs: "name=\"p\"" }))
    );
    assert_eq!(it.next(), Some(Element::Comment(" c ")));
    assert_eq!(
        it.next(),
        Some(Element::EmptyTag(EmptyTag { name: "arg", attrs: "name=\"x\"" }))
    );
    assert_eq!(it.next(), Some(Element::Text("hi")));
    assert_eq!(it.next(), Some(Element::EndTag(EndTag { name: "protocol" })));
    assert_eq!(it.next(), None);
}

#[test]
fn element_iterator_stops_on_unclosed_tag() {
    let mut it = ElementIterator::new("<open");
    assert_eq!(it.next(), None);
    assert_eq!(it.next(), None);
}

#[test]
fn attributes_of_tags() {
    let tag = StartTag { name: "request", attrs: "name=\"destroy\" type=\"destructor\"" };
    let mut attrs = tag.iter_attrs();
    assert!(attrs.next_is_quoted());
    assert_eq!(attrs.next(), Some(Attribute { key: "name", value: "destroy" }));
    assert_eq!(attrs.next(), Some(Attribute { key: "type", value: "destructor" }));
    assert_eq!(attrs.next(), None);
    let unquoted = AttributeIterator::new("a=b");
    assert!(!unquoted.next_is_quoted());
    let empty = EmptyTag { name: "arg", attrs: "" };
    let mut none = empty.iter_attrs();
    assert_eq!(none.next(), None);
}

#[test]
fn non_ascii_text_and_unicode_trim() {
    // U+00A0 is white space for `trim`
    let mut it = AttributeIterator::new("\u{a0}clé=\"välue\"");
    assert_eq!(it.next(), Some(Attribute { key: "clé", value: "välue" }));
    assert!(str_eq("ab", "ab"));
    assert!(!str_eq("ab", "abc"));
}
