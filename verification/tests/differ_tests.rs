use livets_core::{DomPatch, HtmlDiffer};

#[test]
fn test_text_content_change() {
    let differ = HtmlDiffer::new();
    let old_html = r#"<div class="text-green-600 font-bold text-4xl">5</div>"#;
    let new_html = r#"<div class="text-green-600 font-bold text-4xl">6</div>"#;

    let patches = differ.diff(old_html, new_html).unwrap();
    assert_eq!(patches.len(), 1);

    if let DomPatch::UpdateText { selector: _, text } = &patches[0] {
        assert_eq!(text, "6");
    } else {
        panic!("Expected UpdateText patch");
    }
}

#[test]
fn test_class_change() {
    let differ = HtmlDiffer::new();
    let old_html = r#"<div class="text-green-600 font-bold text-4xl">5</div>"#;
    let new_html = r#"<div class="text-red-600 font-bold text-4xl">5</div>"#;

    let patches = differ.diff(old_html, new_html).unwrap();

    assert_eq!(patches.len(), 1);

    if let DomPatch::SetAttribute { attr, value, .. } = &patches[0] {
        assert_eq!(attr, "class");
        assert_eq!(value, "text-red-600 font-bold text-4xl");
    } else {
        panic!("Expected SetAttribute patch, got {:?}", patches[0]);
    }
}

#[test]
fn test_both_text_and_class_change() {
    let differ = HtmlDiffer::new();
    let old_html = r#"<div class="text-green-600 font-bold text-4xl">5</div>"#;
    let new_html = r#"<div class="text-red-600 font-bold text-4xl">-3</div>"#;

    let patches = differ.diff(old_html, new_html).unwrap();

    // Should generate 2 patches: one for class change, one for text change
    assert_eq!(patches.len(), 2);

    // First patch should be class change
    if let DomPatch::SetAttribute { attr, value, .. } = &patches[0] {
        assert_eq!(attr, "class");
        assert_eq!(value, "text-red-600 font-bold text-4xl");
    } else {
        panic!("Expected SetAttribute patch for classes, got {:?}", patches[0]);
    }

    // Second patch should be text change
    if let DomPatch::UpdateText { text, .. } = &patches[1] {
        assert_eq!(text, "-3");
    } else {
        panic!("Expected UpdateText patch for text, got {:?}", patches[1]);
    }
}

#[test]
fn test_generic_elements_without_text_4xl() {
    let differ = HtmlDiffer::new();

    // Test with completely different classes (no text-4xl)
    let old_html = r#"<span class="status error-state">Failed</span>"#;
    let new_html = r#"<span class="status success-state">Success</span>"#;

    let patches = differ.diff(old_html, new_html).unwrap();

    // Should generate 2 patches for both text and class changes
    assert_eq!(patches.len(), 2);

    // First should be class change
    if let DomPatch::SetAttribute { attr, value, .. } = &patches[0] {
        assert_eq!(attr, "class");
        assert_eq!(value, "status success-state");
    } else {
        panic!("Expected SetAttribute patch, got {:?}", patches[0]);
    }

    // Second should be text change
    if let DomPatch::UpdateText { text, .. } = &patches[1] {
        assert_eq!(text, "Success");
    } else {
        panic!("Expected UpdateText patch, got {:?}", patches[1]);
    }
}

#[test]
fn test_button_class_change() {
    let differ = HtmlDiffer::new();

    // Test with button elements
    let old_html = r#"<button class="btn btn-primary disabled">Submit</button>"#;
    let new_html = r#"<button class="btn btn-primary enabled">Submit</button>"#;

    let patches = differ.diff(old_html, new_html).unwrap();

    // Should generate 1 patch for class change only (text unchanged)
    assert_eq!(patches.len(), 1);

    if let DomPatch::SetAttribute { attr, value, .. } = &patches[0] {
        assert_eq!(attr, "class");
        assert_eq!(value, "btn btn-primary enabled");
    } else {
        panic!("Expected SetAttribute patch, got {:?}", patches[0]);
    }
}

#[test]
fn test_multiple_buttons_with_similar_classes() {
    let differ = HtmlDiffer::new();

    // Test with multiple buttons that share CSS classes (like counter buttons)
    let old_html = r#"
            <button class="px-4 py-2 bg-red-500 text-white">-1</button>
            <button class="px-4 py-2 bg-blue-500 text-white">+1</button>
        "#;
    let new_html = r#"
            <button class="px-4 py-2 bg-red-500 text-white">-4</button>
            <button class="px-4 py-2 bg-blue-500 text-white">+4</button>
        "#;

    let patches = differ.diff(old_html, new_html).unwrap();

    // Should generate 2 patches: one for each button's text change
    assert_eq!(patches.len(), 2);

    // Find the patches for each button
    let mut decrement_patch = None;
    let mut increment_patch = None;

    for patch in &patches {
        if let DomPatch::UpdateText { text, selector } = patch {
            if text == "-4" {
                decrement_patch = Some((selector, text));
            } else if text == "+4" {
                increment_patch = Some((selector, text));
            }
        }
    }

    assert!(decrement_patch.is_some(), "Should find decrement button patch");
    assert!(increment_patch.is_some(), "Should find increment button patch");

    // Selectors should be different to target different buttons
    let (dec_selector, _) = decrement_patch.unwrap();
    let (inc_selector, _) = increment_patch.unwrap();
    assert_ne!(dec_selector, inc_selector, "Selectors should be different for different buttons");
}

#[test]
fn test_counter_with_number_change_and_class_change() {
    let differ = HtmlDiffer::new();

    // Test simulating the counter scenario: number changes, class changes, buttons change
    let old_html = r#"
            <div class="text-center mb-6">
                <div class="text-green-600 font-bold text-4xl">5</div>
                <p class="text-gray-600 mt-2">Current count</p>
            </div>
            <div class="flex gap-3 justify-center mb-6">
                <button class="px-4 py-2 bg-red-500 text-white rounded hover:bg-red-600 transition-colors">-1</button>
                <button class="px-4 py-2 bg-blue-500 text-white rounded hover:bg-blue-600 transition-colors">+1</button>
            </div>
        "#;

    let new_html = r#"
            <div class="text-center mb-6">
                <div class="text-red-600 font-bold text-4xl">-42</div>
                <p class="text-gray-600 mt-2">Current count</p>
            </div>
            <div class="flex gap-3 justify-center mb-6">
                <button class="px-4 py-2 bg-red-500 text-white rounded hover:bg-red-600 transition-colors">-1</button>
                <button class="px-4 py-2 bg-blue-500 text-white rounded hover:bg-blue-600 transition-colors">+1</button>
            </div>
        "#;

    let patches = differ.diff(old_html, new_html).unwrap();

    // Should generate patches for both the counter display (class + text) changes
    // Buttons should remain unchanged in this scenario
    assert!(patches.len() >= 2, "Should generate at least 2 patches for counter display changes");

    // Check that we have class and text patches for the counter display
    let mut has_class_patch = false;
    let mut has_text_patch = false;

    for patch in &patches {
        match patch {
            DomPatch::SetAttribute { attr, value, .. } if attr == "class" => {
                if value.contains("text-red-600") {
                    has_class_patch = true;
                }
            }
            DomPatch::UpdateText { text, .. } => {
                if text == "-42" {
                    has_text_patch = true;
                }
            }
            _ => {}
        }
    }

    assert!(has_class_patch, "Should have class change patch for color change");
    assert!(has_text_patch, "Should have text change patch for number change");
}

#[test]
fn test_random_button_edge_cases() {
    let differ = HtmlDiffer::new();

    // Case 1: Same count, different sign (should generate class change only)
    let old_html = r#"<div class="text-green-600 font-bold text-4xl">5</div>"#;
    let new_html = r#"<div class="text-red-600 font-bold text-4xl">-5</div>"#;

    let patches = differ.diff(old_html, new_html).unwrap();
    assert_eq!(patches.len(), 2, "Should generate both class and text patches for 5 -> -5");

    // Case 2: Same absolute value, no sign change (should generate text change only)
    let old_html2 = r#"<div class="text-green-600 font-bold text-4xl">5</div>"#;
    let new_html2 = r#"<div class="text-green-600 font-bold text-4xl">7</div>"#;

    let patches2 = differ.diff(old_html2, new_html2).unwrap();
    assert_eq!(patches2.len(), 1, "Should generate only text patch for 5 -> 7 (same sign)");

    // Case 3: Exact same value (should generate no patches)
    let old_html3 = r#"<div class="text-green-600 font-bold text-4xl">5</div>"#;
    let new_html3 = r#"<div class="text-green-600 font-bold text-4xl">5</div>"#;

    let patches3 = differ.diff(old_html3, new_html3).unwrap();
    assert_eq!(patches3.len(), 0, "Should generate no patches for identical content");
}

#[test]
fn test_id_based_selectors() {
    let differ = HtmlDiffer::new();

    // Test with elements that have IDs - should use stable ID selectors
    let old_html = r#"<div id="counter-display" class="text-green-600 font-bold text-4xl">5</div>"#;
    let new_html = r#"<div id="counter-display" class="text-red-600 font-bold text-4xl">-42</div>"#;

    let patches = differ.diff(old_html, new_html).unwrap();

    // Should generate 2 patches: class change and text change
    assert_eq!(patches.len(), 2);

    // Both patches should use the stable ID selector
    for patch in &patches {
        match patch {
            DomPatch::SetAttribute { selector, .. } => {
                assert_eq!(selector, "#counter-display", "Should use ID selector for class change");
            }
            DomPatch::UpdateText { selector, .. } => {
                assert_eq!(selector, "#counter-display", "Should use ID selector for text change");
            }
            _ => panic!("Unexpected patch type"),
        }
    }
}

#[test]
fn test_diff_identical_inputs_is_empty() {
    let differ = HtmlDiffer::new();
    let cases = [
        "",
        "   ",
        "plain text without elements",
        r#"<div class="a">x</div>"#,
        r#"<div id="top" class="a b">1</div><span data-ts-sel="s.1">two</span>"#,
    ];
    for html in cases {
        let patches = differ.diff(html, html).unwrap();
        assert_eq!(patches.len(), 0, "diff of a snapshot against itself must be empty");
    }
}

#[test]
fn test_fallback_full_replacement() {
    let differ = HtmlDiffer::new();
    // No extractable element on either side: whole-content replacement.
    let patches = differ.diff("old plain", "new plain").unwrap();
    assert_eq!(patches.len(), 1);
    if let DomPatch::ReplaceInnerHtml { selector, html } = &patches[0] {
        assert_eq!(selector, "[data-livets-root]");
        assert_eq!(html, "new plain");
    } else {
        panic!("Expected ReplaceInnerHtml patch, got {:?}", patches[0]);
    }
    // Whitespace-only difference is ignored by the fallback.
    let patches2 = differ.diff("  hello  ", "hello").unwrap();
    assert_eq!(patches2.len(), 0);
}

#[test]
fn test_framework_selector_is_used_verbatim() {
    let differ = HtmlDiffer::new();
    let old_html = r#"<div data-ts-sel="c1.0" class="a">1</div>"#;
    let new_html = r#"<div data-ts-sel="c1.0" class="a">2</div>"#;
    let patches = differ.diff(old_html, new_html).unwrap();
    assert_eq!(patches.len(), 1);
    if let DomPatch::UpdateText { selector, text } = &patches[0] {
        assert_eq!(selector, "c1.0");
        assert_eq!(text, "2");
    } else {
        panic!("Expected UpdateText patch");
    }
}

#[test]
fn test_patches_to_compact_format() {
    let differ = HtmlDiffer::new();
    let patches = vec![
        DomPatch::UpdateText { selector: ".a".to_string(), text: "6".to_string() },
        DomPatch::SetAttribute {
            selector: "#x".to_string(),
            attr: "class".to_string(),
            value: "b c".to_string(),
        },
        DomPatch::RemoveAttribute { selector: ".y".to_string(), attr: "hidden".to_string() },
        DomPatch::ReplaceInnerHtml {
            selector: r#"[data-ts-sel="abc123.0"]"#.to_string(),
            html: "<b>z</b>".to_string(),
        },
        DomPatch::ReplaceElement { selector: "p".to_string(), html: "<p>q</p>".to_string() },
        DomPatch::RemoveElement { selector: ".gone".to_string() },
    ];
    let compact = differ.patches_to_compact(patches);
    assert_eq!(compact[0], "t|.a|6");
    assert_eq!(compact[1], "a|#x|class|b c");
    assert_eq!(compact[2], "r|.y|hidden");
    // The long framework-attribute selector is rewritten to its bare value.
    assert_eq!(compact[3], "h|abc123.0|<b>z</b>");
    assert_eq!(compact[4], "e|p|<p>q</p>");
    // A patch kind outside the compact path serializes to the empty string.
    assert_eq!(compact[5], "");
}

#[test]
fn test_single_field_change_scenario() {
    let differ = HtmlDiffer::new();
    let patches = differ.diff(r#"<div class="a">5</div>"#, r#"<div class="a">6</div>"#).unwrap();
    assert_eq!(patches.len(), 1);
    if let DomPatch::UpdateText { text, .. } = &patches[0] {
        assert_eq!(text, "6");
    } else {
        panic!("Expected UpdateText patch, got {:?}", patches[0]);
    }
}

#[test]
fn test_dual_change_fixed_order_scenario() {
    let differ = HtmlDiffer::new();
    let patches = differ.diff(r#"<div class="a">5</div>"#, r#"<div class="b">9</div>"#).unwrap();
    assert_eq!(patches.len(), 2);
    if let DomPatch::SetAttribute { attr, value, .. } = &patches[0] {
        assert_eq!(attr, "class");
        assert_eq!(value, "b");
    } else {
        panic!("Expected SetAttribute first, got {:?}", patches[0]);
    }
    if let DomPatch::UpdateText { text, .. } = &patches[1] {
        assert_eq!(text, "9");
    } else {
        panic!("Expected UpdateText second, got {:?}", patches[1]);
    }
}

#[test]
fn test_ambiguous_same_tag_elements_cross_match() {
    // Two same-tag elements without ids or framework selectors are matched
    // by score, and the first highest-scoring candidate wins: the second
    // element pairs with the first and reports its text as changed. Identity
    // of the diff therefore needs pairwise-distinguishable elements.
    let differ = HtmlDiffer::new();
    let html = r#"<div class="a">1</div><div class="a">2</div>"#;
    let patches = differ.diff(html, html).unwrap();
    assert_eq!(patches.len(), 1);
    if let DomPatch::UpdateText { text, .. } = &patches[0] {
        assert_eq!(text, "1");
    } else {
        panic!("Expected UpdateText patch, got {:?}", patches[0]);
    }
}

#[test]
fn test_element_extraction() {
    // Only innermost complete element forms are extracted; mismatched tag
    // pairs are skipped.
    let html = r#"<div class="outer"><span id="s1">x</span></div><b>keep</b><i>half</b>"#;
    let elems = livets_core::elements::parse_elements(html).unwrap();
    assert_eq!(elems.len(), 2);
    assert_eq!(elems[0].tag_name, "span");
    assert_eq!(elems[0].id, "s1");
    assert_eq!(elems[0].text_content, "x");
    assert_eq!(elems[1].tag_name, "b");
    assert_eq!(elems[1].text_content, "keep");

    assert!(livets_core::elements::parse_elements("no elements here").is_none());
}

#[test]
fn test_extract_component_id() {
    let differ = HtmlDiffer::new();
    let html = r#"<div data-livets-id="comp42" class="x">1</div>"#;
    assert_eq!(differ.extract_component_id(html), Some("comp42".to_string()));
    // An empty attribute value does not count; a later nonempty one is found.
    let html2 = r#"<div data-livets-id="">a</div><div data-livets-id="late9">b</div>"#;
    assert_eq!(differ.extract_component_id(html2), Some("late9".to_string()));
    assert_eq!(differ.extract_component_id("<div>plain</div>"), None);
}
