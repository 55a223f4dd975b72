use linebreaks::replacer::remove_page_breaks;
use linebreaks::replacer::replace_html_page_breaks;
use linebreaks::replacer::replace_page_breaks;
use linebreaks::replacer::HTML_BREAK;
use linebreaks::replacer::PAGE_BREAK;

#[test]
fn should_replace_bare_placeholder() {
    assert_eq!(HTML_BREAK, replace_html_page_breaks(&PAGE_BREAK));
}

#[test]
fn should_replace_embedded_on_newlines_placeholder() {
    assert_eq!(
        format!(
            "# Title\nSome text\n{}\nMore text\n{}",
            &HTML_BREAK, &HTML_BREAK
        ),
        replace_html_page_breaks(&format!(
            "# Title\nSome text\n{}\nMore text\n{}",
            &PAGE_BREAK, &PAGE_BREAK
        ))
    );
}

#[test]
fn should_not_replace_embedded_in_text_placeholder() {
    assert_eq!(
        format!(r#"Hello {} World"#, &PAGE_BREAK),
        replace_html_page_breaks(&format!(r#"Hello {} World"#, &PAGE_BREAK))
    );
}

#[test]
fn should_remove_bare_placeholder() {
    assert_eq!("", remove_page_breaks(&PAGE_BREAK));
}

#[test]
fn replacer_should_replace_embedded_on_newlines_placeholder() {
    assert_eq!(
        "# Title\nSome text\n\nMore text\n",
        remove_page_breaks(&format!(
            "# Title\nSome text\n{}\nMore text\n{}",
            &PAGE_BREAK, &PAGE_BREAK
        ))
    );
}

#[test]
fn replacer_should_not_replace_embedded_in_text_placeholder() {
    assert_eq!(
        format!(r#"Hello {} World"#, &PAGE_BREAK),
        remove_page_breaks(&format!(r#"Hello {} World"#, &PAGE_BREAK))
    );
}

#[test]
fn bare_marker_with_custom_replacement() {
    assert_eq!("<X>", replace_page_breaks("{{---}}", "<X>"));
}

#[test]
fn multi_line_document_replaces_each_anchored_marker() {
    assert_eq!(
        "# Title\nSome text\n<X>\nMore text\n<X>",
        replace_page_breaks("# Title\nSome text\n{{---}}\nMore text\n{{---}}", "<X>")
    );
}

#[test]
fn text_without_marker_is_unchanged() {
    assert_eq!(
        "# Title\nplain prose, no token anywhere\n",
        replace_page_breaks("# Title\nplain prose, no token anywhere\n", "<X>")
    );
    assert_eq!("", replace_page_breaks("", "<X>"));
}

#[test]
fn indented_marker_is_not_replaced() {
    assert_eq!(" {{---}}", replace_page_breaks(" {{---}}", "<X>"));
    assert_eq!("\t{{---}}", replace_page_breaks("\t{{---}}", "<X>"));
}

#[test]
fn text_after_marker_on_same_line_is_kept() {
    assert_eq!("<X> tail", replace_page_breaks("{{---}} tail", "<X>"));
}

#[test]
fn marker_after_windows_line_ending_is_replaced() {
    assert_eq!("one\r\n<X>\r\ntwo", replace_page_breaks("one\r\n{{---}}\r\ntwo", "<X>"));
}

#[test]
fn partial_marker_is_not_replaced() {
    assert_eq!("{{--}}", replace_page_breaks("{{--}}", "<X>"));
    assert_eq!("{{---}", replace_page_breaks("{{---}", "<X>"));
}

#[test]
fn removal_is_idempotent_when_no_marker_is_uncovered() {
    let once = remove_page_breaks("# Title\nSome text\n{{---}}\nMore text\n{{---}}");
    let twice = remove_page_breaks(&once);
    assert_eq!(once, twice);
}

#[test]
fn removal_can_uncover_an_adjacent_marker() {
    // Two adjacent markers on one line: only the line-anchored one goes,
    // and the uncovered one then stands at the line start.
    let once = remove_page_breaks("{{---}}{{---}}");
    assert_eq!("{{---}}", once);
    assert_eq!("", remove_page_breaks(&once));
}
