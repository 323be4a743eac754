use carbon::header::{start_tag, HeaderStart};

#[test]
fn empty_text() {
    assert_eq!(HeaderStart::new(1, "").to_html(), "<h1>")
}

#[test]
fn non_empty_text() {
    assert_eq!(
        HeaderStart::new(1, "some text").to_html(),
        "<h1 id=\"some-text\">"
    )
}

#[test]
fn to_lowercase() {
    assert_eq!(
        HeaderStart::new(1, "SoMe TeXt").to_html(),
        "<h1 id=\"some-text\">"
    )
}

#[test]
fn strip_whitespace() {
    assert_eq!(
        HeaderStart::new(1, " some   text   ").to_html(),
        "<h1 id=\"some-text\">"
    )
}

#[test]
fn removes_punctuation() {
    assert_eq!(
        HeaderStart::new(1, "1. s'ome t:e;x`t").to_html(),
        "<h1 id=\"1-some-text\">"
    )
}

#[test]
fn whitespace_only_text_has_no_anchor() {
    assert_eq!(HeaderStart::new(3, "   ").to_html(), "<h3>")
}

#[test]
fn start_tag_with_and_without_anchor() {
    assert_eq!(start_tag(2, &Some("a-b".to_string())), "<h2 id=\"a-b\">");
    assert_eq!(start_tag(12, &None), "<h12>");
    assert_eq!(start_tag(-1, &None), "<h-1>");
}
