use carbon::render::{MathjaxPolicy, Stylesheet};

#[test]
fn inclusion_always() {
    assert!(MathjaxPolicy::Always.inclusion())
}

#[test]
fn inclusion_never() {
    assert!(!MathjaxPolicy::Never.inclusion())
}

#[test]
fn render_template_with_config() {
    assert!(MathjaxPolicy::Always.to_html().contains("mathjax-config"))
}

#[test]
fn render_empty_template() {
    assert!(MathjaxPolicy::Never.to_html().is_empty())
}

#[test]
fn render_inline_template() {
    let styles = "body { background: red; }";
    let stylesheet = Stylesheet::Inline(styles.to_string());
    assert_eq!(stylesheet.to_html(), format!("<style>{}</style>", styles))
}

#[test]
fn render_link_template() {
    let path = "/path/to/stylesheet.css".to_string();
    let stylesheet = Stylesheet::Link(path.clone());
    assert_eq!(
        stylesheet.to_html(),
        format!(
            "<link rel=\"stylesheet\" type=\"text/css\" href=\"{}\"></link>",
            path
        )
    )
}

#[test]
fn render_link_escapes_address() {
    let stylesheet = Stylesheet::Link("/a&b/\"c\".css".to_string());
    assert_eq!(
        stylesheet.to_html(),
        "<link rel=\"stylesheet\" type=\"text/css\" href=\"/a&amp;b/&quot;c&quot;.css\"></link>"
    )
}
