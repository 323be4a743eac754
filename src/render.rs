//! The small pieces of page markup that the library writes itself: the
//! MathJax scripts and the stylesheet reference.
use crate::path::{join_view, parse_bytes, FsPath};
use vstd::prelude::*;
use vstd::string::{StringExecFns, StringSliceAdditionalSpecFns};

verus! {

/// Types that can write themselves as HTML.
pub trait ToHtml {
    fn to_html(&self) -> String;
}

/// The scripts that configure and load MathJax.
pub const MATHJAX_SCRIPTS: &'static str = "<script type=\"text/x-mathjax-config\">
    MathJax.Hub.Config({
        extensions: [\"tex2jax.js\"],
        jax: [\"input/TeX\", \"output/HTML-CSS\"],
        tex2jax: {
          inlineMath: [['$','$']],
          displayMath: [['$$','$$']],
          processEscapes: true
        },
        \"HTML-CSS\": { fonts: [\"TeX\"] }
    });
</script><script type=\"text/javascript\" src=\"https://cdnjs.cloudflare.com/ajax/libs/mathjax/2.7.5/MathJax.js\"></script>";

/// Whether pages load MathJax.
#[derive(Debug, Clone, Copy, PartialEq, Eq, Structural)]
pub enum MathjaxPolicy {
    Always,
    Never,
}

impl MathjaxPolicy {
    /// Whether MathJax is included in a page.
    pub fn inclusion(&self) -> (r: bool)
        ensures
            r == (*self == MathjaxPolicy::Always),
    {
        *self == MathjaxPolicy::Always
    }

    /// The scripts to place in a page: all of them, or nothing.
    pub fn to_html(&self) -> (r: String)
        ensures
            *self == MathjaxPolicy::Always ==> r@ == MATHJAX_SCRIPTS@,
            *self == MathjaxPolicy::Never ==> r@ == Seq::<char>::empty(),
    {
        if self.inclusion() {
            String::from_str(MATHJAX_SCRIPTS)
        } else {
            String::new()
        }
    }
}

impl ToHtml for MathjaxPolicy {
    fn to_html(&self) -> String {
        MathjaxPolicy::to_html(self)
    }
}

/// What one character becomes in escaped HTML text.
pub open spec fn escaped_char(c: char) -> Seq<char> {
    if c == '&' {
        "&amp;"@
    } else if c == '<' {
        "&lt;"@
    } else if c == '>' {
        "&gt;"@
    } else if c == '"' {
        "&quot;"@
    } else {
        seq![c]
    }
}

/// `s` with the characters that HTML gives meaning to written as entities.
pub open spec fn html_escaped(s: Seq<char>) -> Seq<char>
    decreases s.len(),
{
    if s.len() == 0 {
        seq![]
    } else {
        html_escaped(s.drop_last()) + escaped_char(s.last())
    }
}

/// Relies on maud's `Render` for `str` (its `escape_to_string`): `&`, `<`,
/// `>` and `"` become entities, every other character is kept.
#[verifier::external_body]
fn escape_html(s: &str) -> (r: String)
    ensures
        r@ == html_escaped(s@),
{
    let mut out = String::new();
    maud::Render::render_to(s, &mut out);
    out
}

/// Opening of a stylesheet link, up to its address.
pub const LINK_OPEN: &'static str = "<link rel=\"stylesheet\" type=\"text/css\" href=\"";

/// End of a stylesheet link, after its address.
pub const LINK_CLOSE: &'static str = "\"></link>";

/// The page's styles: copied into the page, or linked to.
#[derive(Debug, Clone, PartialEq, Eq)]
pub enum Stylesheet {
    Inline(String),
    Link(String),
}

impl Stylesheet {
    /// A `style` element holding the styles, or a `link` element whose
    /// address is the escaped path.
    pub fn to_html(&self) -> (r: String)
        ensures
            self matches Stylesheet::Inline(s) ==> r@ == "<style>"@ + s@ + "</style>"@,
            self matches Stylesheet::Link(p) ==> r@ == LINK_OPEN@ + html_escaped(p@) + LINK_CLOSE@,
    {
        match self {
            Stylesheet::Inline(styles) => {
                let mut out = String::from_str("<style>");
                out.append(styles.as_str());
                out.append("</style>");
                out
            },
            Stylesheet::Link(path) => {
                let mut out = String::from_str(LINK_OPEN);
                let href = escape_html(path.as_str());
                out.append(href.as_str());
                out.append(LINK_CLOSE);
                out
            },
        }
    }
}

impl ToHtml for Stylesheet {
    fn to_html(&self) -> String {
        Stylesheet::to_html(self)
    }
}

/// Settings for rendering pages.
pub struct RenderConfig {
    pub stylesheet_path: Option<FsPath>,
    pub should_inline_stylesheet: bool,
    pub code_block_theme: String,
    pub mathjax_policy: MathjaxPolicy,
}

/// The default stylesheet, relative to the home directory.
pub const DEFAULT_STYLESHEET: &'static str = "code/carbon-notes/style/github.css";

/// The default theme for code blocks.
pub const DEFAULT_CODE_BLOCK_THEME: &'static str = "base16-ocean.dark";

impl RenderConfig {
    /// The default settings for a user whose home directory is `home`: the
    /// stylesheet under it, linked; the default code theme; MathJax always.
    pub fn with_home(home: &FsPath) -> (r: RenderConfig)
        ensures
            r.stylesheet_path matches Some(p) && p@ == join_view(home@, parse_bytes(DEFAULT_STYLESHEET.spec_bytes())),
            !r.should_inline_stylesheet,
            r.code_block_theme@ == DEFAULT_CODE_BLOCK_THEME@,
            r.mathjax_policy == MathjaxPolicy::Always,
    {
        RenderConfig {
            stylesheet_path: Some(home.join_name(DEFAULT_STYLESHEET)),
            should_inline_stylesheet: false,
            code_block_theme: String::from_str(DEFAULT_CODE_BLOCK_THEME),
            mathjax_policy: MathjaxPolicy::Always,
        }
    }
}

} // verus!
