//! The opening tag of a header, with an anchor made from its text.
use vstd::prelude::*;
use vstd::string::{StrSliceExecFns, StringExecFns};
use itertools::Itertools;

verus! {

/// What `str::to_lowercase` returns for the given characters.
pub uninterp spec fn lower_of(s: Seq<char>) -> Seq<char>;

/// What `regex` returns when every match of `pattern` in `text` is replaced
/// by `rep`.
pub uninterp spec fn regex_replaced(pattern: Seq<char>, text: Seq<char>, rep: Seq<char>) -> Seq<char>;

/// Unicode's White_Space property, which `str::trim` strips.
pub open spec fn is_white_space(c: char) -> bool {
    let u = c as u32;
    (0x9 <= u <= 0xd) || u == 0x20 || u == 0x85 || u == 0xa0 || u == 0x1680 || (0x2000 <= u <= 0x200a)
        || u == 0x2028 || u == 0x2029 || u == 0x202f || u == 0x205f || u == 0x3000
}

/// `s` without its leading whitespace.
pub open spec fn trim_start(s: Seq<char>) -> Seq<char>
    decreases s.len(),
{
    if s.len() > 0 && is_white_space(s[0]) {
        trim_start(s.drop_first())
    } else {
        s
    }
}

/// `s` without its trailing whitespace.
pub open spec fn trim_end(s: Seq<char>) -> Seq<char>
    decreases s.len(),
{
    if s.len() > 0 && is_white_space(s.last()) {
        trim_end(s.drop_last())
    } else {
        s
    }
}

/// `s` without leading and trailing whitespace.
pub open spec fn trim_of(s: Seq<char>) -> Seq<char> {
    trim_end(trim_start(s))
}

/// Whether `c` is Unicode whitespace.
fn white_space(c: char) -> (r: bool)
    ensures
        r == is_white_space(c),
{
    let u = c as u32;
    (0x9 <= u && u <= 0xd) || u == 0x20 || u == 0x85 || u == 0xa0 || u == 0x1680 || (0x2000 <= u && u
        <= 0x200a) || u == 0x2028 || u == 0x2029 || u == 0x202f || u == 0x205f || u == 0x3000
}

/// The characters of `s` without leading and trailing whitespace.
fn trim(s: &str) -> (r: Vec<char>)
    ensures
        r@ == trim_of(s@),
{
    let n = s.unicode_len();
    let mut start: usize = 0;
    assert(s@.subrange(0, n as int) =~= s@);
    loop
        invariant
            n == s@.len(),
            start <= n,
            trim_start(s@) == trim_start(s@.subrange(start as int, n as int)),
        ensures
            start <= n,
            trim_start(s@) == trim_start(s@.subrange(start as int, n as int)),
            start == n || !is_white_space(s@[start as int]),
        decreases n - start,
    {
        if start >= n {
            break;
        }
        if !white_space(s.get_char(start)) {
            break;
        }
        assert(s@.subrange(start as int, n as int).drop_first() =~= s@.subrange(start + 1, n as int));
        start += 1;
    }
    let ghost sub = s@.subrange(start as int, n as int);
    assert(trim_start(sub) == sub) by {
        if start < n {
            assert(sub[0] == s@[start as int]);
        }
    }
    let mut end: usize = n;
    assert(sub =~= s@.subrange(start as int, end as int));
    loop
        invariant
            n == s@.len(),
            start <= end <= n,
            sub == s@.subrange(start as int, n as int),
            trim_end(sub) == trim_end(s@.subrange(start as int, end as int)),
        ensures
            start <= end <= n,
            trim_end(sub) == trim_end(s@.subrange(start as int, end as int)),
            end == start || !is_white_space(s@[end - 1]),
        decreases end - start,
    {
        if end <= start {
            break;
        }
        if !white_space(s.get_char(end - 1)) {
            break;
        }
        assert(s@.subrange(start as int, end as int).drop_last() =~= s@.subrange(start as int, end - 1));
        end -= 1;
    }
    let ghost kept = s@.subrange(start as int, end as int);
    assert(trim_end(kept) == kept) by {
        if start < end {
            assert(kept.last() == s@[end - 1]);
        }
    }
    let mut r: Vec<char> = Vec::new();
    let mut i: usize = start;
    while i < end
        invariant
            n == s@.len(),
            start <= i <= end <= n,
            r@ == s@.subrange(start as int, i as int),
        decreases end - i,
    {
        r.push(s.get_char(i));
        i += 1;
        assert(r@ =~= s@.subrange(start as int, i as int));
    }
    r
}

/// Relies on `str::to_lowercase`: the lowercase form of the text.
#[verifier::external_body]
fn lowercase(s: &str) -> (r: String)
    ensures
        r@ == lower_of(s@),
{
    s.to_lowercase()
}

/// Relies on `regex::Regex::new` and `Regex::replace_all`: every match of
/// `pattern` in `text` replaced by `rep`; nothing where the pattern does
/// not compile. The whitespace-run pattern `\s+` compiles.
#[verifier::external_body]
fn replace_all(pattern: &str, text: &str, rep: &str) -> (r: Option<String>)
    ensures
        r matches Some(x) ==> x@ == regex_replaced(pattern@, text@, rep@),
        pattern@ == WHITESPACE_RUN@ ==> r is Some,
{
    regex::Regex::new(pattern).ok().map(|re| re.replace_all(text, rep).into_owned())
}

/// Relies on `itertools::Itertools::join`: the characters one after another.
#[verifier::external_body]
fn join_chars(cs: &Vec<char>) -> (r: String)
    ensures
        r@ == cs@,
{
    cs.iter().join("")
}

/// The decimal digit for `d`.
pub open spec fn digit(d: nat) -> char {
    if d == 0 {
        '0'
    } else if d == 1 {
        '1'
    } else if d == 2 {
        '2'
    } else if d == 3 {
        '3'
    } else if d == 4 {
        '4'
    } else if d == 5 {
        '5'
    } else if d == 6 {
        '6'
    } else if d == 7 {
        '7'
    } else if d == 8 {
        '8'
    } else {
        '9'
    }
}

/// The decimal digits of `n`.
pub open spec fn digits(n: nat) -> Seq<char>
    decreases n,
{
    if n < 10 {
        seq![digit(n)]
    } else {
        digits(n / 10) + seq![digit(n % 10)]
    }
}

/// `n` written in decimal, with a leading `-` when negative.
pub open spec fn decimal(n: int) -> Seq<char> {
    if n < 0 {
        seq!['-'] + digits((-n) as nat)
    } else {
        digits(n as nat)
    }
}

/// The decimal digit for `d`.
fn digit_char(d: u32) -> (r: char)
    requires
        d < 10,
    ensures
        r == digit(d as nat),
{
    if d == 0 {
        '0'
    } else if d == 1 {
        '1'
    } else if d == 2 {
        '2'
    } else if d == 3 {
        '3'
    } else if d == 4 {
        '4'
    } else if d == 5 {
        '5'
    } else if d == 6 {
        '6'
    } else if d == 7 {
        '7'
    } else if d == 8 {
        '8'
    } else {
        '9'
    }
}

/// The decimal digits of `n`.
fn digits_of(n: u32) -> (r: Vec<char>)
    ensures
        r@ == digits(n as nat),
    decreases n,
{
    if n < 10 {
        let mut r: Vec<char> = Vec::new();
        r.push(digit_char(n));
        assert(r@ =~= seq![digit(n as nat)]);
        r
    } else {
        let mut r = digits_of(n / 10);
        r.push(digit_char(n % 10));
        r
    }
}

/// `n` in decimal, with a leading `-` when negative.
fn decimal_string(n: i32) -> (r: String)
    ensures
        r@ == decimal(n as int),
{
    let mut cs: Vec<char> = Vec::new();
    let magnitude: u32 = if n < 0 {
        cs.push('-');
        (-(n as i64)) as u32
    } else {
        n as u32
    };
    let ds = digits_of(magnitude);
    let mut i: usize = 0;
    let ghost start = cs@;
    while i < ds.len()
        invariant
            i <= ds@.len(),
            cs@ == start + ds@.subrange(0, i as int),
        decreases ds@.len() - i,
    {
        cs.push(ds[i]);
        i += 1;
        assert(cs@ =~= start + ds@.subrange(0, i as int));
    }
    assert(ds@.subrange(0, ds@.len() as int) =~= ds@);
    assert(cs@ =~= (if n < 0 { seq!['-'] } else { Seq::<char>::empty() }) + ds@);
    join_chars(&cs)
}

/// ASCII punctuation, as `char::is_ascii_punctuation` defines it.
pub open spec fn is_ascii_punct(c: char) -> bool {
    let u = c as u32;
    (0x21 <= u <= 0x2f) || (0x3a <= u <= 0x40) || (0x5b <= u <= 0x60) || (0x7b <= u <= 0x7e)
}

/// `s` without its ASCII punctuation.
pub open spec fn without_punct(s: Seq<char>) -> Seq<char>
    decreases s.len(),
{
    if s.len() == 0 {
        seq![]
    } else if is_ascii_punct(s.last()) {
        without_punct(s.drop_last())
    } else {
        without_punct(s.drop_last()).push(s.last())
    }
}

/// Runs of whitespace, which become one dash in an anchor.
pub const WHITESPACE_RUN: &'static str = "\\s+";

/// The anchor of a header whose text is `content`: trimmed, lowercased,
/// without punctuation, with each run of whitespace turned into a dash.
pub open spec fn header_id(content: Seq<char>) -> Seq<char> {
    regex_replaced(WHITESPACE_RUN@, without_punct(lower_of(trim_of(content))), "-"@)
}

/// `s` without its ASCII punctuation.
fn strip_punct(s: &str) -> (r: Vec<char>)
    ensures
        r@ == without_punct(s@),
{
    let n = s.unicode_len();
    let mut r: Vec<char> = Vec::new();
    let mut i: usize = 0;
    while i < n
        invariant
            n == s@.len(),
            i <= n,
            r@ == without_punct(s@.subrange(0, i as int)),
        decreases n - i,
    {
        let c = s.get_char(i);
        let u = c as u32;
        let punct = (0x21 <= u && u <= 0x2f) || (0x3a <= u && u <= 0x40) || (0x5b <= u && u <= 0x60)
            || (0x7b <= u && u <= 0x7e);
        assert(s@.subrange(0, i + 1).drop_last() =~= s@.subrange(0, i as int));
        if !punct {
            r.push(c);
        }
        i += 1;
    }
    assert(s@.subrange(0, n as int) =~= s@);
    r
}

/// The start of a header of level `atx_level` with text `content`.
pub struct HeaderStart {
    atx_level: i32,
    content: String,
}

impl HeaderStart {
    pub closed spec fn level(&self) -> i32 {
        self.atx_level
    }

    pub closed spec fn text(&self) -> Seq<char> {
        self.content@
    }

    pub fn new(atx_level: i32, content: &str) -> (r: HeaderStart)
        ensures
            r.level() == atx_level,
            r.text() == content@,
    {
        HeaderStart { atx_level, content: String::from_str(content) }
    }

    /// The anchor for this header.
    fn id(&self) -> (r: String)
        ensures
            r@ == header_id(self.text()),
    {
        let trimmed = join_chars(&trim(self.content.as_str()));
        let lower = lowercase(trimmed.as_str());
        let kept = strip_punct(lower.as_str());
        let text = join_chars(&kept);
        match replace_all(WHITESPACE_RUN, text.as_str(), "-") {
            Some(id) => id,
            None => text,
        }
    }

    /// `<hN>` for a header without text, `<hN id="...">` otherwise.
    pub fn to_html(&self) -> (r: String)
        ensures
            trim_of(self.text()).len() == 0 ==> r@ == "<h"@ + decimal(self.level() as int) + ">"@,
            trim_of(self.text()).len() > 0 ==> r@ == "<h"@ + decimal(self.level() as int) + " id=\""@
                + header_id(self.text()) + "\">"@,
    {
        let trimmed = trim(self.content.as_str());
        let anchor = if trimmed.len() > 0 {
            Some(self.id())
        } else {
            None
        };
        start_tag(self.atx_level, &anchor)
    }
}

/// The opening tag of a header of level `atx_level`, with `anchor` as its id
/// where there is one.
pub fn start_tag(atx_level: i32, anchor: &Option<String>) -> (r: String)
    ensures
        match anchor {
            Some(a) => r@ == "<h"@ + decimal(atx_level as int) + " id=\""@ + a@ + "\">"@,
            None => r@ == "<h"@ + decimal(atx_level as int) + ">"@,
        },
{
    let mut tag = String::from_str("<h");
    let level = decimal_string(atx_level);
    tag.append(level.as_str());
    match anchor {
        Some(a) => {
            tag.append(" id=\"");
            tag.append(a.as_str());
            tag.append("\">");
        },
        None => {
            tag.append(">");
        },
    }
    tag
}

} // verus!
