use vstd::prelude::*;

use crate::chars::{chars_of, string_of};

verus! {

/// The productions of the grammar.
#[allow(non_camel_case_types)]
#[derive(Debug, Clone, Copy, PartialEq, Eq, Structural)]
pub enum Rule {
    xml,
    element,
    open_tag,
    close_tag,
    attribute,
    name,
    attribute_value,
    inner_text,
}

/// Why a conversion failed.
#[derive(Debug, PartialEq)]
pub enum XmlError {
    /// The input is empty or holds only whitespace.
    EmptyInput,
    /// The production `rule` could not match at char offset `pos`.
    Syntax { rule: Rule, pos: usize },
    /// An element opened as `open` was closed as `close`.
    TagMismatch { open: String, close: String },
}

/// The model of an error.
pub enum ErrorV {
    EmptyInput,
    Syntax(Rule, int),
    TagMismatch(Seq<char>, Seq<char>),
}

impl View for XmlError {
    type V = ErrorV;

    open spec fn view(&self) -> ErrorV {
        match self {
            XmlError::EmptyInput => ErrorV::EmptyInput,
            XmlError::Syntax { rule, pos } => ErrorV::Syntax(*rule, *pos as int),
            XmlError::TagMismatch { open, close } => ErrorV::TagMismatch(open@, close@),
        }
    }
}

/// The model of a result: the error replaced by its model.
pub open spec fn res_view<T>(r: Result<T, XmlError>) -> Result<T, ErrorV> {
    match r {
        Ok(t) => Ok(t),
        Err(e) => Err(e@),
    }
}

/// A syntax error of `rule` at `pos`.
pub open spec fn structural<T>(rule: Rule, pos: int) -> Result<T, ErrorV> {
    Err(ErrorV::Syntax(rule, pos))
}

// ---------------------------------------------------------------------------
// Character classes
/// An ASCII letter: the first character of a name.
pub open spec fn is_letter(c: char) -> bool {
    ('a' <= c && c <= 'z') || ('A' <= c && c <= 'Z')
}

/// A character that may follow the first one in a name.
pub open spec fn is_name_char(c: char) -> bool {
    is_letter(c) || ('0' <= c && c <= '9') || c == '_' || c == '-'
}

/// A whitespace character (the Unicode White_Space property).
pub open spec fn is_space(c: char) -> bool {
    c == ' ' || ('\t' <= c && c <= '\r') || c == '\u{85}' || c == '\u{A0}' || c == '\u{1680}'
        || ('\u{2000}' <= c && c <= '\u{200A}') || c == '\u{2028}' || c == '\u{2029}'
        || c == '\u{202F}' || c == '\u{205F}' || c == '\u{3000}'
}

/// Whether `c` may begin a name.
pub fn letter(c: char) -> (r: bool)
    ensures
        r == is_letter(c),
{
    ('a' <= c && c <= 'z') || ('A' <= c && c <= 'Z')
}

/// Whether `c` may continue a name.
pub fn name_char(c: char) -> (r: bool)
    ensures
        r == is_name_char(c),
{
    letter(c) || ('0' <= c && c <= '9') || c == '_' || c == '-'
}

/// Whether `c` is whitespace.
pub fn space(c: char) -> (r: bool)
    ensures
        r == is_space(c),
{
    c == ' ' || ('\t' <= c && c <= '\r') || c == '\u{85}' || c == '\u{A0}' || c == '\u{1680}'
        || ('\u{2000}' <= c && c <= '\u{200A}') || c == '\u{2028}' || c == '\u{2029}'
        || c == '\u{202F}' || c == '\u{205F}' || c == '\u{3000}'
}

// ---------------------------------------------------------------------------
// Scanners: the first position at or after `i` that does not continue a run
/// End of a run of whitespace.
pub open spec fn skip_ws(s: Seq<char>, i: int) -> int
    decreases s.len() - i,
{
    if 0 <= i < s.len() && is_space(s[i]) {
        skip_ws(s, i + 1)
    } else {
        i
    }
}

/// End of a run of name characters.
pub open spec fn name_rest_end(s: Seq<char>, i: int) -> int
    decreases s.len() - i,
{
    if 0 <= i < s.len() && is_name_char(s[i]) {
        name_rest_end(s, i + 1)
    } else {
        i
    }
}

/// End of a run of characters other than `"`.
pub open spec fn value_end(s: Seq<char>, i: int) -> int
    decreases s.len() - i,
{
    if 0 <= i < s.len() && s[i] != '"' {
        value_end(s, i + 1)
    } else {
        i
    }
}

/// End of a run of characters other than `<`.
pub open spec fn text_end(s: Seq<char>, i: int) -> int
    decreases s.len() - i,
{
    if 0 <= i < s.len() && s[i] != '<' {
        text_end(s, i + 1)
    } else {
        i
    }
}

/// Skips whitespace from `i`.
pub fn scan_ws(s: &Vec<char>, i: usize) -> (r: usize)
    requires
        i <= s.len(),
    ensures
        r == skip_ws(s@, i as int),
        i <= r <= s.len(),
{
    let mut j: usize = i;
    while j < s.len() && space(s[j])
        invariant
            i <= j <= s.len(),
            skip_ws(s@, j as int) == skip_ws(s@, i as int),
        decreases s.len() - j,
    {
        j += 1;
    }
    j
}

/// Skips name characters from `i`.
pub fn scan_name_rest(s: &Vec<char>, i: usize) -> (r: usize)
    requires
        i <= s.len(),
    ensures
        r == name_rest_end(s@, i as int),
        i <= r <= s.len(),
{
    let mut j: usize = i;
    while j < s.len() && name_char(s[j])
        invariant
            i <= j <= s.len(),
            name_rest_end(s@, j as int) == name_rest_end(s@, i as int),
        decreases s.len() - j,
    {
        j += 1;
    }
    j
}

/// Skips to the next `"` from `i`.
pub fn scan_value(s: &Vec<char>, i: usize) -> (r: usize)
    requires
        i <= s.len(),
    ensures
        r == value_end(s@, i as int),
        i <= r <= s.len(),
{
    let mut j: usize = i;
    while j < s.len() && s[j] != '"'
        invariant
            i <= j <= s.len(),
            value_end(s@, j as int) == value_end(s@, i as int),
        decreases s.len() - j,
    {
        j += 1;
    }
    j
}

/// Skips to the next `<` from `i`.
pub fn scan_text(s: &Vec<char>, i: usize) -> (r: usize)
    requires
        i <= s.len(),
    ensures
        r == text_end(s@, i as int),
        i <= r <= s.len(),
{
    let mut j: usize = i;
    while j < s.len() && s[j] != '<'
        invariant
            i <= j <= s.len(),
            text_end(s@, j as int) == text_end(s@, i as int),
        decreases s.len() - j,
    {
        j += 1;
    }
    j
}

// ---------------------------------------------------------------------------
// Productions
/// Where an attribute's name and value lie (char offsets; the value lies
/// between its quotes, and the attribute ends just after `value_end`).
#[derive(Debug, Clone, Copy)]
pub struct AttrSpan {
    pub name_start: usize,
    pub name_end: usize,
    pub value_start: usize,
    pub value_end: usize,
}

/// The parts of an attribute lie in order inside a text of length `n`.
pub open spec fn span_ok(a: AttrSpan, n: int) -> bool {
    a.name_start < a.name_end <= a.value_start <= a.value_end < n
}

/// `name`: a letter, then name characters. Gives the end of the name.
pub open spec fn spec_name(s: Seq<char>, i: int) -> Result<usize, ErrorV> {
    if 0 <= i < s.len() && is_letter(s[i]) {
        Ok(name_rest_end(s, i + 1) as usize)
    } else {
        structural(Rule::name, i)
    }
}

/// `attribute`: a name, `=` with optional whitespace around it, and a
/// value between double quotes.
pub open spec fn spec_attribute(s: Seq<char>, i: int) -> Result<AttrSpan, ErrorV> {
    match spec_name(s, i) {
        Err(e) => Err(e),
        Ok(ne) => {
            let eq = skip_ws(s, ne as int);
            if !(0 <= eq < s.len() && s[eq] == '=') {
                structural(Rule::attribute, eq)
            } else {
                let q = skip_ws(s, eq + 1);
                if !(0 <= q < s.len() && s[q] == '"') {
                    structural(Rule::attribute, q)
                } else {
                    let ve = value_end(s, q + 1);
                    if ve < s.len() {
                        Ok(
                            AttrSpan {
                                name_start: i as usize,
                                name_end: ne,
                                value_start: (q + 1) as usize,
                                value_end: ve as usize,
                            },
                        )
                    } else {
                        structural(Rule::attribute, ve)
                    }
                }
            }
        },
    }
}

/// The rest of an open tag from `p`, after its name and the attributes in
/// `acc`: attributes, each after whitespace, then optional whitespace and
/// `>`. Gives all attributes and the end of the tag.
pub open spec fn spec_attr_list(s: Seq<char>, p: int, acc: Seq<AttrSpan>) -> Result<
    (Seq<AttrSpan>, usize),
    ErrorV,
>
    decreases s.len() - p,
{
    let j = skip_ws(s, p);
    if 0 <= j < s.len() && s[j] == '>' {
        Ok((acc, (j + 1) as usize))
    } else if p < j < s.len() && is_letter(s[j]) {
        match spec_attribute(s, j) {
            Err(e) => Err(e),
            Ok(a) => {
                // the position always advances
                if p < a.value_end + 1 <= s.len() {
                    spec_attr_list(s, a.value_end + 1, acc.push(a))
                } else {
                    structural(Rule::open_tag, j)
                }
            },
        }
    } else {
        structural(Rule::open_tag, j)
    }
}

/// `open_tag`: `<`, a name, attributes, `>`. Gives the end of the name
/// (it starts at `i + 1`), the attributes, and the end of the tag.
pub open spec fn spec_open_tag(s: Seq<char>, i: int) -> Result<
    (usize, Seq<AttrSpan>, usize),
    ErrorV,
> {
    if !(0 <= i < s.len() && s[i] == '<') {
        structural(Rule::open_tag, i)
    } else {
        match spec_name(s, i + 1) {
            Err(e) => Err(e),
            Ok(ne) => match spec_attr_list(s, ne as int, Seq::empty()) {
                Err(e) => Err(e),
                Ok((attrs, end)) => Ok((ne, attrs, end)),
            },
        }
    }
}

/// `close_tag`: `<`, `/`, a name with optional whitespace around it, `>`.
/// Gives where the name starts and ends, and the end of the tag.
pub open spec fn spec_close_tag(s: Seq<char>, i: int) -> Result<(usize, usize, usize), ErrorV> {
    if !(0 <= i < s.len() && s[i] == '<') {
        structural(Rule::close_tag, i)
    } else if !(i + 1 < s.len() && s[i + 1] == '/') {
        structural(Rule::close_tag, i + 1)
    } else {
        let ns = skip_ws(s, i + 2);
        match spec_name(s, ns) {
            Err(e) => Err(e),
            Ok(ne) => {
                let k = skip_ws(s, ne as int);
                if 0 <= k < s.len() && s[k] == '>' {
                    Ok((ns as usize, ne, (k + 1) as usize))
                } else {
                    structural(Rule::close_tag, k)
                }
            },
        }
    }
}

/// `inner_text`: one or more characters other than `<`.
pub open spec fn spec_inner_text(s: Seq<char>, i: int) -> Result<usize, ErrorV> {
    let e = text_end(s, i);
    if i < e {
        Ok(e as usize)
    } else {
        structural(Rule::inner_text, i)
    }
}

/// Matches `name` at `i`.
pub fn match_name(s: &Vec<char>, i: usize) -> (r: Result<usize, XmlError>)
    requires
        i <= s.len(),
    ensures
        res_view(r) == spec_name(s@, i as int),
        r matches Ok(e) ==> i < e <= s.len(),
{
    if i < s.len() && letter(s[i]) {
        Ok(scan_name_rest(s, i + 1))
    } else {
        Err(XmlError::Syntax { rule: Rule::name, pos: i })
    }
}

/// Matches `attribute` at `i`.
pub fn match_attribute(s: &Vec<char>, i: usize) -> (r: Result<AttrSpan, XmlError>)
    requires
        i <= s.len(),
    ensures
        res_view(r) == spec_attribute(s@, i as int),
        r matches Ok(a) ==> a.name_start == i && span_ok(a, s.len() as int),
{
    let ne = match match_name(s, i) {
        Ok(ne) => ne,
        Err(e) => return Err(e),
    };
    let eq = scan_ws(s, ne);
    if !(eq < s.len() && s[eq] == '=') {
        return Err(XmlError::Syntax { rule: Rule::attribute, pos: eq });
    }
    let q = scan_ws(s, eq + 1);
    if !(q < s.len() && s[q] == '"') {
        return Err(XmlError::Syntax { rule: Rule::attribute, pos: q });
    }
    let ve = scan_value(s, q + 1);
    if ve < s.len() {
        Ok(AttrSpan { name_start: i, name_end: ne, value_start: q + 1, value_end: ve })
    } else {
        Err(XmlError::Syntax { rule: Rule::attribute, pos: ve })
    }
}

/// The model of an open tag's result.
pub open spec fn open_tag_view(r: Result<(usize, Vec<AttrSpan>, usize), XmlError>) -> Result<
    (usize, Seq<AttrSpan>, usize),
    ErrorV,
> {
    match r {
        Ok((n, a, e)) => Ok((n, a@, e)),
        Err(e) => Err(e@),
    }
}

/// Matches `open_tag` at `i`.
pub fn match_open_tag(s: &Vec<char>, i: usize) -> (r: Result<(usize, Vec<AttrSpan>, usize), XmlError>)
    requires
        i <= s.len(),
    ensures
        open_tag_view(r) == spec_open_tag(s@, i as int),
        r matches Ok(t) ==> i < t.0 < t.2 <= s.len(),
        r matches Ok(t) ==> forall|j: int|
            0 <= j < t.1.len() ==> span_ok(#[trigger] t.1@[j], s.len() as int),
{
    if !(i < s.len() && s[i] == '<') {
        return Err(XmlError::Syntax { rule: Rule::open_tag, pos: i });
    }
    let ne = match match_name(s, i + 1) {
        Ok(ne) => ne,
        Err(e) => return Err(e),
    };
    let mut acc: Vec<AttrSpan> = Vec::new();
    let mut p: usize = ne;
    loop
        invariant
            ne <= p <= s.len(),
            i < ne,
            forall|j: int| 0 <= j < acc.len() ==> span_ok(#[trigger] acc@[j], s.len() as int),
            spec_open_tag(s@, i as int) == match spec_attr_list(s@, p as int, acc@) {
                Err(e) => Err(e),
                Ok((attrs, end)) => Ok((ne, attrs, end)),
            },
        decreases s.len() - p,
    {
        let j = scan_ws(s, p);
        if j < s.len() && s[j] == '>' {
            return Ok((ne, acc, j + 1));
        } else if p < j && j < s.len() && letter(s[j]) {
            match match_attribute(s, j) {
                Ok(a) => {
                    acc.push(a);
                    p = a.value_end + 1;
                },
                Err(e) => return Err(e),
            }
        } else {
            return Err(XmlError::Syntax { rule: Rule::open_tag, pos: j });
        }
    }
}

/// Matches `close_tag` at `i`.
pub fn match_close_tag(s: &Vec<char>, i: usize) -> (r: Result<(usize, usize, usize), XmlError>)
    requires
        i <= s.len(),
    ensures
        res_view(r) == spec_close_tag(s@, i as int),
        r matches Ok(t) ==> i < t.0 < t.1 < t.2 <= s.len(),
{
    if !(i < s.len() && s[i] == '<') {
        return Err(XmlError::Syntax { rule: Rule::close_tag, pos: i });
    }
    if !(i + 1 < s.len() && s[i + 1] == '/') {
        return Err(XmlError::Syntax { rule: Rule::close_tag, pos: i + 1 });
    }
    let ns = scan_ws(s, i + 2);
    let ne = match match_name(s, ns) {
        Ok(ne) => ne,
        Err(e) => return Err(e),
    };
    let k = scan_ws(s, ne);
    if k < s.len() && s[k] == '>' {
        Ok((ns, ne, k + 1))
    } else {
        Err(XmlError::Syntax { rule: Rule::close_tag, pos: k })
    }
}

/// Matches `inner_text` at `i`.
pub fn match_inner_text(s: &Vec<char>, i: usize) -> (r: Result<usize, XmlError>)
    requires
        i <= s.len(),
    ensures
        res_view(r) == spec_inner_text(s@, i as int),
        r matches Ok(e) ==> i < e <= s.len(),
{
    let e = scan_text(s, i);
    if i < e {
        Ok(e)
    } else {
        Err(XmlError::Syntax { rule: Rule::inner_text, pos: i })
    }
}

// ---------------------------------------------------------------------------
// Elements and documents
/// `element`: an open tag, then elements and text runs, then a close tag.
/// Gives the end of the element. Tag names are not compared here.
pub open spec fn spec_element(s: Seq<char>, i: int) -> Result<usize, ErrorV>
    decreases s.len() - i, 0int,
{
    match spec_open_tag(s, i) {
        Err(e) => Err(e),
        Ok(t) => if i < t.2 <= s.len() {
            spec_content(s, t.2 as int)
        } else {
            structural(Rule::element, i)
        },
    }
}

/// The body of an element from `p` on, through its close tag.
pub open spec fn spec_content(s: Seq<char>, p: int) -> Result<usize, ErrorV>
    decreases s.len() - p, 1int,
{
    if !(0 <= p < s.len()) {
        structural(Rule::close_tag, p)
    } else if s[p] == '<' {
        if p + 1 < s.len() && s[p + 1] == '/' {
            match spec_close_tag(s, p) {
                Err(e) => Err(e),
                Ok(c) => Ok(c.2),
            }
        } else {
            match spec_element(s, p) {
                Err(e) => Err(e),
                Ok(e) => if p < e <= s.len() {
                    spec_content(s, e as int)
                } else {
                    structural(Rule::element, p)
                },
            }
        }
    } else {
        match spec_inner_text(s, p) {
            Err(e) => Err(e),
            Ok(e) => if p < e <= s.len() {
                spec_content(s, e as int)
            } else {
                structural(Rule::inner_text, p)
            },
        }
    }
}

/// `xml`: one element with optional whitespace around it, and nothing else.
pub open spec fn spec_document(s: Seq<char>) -> Result<usize, ErrorV> {
    match spec_element(s, skip_ws(s, 0)) {
        Err(e) => Err(e),
        Ok(e) => {
            let k = skip_ws(s, e as int);
            if k == s.len() {
                Ok(k as usize)
            } else {
                structural(Rule::xml, k)
            }
        },
    }
}

/// Matches `element` at `i`, without comparing tag names.
pub fn match_element(s: &Vec<char>, i: usize) -> (r: Result<usize, XmlError>)
    requires
        i <= s.len(),
    ensures
        res_view(r) == spec_element(s@, i as int),
        r matches Ok(e) ==> i < e <= s.len(),
    decreases s.len() - i,
{
    let mut p: usize = match match_open_tag(s, i) {
        Ok(t) => t.2,
        Err(e) => return Err(e),
    };
    loop
        invariant
            i < p <= s.len(),
            spec_element(s@, i as int) == spec_content(s@, p as int),
        decreases s.len() - p,
    {
        if p >= s.len() {
            return Err(XmlError::Syntax { rule: Rule::close_tag, pos: p });
        }
        if s[p] == '<' {
            if p + 1 < s.len() && s[p + 1] == '/' {
                return match match_close_tag(s, p) {
                    Ok(c) => Ok(c.2),
                    Err(e) => Err(e),
                };
            }
            match match_element(s, p) {
                Ok(e) => p = e,
                Err(e) => return Err(e),
            }
        } else {
            match match_inner_text(s, p) {
                Ok(e) => p = e,
                Err(e) => return Err(e),
            }
        }
    }
}

/// Matches `xml` over the whole of `s`.
pub fn match_document(s: &Vec<char>) -> (r: Result<usize, XmlError>)
    ensures
        res_view(r) == spec_document(s@),
        r matches Ok(e) ==> e == s.len(),
{
    let e = match match_element(s, scan_ws(s, 0)) {
        Ok(e) => e,
        Err(e) => return Err(e),
    };
    let k = scan_ws(s, e);
    if k == s.len() {
        Ok(k)
    } else {
        Err(XmlError::Syntax { rule: Rule::xml, pos: k })
    }
}

/// Where the production `rule` ends when matched at the start of `s`.
pub open spec fn spec_match(rule: Rule, s: Seq<char>) -> Result<usize, ErrorV> {
    match rule {
        Rule::xml => spec_document(s),
        Rule::element => spec_element(s, 0),
        Rule::open_tag => match spec_open_tag(s, 0) {
            Err(e) => Err(e),
            Ok(t) => Ok(t.2),
        },
        Rule::close_tag => match spec_close_tag(s, 0) {
            Err(e) => Err(e),
            Ok(t) => Ok(t.2),
        },
        Rule::attribute => match spec_attribute(s, 0) {
            Err(e) => Err(e),
            Ok(a) => Ok((a.value_end + 1) as usize),
        },
        Rule::name => spec_name(s, 0),
        Rule::attribute_value => Ok(value_end(s, 0) as usize),
        Rule::inner_text => spec_inner_text(s, 0),
    }
}

/// A production matched at the start of an input: the text it covers.
pub struct Pair {
    pub rule: Rule,
    pub end: usize,
    pub text: String,
}

impl Pair {
    /// The text that the production covers.
    pub fn as_str(&self) -> (r: &str)
        ensures
            r@ == self.text@,
    {
        self.text.as_str()
    }
}

/// The recognizer of the grammar.
pub struct Grammar;

impl Grammar {
    /// Matches `rule` at the start of `input`.
    pub fn parse(rule: Rule, input: &str) -> (r: Result<Pair, XmlError>)
        ensures
            match r {
                Ok(p) => spec_match(rule, input@) == Ok::<usize, ErrorV>(p.end) && p.rule == rule
                    && p.text@ == input@.subrange(0, p.end as int),
                Err(e) => spec_match(rule, input@) == Err::<usize, ErrorV>(e@),
            },
    {
        let s = chars_of(input);
        let r = match rule {
            Rule::xml => match_document(&s),
            Rule::element => match_element(&s, 0),
            Rule::open_tag => match match_open_tag(&s, 0) {
                Ok(t) => Ok(t.2),
                Err(e) => Err(e),
            },
            Rule::close_tag => match match_close_tag(&s, 0) {
                Ok(t) => Ok(t.2),
                Err(e) => Err(e),
            },
            Rule::attribute => match match_attribute(&s, 0) {
                Ok(a) => Ok(a.value_end + 1),
                Err(e) => Err(e),
            },
            Rule::name => match_name(&s, 0),
            Rule::attribute_value => Ok(scan_value(&s, 0)),
            Rule::inner_text => match_inner_text(&s, 0),
        };
        match r {
            Ok(end) => Ok(Pair { rule, end, text: string_of(&s, 0, end) }),
            Err(e) => Err(e),
        }
    }
}

} // verus!
