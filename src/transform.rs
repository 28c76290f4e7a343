use vstd::prelude::*;

use crate::chars::{chars_of, string_of};
use crate::grammar::{
    is_space, match_close_tag, match_document, match_inner_text, match_open_tag,
    scan_ws, skip_ws, space, spec_close_tag, spec_document, spec_inner_text, spec_open_tag,
    span_ok, structural, AttrSpan, ErrorV, Rule, XmlError,
};
use crate::value::{entries_of, json_of, insert_entry, lemma_object_view, obj_insert, Json, Value};

verus! {

// ---------------------------------------------------------------------------
// Text runs
/// The first position in `[a, b)` that holds no whitespace, or `b`.
pub open spec fn trim_start(s: Seq<char>, a: int, b: int) -> int
    decreases b - a,
{
    if a < b && is_space(s[a]) {
        trim_start(s, a + 1, b)
    } else {
        a
    }
}

/// The end of `[a, b)` once trailing whitespace is cut off.
pub open spec fn trim_end(s: Seq<char>, a: int, b: int) -> int
    decreases b - a,
{
    if a < b && is_space(s[b - 1]) {
        trim_end(s, a, b - 1)
    } else {
        b
    }
}

/// The text `s[p..e]` with leading and trailing whitespace removed.
pub open spec fn trimmed(s: Seq<char>, p: int, e: int) -> Seq<char> {
    let a = trim_start(s, p, e);
    s.subrange(a, trim_end(s, a, e))
}

/// Where `s[p..e]` starts and ends once trimmed.
fn trim_bounds(s: &Vec<char>, p: usize, e: usize) -> (r: (usize, usize))
    requires
        p <= e <= s.len(),
    ensures
        r.0 == trim_start(s@, p as int, e as int),
        r.1 == trim_end(s@, r.0 as int, e as int),
        p <= r.0 <= r.1 <= e,
{
    let mut a: usize = p;
    while a < e && space(s[a])
        invariant
            p <= a <= e <= s.len(),
            trim_start(s@, a as int, e as int) == trim_start(s@, p as int, e as int),
        decreases e - a,
    {
        a += 1;
    }
    let mut b: usize = e;
    while a < b && space(s[b - 1])
        invariant
            p <= a <= b <= e <= s.len(),
            trim_end(s@, a as int, b as int) == trim_end(s@, a as int, e as int),
        decreases b - a,
    {
        b -= 1;
    }
    (a, b)
}

/// Appends `s[a..b]` to `text`.
fn push_range(text: &mut Vec<char>, s: &Vec<char>, a: usize, b: usize)
    requires
        a <= b <= s.len(),
    ensures
        final(text)@ == old(text)@ + s@.subrange(a as int, b as int),
{
    let mut k: usize = a;
    while k < b
        invariant
            a <= k <= b <= s.len(),
            text@ == old(text)@ + s@.subrange(a as int, k as int),
        decreases b - k,
    {
        text.push(s[k]);
        k += 1;
        assert(text@ =~= old(text)@ + s@.subrange(a as int, k as int));
    }
}

// ---------------------------------------------------------------------------
// Attributes
/// The names and values of the attributes at `attrs`.
pub open spec fn attr_pairs(s: Seq<char>, attrs: Seq<AttrSpan>) -> Seq<(Seq<char>, Seq<char>)> {
    Seq::new(
        attrs.len(),
        |k: int|
            (
                s.subrange(attrs[k].name_start as int, attrs[k].name_end as int),
                s.subrange(attrs[k].value_start as int, attrs[k].value_end as int),
            ),
    )
}

/// The model of a list of string pairs.
pub open spec fn pairs_of(v: Seq<(String, String)>) -> Seq<(Seq<char>, Seq<char>)> {
    Seq::new(v.len(), |k: int| (v[k].0@, v[k].1@))
}

/// The key under which attribute `k` is stored.
pub open spec fn attr_key(k: Seq<char>) -> Seq<char> {
    seq!['_'] + k
}

/// The reserved key of an element's text next to attributes.
pub open spec fn text_key() -> Seq<char> {
    seq!['_', 't', 'e', 'x', 't']
}

/// The entries that the attributes `pairs` give, inserted in order.
pub open spec fn attrs_object(pairs: Seq<(Seq<char>, Seq<char>)>) -> Seq<(Seq<char>, Json)>
    decreases pairs.len(),
{
    if pairs.len() == 0 {
        Seq::empty()
    } else {
        let last = pairs.last();
        obj_insert(attrs_object(pairs.drop_last()), attr_key(last.0), Json::Str(last.1))
    }
}

/// The key of attribute `name`: an underscore followed by the name.
fn underscore_key(name: &String) -> (r: String)
    ensures
        r@ == attr_key(name@),
{
    let mut r = "_".to_owned();
    proof {
        reveal_strlit("_");
    }
    r.append(name.as_str());
    r
}

// ---------------------------------------------------------------------------
// Elements
/// The value of a finished element: child elements take precedence over
/// text; text alone collapses to a string; text next to attributes goes
/// under `_text`.
pub open spec fn finish(obj: Seq<(Seq<char>, Json)>, has_child: bool, text: Seq<char>) -> Json {
    if !has_child && text.len() > 0 {
        if obj.len() == 0 {
            Json::Str(text)
        } else {
            Json::Obj(obj_insert(obj, text_key(), Json::Str(text)))
        }
    } else {
        Json::Obj(obj)
    }
}

/// The element at `i`, folded: its name, its value, and where it ends.
pub open spec fn tr_element(s: Seq<char>, i: int) -> Result<(Seq<char>, Json, usize), ErrorV>
    decreases s.len() - i, 0int,
{
    match spec_open_tag(s, i) {
        Err(e) => Err(e),
        Ok(t) => if i < t.2 <= s.len() {
            tr_content(
                s,
                t.2 as int,
                s.subrange(i + 1, t.0 as int),
                attrs_object(attr_pairs(s, t.1)),
                false,
                Seq::empty(),
            )
        } else {
            structural(Rule::element, i)
        },
    }
}

/// The body of element `name` from `p` on, with the entries `obj` and the
/// text `text` gathered so far, and whether a child element was seen.
pub open spec fn tr_content(
    s: Seq<char>,
    p: int,
    name: Seq<char>,
    obj: Seq<(Seq<char>, Json)>,
    has_child: bool,
    text: Seq<char>,
) -> Result<(Seq<char>, Json, usize), ErrorV>
    decreases s.len() - p, 1int,
{
    if !(0 <= p < s.len()) {
        structural(Rule::close_tag, p)
    } else if s[p] == '<' {
        if p + 1 < s.len() && s[p + 1] == '/' {
            match spec_close_tag(s, p) {
                Err(e) => Err(e),
                Ok(c) => {
                    let close = s.subrange(c.0 as int, c.1 as int);
                    if close == name {
                        Ok((name, finish(obj, has_child, text), c.2))
                    } else {
                        Err(ErrorV::TagMismatch(name, close))
                    }
                },
            }
        } else {
            match tr_element(s, p) {
                Err(e) => Err(e),
                Ok((cn, cv, e)) => if p < e <= s.len() {
                    tr_content(s, e as int, name, obj_insert(obj, cn, cv), true, text)
                } else {
                    structural(Rule::element, p)
                },
            }
        }
    } else {
        match spec_inner_text(s, p) {
            Err(e) => Err(e),
            Ok(e) => if p < e <= s.len() {
                tr_content(s, e as int, name, obj, has_child, text + trimmed(s, p, e as int))
            } else {
                structural(Rule::inner_text, p)
            },
        }
    }
}

/// Reads the open tag at `i`: its name, its attributes as (name, value)
/// pairs in document order, and where the tag ends.
pub fn parse_open_tag(s: &Vec<char>, i: usize) -> (r: Result<
    (String, Vec<(String, String)>, usize),
    XmlError,
>)
    requires
        i <= s.len(),
    ensures
        match r {
            Ok((name, attributes, end)) => match spec_open_tag(s@, i as int) {
                Ok(t) => name@ == s@.subrange(i + 1, t.0 as int) && pairs_of(attributes@)
                    == attr_pairs(s@, t.1) && end == t.2,
                Err(_) => false,
            },
            Err(e) => spec_open_tag(s@, i as int) == Err::<(usize, Seq<AttrSpan>, usize), ErrorV>(
                e@,
            ),
        },
        r matches Ok(t) ==> i < t.2 <= s.len(),
{
    let (ne, spans, end) = match match_open_tag(s, i) {
        Ok(t) => t,
        Err(e) => return Err(e),
    };
    let mut attributes: Vec<(String, String)> = Vec::new();
    let mut k: usize = 0;
    while k < spans.len()
        invariant
            0 <= k <= spans.len(),
            forall|j: int| 0 <= j < spans.len() ==> span_ok(#[trigger] spans@[j], s.len() as int),
            pairs_of(attributes@) == attr_pairs(s@, spans@.subrange(0, k as int)),
        decreases spans.len() - k,
    {
        let a = spans[k];
        let key = string_of(s, a.name_start, a.name_end);
        let value = string_of(s, a.value_start, a.value_end);
        let ghost before = attributes@;
        attributes.push((key, value));
        assert(pairs_of(attributes@) =~= pairs_of(before).push((key@, value@)));
        assert(attr_pairs(s@, spans@.subrange(0, k + 1)) =~= attr_pairs(
            s@,
            spans@.subrange(0, k as int),
        ).push((key@, value@)));
        k += 1;
    }
    assert(spans@.subrange(0, k as int) =~= spans@);
    Ok((string_of(s, i + 1, ne), attributes, end))
}

/// Builds the value of a finished element.
fn finish_value(obj: Vec<(String, Value)>, has_child: bool, text: &Vec<char>) -> (r: Value)
    ensures
        r@ == finish(entries_of(obj@), has_child, text@),
{
    proof {
        lemma_object_view(obj);
    }
    if !has_child && text.len() > 0 {
        let t = string_of(text, 0, text.len());
        assert(t@ =~= text@);
        if obj.len() == 0 {
            let v = Value::Str(t);
            assert(json_of(v) == Json::Str(text@));
            v
        } else {
            let mut obj = obj;
            let key = "_text".to_owned();
            proof {
                reveal_strlit("_text");
                assert(key@ =~= text_key());
            }
            let v = Value::Str(t);
            assert(json_of(v) == Json::Str(text@));
            insert_entry(&mut obj, key, v);
            proof {
                lemma_object_view(obj);
            }
            Value::Object(obj)
        }
    } else {
        Value::Object(obj)
    }
}

/// The model of an element's (name, value, end).
pub open spec fn entry_view(r: Result<(String, Value, usize), XmlError>) -> Result<
    (Seq<char>, Json, usize),
    ErrorV,
> {
    match r {
        Ok((n, v, e)) => Ok((n@, v@, e)),
        Err(e) => Err(e@),
    }
}

/// Folds the element at `i` into its name and value, and gives where it
/// ends.
fn element_entry(s: &Vec<char>, i: usize) -> (r: Result<(String, Value, usize), XmlError>)
    requires
        i <= s.len(),
    ensures
        entry_view(r) == tr_element(s@, i as int),
        r matches Ok(t) ==> i < t.2 <= s.len(),
    decreases s.len() - i,
{
    let (name, attributes, body_start) = match parse_open_tag(s, i) {
        Ok(t) => t,
        Err(e) => return Err(e),
    };
    let ghost pairs = pairs_of(attributes@);
    let mut obj: Vec<(String, Value)> = Vec::new();
    let mut k: usize = 0;
    while k < attributes.len()
        invariant
            0 <= k <= attributes.len(),
            pairs == pairs_of(attributes@),
            entries_of(obj@) == attrs_object(pairs.subrange(0, k as int)),
        decreases attributes.len() - k,
    {
        let key = underscore_key(&attributes[k].0);
        let value = attributes[k].1.clone();
        insert_entry(&mut obj, key, Value::Str(value));
        k += 1;
        assert(pairs.subrange(0, k as int).drop_last() =~= pairs.subrange(0, k - 1));
    }
    assert(pairs.subrange(0, k as int) =~= pairs);
    let mut has_child = false;
    let mut text: Vec<char> = Vec::new();
    let mut p: usize = body_start;
    loop
        invariant
            i < p <= s.len(),
            tr_element(s@, i as int) == tr_content(
                s@,
                p as int,
                name@,
                entries_of(obj@),
                has_child,
                text@,
            ),
        decreases s.len() - p,
    {
        if p >= s.len() {
            return Err(XmlError::Syntax { rule: Rule::close_tag, pos: p });
        }
        if s[p] == '<' {
            if p + 1 < s.len() && s[p + 1] == '/' {
                let c = match match_close_tag(s, p) {
                    Ok(c) => c,
                    Err(e) => return Err(e),
                };
                let close = string_of(s, c.0, c.1);
                if close == name {
                    let v = finish_value(obj, has_child, &text);
                    return Ok((name, v, c.2));
                } else {
                    return Err(XmlError::TagMismatch { open: name, close });
                }
            }
            match element_entry(s, p) {
                Ok((cn, cv, e)) => {
                    insert_entry(&mut obj, cn, cv);
                    has_child = true;
                    p = e;
                },
                Err(e) => return Err(e),
            }
        } else {
            let e = match match_inner_text(s, p) {
                Ok(e) => e,
                Err(e) => return Err(e),
            };
            let (a, b) = trim_bounds(s, p, e);
            push_range(&mut text, s, a, b);
            p = e;
        }
    }
}

/// Folds the element at `i` into the singleton mapping `{name: value}`,
/// and gives where the element ends.
pub fn parse_element(s: &Vec<char>, i: usize) -> (r: Result<(Value, usize), XmlError>)
    requires
        i <= s.len(),
    ensures
        match r {
            Ok((v, e)) => match tr_element(s@, i as int) {
                Ok((n, j, end)) => v@ == Json::Obj(seq![(n, j)]) && e == end,
                Err(_) => false,
            },
            Err(e) => tr_element(s@, i as int) == Err::<(Seq<char>, Json, usize), ErrorV>(e@),
        },
{
    match element_entry(s, i) {
        Ok((name, value, end)) => {
            let mut m: Vec<(String, Value)> = Vec::new();
            m.push((name, value));
            proof {
                lemma_object_view(m);
                assert(entries_of(m@) =~= seq![(m@[0].0@, m@[0].1@)]);
            }
            Ok((Value::Object(m), end))
        },
        Err(e) => Err(e),
    }
}

/// What converting the text `s` gives: an error for blank text, a syntax
/// error where the grammar fails, and otherwise the document's element
/// folded into a singleton mapping (or a tag mismatch).
pub open spec fn spec_parse(s: Seq<char>) -> Result<Json, ErrorV> {
    if skip_ws(s, 0) == s.len() {
        Err(ErrorV::EmptyInput)
    } else {
        match spec_document(s) {
            Err(e) => Err(e),
            Ok(_) => match tr_element(s, skip_ws(s, 0)) {
                Ok((n, j, _)) => Ok(Json::Obj(seq![(n, j)])),
                Err(e) => Err(e),
            },
        }
    }
}

/// Converts a document into a value.
pub fn start_parser(input: &str) -> (r: Result<Value, XmlError>)
    ensures
        match r {
            Ok(v) => spec_parse(input@) == Ok::<Json, ErrorV>(v@),
            Err(e) => spec_parse(input@) == Err::<Json, ErrorV>(e@),
        },
{
    let s = chars_of(input);
    let start = scan_ws(&s, 0);
    if start == s.len() {
        return Err(XmlError::EmptyInput);
    }
    if let Err(e) = match_document(&s) {
        return Err(e);
    }
    match parse_element(&s, start) {
        Ok((v, _)) => Ok(v),
        Err(e) => Err(e),
    }
}

} // verus!
