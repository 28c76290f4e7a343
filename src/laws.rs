//! Laws of the conversion, proved over the models of `grammar` and
//! `transform`.
use vstd::prelude::*;

use crate::grammar::{
    is_letter, is_name_char, is_space, name_rest_end, skip_ws, spec_attr_list, spec_attribute,
    spec_close_tag, spec_content, spec_document, spec_element, spec_inner_text, spec_name,
    spec_open_tag, structural, text_end, value_end, AttrSpan, ErrorV, Rule,
};
use crate::transform::{
    attr_key, attr_pairs, attrs_object, finish, spec_parse, text_key, tr_content, tr_element, trim_end,
    trim_start, trimmed,
};
use crate::value::{key_pos, obj_insert, Json};

verus! {

/// A name of the grammar: a letter, then letters, digits, `_` or `-`.
pub open spec fn name_ok(n: Seq<char>) -> bool {
    n.len() > 0 && is_letter(n[0]) && forall|k: int| 1 <= k < n.len() ==> is_name_char(n[k])
}

/// Text that can stand between tags and is already trimmed.
pub open spec fn plain_text(t: Seq<char>) -> bool {
    &&& t.len() > 0
    &&& forall|k: int| 0 <= k < t.len() ==> t[k] != '<'
    &&& !is_space(t[0])
    &&& !is_space(t[t.len() - 1])
}

proof fn lemma_skip_ws_run(s: Seq<char>, i: int, j: int)
    requires
        0 <= i <= j <= s.len(),
        forall|k: int| i <= k < j ==> is_space(s[k]),
        j == s.len() || !is_space(s[j]),
    ensures
        skip_ws(s, i) == j,
    decreases j - i,
{
    if i < j {
        lemma_skip_ws_run(s, i + 1, j);
    }
}

proof fn lemma_name_run(s: Seq<char>, i: int, j: int)
    requires
        0 <= i <= j <= s.len(),
        forall|k: int| i <= k < j ==> is_name_char(s[k]),
        j == s.len() || !is_name_char(s[j]),
    ensures
        name_rest_end(s, i) == j,
    decreases j - i,
{
    if i < j {
        lemma_name_run(s, i + 1, j);
    }
}

proof fn lemma_value_run(s: Seq<char>, i: int, j: int)
    requires
        0 <= i <= j <= s.len(),
        forall|k: int| i <= k < j ==> s[k] != '"',
        j == s.len() || s[j] == '"',
    ensures
        value_end(s, i) == j,
    decreases j - i,
{
    if i < j {
        lemma_value_run(s, i + 1, j);
    }
}

proof fn lemma_text_run(s: Seq<char>, i: int, j: int)
    requires
        0 <= i <= j <= s.len(),
        forall|k: int| i <= k < j ==> s[k] != '<',
        j == s.len() || s[j] == '<',
    ensures
        text_end(s, i) == j,
    decreases j - i,
{
    if i < j {
        lemma_text_run(s, i + 1, j);
    }
}

/// A name of length `l` stands at `[i, i + l)` in `s`, followed by a
/// character `e` that ends it.
pub open spec fn name_at(s: Seq<char>, i: int, l: int) -> bool {
    &&& 0 <= i && 0 < l && i + l <= s.len()
    &&& is_letter(s[i])
    &&& forall|k: int| i < k < i + l ==> is_name_char(s[k])
    &&& (i + l == s.len() || !is_name_char(s[i + l]))
}

/// The `name` production at `i` over a name of length `l`.
proof fn lemma_name_at(s: Seq<char>, i: int, l: int)
    requires
        name_at(s, i, l),
    ensures
        spec_name(s, i) == Ok::<usize, ErrorV>((i + l) as usize),
        !is_space(s[i]),
{
    lemma_name_run(s, i + 1, i + l);
}

/// A close tag `</` + ws + name + ws + `>` whose parts lie at the given
/// positions.
proof fn lemma_close_at(s: Seq<char>, c: int, ns: int, l: int, g: int)
    requires
        0 <= c && c + 2 <= ns && ns + l <= g < s.len() <= usize::MAX,
        s[c] == '<' && s[c + 1] == '/' && s[g] == '>',
        forall|k: int| c + 2 <= k < ns ==> is_space(s[k]),
        forall|k: int| ns + l <= k < g ==> is_space(s[k]),
        name_at(s, ns, l),
    ensures
        spec_close_tag(s, c) == Ok::<(usize, usize, usize), ErrorV>(
            (ns as usize, (ns + l) as usize, (g + 1) as usize),
        ),
{
    lemma_name_at(s, ns, l);
    lemma_skip_ws_run(s, c + 2, ns);
    lemma_skip_ws_run(s, ns + l, g);
}

/// A run of plain text at `[i, j)`, followed by `<`.
proof fn lemma_text_at(s: Seq<char>, i: int, j: int)
    requires
        0 <= i < j < s.len(),
        s[j] == '<',
        plain_text(s.subrange(i, j)),
    ensures
        spec_inner_text(s, i) == Ok::<usize, ErrorV>(j as usize),
        trimmed(s, i, j) == s.subrange(i, j),
        s[i] != '<',
{
    let t = s.subrange(i, j);
    assert(forall|k: int| i <= k < j ==> s[k] == t[k - i]);
    lemma_text_run(s, i, j);
    assert(!is_space(s[i]));
    assert(!is_space(s[j - 1]));
    assert(trim_start(s, i, j) == i);
    assert(trim_end(s, i, j) == j);
}

/// The document `<n>t</n>`.
pub open spec fn bare_doc(n: Seq<char>, t: Seq<char>) -> Seq<char> {
    seq!['<'] + n + seq!['>'] + t + seq!['<', '/'] + n + seq!['>']
}

/// An element with no attributes and no child elements collapses to its
/// text: `<n>t</n>` converts to `{n: t}`.
pub proof fn law_bare_text_collapses(n: Seq<char>, t: Seq<char>)
    requires
        name_ok(n),
        plain_text(t),
        bare_doc(n, t).len() <= usize::MAX,
    ensures
        spec_parse(bare_doc(n, t)) == Ok::<Json, ErrorV>(Json::Obj(seq![(n, Json::Str(t))])),
{
    let s = bare_doc(n, t);
    let l = n.len() as int;
    let tt = l + 2;
    let c = tt + t.len();
    let ns = c + 2;
    let g = ns + l;
    assert(s.len() == g + 1);
    assert(s[0] == '<' && s[l + 1] == '>' && s[c] == '<' && s[c + 1] == '/' && s[g] == '>');
    assert(s.subrange(1, l + 1) =~= n);
    assert(s.subrange(tt, c) =~= t);
    assert(s.subrange(ns, g) =~= n);
    assert(forall|j: int| 0 <= j < l ==> s[1 + j] == n[j]);
    assert(forall|j: int| 0 <= j < l ==> s[ns + j] == n[j]);
    assert(name_at(s, 1, l));
    assert(name_at(s, ns, l));
    lemma_bare_text_steps(s, l, c);
}

proof fn lemma_bare_text_steps(s: Seq<char>, l: int, c: int)
    requires
        0 < l && l + 2 < c && s.len() == c + 3 + l <= usize::MAX,
        s[0] == '<' && s[l + 1] == '>' && s[c] == '<' && s[c + 1] == '/' && s[c + 2 + l] == '>',
        name_at(s, 1, l),
        name_at(s, c + 2, l),
        s.subrange(1, l + 1) == s.subrange(c + 2, c + 2 + l),
        plain_text(s.subrange(l + 2, c)),
    ensures
        spec_parse(s) == Ok::<Json, ErrorV>(
            Json::Obj(seq![(s.subrange(1, l + 1), Json::Str(s.subrange(l + 2, c)))]),
        ),
{
    let n = s.subrange(1, l + 1);
    let t = s.subrange(l + 2, c);
    let tt = l + 2;
    let g = c + 2 + l;
    let end = (g + 1) as usize;
    lemma_name_at(s, 1, l);
    lemma_skip_ws_run(s, 0, 0);
    lemma_skip_ws_run(s, l + 1, l + 1);
    assert(spec_attr_list(s, l + 1, Seq::empty()) == Ok::<(Seq<AttrSpan>, usize), ErrorV>(
        (Seq::empty(), (l + 2) as usize),
    ));
    assert(spec_open_tag(s, 0) == Ok::<(usize, Seq<AttrSpan>, usize), ErrorV>(
        ((l + 1) as usize, Seq::empty(), (l + 2) as usize),
    ));
    lemma_text_at(s, tt, c);
    lemma_close_at(s, c, c + 2, l, g);
    assert(attrs_object(attr_pairs(s, Seq::empty())) =~= Seq::empty());
    assert(Seq::<char>::empty() + t =~= t);
    assert(tr_content(s, c, n, Seq::empty(), false, t) == Ok::<(Seq<char>, Json, usize), ErrorV>(
        (n, Json::Str(t), end),
    ));
    assert(tr_content(s, tt, n, Seq::empty(), false, Seq::empty()) == Ok::<
        (Seq<char>, Json, usize),
        ErrorV,
    >((n, Json::Str(t), end)));
    assert(tr_element(s, 0) == Ok::<(Seq<char>, Json, usize), ErrorV>((n, Json::Str(t), end)));
    assert(spec_content(s, c) == Ok::<usize, ErrorV>(end));
    assert(spec_content(s, tt) == Ok::<usize, ErrorV>(end));
    assert(spec_element(s, 0) == Ok::<usize, ErrorV>(end));
    lemma_skip_ws_run(s, g + 1, g + 1);
    assert(spec_document(s) == Ok::<usize, ErrorV>(end));
}

/// Whitespace only.
pub open spec fn ws_run(w: Seq<char>) -> bool {
    forall|k: int| 0 <= k < w.len() ==> is_space(w[k])
}

/// An attribute `a = "v"` whose parts lie at the given positions: the name
/// at `[i, i + m)`, `=` at `eq`, the opening quote at `q`, the closing one
/// at `ve`, whitespace in between.
proof fn lemma_attribute_at(s: Seq<char>, i: int, m: int, eq: int, q: int, ve: int)
    requires
        i + m <= eq < q < ve < s.len() <= usize::MAX,
        name_at(s, i, m),
        forall|k: int| i + m <= k < eq ==> is_space(s[k]),
        forall|k: int| eq + 1 <= k < q ==> is_space(s[k]),
        forall|k: int| q + 1 <= k < ve ==> s[k] != '"',
        s[eq] == '=' && s[q] == '"' && s[ve] == '"',
    ensures
        spec_attribute(s, i) == Ok::<AttrSpan, ErrorV>(
            AttrSpan {
                name_start: i as usize,
                name_end: (i + m) as usize,
                value_start: (q + 1) as usize,
                value_end: ve as usize,
            },
        ),
{
    lemma_name_at(s, i, m);
    lemma_skip_ws_run(s, i + m, eq);
    lemma_skip_ws_run(s, eq + 1, q);
    lemma_value_run(s, q + 1, ve);
}

/// An open tag `<n a = "v">` whose parts lie at the given positions.
proof fn lemma_open_tag_one_attr(
    s: Seq<char>,
    lt: int,
    l: int,
    i: int,
    m: int,
    eq: int,
    q: int,
    ve: int,
    gt: int,
)
    requires
        0 <= lt && lt + 1 + l < i && i + m <= eq < q < ve < gt < s.len() <= usize::MAX,
        s[lt] == '<' && s[gt] == '>',
        name_at(s, lt + 1, l),
        forall|k: int| lt + 1 + l <= k < i ==> is_space(s[k]),
        forall|k: int| ve + 1 <= k < gt ==> is_space(s[k]),
        name_at(s, i, m),
        forall|k: int| i + m <= k < eq ==> is_space(s[k]),
        forall|k: int| eq + 1 <= k < q ==> is_space(s[k]),
        forall|k: int| q + 1 <= k < ve ==> s[k] != '"',
        s[eq] == '=' && s[q] == '"' && s[ve] == '"',
    ensures
        spec_open_tag(s, lt) == Ok::<(usize, Seq<AttrSpan>, usize), ErrorV>(
            (
                (lt + 1 + l) as usize,
                seq![
                    AttrSpan {
                        name_start: i as usize,
                        name_end: (i + m) as usize,
                        value_start: (q + 1) as usize,
                        value_end: ve as usize,
                    },
                ],
                (gt + 1) as usize,
            ),
        ),
{
    let a = AttrSpan {
        name_start: i as usize,
        name_end: (i + m) as usize,
        value_start: (q + 1) as usize,
        value_end: ve as usize,
    };
    lemma_name_at(s, lt + 1, l);
    lemma_name_at(s, i, m);
    lemma_attribute_at(s, i, m, eq, q, ve);
    lemma_skip_ws_run(s, lt + 1 + l, i);
    lemma_skip_ws_run(s, ve + 1, gt);
    assert(spec_attr_list(s, ve + 1, seq![a]) == Ok::<(Seq<AttrSpan>, usize), ErrorV>(
        (seq![a], (gt + 1) as usize),
    ));
    assert(Seq::<AttrSpan>::empty().push(a) == seq![a]);
    assert(spec_attr_list(s, lt + 1 + l, Seq::empty()) == Ok::<(Seq<AttrSpan>, usize), ErrorV>(
        (seq![a], (gt + 1) as usize),
    ));
}

/// The value that `<n a="v">t</n>` converts to.
pub open spec fn attr_and_text(n: Seq<char>, a: Seq<char>, v: Seq<char>, t: Seq<char>) -> Json {
    Json::Obj(
        seq![(n, Json::Obj(seq![(attr_key(a), Json::Str(v)), (text_key(), Json::Str(t))]))],
    )
}

proof fn lemma_attr_and_text_steps(
    s: Seq<char>,
    lt: int,
    l: int,
    i: int,
    m: int,
    eq: int,
    q: int,
    ve: int,
    gt: int,
    c: int,
    ns: int,
    g2: int,
)
    requires
        0 <= lt && lt + 1 + l < i && i + m <= eq < q < ve < gt && gt + 1 < c,
        c + 2 <= ns && ns + l <= g2 < s.len() <= usize::MAX,
        forall|k: int| 0 <= k < lt ==> is_space(s[k]),
        s[lt] == '<' && s[gt] == '>',
        name_at(s, lt + 1, l),
        forall|k: int| lt + 1 + l <= k < i ==> is_space(s[k]),
        forall|k: int| ve + 1 <= k < gt ==> is_space(s[k]),
        name_at(s, i, m),
        forall|k: int| i + m <= k < eq ==> is_space(s[k]),
        forall|k: int| eq + 1 <= k < q ==> is_space(s[k]),
        forall|k: int| q + 1 <= k < ve ==> s[k] != '"',
        s[eq] == '=' && s[q] == '"' && s[ve] == '"',
        plain_text(s.subrange(gt + 1, c)),
        s[c] == '<' && s[c + 1] == '/' && s[g2] == '>',
        forall|k: int| c + 2 <= k < ns ==> is_space(s[k]),
        forall|k: int| ns + l <= k < g2 ==> is_space(s[k]),
        name_at(s, ns, l),
        s.subrange(ns, ns + l) == s.subrange(lt + 1, lt + 1 + l),
        forall|k: int| g2 + 1 <= k < s.len() ==> is_space(s[k]),
        attr_key(s.subrange(i, i + m)) != text_key(),
    ensures
        spec_parse(s) == Ok::<Json, ErrorV>(
            attr_and_text(
                s.subrange(lt + 1, lt + 1 + l),
                s.subrange(i, i + m),
                s.subrange(q + 1, ve),
                s.subrange(gt + 1, c),
            ),
        ),
{
    let n = s.subrange(lt + 1, lt + 1 + l);
    let a = s.subrange(i, i + m);
    let v = s.subrange(q + 1, ve);
    let t = s.subrange(gt + 1, c);
    let end = (g2 + 1) as usize;
    let span = AttrSpan {
        name_start: i as usize,
        name_end: (i + m) as usize,
        value_start: (q + 1) as usize,
        value_end: ve as usize,
    };
    lemma_skip_ws_run(s, 0, lt);
    lemma_open_tag_one_attr(s, lt, l, i, m, eq, q, ve, gt);
    let obj1 = seq![(attr_key(a), Json::Str(v))];
    assert(attr_pairs(s, seq![span]) =~= seq![(a, v)]);
    assert(seq![(a, v)].drop_last() =~= Seq::<(Seq<char>, Seq<char>)>::empty());
    assert(attrs_object(Seq::empty()) == Seq::<(Seq<char>, Json)>::empty());
    assert(obj_insert(Seq::empty(), attr_key(a), Json::Str(v)) =~= obj1);
    assert(attrs_object(attr_pairs(s, seq![span])) == obj1);
    lemma_text_at(s, gt + 1, c);
    assert(Seq::<char>::empty() + t =~= t);
    lemma_close_at(s, c, ns, l, g2);
    let obj2 = seq![(attr_key(a), Json::Str(v)), (text_key(), Json::Str(t))];
    assert(obj1[0].0 != text_key());
    assert(key_pos(obj1, text_key(), 1) == 1);
    assert(key_pos(obj1, text_key(), 0) == 1);
    assert(obj_insert(obj1, text_key(), Json::Str(t)) =~= obj2);
    assert(finish(obj1, false, t) == Json::Obj(obj2));
    assert(tr_content(s, c, n, obj1, false, t) == Ok::<(Seq<char>, Json, usize), ErrorV>(
        (n, Json::Obj(obj2), end),
    ));
    assert(tr_content(s, gt + 1, n, obj1, false, Seq::empty()) == Ok::<
        (Seq<char>, Json, usize),
        ErrorV,
    >((n, Json::Obj(obj2), end)));
    assert(tr_element(s, lt) == Ok::<(Seq<char>, Json, usize), ErrorV>(
        (n, Json::Obj(obj2), end),
    ));
    assert(spec_content(s, c) == Ok::<usize, ErrorV>(end));
    assert(spec_content(s, gt + 1) == Ok::<usize, ErrorV>(end));
    assert(spec_element(s, lt) == Ok::<usize, ErrorV>(end));
    lemma_skip_ws_run(s, g2 + 1, s.len() as int);
    assert(spec_document(s) == Ok::<usize, ErrorV>(s.len() as usize));
}

/// An attribute value: no double quote inside.
pub open spec fn value_ok(v: Seq<char>) -> bool {
    forall|k: int| 0 <= k < v.len() ==> v[k] != '"'
}

/// Eight runs of whitespace, the second one not empty.
pub open spec fn gaps_ok(w: Seq<Seq<char>>) -> bool {
    &&& w.len() == 8
    &&& forall|j: int| 0 <= j < 8 ==> ws_run(#[trigger] w[j])
    &&& w[1].len() > 0
}

/// The document `<n a="v">t</n>`.
#[verifier::opaque]
pub open spec fn attr_doc(n: Seq<char>, a: Seq<char>, v: Seq<char>, t: Seq<char>) -> Seq<char> {
    seq!['<'] + n + seq![' '] + a + seq!['=', '"'] + v + seq!['"', '>'] + t + seq!['<', '/'] + n
        + seq!['>']
}

/// The document `<n a="v">t</n>` with the whitespace runs `w` laid in: before
/// the element, before the attribute, around `=`, before `>`, around the
/// name of the close tag, and after the element.
#[verifier::opaque]
pub open spec fn spaced_doc(
    n: Seq<char>,
    a: Seq<char>,
    v: Seq<char>,
    t: Seq<char>,
    w: Seq<Seq<char>>,
) -> Seq<char> {
    w[0] + seq!['<'] + n + w[1] + a + w[2] + seq!['='] + w[3] + seq!['"'] + v + seq!['"'] + w[4]
        + seq!['>'] + t + seq!['<', '/'] + w[5] + n + w[6] + seq!['>'] + w[7]
}

proof fn lemma_ws_at(s: Seq<char>, x: int, w: Seq<char>)
    requires
        0 <= x && x + w.len() <= s.len(),
        s.subrange(x, x + w.len()) == w,
        ws_run(w),
    ensures
        forall|k: int| x <= k < x + w.len() ==> is_space(s[k]),
{
    assert forall|k: int| x <= k < x + w.len() implies is_space(s[k]) by {
        assert(s[k] == w[k - x]);
    }
}

proof fn lemma_name_from(s: Seq<char>, x: int, n: Seq<char>)
    requires
        0 <= x && x + n.len() < s.len(),
        s.subrange(x, x + n.len()) == n,
        name_ok(n),
        !is_name_char(s[x + n.len()]),
    ensures
        name_at(s, x, n.len() as int),
{
    assert(s[x] == n[0]);
    assert forall|k: int| x < k < x + n.len() implies is_name_char(s[k]) by {
        assert(s[k] == n[k - x]);
    }
}

proof fn lemma_prefix(s: Seq<char>, p: Seq<char>, piece: Seq<char>)
    requires
        (p.len() + piece.len()) as int <= s.len(),
        s.subrange(0, (p.len() + piece.len()) as int) == p + piece,
    ensures
        s.subrange(0, p.len() as int) == p,
        s.subrange(p.len() as int, (p.len() + piece.len()) as int) == piece,
{
    assert(s.subrange(0, p.len() as int) =~= (p + piece).subrange(0, p.len() as int));
    assert(s.subrange(p.len() as int, (p.len() + piece.len()) as int) =~= (p + piece).subrange(
        p.len() as int,
        (p.len() + piece.len()) as int,
    ));
    assert((p + piece).subrange(0, p.len() as int) =~= p);
    assert((p + piece).subrange(p.len() as int, (p.len() + piece.len()) as int) =~= piece);
}

/// Where the parts of `spaced_doc` lie: the `<` of the open tag, the
/// attribute's name, `=`, the two quotes, the `>` of the open tag, the `<`
/// of the close tag, the close tag's name and its `>`.
pub struct Marks {
    pub lt: int,
    pub i: int,
    pub eq: int,
    pub q: int,
    pub ve: int,
    pub gt: int,
    pub c: int,
    pub ns: int,
    pub g2: int,
}

pub open spec fn marks(
    n: Seq<char>,
    a: Seq<char>,
    v: Seq<char>,
    t: Seq<char>,
    w: Seq<Seq<char>>,
) -> Marks {
    let lt = w[0].len() as int;
    let i = lt + 1 + n.len() + w[1].len();
    let eq = i + a.len() + w[2].len();
    let q = eq + 1 + w[3].len();
    let ve = q + 1 + v.len();
    let gt = ve + 1 + w[4].len();
    let c = gt + 1 + t.len();
    let ns = c + 2 + w[5].len();
    let g2 = ns + n.len() + w[6].len();
    Marks { lt, i, eq, q, ve, gt, c, ns, g2 }
}

proof fn lemma_spaced_layout(
    n: Seq<char>,
    a: Seq<char>,
    v: Seq<char>,
    t: Seq<char>,
    w: Seq<Seq<char>>,
)
    requires
        w.len() == 8,
    ensures
        ({
            let s = spaced_doc(n, a, v, t, w);
            let k = marks(n, a, v, t, w);
            let l = n.len() as int;
            &&& s.len() == k.g2 + 1 + w[7].len()
            &&& s.subrange(0, k.lt) == w[0]
            &&& s.subrange(k.lt, k.lt + 1) == seq!['<']
            &&& s.subrange(k.lt + 1, k.lt + 1 + l) == n
            &&& s.subrange(k.lt + 1 + l, k.i) == w[1]
            &&& s.subrange(k.i, k.i + a.len()) == a
            &&& s.subrange(k.i + a.len(), k.eq) == w[2]
            &&& s.subrange(k.eq, k.eq + 1) == seq!['=']
            &&& s.subrange(k.eq + 1, k.q) == w[3]
            &&& s.subrange(k.q, k.q + 1) == seq!['"']
            &&& s.subrange(k.q + 1, k.ve) == v
            &&& s.subrange(k.ve, k.ve + 1) == seq!['"']
            &&& s.subrange(k.ve + 1, k.gt) == w[4]
            &&& s.subrange(k.gt, k.gt + 1) == seq!['>']
            &&& s.subrange(k.gt + 1, k.c) == t
            &&& s.subrange(k.c, k.c + 2) == seq!['<', '/']
            &&& s.subrange(k.c + 2, k.ns) == w[5]
            &&& s.subrange(k.ns, k.ns + l) == n
            &&& s.subrange(k.ns + l, k.g2) == w[6]
            &&& s.subrange(k.g2, k.g2 + 1) == seq!['>']
            &&& s.subrange(k.g2 + 1, s.len() as int) == w[7]
        }),
{
    reveal(spaced_doc);
    let s = spaced_doc(n, a, v, t, w);
    let pre1 = w[0] + seq!['<'];
    let pre2 = pre1 + n;
    let pre3 = pre2 + w[1];
    let pre4 = pre3 + a;
    let pre5 = pre4 + w[2];
    let pre6 = pre5 + seq!['='];
    let pre7 = pre6 + w[3];
    let pre8 = pre7 + seq!['"'];
    let pre9 = pre8 + v;
    let pre10 = pre9 + seq!['"'];
    let pre11 = pre10 + w[4];
    let pre12 = pre11 + seq!['>'];
    let pre13 = pre12 + t;
    let pre14 = pre13 + seq!['<', '/'];
    let pre15 = pre14 + w[5];
    let pre16 = pre15 + n;
    let pre17 = pre16 + w[6];
    let pre18 = pre17 + seq!['>'];
    assert(s == pre18 + w[7]);
    assert(s.subrange(0, s.len() as int) =~= s);
    lemma_prefix(s, pre18, w[7]);
    lemma_prefix(s, pre17, seq!['>']);
    lemma_prefix(s, pre16, w[6]);
    lemma_prefix(s, pre15, n);
    lemma_prefix(s, pre14, w[5]);
    lemma_prefix(s, pre13, seq!['<', '/']);
    lemma_prefix(s, pre12, t);
    lemma_prefix(s, pre11, seq!['>']);
    lemma_prefix(s, pre10, w[4]);
    lemma_prefix(s, pre9, seq!['"']);
    lemma_prefix(s, pre8, v);
    lemma_prefix(s, pre7, seq!['"']);
    lemma_prefix(s, pre6, w[3]);
    lemma_prefix(s, pre5, seq!['=']);
    lemma_prefix(s, pre4, w[2]);
    lemma_prefix(s, pre3, a);
    lemma_prefix(s, pre2, w[1]);
    lemma_prefix(s, pre1, n);
    lemma_prefix(s, w[0], seq!['<']);
}

proof fn lemma_spaced_doc(
    n: Seq<char>,
    a: Seq<char>,
    v: Seq<char>,
    t: Seq<char>,
    w: Seq<Seq<char>>,
)
    requires
        name_ok(n),
        name_ok(a),
        attr_key(a) != text_key(),
        value_ok(v),
        plain_text(t),
        gaps_ok(w),
        spaced_doc(n, a, v, t, w).len() <= usize::MAX,
    ensures
        spec_parse(spaced_doc(n, a, v, t, w)) == Ok::<Json, ErrorV>(attr_and_text(n, a, v, t)),
{
    let s = spaced_doc(n, a, v, t, w);
    let k = marks(n, a, v, t, w);
    let l = n.len() as int;
    let m = a.len() as int;
    assert(ws_run(w[0]) && ws_run(w[1]) && ws_run(w[2]) && ws_run(w[3]));
    assert(ws_run(w[4]) && ws_run(w[5]) && ws_run(w[6]) && ws_run(w[7]));
    lemma_spaced_layout(n, a, v, t, w);
    assert(s[k.lt] == s.subrange(k.lt, k.lt + 1)[0]);
    assert(s[k.eq] == s.subrange(k.eq, k.eq + 1)[0]);
    assert(s[k.q] == s.subrange(k.q, k.q + 1)[0]);
    assert(s[k.ve] == s.subrange(k.ve, k.ve + 1)[0]);
    assert(s[k.gt] == s.subrange(k.gt, k.gt + 1)[0]);
    assert(s[k.c] == s.subrange(k.c, k.c + 2)[0]);
    assert(s[k.c + 1] == s.subrange(k.c, k.c + 2)[1]);
    assert(s[k.g2] == s.subrange(k.g2, k.g2 + 1)[0]);
    lemma_ws_at(s, 0, w[0]);
    lemma_ws_at(s, k.lt + 1 + l, w[1]);
    lemma_ws_at(s, k.i + m, w[2]);
    lemma_ws_at(s, k.eq + 1, w[3]);
    lemma_ws_at(s, k.ve + 1, w[4]);
    lemma_ws_at(s, k.c + 2, w[5]);
    lemma_ws_at(s, k.ns + l, w[6]);
    lemma_ws_at(s, k.g2 + 1, w[7]);
    assert(is_space(s[k.lt + 1 + l]));
    lemma_name_from(s, k.lt + 1, n);
    lemma_name_from(s, k.i, a);
    lemma_name_from(s, k.ns, n);
    assert forall|j: int| k.q + 1 <= j < k.ve implies s[j] != '"' by {
        assert(s[j] == v[j - (k.q + 1)]);
    }
    lemma_attr_and_text_steps(s, k.lt, l, k.i, m, k.eq, k.q, k.ve, k.gt, k.c, k.ns, k.g2);
}

proof fn lemma_attr_doc_spaced(n: Seq<char>, a: Seq<char>, v: Seq<char>, t: Seq<char>)
    ensures
        ({
            let e = Seq::<char>::empty();
            attr_doc(n, a, v, t) == spaced_doc(n, a, v, t, seq![e, seq![' '], e, e, e, e, e, e])
        }),
{
    reveal(attr_doc);
    reveal(spaced_doc);
    let e = Seq::<char>::empty();
    let w = seq![e, seq![' '], e, e, e, e, e, e];
    assert(attr_doc(n, a, v, t) =~= spaced_doc(n, a, v, t, w));
}

/// For every element name `n`, attribute name `a` (other than `text`, whose
/// key `_text` the text would overwrite), quoted value `v` and text `t`
/// without surrounding whitespace, `<n a="v">t</n>` converts to
/// `{n: {"_a": v, "_text": t}}`.
pub proof fn law_attribute_and_text(n: Seq<char>, a: Seq<char>, v: Seq<char>, t: Seq<char>)
    requires
        name_ok(n),
        name_ok(a),
        attr_key(a) != text_key(),
        value_ok(v),
        plain_text(t),
        attr_doc(n, a, v, t).len() <= usize::MAX,
    ensures
        spec_parse(attr_doc(n, a, v, t)) == Ok::<Json, ErrorV>(attr_and_text(n, a, v, t)),
{
    let e = Seq::<char>::empty();
    let w = seq![e, seq![' '], e, e, e, e, e, e];
    assert(gaps_ok(w));
    lemma_attr_doc_spaced(n, a, v, t);
    lemma_spaced_doc(n, a, v, t, w);
}

/// Whitespace laid in before or after the element, before the attribute,
/// around `=`, before `>`, or around the name of the close tag does not
/// change what `<n a="v">t</n>` converts to.
pub proof fn law_whitespace_insensitive(
    n: Seq<char>,
    a: Seq<char>,
    v: Seq<char>,
    t: Seq<char>,
    w: Seq<Seq<char>>,
)
    requires
        name_ok(n),
        name_ok(a),
        attr_key(a) != text_key(),
        value_ok(v),
        plain_text(t),
        gaps_ok(w),
        spaced_doc(n, a, v, t, w).len() <= usize::MAX,
    ensures
        spec_parse(spaced_doc(n, a, v, t, w)) == spec_parse(attr_doc(n, a, v, t)),
{
    let e = Seq::<char>::empty();
    let single = seq![e, seq![' '], e, e, e, e, e, e];
    lemma_spaced_doc(n, a, v, t, w);
    lemma_attr_doc_spaced(n, a, v, t);
    lemma_spaced_layout(n, a, v, t, w);
    lemma_spaced_layout(n, a, v, t, single);
    assert(attr_doc(n, a, v, t).len() <= spaced_doc(n, a, v, t, w).len());
    law_attribute_and_text(n, a, v, t);
}

/// The `name` production fails right at a first character that is not an
/// ASCII letter; after a letter it takes in every letter, digit, `_` and
/// `-` up to the first other character.
pub proof fn law_name_boundary(s: Seq<char>, i: int, l: int)
    requires
        0 <= i < s.len() <= usize::MAX,
    ensures
        !is_letter(s[i]) ==> spec_name(s, i) == structural::<usize>(Rule::name, i),
        name_at(s, i, l) ==> spec_name(s, i) == Ok::<usize, ErrorV>((i + l) as usize),
{
    if name_at(s, i, l) {
        lemma_name_at(s, i, l);
    }
}

/// A tag name that begins with anything but an ASCII letter makes the whole
/// document fail at the `name` production, just after the `<`.
pub proof fn law_tag_name_starts_with_letter(c: char, rest: Seq<char>)
    requires
        !is_letter(c),
    ensures
        spec_parse(seq!['<', c] + rest) == Err::<Json, ErrorV>(ErrorV::Syntax(Rule::name, 1)),
{
    let s = seq!['<', c] + rest;
    assert(s[0] == '<' && s[1] == c);
    lemma_skip_ws_run(s, 0, 0);
    assert(spec_name(s, 1) == structural::<usize>(Rule::name, 1));
    assert(spec_element(s, 0) == structural::<usize>(Rule::name, 1));
}

proof fn lemma_skip_ws_ge(s: Seq<char>, x: int)
    ensures
        x <= skip_ws(s, x),
    decreases s.len() - x,
{
    if 0 <= x < s.len() && is_space(s[x]) {
        lemma_skip_ws_ge(s, x + 1);
    }
}

proof fn lemma_name_rest_ge(s: Seq<char>, x: int)
    ensures
        x <= name_rest_end(s, x),
        x <= s.len() ==> name_rest_end(s, x) <= s.len(),
    decreases s.len() - x,
{
    if 0 <= x < s.len() && is_name_char(s[x]) {
        lemma_name_rest_ge(s, x + 1);
    }
}

proof fn lemma_value_end(s: Seq<char>, x: int)
    requires
        0 <= x,
    ensures
        x <= value_end(s, x),
        value_end(s, x) < s.len() ==> s[value_end(s, x)] == '"',
        forall|k: int| x <= k < value_end(s, x) ==> s[k] != '"',
    decreases s.len() - x,
{
    if 0 <= x < s.len() && s[x] != '"' {
        lemma_value_end(s, x + 1);
    }
}

/// An attribute's value always lies between two double quotes with none
/// inside; so where fewer than two `"` follow, the `attribute` production
/// fails (a value with no closing quote, or with no quotes at all).
pub proof fn law_attribute_value_quoting(s: Seq<char>, i: int)
    requires
        0 <= i,
        s.len() <= usize::MAX,
    ensures
        spec_attribute(s, i) matches Ok(a) ==> {
            &&& i < a.value_start <= a.value_end < s.len()
            &&& s[a.value_start - 1] == '"'
            &&& s[a.value_end as int] == '"'
            &&& forall|k: int| a.value_start <= k < a.value_end ==> s[k] != '"'
        },
        (forall|k1: int, k2: int|
            i <= k1 < k2 < s.len() ==> !(#[trigger] s[k1] == '"' && #[trigger] s[k2] == '"'))
            ==> spec_attribute(s, i) is Err,
{
    if let Ok(a) = spec_attribute(s, i) {
        let ne = spec_name(s, i)->Ok_0 as int;
        lemma_name_rest_ge(s, i + 1);
        assert(i < ne);
        let eq = skip_ws(s, ne);
        lemma_skip_ws_ge(s, ne);
        let q = skip_ws(s, eq + 1);
        lemma_skip_ws_ge(s, eq + 1);
        lemma_value_end(s, q + 1);
        assert(a.value_start == q + 1);
        assert(s[q] == '"');
    }
}

proof fn lemma_trim_blank(s: Seq<char>, p: int, e: int)
    requires
        0 <= p <= e <= s.len(),
        forall|k: int| p <= k < e ==> is_space(s[k]),
    ensures
        trim_start(s, p, e) == e,
    decreases e - p,
{
    if p < e {
        lemma_trim_blank(s, p + 1, e);
    }
}

/// Whitespace between tags inside an element changes nothing: a blank run
/// before a tag adds no text, and the element body reads the same from the
/// tag on.
pub proof fn law_blank_run_between_tags(
    s: Seq<char>,
    p: int,
    e: int,
    name: Seq<char>,
    obj: Seq<(Seq<char>, Json)>,
    has_child: bool,
    text: Seq<char>,
)
    requires
        0 <= p < e < s.len() <= usize::MAX,
        s[e] == '<',
        forall|k: int| p <= k < e ==> is_space(s[k]),
    ensures
        trimmed(s, p, e) == Seq::<char>::empty(),
        tr_content(s, p, name, obj, has_child, text) == tr_content(
            s,
            e,
            name,
            obj,
            has_child,
            text,
        ),
        spec_content(s, p) == spec_content(s, e),
{
    lemma_text_run(s, p, e);
    lemma_trim_blank(s, p, e);
    assert(trimmed(s, p, e) =~= Seq::<char>::empty());
    assert(text + trimmed(s, p, e) =~= text);
}

/// What the transformer gives where the recognizer gave `r`: the same end,
/// or a tag mismatch.
pub open spec fn follows<T>(r: Result<usize, ErrorV>, f: Result<(Seq<char>, T, usize), ErrorV>) -> bool {
    match f {
        Ok((_, _, e)) => r == Ok::<usize, ErrorV>(e),
        Err(err) => err is TagMismatch,
    }
}

proof fn lemma_element_follows(s: Seq<char>, i: int)
    requires
        spec_element(s, i) is Ok,
    ensures
        follows(spec_element(s, i), tr_element(s, i)),
    decreases s.len() - i, 0int,
{
    let t = spec_open_tag(s, i)->Ok_0;
    lemma_content_follows(
        s,
        t.2 as int,
        s.subrange(i + 1, t.0 as int),
        attrs_object(attr_pairs(s, t.1)),
        false,
        Seq::empty(),
    );
}

proof fn lemma_content_follows(
    s: Seq<char>,
    p: int,
    name: Seq<char>,
    obj: Seq<(Seq<char>, Json)>,
    has_child: bool,
    text: Seq<char>,
)
    requires
        spec_content(s, p) is Ok,
    ensures
        follows(spec_content(s, p), tr_content(s, p, name, obj, has_child, text)),
    decreases s.len() - p, 1int,
{
    if 0 <= p < s.len() && s[p] == '<' && !(p + 1 < s.len() && s[p + 1] == '/') {
        lemma_element_follows(s, p);
        if let Ok((cn, cv, e)) = tr_element(s, p) {
            lemma_content_follows(s, e as int, name, obj_insert(obj, cn, cv), true, text);
        }
    } else if 0 <= p < s.len() && s[p] != '<' {
        let e = spec_inner_text(s, p)->Ok_0;
        lemma_content_follows(
            s,
            e as int,
            name,
            obj,
            has_child,
            text + trimmed(s, p, e as int),
        );
    }
}

/// Once the recognizer accepts a document, the transformer can fail only on
/// a tag mismatch: every syntax error comes from the recognizer.
pub proof fn law_recognized_document_fails_only_on_mismatch(s: Seq<char>)
    requires
        spec_document(s) is Ok,
        skip_ws(s, 0) != s.len(),
    ensures
        spec_parse(s) is Ok || spec_parse(s)->Err_0 is TagMismatch,
{
    lemma_element_follows(s, skip_ws(s, 0));
}

proof fn lemma_prefix_at(s: Seq<char>, o: int, p: Seq<char>, piece: Seq<char>)
    requires
        0 <= o && o + p.len() + piece.len() <= s.len(),
        s.subrange(o, o + p.len() + piece.len()) == p + piece,
    ensures
        s.subrange(o, o + p.len()) == p,
        s.subrange(o + p.len(), o + p.len() + piece.len()) == piece,
{
    let whole = s.subrange(o, o + p.len() + piece.len());
    assert(s.subrange(o, o + p.len()) =~= whole.subrange(0, p.len() as int));
    assert(s.subrange(o + p.len(), o + p.len() + piece.len()) =~= whole.subrange(
        p.len() as int,
        (p.len() + piece.len()) as int,
    ));
    assert((p + piece).subrange(0, p.len() as int) =~= p);
    assert((p + piece).subrange(p.len() as int, (p.len() + piece.len()) as int) =~= piece);
}

/// One attribute written as ` a="v"`.
pub open spec fn attr_text(a: (Seq<char>, Seq<char>)) -> Seq<char> {
    seq![' '] + a.0 + seq!['=', '"'] + a.1 + seq!['"']
}

/// The attributes `l` written one after another, each as ` a="v"`.
pub open spec fn attrs_text(l: Seq<(Seq<char>, Seq<char>)>) -> Seq<char>
    decreases l.len(),
{
    if l.len() == 0 {
        Seq::empty()
    } else {
        attr_text(l[0]) + attrs_text(l.drop_first())
    }
}

/// Attribute names of the grammar, with values free of double quotes.
pub open spec fn attrs_ok(l: Seq<(Seq<char>, Seq<char>)>) -> bool {
    forall|j: int| 0 <= j < l.len() ==> name_ok(#[trigger] l[j].0) && value_ok(l[j].1)
}

proof fn lemma_attrs_at(s: Seq<char>, p: int, l: Seq<(Seq<char>, Seq<char>)>, acc: Seq<AttrSpan>)
    requires
        0 <= p && p + attrs_text(l).len() < s.len() <= usize::MAX,
        s.subrange(p, p + attrs_text(l).len()) == attrs_text(l),
        s[p + attrs_text(l).len()] == '>',
        attrs_ok(l),
    ensures
        spec_attr_list(s, p, acc) matches Ok((spans, end)) && end == p + attrs_text(l).len() + 1
            && spans.len() == acc.len() + l.len() && spans.subrange(0, acc.len() as int) == acc
            && attr_pairs(s, spans.subrange(acc.len() as int, spans.len() as int)) == l,
    decreases l.len(),
{
    if l.len() == 0 {
        lemma_skip_ws_run(s, p, p);
        assert(acc.subrange(0, acc.len() as int) =~= acc);
        assert(attr_pairs(s, acc.subrange(acc.len() as int, acc.len() as int)) =~= l);
    } else {
        let a = l[0].0;
        let v = l[0].1;
        let x = attr_text(l[0]);
        let rest = attrs_text(l.drop_first());
        assert(name_ok(a) && value_ok(v));
        assert forall|j: int| 0 <= j < l.drop_first().len() implies name_ok(
            #[trigger] l.drop_first()[j].0,
        ) && value_ok(l.drop_first()[j].1) by {
            assert(l.drop_first()[j] == l[j + 1]);
        }
        lemma_prefix_at(s, p, x, rest);
        let m = a.len() as int;
        let eq = p + 1 + m;
        let q = eq + 1;
        let ve = q + 1 + v.len();
        lemma_prefix_at(s, p, seq![' '] + a + seq!['=', '"'] + v, seq!['"']);
        lemma_prefix_at(s, p, seq![' '] + a + seq!['=', '"'], v);
        lemma_prefix_at(s, p, seq![' '] + a, seq!['=', '"']);
        lemma_prefix_at(s, p, seq![' '], a);
        assert(s[p] == s.subrange(p, p + 1)[0]);
        assert(s[eq] == s.subrange(eq, eq + 2)[0]);
        assert(s[q] == s.subrange(eq, eq + 2)[1]);
        assert(s[ve] == s.subrange(ve, ve + 1)[0]);
        lemma_name_from(s, p + 1, a);
        assert forall|k: int| q + 1 <= k < ve implies s[k] != '"' by {
            assert(s[k] == v[k - (q + 1)]);
        }
        lemma_attribute_at(s, p + 1, m, eq, q, ve);
        let span = AttrSpan {
            name_start: (p + 1) as usize,
            name_end: (p + 1 + m) as usize,
            value_start: (q + 1) as usize,
            value_end: ve as usize,
        };
        lemma_skip_ws_run(s, p, p + 1);
        assert(ve + 1 == p + x.len());
        lemma_attrs_at(s, ve + 1, l.drop_first(), acc.push(span));
        let spans = spec_attr_list(s, ve + 1, acc.push(span))->Ok_0.0;
        assert(spec_attr_list(s, p, acc) == spec_attr_list(s, ve + 1, acc.push(span)));
        let n0 = acc.len() as int;
        assert(spans.subrange(0, n0) =~= spans.subrange(0, n0 + 1).subrange(0, n0));
        assert(acc.push(span).subrange(0, n0) =~= acc);
        assert(spans[n0] == acc.push(span)[n0]);
        let tail = spans.subrange(n0, spans.len() as int);
        assert(tail.drop_first() =~= spans.subrange(n0 + 1, spans.len() as int));
        assert(attr_pairs(s, tail) =~= seq![(a, v)] + attr_pairs(s, tail.drop_first()));
        assert(s.subrange(p + 1, p + 1 + m) == a);
        assert(s.subrange(q + 1, ve) == v);
        assert(seq![(a, v)] + l.drop_first() =~= l);
    }
}

/// The document `<n a1="v1" ... ak="vk">t</n>` for the attributes `l`.
#[verifier::opaque]
pub open spec fn list_doc(n: Seq<char>, l: Seq<(Seq<char>, Seq<char>)>, t: Seq<char>) -> Seq<char> {
    seq!['<'] + n + attrs_text(l) + seq!['>'] + t + seq!['<', '/'] + n + seq!['>']
}

proof fn lemma_list_layout(n: Seq<char>, l: Seq<(Seq<char>, Seq<char>)>, t: Seq<char>)
    ensures
        ({
            let s = list_doc(n, l, t);
            let ln = n.len() as int;
            let gt = 1 + ln + attrs_text(l).len();
            let c = gt + 1 + t.len();
            &&& s.len() == c + 3 + ln
            &&& s.subrange(0, 1) == seq!['<']
            &&& s.subrange(1, 1 + ln) == n
            &&& s.subrange(1 + ln, gt) == attrs_text(l)
            &&& s.subrange(gt, gt + 1) == seq!['>']
            &&& s.subrange(gt + 1, c) == t
            &&& s.subrange(c, c + 2) == seq!['<', '/']
            &&& s.subrange(c + 2, c + 2 + ln) == n
            &&& s.subrange(c + 2 + ln, c + 3 + ln) == seq!['>']
        }),
{
    reveal(list_doc);
    let s = list_doc(n, l, t);
    let pre1 = seq!['<'] + n;
    let pre2 = pre1 + attrs_text(l);
    let pre3 = pre2 + seq!['>'];
    let pre4 = pre3 + t;
    let pre5 = pre4 + seq!['<', '/'];
    let pre6 = pre5 + n;
    assert(s == pre6 + seq!['>']);
    assert(s.subrange(0, s.len() as int) =~= s);
    lemma_prefix(s, pre6, seq!['>']);
    lemma_prefix(s, pre5, n);
    lemma_prefix(s, pre4, seq!['<', '/']);
    lemma_prefix(s, pre3, t);
    lemma_prefix(s, pre2, seq!['>']);
    lemma_prefix(s, pre1, attrs_text(l));
    lemma_prefix(s, seq!['<'], n);
}

/// For every element name `n`, attribute list `l` and text `t` without
/// surrounding whitespace, `<n a1="v1" ... ak="vk">t</n>` converts to
/// `{n: finish(entries of the attributes, t)}`.
proof fn lemma_list_doc(n: Seq<char>, l: Seq<(Seq<char>, Seq<char>)>, t: Seq<char>)
    requires
        name_ok(n),
        attrs_ok(l),
        plain_text(t),
        list_doc(n, l, t).len() <= usize::MAX,
    ensures
        spec_parse(list_doc(n, l, t)) == Ok::<Json, ErrorV>(
            Json::Obj(seq![(n, finish(attrs_object(l), false, t))]),
        ),
{
    let s = list_doc(n, l, t);
    let ln = n.len() as int;
    let gt = 1 + ln + attrs_text(l).len();
    let c = gt + 1 + t.len();
    let ns = c + 2;
    let g2 = ns + ln;
    let end = (g2 + 1) as usize;
    lemma_list_layout(n, l, t);
    assert(s[0] == s.subrange(0, 1)[0]);
    assert(s[gt] == s.subrange(gt, gt + 1)[0]);
    assert(s[c] == s.subrange(c, c + 2)[0]);
    assert(s[c + 1] == s.subrange(c, c + 2)[1]);
    assert(s[g2] == s.subrange(g2, g2 + 1)[0]);
    if l.len() > 0 {
        assert(attrs_text(l)[0] == ' ');
        assert(s[1 + ln] == s.subrange(1 + ln, gt)[0]);
    }
    lemma_name_from(s, 1, n);
    lemma_name_from(s, ns, n);
    lemma_name_at(s, 1, ln);
    lemma_attrs_at(s, 1 + ln, l, Seq::empty());
    let spans = spec_attr_list(s, 1 + ln, Seq::empty())->Ok_0.0;
    assert(spans.subrange(0, spans.len() as int) =~= spans);
    assert(spec_open_tag(s, 0) == Ok::<(usize, Seq<AttrSpan>, usize), ErrorV>(
        ((1 + ln) as usize, spans, (gt + 1) as usize),
    ));
    lemma_text_at(s, gt + 1, c);
    assert(Seq::<char>::empty() + t =~= t);
    lemma_close_at(s, c, ns, ln, g2);
    let obj = attrs_object(l);
    let j = finish(obj, false, t);
    assert(tr_content(s, c, n, obj, false, t) == Ok::<(Seq<char>, Json, usize), ErrorV>(
        (n, j, end),
    ));
    assert(tr_content(s, gt + 1, n, obj, false, Seq::empty()) == Ok::<
        (Seq<char>, Json, usize),
        ErrorV,
    >((n, j, end)));
    assert(tr_element(s, 0) == Ok::<(Seq<char>, Json, usize), ErrorV>((n, j, end)));
    assert(spec_content(s, c) == Ok::<usize, ErrorV>(end));
    assert(spec_content(s, gt + 1) == Ok::<usize, ErrorV>(end));
    assert(spec_element(s, 0) == Ok::<usize, ErrorV>(end));
    lemma_skip_ws_run(s, 0, 0);
    lemma_skip_ws_run(s, g2 + 1, g2 + 1);
    assert(spec_document(s) == Ok::<usize, ErrorV>(end));
}

/// The entries `"_a": v` of the attributes `l`, in order.
pub open spec fn attr_entries(l: Seq<(Seq<char>, Seq<char>)>) -> Seq<(Seq<char>, Json)> {
    Seq::new(l.len(), |j: int| (attr_key(l[j].0), Json::Str(l[j].1)))
}

/// No two attributes share a name, and none is named `text`.
pub open spec fn names_distinct(l: Seq<(Seq<char>, Seq<char>)>) -> bool {
    &&& forall|i: int, j: int| 0 <= i < j < l.len() ==> #[trigger] l[i].0 != #[trigger] l[j].0
    &&& forall|j: int| 0 <= j < l.len() ==> attr_key(#[trigger] l[j].0) != text_key()
}

proof fn lemma_key_absent(m: Seq<(Seq<char>, Json)>, k: Seq<char>, i: int)
    requires
        0 <= i <= m.len(),
        forall|j: int| i <= j < m.len() ==> #[trigger] m[j].0 != k,
    ensures
        key_pos(m, k, i) == m.len(),
    decreases m.len() - i,
{
    if i < m.len() {
        lemma_key_absent(m, k, i + 1);
    }
}

proof fn lemma_attr_key_injective(x: Seq<char>, y: Seq<char>)
    requires
        attr_key(x) == attr_key(y),
    ensures
        x == y,
{
    assert(x =~= attr_key(x).subrange(1, attr_key(x).len() as int));
    assert(y =~= attr_key(y).subrange(1, attr_key(y).len() as int));
}

proof fn lemma_distinct_entries(l: Seq<(Seq<char>, Seq<char>)>)
    requires
        forall|i: int, j: int| 0 <= i < j < l.len() ==> #[trigger] l[i].0 != #[trigger] l[j].0,
    ensures
        attrs_object(l) == attr_entries(l),
    decreases l.len(),
{
    if l.len() > 0 {
        let init = l.drop_last();
        assert forall|i: int, j: int| 0 <= i < j < init.len() implies #[trigger] init[i].0
            != #[trigger] init[j].0 by {
            assert(init[i] == l[i] && init[j] == l[j]);
        }
        lemma_distinct_entries(init);
        let e = attr_entries(init);
        let last = l.last();
        assert forall|j: int| 0 <= j < e.len() implies #[trigger] e[j].0 != attr_key(last.0) by {
            assert(init[j] == l[j]);
            if e[j].0 == attr_key(last.0) {
                lemma_attr_key_injective(l[j].0, last.0);
            }
        }
        lemma_key_absent(e, attr_key(last.0), 0);
        assert(attr_entries(l) =~= e.push((attr_key(last.0), Json::Str(last.1))));
    }
}

/// For every element name `n`, every non-empty list `l` of attributes with
/// distinct names (none named `text`, whose key `_text` the text would
/// overwrite) and quoted values, and every text `t` without surrounding
/// whitespace, `<n a1="v1" ... ak="vk">t</n>` converts to
/// `{n: {"_a1": v1, ..., "_ak": vk, "_text": t}}`.
pub proof fn law_attributes_and_text(n: Seq<char>, l: Seq<(Seq<char>, Seq<char>)>, t: Seq<char>)
    requires
        name_ok(n),
        l.len() > 0,
        attrs_ok(l),
        names_distinct(l),
        plain_text(t),
        list_doc(n, l, t).len() <= usize::MAX,
    ensures
        spec_parse(list_doc(n, l, t)) == Ok::<Json, ErrorV>(
            Json::Obj(seq![(n, Json::Obj(attr_entries(l).push((text_key(), Json::Str(t)))))]),
        ),
{
    lemma_list_doc(n, l, t);
    lemma_distinct_entries(l);
    let e = attr_entries(l);
    assert forall|j: int| 0 <= j < e.len() implies #[trigger] e[j].0 != text_key() by {
        assert(attr_key(l[j].0) != text_key());
    }
    lemma_key_absent(e, text_key(), 0);
}

/// `inner` wrapped in an element named `n`: `<n>inner</n>`.
pub open spec fn wrap(n: Seq<char>, inner: Seq<char>) -> Seq<char> {
    seq!['<'] + n + seq!['>'] + inner + seq!['<', '/'] + n + seq!['>']
}

/// The text `t` inside elements named `ns[0]`, `ns[1]`, ... from the outside
/// in: `<n1><n2>...t...</n2></n1>`.
pub open spec fn nest_doc(ns: Seq<Seq<char>>, t: Seq<char>) -> Seq<char>
    decreases ns.len(),
{
    if ns.len() == 0 {
        t
    } else {
        wrap(ns[0], nest_doc(ns.drop_first(), t))
    }
}

/// The value of the outermost element of `nest_doc(ns, t)`: a chain of
/// singleton mappings `{n2: {n3: ... t}}` ending in the string `t`.
pub open spec fn nest_value(ns: Seq<Seq<char>>, t: Seq<char>) -> Json
    decreases ns.len(),
{
    if ns.len() <= 1 {
        Json::Str(t)
    } else {
        Json::Obj(seq![(ns[1], nest_value(ns.drop_first(), t))])
    }
}

proof fn lemma_wrap_layout(s: Seq<char>, i: int, n: Seq<char>, inner: Seq<char>)
    requires
        0 <= i && i + wrap(n, inner).len() <= s.len(),
        s.subrange(i, i + wrap(n, inner).len()) == wrap(n, inner),
    ensures
        ({
            let l = n.len() as int;
            let b = i + l + 2;
            let c = b + inner.len();
            &&& wrap(n, inner).len() == c + l + 3 - i
            &&& s[i] == '<'
            &&& s.subrange(i + 1, i + 1 + l) == n
            &&& s[i + 1 + l] == '>'
            &&& s.subrange(b, c) == inner
            &&& s[c] == '<' && s[c + 1] == '/'
            &&& s.subrange(c + 2, c + 2 + l) == n
            &&& s[c + 2 + l] == '>'
        }),
{
    let l = n.len() as int;
    let b = i + l + 2;
    let c = b + inner.len();
    let pre1 = seq!['<'] + n;
    let pre2 = pre1 + seq!['>'];
    let pre3 = pre2 + inner;
    let pre4 = pre3 + seq!['<', '/'];
    let pre5 = pre4 + n;
    lemma_prefix_at(s, i, pre5, seq!['>']);
    lemma_prefix_at(s, i, pre4, n);
    lemma_prefix_at(s, i, pre3, seq!['<', '/']);
    lemma_prefix_at(s, i, pre2, inner);
    lemma_prefix_at(s, i, pre1, seq!['>']);
    lemma_prefix_at(s, i, seq!['<'], n);
    assert(s[i] == s.subrange(i, i + 1)[0]);
    assert(s[i + 1 + l] == s.subrange(i + 1 + l, i + 2 + l)[0]);
    assert(s[c] == s.subrange(c, c + 2)[0]);
    assert(s[c + 1] == s.subrange(c, c + 2)[1]);
    assert(s[c + 2 + l] == s.subrange(c + 2 + l, c + 3 + l)[0]);
}

/// The open tag `<n>` at `i`, with no attributes.
proof fn lemma_bare_open_tag(s: Seq<char>, i: int, l: int)
    requires
        0 <= i && i + 1 + l < s.len() <= usize::MAX,
        s[i] == '<' && s[i + 1 + l] == '>',
        name_at(s, i + 1, l),
    ensures
        spec_open_tag(s, i) == Ok::<(usize, Seq<AttrSpan>, usize), ErrorV>(
            ((i + 1 + l) as usize, Seq::empty(), (i + 2 + l) as usize),
        ),
        attrs_object(attr_pairs(s, Seq::empty())) == Seq::<(Seq<char>, Json)>::empty(),
{
    lemma_name_at(s, i + 1, l);
    lemma_skip_ws_run(s, i + 1 + l, i + 1 + l);
    assert(spec_attr_list(s, i + 1 + l, Seq::empty()) == Ok::<(Seq<AttrSpan>, usize), ErrorV>(
        (Seq::empty(), (i + 2 + l) as usize),
    ));
    assert(attr_pairs(s, Seq::empty()) =~= Seq::empty());
}

/// Elements nested to any depth: wherever `<n1><n2>...t...</n2></n1>`
/// stands in a text, the element at its start ends where it does and
/// folds into `n1` with the value `{n2: ... {nk: t}}` (just `t` for one
/// element).
pub proof fn law_deep_nesting_element(s: Seq<char>, i: int, ns: Seq<Seq<char>>, t: Seq<char>)
    requires
        ns.len() > 0,
        forall|j: int| 0 <= j < ns.len() ==> name_ok(#[trigger] ns[j]),
        plain_text(t),
        0 <= i && i + nest_doc(ns, t).len() <= s.len() <= usize::MAX,
        s.subrange(i, i + nest_doc(ns, t).len()) == nest_doc(ns, t),
    ensures
        spec_element(s, i) == Ok::<usize, ErrorV>((i + nest_doc(ns, t).len()) as usize),
        tr_element(s, i) == Ok::<(Seq<char>, Json, usize), ErrorV>(
            (ns[0], nest_value(ns, t), (i + nest_doc(ns, t).len()) as usize),
        ),
    decreases ns.len(),
{
    let n = ns[0];
    let rest = ns.drop_first();
    let inner = nest_doc(rest, t);
    let l = n.len() as int;
    let b = i + l + 2;
    let c = b + inner.len();
    let g = c + 2 + l;
    let end = (g + 1) as usize;
    assert(name_ok(n));
    assert(nest_doc(ns, t) == wrap(n, inner));
    lemma_wrap_layout(s, i, n, inner);
    lemma_name_from(s, i + 1, n);
    lemma_name_from(s, c + 2, n);
    lemma_bare_open_tag(s, i, l);
    lemma_close_at(s, c, c + 2, l, g);
    if ns.len() == 1 {
        assert(rest.len() == 0);
        assert(inner == t);
        lemma_text_at(s, b, c);
        assert(Seq::<char>::empty() + t =~= t);
        assert(tr_content(s, c, n, Seq::empty(), false, t) == Ok::<
            (Seq<char>, Json, usize),
            ErrorV,
        >((n, Json::Str(t), end)));
        assert(tr_content(s, b, n, Seq::empty(), false, Seq::empty()) == Ok::<
            (Seq<char>, Json, usize),
            ErrorV,
        >((n, Json::Str(t), end)));
        assert(spec_content(s, c) == Ok::<usize, ErrorV>(end));
        assert(spec_content(s, b) == Ok::<usize, ErrorV>(end));
    } else {
        assert forall|j: int| 0 <= j < rest.len() implies name_ok(#[trigger] rest[j]) by {
            assert(rest[j] == ns[j + 1]);
        }
        law_deep_nesting_element(s, b, rest, t);
        let m = rest[0];
        assert(name_ok(m));
        assert(inner == wrap(m, nest_doc(rest.drop_first(), t)));
        assert(inner[1] == m[0]);
        assert(s[b] == inner[0] && s[b + 1] == inner[1]);
        let v = nest_value(rest, t);
        let obj = seq![(m, v)];
        assert(obj_insert(Seq::empty(), m, v) =~= obj);
        assert(nest_value(ns, t) == Json::Obj(obj));
        assert(tr_content(s, c, n, obj, true, Seq::empty()) == Ok::<
            (Seq<char>, Json, usize),
            ErrorV,
        >((n, Json::Obj(obj), end)));
        assert(tr_content(s, b, n, Seq::empty(), false, Seq::empty()) == Ok::<
            (Seq<char>, Json, usize),
            ErrorV,
        >((n, Json::Obj(obj), end)));
        assert(spec_content(s, c) == Ok::<usize, ErrorV>(end));
        assert(spec_content(s, b) == Ok::<usize, ErrorV>(end));
    }
}

/// A document of elements nested to any depth `k >= 1`,
/// `<n1><n2>...<nk>t</nk>...</n2></n1>`, converts to
/// `{n1: {n2: ... {nk: t}}}`: no depth limit.
pub proof fn law_deep_nesting(ns: Seq<Seq<char>>, t: Seq<char>)
    requires
        ns.len() > 0,
        forall|j: int| 0 <= j < ns.len() ==> name_ok(#[trigger] ns[j]),
        plain_text(t),
        nest_doc(ns, t).len() <= usize::MAX,
    ensures
        spec_parse(nest_doc(ns, t)) == Ok::<Json, ErrorV>(
            Json::Obj(seq![(ns[0], nest_value(ns, t))]),
        ),
{
    let s = nest_doc(ns, t);
    assert(s.subrange(0, s.len() as int) =~= s);
    law_deep_nesting_element(s, 0, ns, t);
    assert(s == wrap(ns[0], nest_doc(ns.drop_first(), t)));
    assert(s[0] == '<');
    lemma_skip_ws_run(s, 0, 0);
    lemma_skip_ws_run(s, s.len() as int, s.len() as int);
}

/// The whitespace around one attribute: before its name (not empty),
/// before `=`, and after `=`.
pub open spec fn gap_ok(g: (Seq<char>, Seq<char>, Seq<char>)) -> bool {
    g.0.len() > 0 && ws_run(g.0) && ws_run(g.1) && ws_run(g.2)
}

/// One attribute written with the whitespace `g`: `g.0 a g.1 = g.2 "v"`.
pub open spec fn gapped_attr(a: (Seq<char>, Seq<char>), g: (Seq<char>, Seq<char>, Seq<char>)) -> Seq<
    char,
> {
    g.0 + a.0 + g.1 + seq!['='] + g.2 + seq!['"'] + a.1 + seq!['"']
}

/// The attributes `l` written one after another with the whitespace `gs`.
pub open spec fn gapped_attrs(
    l: Seq<(Seq<char>, Seq<char>)>,
    gs: Seq<(Seq<char>, Seq<char>, Seq<char>)>,
) -> Seq<char>
    decreases l.len(),
{
    if l.len() == 0 {
        Seq::empty()
    } else {
        gapped_attr(l[0], gs[0]) + gapped_attrs(l.drop_first(), gs.drop_first())
    }
}

/// One run of whitespace for each attribute.
pub open spec fn gaps_fit(
    l: Seq<(Seq<char>, Seq<char>)>,
    gs: Seq<(Seq<char>, Seq<char>, Seq<char>)>,
) -> bool {
    gs.len() == l.len() && forall|j: int| 0 <= j < gs.len() ==> gap_ok(#[trigger] gs[j])
}

/// The open tag `<n` + attributes `l` with the whitespace `gs` + `w` + `>`.
pub open spec fn open_doc(
    n: Seq<char>,
    l: Seq<(Seq<char>, Seq<char>)>,
    gs: Seq<(Seq<char>, Seq<char>, Seq<char>)>,
    w: Seq<char>,
) -> Seq<char> {
    seq!['<'] + n + gapped_attrs(l, gs) + w + seq!['>']
}

proof fn lemma_gapped_attrs_at(
    s: Seq<char>,
    p: int,
    l: Seq<(Seq<char>, Seq<char>)>,
    gs: Seq<(Seq<char>, Seq<char>, Seq<char>)>,
    k: int,
    acc: Seq<AttrSpan>,
)
    requires
        0 <= p && p + gapped_attrs(l, gs).len() <= k < s.len() <= usize::MAX,
        s.subrange(p, p + gapped_attrs(l, gs).len()) == gapped_attrs(l, gs),
        forall|j: int| p + gapped_attrs(l, gs).len() <= j < k ==> is_space(s[j]),
        s[k] == '>',
        attrs_ok(l),
        gaps_fit(l, gs),
    ensures
        spec_attr_list(s, p, acc) matches Ok((spans, end)) && end == k + 1 && spans.len()
            == acc.len() + l.len() && spans.subrange(0, acc.len() as int) == acc && attr_pairs(
            s,
            spans.subrange(acc.len() as int, spans.len() as int),
        ) == l,
    decreases l.len(),
{
    if l.len() == 0 {
        lemma_skip_ws_run(s, p, k);
        assert(acc.subrange(0, acc.len() as int) =~= acc);
        assert(attr_pairs(s, acc.subrange(acc.len() as int, acc.len() as int)) =~= l);
    } else {
        let a = l[0].0;
        let v = l[0].1;
        let g = gs[0];
        let x = gapped_attr(l[0], g);
        let rest = gapped_attrs(l.drop_first(), gs.drop_first());
        assert(name_ok(a) && value_ok(v) && gap_ok(g));
        assert forall|j: int| 0 <= j < l.drop_first().len() implies name_ok(
            #[trigger] l.drop_first()[j].0,
        ) && value_ok(l.drop_first()[j].1) by {
            assert(l.drop_first()[j] == l[j + 1]);
        }
        assert forall|j: int| 0 <= j < gs.drop_first().len() implies gap_ok(
            #[trigger] gs.drop_first()[j],
        ) by {
            assert(gs.drop_first()[j] == gs[j + 1]);
        }
        lemma_prefix_at(s, p, x, rest);
        let i = p + g.0.len();
        let m = a.len() as int;
        let eq = i + m + g.1.len();
        let q = eq + 1 + g.2.len();
        let ve = q + 1 + v.len();
        let pre1 = g.0 + a;
        let pre2 = pre1 + g.1;
        let pre3 = pre2 + seq!['='];
        let pre4 = pre3 + g.2;
        let pre5 = pre4 + seq!['"'];
        let pre6 = pre5 + v;
        lemma_prefix_at(s, p, pre6, seq!['"']);
        lemma_prefix_at(s, p, pre5, v);
        lemma_prefix_at(s, p, pre4, seq!['"']);
        lemma_prefix_at(s, p, pre3, g.2);
        lemma_prefix_at(s, p, pre2, seq!['=']);
        lemma_prefix_at(s, p, pre1, g.1);
        lemma_prefix_at(s, p, g.0, a);
        assert(s[eq] == s.subrange(eq, eq + 1)[0]);
        assert(s[q] == s.subrange(q, q + 1)[0]);
        assert(s[ve] == s.subrange(ve, ve + 1)[0]);
        lemma_ws_at(s, p, g.0);
        lemma_ws_at(s, i + m, g.1);
        lemma_ws_at(s, eq + 1, g.2);
        if g.1.len() > 0 {
            assert(is_space(s[i + m]));
        }
        lemma_name_from(s, i, a);
        assert forall|j: int| q + 1 <= j < ve implies s[j] != '"' by {
            assert(s[j] == v[j - (q + 1)]);
        }
        lemma_attribute_at(s, i, m, eq, q, ve);
        lemma_name_at(s, i, m);
        let span = AttrSpan {
            name_start: i as usize,
            name_end: (i + m) as usize,
            value_start: (q + 1) as usize,
            value_end: ve as usize,
        };
        lemma_skip_ws_run(s, p, i);
        assert(ve + 1 == p + x.len());
        lemma_gapped_attrs_at(s, ve + 1, l.drop_first(), gs.drop_first(), k, acc.push(span));
        let spans = spec_attr_list(s, ve + 1, acc.push(span))->Ok_0.0;
        assert(spec_attr_list(s, p, acc) == spec_attr_list(s, ve + 1, acc.push(span)));
        let n0 = acc.len() as int;
        assert(spans.subrange(0, n0) =~= spans.subrange(0, n0 + 1).subrange(0, n0));
        assert(acc.push(span).subrange(0, n0) =~= acc);
        assert(spans[n0] == acc.push(span)[n0]);
        let tail = spans.subrange(n0, spans.len() as int);
        assert(tail.drop_first() =~= spans.subrange(n0 + 1, spans.len() as int));
        assert(attr_pairs(s, tail) =~= seq![(a, v)] + attr_pairs(s, tail.drop_first()));
        assert(s.subrange(i, i + m) == a);
        assert(s.subrange(q + 1, ve) == v);
        assert(seq![(a, v)] + l.drop_first() =~= l);
    }
}

/// Whitespace in an open tag does not matter: with any whitespace before
/// each attribute (at least one character), around each `=`, and before
/// `>`, the open tag `<n a1="v1" ... ak="vk">` reads as the name `n` and the
/// attributes `l`, in order, and ends at its `>`.
pub proof fn law_open_tag_whitespace(
    n: Seq<char>,
    l: Seq<(Seq<char>, Seq<char>)>,
    gs: Seq<(Seq<char>, Seq<char>, Seq<char>)>,
    w: Seq<char>,
)
    requires
        name_ok(n),
        attrs_ok(l),
        gaps_fit(l, gs),
        ws_run(w),
        open_doc(n, l, gs, w).len() <= usize::MAX,
    ensures
        spec_open_tag(open_doc(n, l, gs, w), 0) matches Ok(t) && open_doc(n, l, gs, w).subrange(
            1,
            t.0 as int,
        ) == n && attr_pairs(open_doc(n, l, gs, w), t.1) == l && t.2 == open_doc(
            n,
            l,
            gs,
            w,
        ).len(),
{
    let s = open_doc(n, l, gs, w);
    let ga = gapped_attrs(l, gs);
    let ln = n.len() as int;
    let k = 1 + ln + ga.len() + w.len();
    let pre1 = seq!['<'] + n;
    let pre2 = pre1 + ga;
    let pre3 = pre2 + w;
    assert(s.subrange(0, s.len() as int) =~= s);
    lemma_prefix(s, pre3, seq!['>']);
    lemma_prefix(s, pre2, w);
    lemma_prefix(s, pre1, ga);
    lemma_prefix(s, seq!['<'], n);
    assert(s[0] == s.subrange(0, 1)[0]);
    assert(s[k] == s.subrange(k, k + 1)[0]);
    lemma_ws_at(s, 1 + ln + ga.len(), w);
    if l.len() > 0 {
        assert(gap_ok(gs[0]));
        assert(ga[0] == gs[0].0[0]);
        assert(s[1 + ln] == s.subrange(1 + ln, 1 + ln + ga.len())[0]);
    } else if w.len() > 0 {
        assert(s[1 + ln] == s.subrange(1 + ln + ga.len(), k)[0]);
    }
    lemma_name_from(s, 1, n);
    lemma_name_at(s, 1, ln);
    lemma_gapped_attrs_at(s, 1 + ln, l, gs, k, Seq::empty());
    let spans = spec_attr_list(s, 1 + ln, Seq::empty())->Ok_0.0;
    assert(spans.subrange(0, spans.len() as int) =~= spans);
}

/// Two open tags that differ only in whitespace around `=`, between
/// attributes and before `>` read as the same name and the same attributes.
pub proof fn law_open_tags_differing_in_whitespace(
    n: Seq<char>,
    l: Seq<(Seq<char>, Seq<char>)>,
    gs1: Seq<(Seq<char>, Seq<char>, Seq<char>)>,
    w1: Seq<char>,
    gs2: Seq<(Seq<char>, Seq<char>, Seq<char>)>,
    w2: Seq<char>,
)
    requires
        name_ok(n),
        attrs_ok(l),
        gaps_fit(l, gs1),
        gaps_fit(l, gs2),
        ws_run(w1),
        ws_run(w2),
        open_doc(n, l, gs1, w1).len() <= usize::MAX,
        open_doc(n, l, gs2, w2).len() <= usize::MAX,
    ensures
        ({
            let s1 = open_doc(n, l, gs1, w1);
            let s2 = open_doc(n, l, gs2, w2);
            let t1 = spec_open_tag(s1, 0)->Ok_0;
            let t2 = spec_open_tag(s2, 0)->Ok_0;
            &&& spec_open_tag(s1, 0) is Ok && spec_open_tag(s2, 0) is Ok
            &&& s1.subrange(1, t1.0 as int) == s2.subrange(1, t2.0 as int)
            &&& attr_pairs(s1, t1.1) == attr_pairs(s2, t2.1)
        }),
{
    law_open_tag_whitespace(n, l, gs1, w1);
    law_open_tag_whitespace(n, l, gs2, w2);
}

/// The document `<n a1="v1" ... ak="vk">t</n>` with whitespace laid in:
/// `gs` around each attribute, and the runs `w` before the element, before
/// the `>` of the open tag, after `</`, before the `>` of the close tag, and
/// after the element.
#[verifier::opaque]
pub open spec fn spaced_list_doc(
    n: Seq<char>,
    l: Seq<(Seq<char>, Seq<char>)>,
    gs: Seq<(Seq<char>, Seq<char>, Seq<char>)>,
    w: Seq<Seq<char>>,
    t: Seq<char>,
) -> Seq<char> {
    w[0] + seq!['<'] + n + gapped_attrs(l, gs) + w[1] + seq!['>'] + t + seq!['<', '/'] + w[2] + n
        + w[3] + seq!['>'] + w[4]
}

proof fn lemma_spaced_list_layout(
    n: Seq<char>,
    l: Seq<(Seq<char>, Seq<char>)>,
    gs: Seq<(Seq<char>, Seq<char>, Seq<char>)>,
    w: Seq<Seq<char>>,
    t: Seq<char>,
)
    ensures
        ({
            let s = spaced_list_doc(n, l, gs, w, t);
            let ln = n.len() as int;
            let lt = w[0].len() as int;
            let a0 = lt + 1 + ln;
            let a1 = a0 + gapped_attrs(l, gs).len();
            let gt = a1 + w[1].len();
            let c = gt + 1 + t.len();
            let ns = c + 2 + w[2].len();
            let g2 = ns + ln + w[3].len();
            &&& s.len() == g2 + 1 + w[4].len()
            &&& s.subrange(0, lt) == w[0]
            &&& s.subrange(lt, lt + 1) == seq!['<']
            &&& s.subrange(lt + 1, a0) == n
            &&& s.subrange(a0, a1) == gapped_attrs(l, gs)
            &&& s.subrange(a1, gt) == w[1]
            &&& s.subrange(gt, gt + 1) == seq!['>']
            &&& s.subrange(gt + 1, c) == t
            &&& s.subrange(c, c + 2) == seq!['<', '/']
            &&& s.subrange(c + 2, ns) == w[2]
            &&& s.subrange(ns, ns + ln) == n
            &&& s.subrange(ns + ln, g2) == w[3]
            &&& s.subrange(g2, g2 + 1) == seq!['>']
            &&& s.subrange(g2 + 1, s.len() as int) == w[4]
        }),
{
    reveal(spaced_list_doc);
    let s = spaced_list_doc(n, l, gs, w, t);
    let pre1 = w[0] + seq!['<'];
    let pre2 = pre1 + n;
    let pre3 = pre2 + gapped_attrs(l, gs);
    let pre4 = pre3 + w[1];
    let pre5 = pre4 + seq!['>'];
    let pre6 = pre5 + t;
    let pre7 = pre6 + seq!['<', '/'];
    let pre8 = pre7 + w[2];
    let pre9 = pre8 + n;
    let pre10 = pre9 + w[3];
    let pre11 = pre10 + seq!['>'];
    assert(s == pre11 + w[4]);
    assert(s.subrange(0, s.len() as int) =~= s);
    lemma_prefix(s, pre11, w[4]);
    lemma_prefix(s, pre10, seq!['>']);
    lemma_prefix(s, pre9, w[3]);
    lemma_prefix(s, pre8, n);
    lemma_prefix(s, pre7, w[2]);
    lemma_prefix(s, pre6, seq!['<', '/']);
    lemma_prefix(s, pre5, t);
    lemma_prefix(s, pre4, seq!['>']);
    lemma_prefix(s, pre3, w[1]);
    lemma_prefix(s, pre2, gapped_attrs(l, gs));
    lemma_prefix(s, pre1, n);
    lemma_prefix(s, w[0], seq!['<']);
}

proof fn lemma_spaced_list_doc(
    n: Seq<char>,
    l: Seq<(Seq<char>, Seq<char>)>,
    gs: Seq<(Seq<char>, Seq<char>, Seq<char>)>,
    w: Seq<Seq<char>>,
    t: Seq<char>,
)
    requires
        name_ok(n),
        attrs_ok(l),
        gaps_fit(l, gs),
        w.len() == 5,
        forall|j: int| 0 <= j < 5 ==> ws_run(#[trigger] w[j]),
        plain_text(t),
        spaced_list_doc(n, l, gs, w, t).len() <= usize::MAX,
    ensures
        spec_parse(spaced_list_doc(n, l, gs, w, t)) == Ok::<Json, ErrorV>(
            Json::Obj(seq![(n, finish(attrs_object(l), false, t))]),
        ),
{
    let s = spaced_list_doc(n, l, gs, w, t);
    let ln = n.len() as int;
    let lt = w[0].len() as int;
    let a0 = lt + 1 + ln;
    let ga = gapped_attrs(l, gs);
    let a1 = a0 + ga.len();
    let gt = a1 + w[1].len();
    let c = gt + 1 + t.len();
    let ns = c + 2 + w[2].len();
    let g2 = ns + ln + w[3].len();
    let end = (g2 + 1) as usize;
    assert(ws_run(w[0]) && ws_run(w[1]) && ws_run(w[2]) && ws_run(w[3]) && ws_run(w[4]));
    lemma_spaced_list_layout(n, l, gs, w, t);
    assert(s[lt] == s.subrange(lt, lt + 1)[0]);
    assert(s[gt] == s.subrange(gt, gt + 1)[0]);
    assert(s[c] == s.subrange(c, c + 2)[0]);
    assert(s[c + 1] == s.subrange(c, c + 2)[1]);
    assert(s[g2] == s.subrange(g2, g2 + 1)[0]);
    lemma_ws_at(s, 0, w[0]);
    lemma_ws_at(s, a1, w[1]);
    lemma_ws_at(s, c + 2, w[2]);
    lemma_ws_at(s, ns + ln, w[3]);
    lemma_ws_at(s, g2 + 1, w[4]);
    if l.len() > 0 {
        assert(gap_ok(gs[0]));
        assert(ga[0] == gs[0].0[0]);
        assert(s[a0] == s.subrange(a0, a1)[0]);
    } else if w[1].len() > 0 {
        assert(s[a0] == s.subrange(a1, gt)[0]);
    }
    lemma_name_from(s, lt + 1, n);
    lemma_name_from(s, ns, n);
    lemma_name_at(s, lt + 1, ln);
    lemma_gapped_attrs_at(s, a0, l, gs, gt, Seq::empty());
    let spans = spec_attr_list(s, a0, Seq::empty())->Ok_0.0;
    assert(spans.subrange(0, spans.len() as int) =~= spans);
    assert(spec_open_tag(s, lt) == Ok::<(usize, Seq<AttrSpan>, usize), ErrorV>(
        (a0 as usize, spans, (gt + 1) as usize),
    ));
    lemma_text_at(s, gt + 1, c);
    assert(Seq::<char>::empty() + t =~= t);
    lemma_close_at(s, c, ns, ln, g2);
    let obj = attrs_object(l);
    let j = finish(obj, false, t);
    assert(tr_content(s, c, n, obj, false, t) == Ok::<(Seq<char>, Json, usize), ErrorV>(
        (n, j, end),
    ));
    assert(tr_content(s, gt + 1, n, obj, false, Seq::empty()) == Ok::<
        (Seq<char>, Json, usize),
        ErrorV,
    >((n, j, end)));
    assert(tr_element(s, lt) == Ok::<(Seq<char>, Json, usize), ErrorV>((n, j, end)));
    assert(spec_content(s, c) == Ok::<usize, ErrorV>(end));
    assert(spec_content(s, gt + 1) == Ok::<usize, ErrorV>(end));
    assert(spec_element(s, lt) == Ok::<usize, ErrorV>(end));
    lemma_skip_ws_run(s, 0, lt);
    lemma_skip_ws_run(s, g2 + 1, s.len() as int);
    assert(spec_document(s) == Ok::<usize, ErrorV>(s.len() as usize));
}

/// Whitespace laid in before or after the element, before each attribute,
/// around each `=`, before `>`, or around the name of the close tag does not
/// change what `<n a1="v1" ... ak="vk">t</n>` converts to, for any list of
/// attributes.
pub proof fn law_whitespace_insensitive_attributes(
    n: Seq<char>,
    l: Seq<(Seq<char>, Seq<char>)>,
    gs: Seq<(Seq<char>, Seq<char>, Seq<char>)>,
    w: Seq<Seq<char>>,
    t: Seq<char>,
)
    requires
        name_ok(n),
        attrs_ok(l),
        gaps_fit(l, gs),
        w.len() == 5,
        forall|j: int| 0 <= j < 5 ==> ws_run(#[trigger] w[j]),
        plain_text(t),
        spaced_list_doc(n, l, gs, w, t).len() <= usize::MAX,
    ensures
        spec_parse(spaced_list_doc(n, l, gs, w, t)) == spec_parse(list_doc(n, l, t)),
{
    lemma_spaced_list_doc(n, l, gs, w, t);
    lemma_spaced_list_layout(n, l, gs, w, t);
    lemma_list_layout(n, l, t);
    lemma_gapped_len(l, gs);
    lemma_list_doc(n, l, t);
}

proof fn lemma_gapped_len(l: Seq<(Seq<char>, Seq<char>)>, gs: Seq<(Seq<char>, Seq<char>, Seq<char>)>)
    requires
        gaps_fit(l, gs),
    ensures
        attrs_text(l).len() <= gapped_attrs(l, gs).len(),
    decreases l.len(),
{
    if l.len() > 0 {
        assert(gap_ok(gs[0]));
        assert forall|j: int| 0 <= j < gs.drop_first().len() implies gap_ok(
            #[trigger] gs.drop_first()[j],
        ) by {
            assert(gs.drop_first()[j] == gs[j + 1]);
        }
        lemma_gapped_len(l.drop_first(), gs.drop_first());
    }
}

} // verus!
