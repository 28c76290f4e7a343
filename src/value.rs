use vstd::prelude::*;

verus! {

/// The mathematical model of a converted value: a string, or an ordered
/// list of key/value entries.
pub enum Json {
    Str(Seq<char>),
    Obj(Seq<(Seq<char>, Json)>),
}

/// A converted value: a string, or a mapping whose entries keep the order
/// in which their keys were first inserted.
#[derive(Debug, PartialEq)]
pub enum Value {
    Str(String),
    Object(Vec<(String, Value)>),
}

/// The model of a value.
pub open spec fn json_of(v: Value) -> Json
    decreases v,
{
    match v {
        Value::Str(s) => Json::Str(s@),
        Value::Object(m) => Json::Obj(
            Seq::new(
                m.len() as nat,
                |i: int|
                    if 0 <= i < m.len() {
                        (m[i].0@, json_of(m[i].1))
                    } else {
                        (Seq::empty(), Json::Str(Seq::empty()))
                    },
            ),
        ),
    }
}

impl View for Value {
    type V = Json;

    open spec fn view(&self) -> Json {
        json_of(*self)
    }
}

} // verus!

verus! {

/// The model of a list of entries.
pub open spec fn entries_of(m: Seq<(String, Value)>) -> Seq<(Seq<char>, Json)> {
    Seq::new(m.len(), |i: int| (m[i].0@, m[i].1@))
}

/// The model of an object is the model of its entries.
pub proof fn lemma_object_view(m: Vec<(String, Value)>)
    ensures
        Value::Object(m)@ == Json::Obj(entries_of(m@)),
{
    assert(json_of(Value::Object(m)) is Obj);
    let e = json_of(Value::Object(m))->Obj_0;
    assert(e.len() == m@.len());
    assert(forall|i: int| 0 <= i < m.len() ==> e[i] == entries_of(m@)[i]);
    assert(e =~= entries_of(m@));
}

/// The first index at or after `i` whose entry has key `k`, or the length.
pub open spec fn key_pos(m: Seq<(Seq<char>, Json)>, k: Seq<char>, i: int) -> int
    decreases m.len() - i,
{
    if 0 <= i < m.len() {
        if m[i].0 == k {
            i
        } else {
            key_pos(m, k, i + 1)
        }
    } else {
        i
    }
}

/// Inserting into an ordered mapping: an existing key keeps its place and
/// takes the new value; a new key goes at the end.
pub open spec fn obj_insert(m: Seq<(Seq<char>, Json)>, k: Seq<char>, v: Json) -> Seq<
    (Seq<char>, Json),
> {
    let p = key_pos(m, k, 0);
    if p < m.len() {
        m.update(p, (k, v))
    } else {
        m.push((k, v))
    }
}

/// Inserts `(k, v)` into the entries `m` (last write wins, order of first
/// insertion kept).
pub fn insert_entry(m: &mut Vec<(String, Value)>, k: String, v: Value)
    ensures
        entries_of(final(m)@) == obj_insert(entries_of(old(m)@), k@, v@),
{
    let ghost e = entries_of(m@);
    let mut i: usize = 0;
    while i < m.len()
        invariant
            0 <= i <= m.len(),
            m@ == old(m)@,
            e == entries_of(m@),
            key_pos(e, k@, 0) == key_pos(e, k@, i as int),
        decreases m.len() - i,
    {
        if m[i].0 == k {
            m.remove(i);
            m.insert(i, (k, v));
            assert(entries_of(m@) =~= e.update(i as int, (k@, v@)));
            return;
        }
        i += 1;
    }
    m.push((k, v));
    assert(entries_of(m@) =~= e.push((k@, v@)));
}

} // verus!
