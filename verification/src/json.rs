//! The library's own JSON model: plain data standing for the JSON values the
//! codec reads (argument descriptions and schemas), with a mathematical view,
//! a size measure for termination, and field lookup.

use vstd::prelude::*;

verus! {

/// A JSON value as the library models it.
pub enum JsonValue {
    Null,
    Bool(bool),
    /// A number, kept as its source text; the codec never reads one.
    Num(String),
    Str(String),
    Arr(Vec<JsonValue>),
    Obj(Vec<(String, JsonValue)>),
}

/// Mathematical model of a JSON value.
#[verifier::ext_equal]
pub enum JsonSpec {
    Null,
    Bool(bool),
    Num(Seq<char>),
    Str(Seq<char>),
    Arr(Seq<JsonSpec>),
    Obj(Seq<(Seq<char>, JsonSpec)>),
}

pub open spec fn jviews(s: Seq<JsonValue>) -> Seq<JsonSpec>
    decreases s,
{
    if s.len() == 0 {
        Seq::empty()
    } else {
        seq![jview(s[0])] + jviews(s.drop_first())
    }
}

pub open spec fn jviews_fields(s: Seq<(String, JsonValue)>) -> Seq<(Seq<char>, JsonSpec)>
    decreases s,
{
    if s.len() == 0 {
        Seq::empty()
    } else {
        seq![(s[0].0@, jview(s[0].1))] + jviews_fields(s.drop_first())
    }
}

pub open spec fn jview(j: JsonValue) -> JsonSpec
    decreases j,
{
    match j {
        JsonValue::Null => JsonSpec::Null,
        JsonValue::Bool(b) => JsonSpec::Bool(b),
        JsonValue::Num(s) => JsonSpec::Num(s@),
        JsonValue::Str(s) => JsonSpec::Str(s@),
        JsonValue::Arr(items) => JsonSpec::Arr(jviews(items@)),
        JsonValue::Obj(fields) => JsonSpec::Obj(jviews_fields(fields@)),
    }
}

impl View for JsonValue {
    type V = JsonSpec;

    open spec fn view(&self) -> JsonSpec {
        jview(*self)
    }
}

pub broadcast proof fn lemma_jviews_len(s: Seq<JsonValue>)
    ensures
        #[trigger] jviews(s).len() == s.len(),
    decreases s,
{
    if s.len() > 0 {
        lemma_jviews_len(s.drop_first());
    }
}

pub broadcast proof fn lemma_jviews_index(s: Seq<JsonValue>, i: int)
    requires
        0 <= i < s.len(),
    ensures
        #[trigger] jviews(s)[i] == jview(s[i]),
    decreases s,
{
    lemma_jviews_len(s);
    if i > 0 {
        lemma_jviews_index(s.drop_first(), i - 1);
    }
}

pub broadcast proof fn lemma_jviews_fields_len(s: Seq<(String, JsonValue)>)
    ensures
        #[trigger] jviews_fields(s).len() == s.len(),
    decreases s,
{
    if s.len() > 0 {
        lemma_jviews_fields_len(s.drop_first());
    }
}

pub broadcast proof fn lemma_jviews_fields_index(s: Seq<(String, JsonValue)>, i: int)
    requires
        0 <= i < s.len(),
    ensures
        #[trigger] jviews_fields(s)[i] == (s[i].0@, jview(s[i].1)),
    decreases s,
{
    lemma_jviews_fields_len(s);
    if i > 0 {
        lemma_jviews_fields_index(s.drop_first(), i - 1);
    }
}

// ---------------------------------------------------------------------------
// Size: the number of nodes, the termination measure of every walk.
// ---------------------------------------------------------------------------

pub open spec fn jsize(j: JsonSpec) -> nat
    decreases j,
{
    match j {
        JsonSpec::Arr(items) => 1 + jsize_seq(items),
        JsonSpec::Obj(fields) => 1 + jsize_fields(fields),
        _ => 1,
    }
}

pub open spec fn jsize_seq(s: Seq<JsonSpec>) -> nat
    decreases s,
{
    if s.len() == 0 {
        0
    } else {
        jsize(s[0]) + jsize_seq(s.drop_first())
    }
}

pub open spec fn jsize_fields(s: Seq<(Seq<char>, JsonSpec)>) -> nat
    decreases s,
{
    if s.len() == 0 {
        0
    } else {
        jsize(s[0].1) + jsize_fields(s.drop_first())
    }
}

pub proof fn lemma_jsize_pos(j: JsonSpec)
    ensures
        jsize(j) >= 1,
{
}

pub proof fn lemma_jsize_seq_index(s: Seq<JsonSpec>, i: int)
    requires
        0 <= i < s.len(),
    ensures
        jsize(s[i]) <= jsize_seq(s),
    decreases s,
{
    if i > 0 {
        lemma_jsize_seq_index(s.drop_first(), i - 1);
    }
}

pub proof fn lemma_jsize_fields_index(s: Seq<(Seq<char>, JsonSpec)>, i: int)
    requires
        0 <= i < s.len(),
    ensures
        jsize(s[i].1) <= jsize_fields(s),
    decreases s,
{
    if i > 0 {
        lemma_jsize_fields_index(s.drop_first(), i - 1);
    }
}

// ---------------------------------------------------------------------------
// Field lookup: how `node["field"]` behaves on the model.
// ---------------------------------------------------------------------------

/// The value of the first field with the given name, if any.
pub open spec fn lookup(fields: Seq<(Seq<char>, JsonSpec)>, name: Seq<char>) -> Option<JsonSpec>
    decreases fields,
{
    if fields.len() == 0 {
        None
    } else if fields[0].0 == name {
        Some(fields[0].1)
    } else {
        lookup(fields.drop_first(), name)
    }
}

/// Indexing a JSON value by field name: the field's value on an object that
/// has it, and `Null` anywhere else.
pub open spec fn field(j: JsonSpec, name: Seq<char>) -> JsonSpec {
    match j {
        JsonSpec::Obj(fields) => match lookup(fields, name) {
            Some(v) => v,
            None => JsonSpec::Null,
        },
        _ => JsonSpec::Null,
    }
}

pub proof fn lemma_lookup_size(fields: Seq<(Seq<char>, JsonSpec)>, name: Seq<char>)
    requires
        lookup(fields, name) is Some,
    ensures
        jsize(lookup(fields, name)->0) <= jsize_fields(fields),
    decreases fields,
{
    if fields.len() > 0 && fields[0].0 != name {
        lemma_lookup_size(fields.drop_first(), name);
    }
}

/// A field of a value is strictly smaller than the value, except that a
/// missing field counts as one `Null` node.
pub proof fn lemma_field_size(j: JsonSpec, name: Seq<char>)
    ensures
        jsize(field(j, name)) < jsize(j) || jsize(field(j, name)) == 1,
        j is Obj && lookup(j->Obj_0, name) is Some ==> jsize(field(j, name)) <= jsize_fields(
            j->Obj_0,
        ),
{
    match j {
        JsonSpec::Obj(fields) => {
            match lookup(fields, name) {
                Some(_) => {
                    lemma_lookup_size(fields, name);
                }
                None => {}
            }
        }
        _ => {}
    }
}

// ---------------------------------------------------------------------------
// Executable lookup and deep clone.
// ---------------------------------------------------------------------------

/// Looks a field up in a JSON value, as indexing by name does.
pub fn field_of<'a>(j: &'a JsonValue, name: &Vec<char>) -> (r: Option<&'a JsonValue>)
    ensures
        match r {
            Some(c) => field(j@, name@) == c@,
            None => field(j@, name@) == JsonSpec::Null,
        },
{
    match j {
        JsonValue::Obj(fields) => {
            let ghost fv = jviews_fields(fields@);
            let mut i: usize = 0;
            proof {
                lemma_jviews_fields_len(fields@);
                assert(fv.subrange(0, fv.len() as int) =~= fv);
            }
            while i < fields.len()
                invariant
                    i <= fields@.len(),
                    fv == jviews_fields(fields@),
                    fv.len() == fields@.len(),
                    j@ == JsonSpec::Obj(fv),
                    lookup(fv, name@) == lookup(fv.subrange(i as int, fv.len() as int), name@),
                decreases fields@.len() - i,
            {
                proof {
                    lemma_jviews_fields_index(fields@, i as int);
                    let rest = fv.subrange(i as int, fv.len() as int);
                    assert(rest[0] == fv[i as int]);
                    assert(rest.drop_first() =~= fv.subrange(i as int + 1, fv.len() as int));
                }
                let key = crate::text::str_to_chars(fields[i].0.as_str());
                if crate::typedesc::seq_eq(&key, name) {
                    return Some(&fields[i].1);
                }
                i = i + 1;
            }
            proof {
                assert(fv.subrange(fv.len() as int, fv.len() as int).len() == 0);
            }
            None
        }
        _ => None,
    }
}

/// Copies a JSON value; the copy has the same model.
pub fn json_clone(j: &JsonValue) -> (r: JsonValue)
    ensures
        r@ == j@,
    decreases jsize(j@),
{
    match j {
        JsonValue::Null => JsonValue::Null,
        JsonValue::Bool(b) => JsonValue::Bool(*b),
        JsonValue::Num(s) => JsonValue::Num(s.clone()),
        JsonValue::Str(s) => JsonValue::Str(s.clone()),
        JsonValue::Arr(items) => {
            let mut out: Vec<JsonValue> = Vec::new();
            let mut i: usize = 0;
            proof {
                lemma_jviews_len(items@);
                assert(jviews(out@) =~= jviews(items@).subrange(0, 0));
            }
            while i < items.len()
                invariant
                    i <= items@.len(),
                    out@.len() == i,
                    j@ == JsonSpec::Arr(jviews(items@)),
                    jviews(out@) == jviews(items@).subrange(0, i as int),
                    jviews(items@).len() == items@.len(),
                decreases items@.len() - i,
            {
                proof {
                    lemma_jviews_index(items@, i as int);
                    lemma_jsize_seq_index(jviews(items@), i as int);
                    assert(jsize(items@[i as int]@) < jsize(j@));
                }
                let c = json_clone(&items[i]);
                let ghost oldout = out@;
                out.push(c);
                proof {
                    lemma_jviews_snoc(oldout, c);
                    lemma_jviews_index(items@, i as int);
                    assert(jviews(out@) =~= jviews(items@).subrange(0, i as int + 1));
                }
                i = i + 1;
            }
            proof {
                assert(jviews(items@).subrange(0, items@.len() as int) =~= jviews(items@));
            }
            JsonValue::Arr(out)
        }
        JsonValue::Obj(fields) => {
            let mut out: Vec<(String, JsonValue)> = Vec::new();
            let mut i: usize = 0;
            proof {
                lemma_jviews_fields_len(fields@);
                assert(jviews_fields(out@) =~= jviews_fields(fields@).subrange(0, 0));
            }
            while i < fields.len()
                invariant
                    i <= fields@.len(),
                    out@.len() == i,
                    j@ == JsonSpec::Obj(jviews_fields(fields@)),
                    jviews_fields(out@) == jviews_fields(fields@).subrange(0, i as int),
                    jviews_fields(fields@).len() == fields@.len(),
                decreases fields@.len() - i,
            {
                proof {
                    lemma_jviews_fields_index(fields@, i as int);
                    lemma_jsize_fields_index(jviews_fields(fields@), i as int);
                    assert(jsize(fields@[i as int].1@) < jsize(j@));
                }
                let k = fields[i].0.clone();
                let c = json_clone(&fields[i].1);
                let ghost oldout = out@;
                out.push((k, c));
                proof {
                    lemma_jviews_fields_snoc(oldout, (k, c));
                    lemma_jviews_fields_index(fields@, i as int);
                    assert(jviews_fields(out@) =~= jviews_fields(fields@).subrange(
                        0,
                        i as int + 1,
                    ));
                }
                i = i + 1;
            }
            proof {
                assert(jviews_fields(fields@).subrange(0, fields@.len() as int) =~= jviews_fields(
                    fields@,
                ));
            }
            JsonValue::Obj(out)
        }
    }
}

pub proof fn lemma_jviews_snoc(s: Seq<JsonValue>, x: JsonValue)
    ensures
        jviews(s.push(x)) == jviews(s).push(jview(x)),
    decreases s,
{
    if s.len() == 0 {
        reveal_with_fuel(jviews, 3);
        assert(s.push(x).drop_first() =~= Seq::<JsonValue>::empty());
        assert(jviews(s.push(x)) =~= jviews(s).push(jview(x)));
    } else {
        assert(s.push(x).drop_first() =~= s.drop_first().push(x));
        lemma_jviews_snoc(s.drop_first(), x);
        assert(jviews(s.push(x)) =~= jviews(s).push(jview(x)));
    }
}

pub proof fn lemma_jviews_fields_snoc(s: Seq<(String, JsonValue)>, x: (String, JsonValue))
    ensures
        jviews_fields(s.push(x)) == jviews_fields(s).push((x.0@, jview(x.1))),
    decreases s,
{
    if s.len() == 0 {
        reveal_with_fuel(jviews_fields, 3);
        assert(s.push(x).drop_first() =~= Seq::<(String, JsonValue)>::empty());
        assert(jviews_fields(s.push(x)) =~= jviews_fields(s).push((x.0@, jview(x.1))));
    } else {
        assert(s.push(x).drop_first() =~= s.drop_first().push(x));
        lemma_jviews_fields_snoc(s.drop_first(), x);
        assert(jviews_fields(s.push(x)) =~= jviews_fields(s).push((x.0@, jview(x.1))));
    }
}

} // verus!
