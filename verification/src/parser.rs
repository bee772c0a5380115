//! The public face of the codec: serializing call arguments described in
//! JSON into wire bytes, and deserializing returned byte buffers into
//! readable text, against one type name or a nested schema.

use vstd::prelude::*;
use crate::typedesc::{TypeDesc, desc_of_raw, is_flat, strip_spaces, ci_matches, custom_pat,
    vec_custom_pat, normalize};
use crate::textparse::{parse_flat_text, parse_flat_exec, lemma_parse_flat_wf};
use crate::decode::rd_flat;
use crate::render::render_flat;
use crate::encode::{enc_flat, enc_ok, encode_value};
use crate::json::{JsonValue, JsonSpec, jviews, field, jsize, jsize_seq, lemma_jsize_pos,
    lemma_jsize_seq_index, lemma_field_size, lemma_jviews_len, lemma_jviews_index, field_of,
    json_clone};
use crate::wire::le_of;
use crate::text::{str_to_chars, chars_to_string};

verus! {

/// Why a JSON argument description could not be encoded.
#[derive(Debug, Clone, PartialEq, Eq)]
pub enum EncodeError {
    /// The type-name string is not one of the supported shapes.
    TypeNotSupported(String),
    /// The value text does not parse as a value of the declared type.
    MalformedValue(String),
    /// An array value whose declared type is neither `Custom` nor
    /// `Vec<Custom>`.
    ArrayNotCustom,
    /// A value that is neither a string nor an array.
    UnrecognizedValue,
    /// A required field is absent from the JSON.
    MissingField(String),
}

/// Why a byte buffer could not be decoded.
#[derive(Debug, Clone, PartialEq, Eq)]
pub enum DecodeError {
    /// The type-name string has no decoding.
    TypeNotSupported(String),
    /// The bytes do not form a value of the type.
    MalformedBytes(String),
    /// The named schema node's `argument_type` is neither a string nor an
    /// array.
    BadSchemaNode(String),
    /// The named leaf's type has no decoding.
    LeafTypeNotSupported(String),
    /// The bytes do not form a value of the named leaf's type.
    LeafMalformed(String),
}

pub open spec fn argument_type_name() -> Seq<char> {
    seq!['a', 'r', 'g', 'u', 'm', 'e', 'n', 't', '_', 't', 'y', 'p', 'e']
}

pub open spec fn argument_value_name() -> Seq<char> {
    seq!['a', 'r', 'g', 'u', 'm', 'e', 'n', 't', '_', 'v', 'a', 'l', 'u', 'e']
}

pub open spec fn argument_name_name() -> Seq<char> {
    seq!['a', 'r', 'g', 'u', 'm', 'e', 'n', 't', '_', 'n', 'a', 'm', 'e']
}

pub open spec fn arguments_name() -> Seq<char> {
    seq!['a', 'r', 'g', 'u', 'm', 'e', 'n', 't', 's']
}

/// The outcome of encoding one argument value against a type name.
#[verifier::ext_equal]
pub enum SerOut {
    /// The wire bytes.
    Encoded(Seq<u8>),
    /// The type name (carried along) is not supported.
    TypeUnknown(Seq<char>),
    /// The value text (for the carried type name) is malformed.
    ValueBad(Seq<char>),
    /// An array value needs a `Custom` or `Vec<Custom>` type.
    ArrayNeedsCustom,
    /// The value is neither a string nor an array.
    ValueUnknown,
    /// A child of a `Custom` record has no `argument_type` string.
    TypeMissing,
}

/// The outcome of the textual-value path: parse the text against the type,
/// then encode.  An error names the offending type by its canonical form,
/// so the whole outcome is insensitive to whitespace in the type name.
pub open spec fn prim_ser(value: Seq<char>, ty: Seq<char>) -> SerOut {
    match desc_of_raw(ty) {
        None => SerOut::TypeUnknown(normalize(ty)),
        Some(d) => if !is_flat(d) {
            SerOut::TypeUnknown(normalize(ty))
        } else {
            match parse_flat_text(d, value) {
                None => SerOut::ValueBad(normalize(ty)),
                Some(v) => if enc_ok(d, v) {
                    SerOut::Encoded(enc_flat(d, v))
                } else {
                    SerOut::ValueBad(normalize(ty))
                },
            }
        },
    }
}

/// The outcome of encoding one argument: a string value goes through the
/// textual path; an array value must be declared `Custom` (fields are
/// encoded in order and concatenated) or `Vec<Custom>` (a 4-byte element
/// count, then the concatenated records); anything else is refused.
pub open spec fn ser_value(ty: Seq<char>, v: JsonSpec) -> SerOut
    decreases jsize(v), 1int,
{
    match v {
        JsonSpec::Str(text) => prim_ser(text, ty),
        JsonSpec::Arr(items) => {
            let t = strip_spaces(ty);
            if ci_matches(t, custom_pat()) {
                ser_fields(items)
            } else if ci_matches(t, vec_custom_pat()) {
                match ser_fields(items) {
                    SerOut::Encoded(b) => SerOut::Encoded(le_of(items.len(), 4) + b),
                    e => e,
                }
            } else {
                SerOut::ArrayNeedsCustom
            }
        },
        _ => SerOut::ValueUnknown,
    }
}

/// Encodes the fields of a `Custom` record in order, concatenated.
pub open spec fn ser_fields(items: Seq<JsonSpec>) -> SerOut
    decreases jsize_seq(items), 0int,
    via ser_fields_dec
{
    if items.len() == 0 {
        SerOut::Encoded(Seq::empty())
    } else {
        match field(items[0], argument_type_name()) {
            JsonSpec::Str(t) => match ser_value(t, field(items[0], argument_value_name())) {
                SerOut::Encoded(b) => match ser_fields(items.drop_first()) {
                    SerOut::Encoded(rest) => SerOut::Encoded(b + rest),
                    e => e,
                },
                e => e,
            },
            _ => SerOut::TypeMissing,
        }
    }
}

#[via_fn]
proof fn ser_fields_dec(items: Seq<JsonSpec>) {
    if items.len() > 0 {
        lemma_jsize_seq_index(items, 0);
        lemma_jsize_pos(items[0]);
        lemma_field_size(items[0], argument_type_name());
        lemma_field_size(items[0], argument_value_name());
        match field(items[0], argument_type_name()) {
            JsonSpec::Str(t) => {
                // items[0] must be an object with that field
                match items[0] {
                    JsonSpec::Obj(fields) => {
                        crate::json::lemma_lookup_size(fields, argument_type_name());
                        lemma_jsize_pos(field(items[0], argument_type_name()));
                        assert(jsize(items[0]) >= 2);
                        assert(jsize(field(items[0], argument_value_name())) < jsize_seq(items));
                    }
                    _ => {}
                }
            }
            _ => {}
        }
        lemma_drop_first_size(items);
    }
}


proof fn lemma_drop_first_size(items: Seq<JsonSpec>)
    requires
        items.len() > 0,
    ensures
        jsize_seq(items.drop_first()) < jsize_seq(items),
        jsize_seq(items) >= items.len(),
    decreases items,
{
    lemma_jsize_pos(items[0]);
    if items.len() > 1 {
        lemma_drop_first_size(items.drop_first());
    }
}

// ---------------------------------------------------------------------------
// Executable encoding.
// ---------------------------------------------------------------------------

fn argument_type_vec() -> (r: Vec<char>)
    ensures
        r@ == argument_type_name(),
{
    let v = vec!['a', 'r', 'g', 'u', 'm', 'e', 'n', 't', '_', 't', 'y', 'p', 'e'];
    proof {
        assert(v@ =~= argument_type_name());
    }
    v
}

fn argument_value_vec() -> (r: Vec<char>)
    ensures
        r@ == argument_value_name(),
{
    let v = vec!['a', 'r', 'g', 'u', 'm', 'e', 'n', 't', '_', 'v', 'a', 'l', 'u', 'e'];
    proof {
        assert(v@ =~= argument_value_name());
    }
    v
}

fn arguments_vec() -> (r: Vec<char>)
    ensures
        r@ == arguments_name(),
{
    let v = vec!['a', 'r', 'g', 'u', 'm', 'e', 'n', 't', 's'];
    proof {
        assert(v@ =~= arguments_name());
    }
    v
}

/// How an encoding outcome shows up in a `Result`.
pub open spec fn ser_out_matches(o: SerOut, r: Result<Vec<u8>, EncodeError>) -> bool {
    match o {
        SerOut::Encoded(b) => r is Ok && r->Ok_0@ == b,
        SerOut::TypeUnknown(t) => (r matches Err(EncodeError::TypeNotSupported(s)) && s@ == t),
        SerOut::ValueBad(t) => (r matches Err(EncodeError::MalformedValue(s)) && s@ == t),
        SerOut::ArrayNeedsCustom => (r matches Err(EncodeError::ArrayNotCustom)),
        SerOut::ValueUnknown => (r matches Err(EncodeError::UnrecognizedValue)),
        SerOut::TypeMissing => (r matches Err(EncodeError::MissingField(s)) && s@
            == argument_type_name()),
    }
}

/// The textual path: parse the value text against the type, then encode.
/// `Ok(None)` is the unsupported-type outcome.
fn prim_ser_exec(value: &Vec<char>, ty: &Vec<char>) -> (r: Result<Option<Vec<u8>>, EncodeError>)
    ensures
        match prim_ser(value@, ty@) {
            SerOut::Encoded(b) => r is Ok && r->Ok_0 is Some && (r->Ok_0->0)@ == b,
            SerOut::TypeUnknown(_) => r is Ok && r->Ok_0 is None,
            SerOut::ValueBad(t) => (r matches Err(EncodeError::MalformedValue(s)) && s@ == t),
            _ => false,
        },
{
    let n = crate::typedesc::normalize_chars(ty);
    match crate::typedesc::parse_type_chars(&n) {
        None => Ok(None),
        Some(d) => {
            if matches!(d, TypeDesc::Custom) || matches!(d, TypeDesc::VecCustom) {
                return Ok(None);
            }
            match parse_flat_exec(d, value) {
                None => Err(EncodeError::MalformedValue(chars_to_string(&n))),
                Some(v) => {
                    proof {
                        lemma_parse_flat_wf(d, value@);
                    }
                    match encode_value(d, &v) {
                        Some(bytes) => Ok(Some(bytes)),
                        None => Err(EncodeError::MalformedValue(chars_to_string(&n))),
                    }
                }
            }
        }
    }
}

/// Encodes one argument value against its declared type.
#[verifier::rlimit(100)]
fn ser_value_exec(ty: &Vec<char>, value: &JsonValue) -> (r: Result<Vec<u8>, EncodeError>)
    ensures
        ser_out_matches(ser_value(ty@, value@), r),
    decreases jsize(value@), 1int,
{
    match value {
        JsonValue::Str(text) => {
            let tc = str_to_chars(text.as_str());
            match prim_ser_exec(&tc, ty) {
                Ok(Some(bytes)) => Ok(bytes),
                Ok(None) => {
                    let n = crate::typedesc::normalize_chars(ty);
                    Err(EncodeError::TypeNotSupported(chars_to_string(&n)))
                }
                Err(e) => Err(e),
            }
        }
        JsonValue::Arr(items) => {
            let t = crate::typedesc::strip_spaces_exec(ty);
            let custom: Vec<char> = vec!['c', 'u', 's', 't', 'o', 'm'];
            let veccustom: Vec<char> = vec!['v', 'e', 'c', '<', 'c', 'u', 's', 't', 'o', 'm', '>'];
            proof {
                assert(custom@ =~= custom_pat());
                assert(veccustom@ =~= vec_custom_pat());
                assert(value@ == JsonSpec::Arr(jviews(items@)));
            }
            if crate::typedesc::ci_eq(&t, &custom) {
                match ser_fields_exec(items) {
                    Ok(b) => Ok(b),
                    Err(e) => Err(e),
                }
            } else if crate::typedesc::ci_eq(&t, &veccustom) {
                match ser_fields_exec(items) {
                    Ok(b) => {
                        let mut out: Vec<u8> = Vec::new();
                        crate::wire::write_le(&mut out, items.len() as u128, 4);
                        let ghost items_v = jviews(items@);
                        proof {
                            lemma_jviews_len(items@);
                            crate::wire::lemma_le_of_len(items@.len() as nat, 4);
                        }
                        let mut b2 = b;
                        out.append(&mut b2);
                        proof {
                            assert(out@ =~= le_of(items_v.len(), 4) + (ser_fields(
                                items_v,
                            )->Encoded_0));
                        }
                        Ok(out)
                    }
                    Err(e) => Err(e),
                }
            } else {
                Err(EncodeError::ArrayNotCustom)
            }
        }
        _ => Err(EncodeError::UnrecognizedValue),
    }
}

/// Encodes the fields of a `Custom` record in declaration order.
#[verifier::rlimit(100)]
fn ser_fields_exec(items: &Vec<JsonValue>) -> (r: Result<Vec<u8>, EncodeError>)
    ensures
        ser_out_matches(ser_fields(jviews(items@)), r),
    decreases jsize_seq(jviews(items@)), 0int,
{
    let ghost whole = jviews(items@);
    proof {
        lemma_jviews_len(items@);
    }
    let mut out: Vec<u8> = Vec::new();
    let mut i: usize = 0;
    proof {
        assert(whole.subrange(0, whole.len() as int) =~= whole);
    }
    while i < items.len()
        invariant
            i <= items@.len(),
            whole == jviews(items@),
            whole.len() == items@.len(),
            ({
                let suffix = whole.subrange(i as int, whole.len() as int);
                ser_fields(whole) == (match ser_fields(suffix) {
                    SerOut::Encoded(rest) => SerOut::Encoded(out@ + rest),
                    e => e,
                })
            }),
        decreases items@.len() - i,
    {
        let ghost suffix = whole.subrange(i as int, whole.len() as int);
        proof {
            lemma_jviews_index(items@, i as int);
            assert(suffix[0] == whole[i as int]);
            assert(suffix.drop_first() =~= whole.subrange(i as int + 1, whole.len() as int));
            lemma_drop_first_size(suffix);
        }
        let tyname = argument_type_vec();
        let valname = argument_value_vec();
        let child_ty_opt = field_of(&items[i], &tyname);
        match child_ty_opt {
            Some(ctj) => {
                match ctj {
                    JsonValue::Str(t) => {
                        let tc = str_to_chars(t.as_str());
                        let nullv = JsonValue::Null;
                        let child_val_opt = field_of(&items[i], &valname);
                        let child_val: &JsonValue = match child_val_opt {
                            Some(cv) => cv,
                            None => &nullv,
                        };
                        proof {
                            assert(child_val@ == field(whole[i as int], argument_value_name()));
                            lemma_jsize_seq_index(whole, i as int);
                            lemma_jsize_pos(whole[i as int]);
                            lemma_field_size(whole[i as int], argument_value_name());
                            match whole[i as int] {
                                JsonSpec::Obj(fields) => {
                                    crate::json::lemma_lookup_size(fields, argument_type_name());
                                    lemma_jsize_pos(field(whole[i as int], argument_type_name()));
                                }
                                _ => {}
                            }
                            assert(jsize(child_val@) < jsize_seq(whole));
                            assert(jsize_seq(suffix) <= jsize_seq(whole)) by {
                                lemma_suffix_size(whole, i as int);
                            }
                            assert(jsize(child_val@) < jsize_seq(jviews(items@)));
                        }
                        match ser_value_exec(&tc, child_val) {
                            Ok(b) => {
                                let ghost oldout = out@;
                                let ghost bv = b@;
                                let mut b2 = b;
                                out.append(&mut b2);
                                i = i + 1;
                                proof {
                                    assert(whole.subrange(i as int, whole.len() as int)
                                        =~= suffix.drop_first());
                                    match ser_fields(suffix.drop_first()) {
                                        SerOut::Encoded(rest) => {
                                            assert(oldout + (bv + rest) =~= (oldout + bv) + rest);
                                        }
                                        _ => {}
                                    }
                                }
                            }
                            Err(e) => {
                                return Err(e);
                            }
                        }
                    }
                    _ => {
                        return Err(EncodeError::MissingField(chars_to_string(&tyname)));
                    }
                }
            }
            None => {
                return Err(EncodeError::MissingField(chars_to_string(&tyname)));
            }
        }
    }
    proof {
        let ghost emptysuf = whole.subrange(whole.len() as int, whole.len() as int);
        assert(emptysuf.len() == 0);
        assert(out@ + Seq::<u8>::empty() =~= out@);
    }
    Ok(out)
}

proof fn lemma_suffix_size(s: Seq<JsonSpec>, i: int)
    requires
        0 <= i <= s.len(),
    ensures
        jsize_seq(s.subrange(i, s.len() as int)) <= jsize_seq(s),
    decreases i,
{
    if i == 0 {
        assert(s.subrange(0, s.len() as int) =~= s);
    } else {
        assert(s.subrange(i, s.len() as int) =~= s.drop_first().subrange(
            i - 1,
            s.drop_first().len() as int,
        ));
        lemma_suffix_size(s.drop_first(), i - 1);
        lemma_jsize_pos(s[0]);
    }
}

/// Serializes one textual argument value to wire bytes: `Ok(None)` when the
/// type name is not a supported flat shape, the malformed-value error when
/// the text does not parse as a value of it, and the bytes otherwise.
pub fn serialize_primitive_argument_value(value: &str, data_type: &str) -> (r: Result<
    Option<Vec<u8>>,
    EncodeError,
>)
    ensures
        match prim_ser(value@, data_type@) {
            SerOut::Encoded(b) => r is Ok && r->Ok_0 is Some && (r->Ok_0->0)@ == b,
            SerOut::TypeUnknown(_) => r is Ok && r->Ok_0 is None,
            SerOut::ValueBad(t) => (r matches Err(EncodeError::MalformedValue(s)) && s@ == t),
            _ => false,
        },
{
    let vc = str_to_chars(value);
    let tc = str_to_chars(data_type);
    prim_ser_exec(&vc, &tc)
}

/// Serializes one argument (textual or `Custom` aggregate) to wire bytes.
pub fn serialize_argument_value(data_type: &str, value: &JsonValue) -> (r: Result<
    Vec<u8>,
    EncodeError,
>)
    ensures
        ser_out_matches(ser_value(data_type@, value@), r),
{
    let tc = str_to_chars(data_type);
    ser_value_exec(&tc, value)
}

// ---------------------------------------------------------------------------
// Argument lists.
// ---------------------------------------------------------------------------

/// The outcome of one `{argument_type, argument_value}` pair.
pub open spec fn arg_outcome(v: JsonSpec) -> SerOut {
    match field(v, argument_type_name()) {
        JsonSpec::Str(t) => ser_value(t, field(v, argument_value_name())),
        _ => SerOut::TypeMissing,
    }
}

/// The outcome of an argument list: every pair encoded in order, or the
/// first failure.
pub open spec fn args_list(items: Seq<JsonSpec>) -> Result<Seq<Seq<u8>>, SerOut>
    decreases items.len(),
{
    if items.len() == 0 {
        Ok(Seq::empty())
    } else {
        match arg_outcome(items[0]) {
            SerOut::Encoded(b) => match args_list(items.drop_first()) {
                Ok(rest) => Ok(seq![b] + rest),
                Err(e) => Err(e),
            },
            e => Err(e),
        }
    }
}

pub open spec fn args_matches(o: Result<Seq<Seq<u8>>, SerOut>, r: Result<
    Vec<Vec<u8>>,
    EncodeError,
>) -> bool {
    match o {
        Ok(bs) => r is Ok && r->Ok_0.deep_view() == bs,
        Err(e) => match r {
            Ok(_) => false,
            Err(re) => ser_out_matches(e, Err(re)),
        },
    }
}

fn arg_exec(v: &JsonValue) -> (r: Result<Vec<u8>, EncodeError>)
    ensures
        ser_out_matches(arg_outcome(v@), r),
{
    let tyname = argument_type_vec();
    let valname = argument_value_vec();
    match field_of(v, &tyname) {
        Some(ctj) => match ctj {
            JsonValue::Str(t) => {
                let tc = str_to_chars(t.as_str());
                let nullv = JsonValue::Null;
                let child_val: &JsonValue = match field_of(v, &valname) {
                    Some(cv) => cv,
                    None => &nullv,
                };
                ser_value_exec(&tc, child_val)
            }
            _ => Err(EncodeError::MissingField(chars_to_string(&tyname))),
        },
        None => Err(EncodeError::MissingField(chars_to_string(&tyname))),
    }
}

/// Serializes a JSON array of `{argument_type, argument_value}` pairs, in
/// order; the first failing pair decides the error.
pub fn call_arguments_from_json_array(json_array: &Vec<JsonValue>) -> (r: Result<
    Vec<Vec<u8>>,
    EncodeError,
>)
    ensures
        args_matches(args_list(jviews(json_array@)), r),
{
    let ghost whole = jviews(json_array@);
    proof {
        lemma_jviews_len(json_array@);
        assert(whole.subrange(0, whole.len() as int) =~= whole);
    }
    let mut out: Vec<Vec<u8>> = Vec::new();
    let mut i: usize = 0;
    proof {
        assert(out.deep_view() =~~= Seq::<Seq<u8>>::empty());
    }
    while i < json_array.len()
        invariant
            i <= json_array@.len(),
            whole == jviews(json_array@),
            whole.len() == json_array@.len(),
            out@.len() == i,
            ({
                let suffix = whole.subrange(i as int, whole.len() as int);
                args_list(whole) == (match args_list(suffix) {
                    Ok(rest) => Ok(out.deep_view() + rest),
                    Err(e) => Err::<Seq<Seq<u8>>, SerOut>(e),
                })
            }),
        decreases json_array@.len() - i,
    {
        let ghost suffix = whole.subrange(i as int, whole.len() as int);
        proof {
            lemma_jviews_index(json_array@, i as int);
            assert(suffix[0] == whole[i as int]);
            assert(suffix.drop_first() =~= whole.subrange(i as int + 1, whole.len() as int));
        }
        match arg_exec(&json_array[i]) {
            Ok(b) => {
                let ghost oldd = out.deep_view();
                let ghost bv = b@;
                out.push(b);
                proof {
                    assert(out.deep_view() =~~= oldd.push(bv));
                    match args_list(suffix.drop_first()) {
                        Ok(rest) => {
                            assert(oldd + (seq![bv] + rest) =~= oldd.push(bv) + rest);
                        }
                        Err(_) => {}
                    }
                }
                i = i + 1;
            }
            Err(e) => {
                return Err(e);
            }
        }
    }
    proof {
        assert(whole.subrange(whole.len() as int, whole.len() as int).len() == 0);
        assert(out.deep_view() + Seq::<Seq<u8>>::empty() =~~= out.deep_view());
    }
    Ok(out)
}

/// Extracts the `arguments` array of a call description.
pub fn parse_json_arguments(json_val: &JsonValue) -> (r: Result<Vec<JsonValue>, EncodeError>)
    ensures
        match field(json_val@, arguments_name()) {
            JsonSpec::Arr(items) => r is Ok && jviews(r->Ok_0@) == items,
            _ => (r matches Err(EncodeError::MissingField(s)) && s@ == arguments_name()),
        },
{
    let argsname = arguments_vec();
    match field_of(json_val, &argsname) {
        Some(aj) => match aj {
            JsonValue::Arr(items) => {
                let mut out: Vec<JsonValue> = Vec::new();
                let mut i: usize = 0;
                proof {
                    lemma_jviews_len(items@);
                    assert(jviews(out@) =~= jviews(items@).subrange(0, 0));
                }
                while i < items.len()
                    invariant
                        i <= items@.len(),
                        out@.len() == i,
                        jviews(out@) == jviews(items@).subrange(0, i as int),
                        jviews(items@).len() == items@.len(),
                    decreases items@.len() - i,
                {
                    let c = json_clone(&items[i]);
                    let ghost oldout = out@;
                    out.push(c);
                    proof {
                        crate::json::lemma_jviews_snoc(oldout, c);
                        lemma_jviews_index(items@, i as int);
                        assert(jviews(out@) =~= jviews(items@).subrange(0, i as int + 1));
                    }
                    i = i + 1;
                }
                proof {
                    assert(jviews(items@).subrange(0, items@.len() as int) =~= jviews(items@));
                }
                Ok(out)
            }
            _ => Err(EncodeError::MissingField(chars_to_string(&argsname))),
        },
        None => Err(EncodeError::MissingField(chars_to_string(&argsname))),
    }
}

/// Serializes a whole `{"arguments": [...]}` call description.
pub fn call_arguments_from_json_value(json_val: &JsonValue) -> (r: Result<
    Vec<Vec<u8>>,
    EncodeError,
>)
    ensures
        match field(json_val@, arguments_name()) {
            JsonSpec::Arr(items) => args_matches(args_list(items), r),
            _ => (r matches Err(EncodeError::MissingField(s)) && s@ == arguments_name()),
        },
{
    match parse_json_arguments(json_val) {
        Ok(items) => call_arguments_from_json_array(&items),
        Err(e) => Err(e),
    }
}

// ---------------------------------------------------------------------------
// Decoding against one type name.
// ---------------------------------------------------------------------------

/// The outcome of decoding a buffer against one type name.
pub enum DecOut {
    /// The rendered text and the number of bytes consumed.
    Rendered(Seq<char>, int),
    /// The type name has no decoding.
    NoDecoder(Seq<char>),
    /// The bytes do not form a value of the type.
    BytesBad(Seq<char>),
}

/// An error names the offending type by its canonical form, so the outcome
/// is insensitive to whitespace in the type name.
pub open spec fn dec_outcome(bs: Seq<u8>, ty: Seq<char>) -> DecOut {
    match desc_of_raw(ty) {
        None => DecOut::NoDecoder(normalize(ty)),
        Some(d) => if !is_flat(d) {
            DecOut::NoDecoder(normalize(ty))
        } else {
            match rd_flat(d, bs, 0) {
                None => DecOut::BytesBad(normalize(ty)),
                Some(ve) => DecOut::Rendered(render_flat(ve.0), ve.1),
            }
        },
    }
}

/// Decodes a buffer against a single type name and renders the value;
/// an unmatched type name is the distinct no-decoding outcome.
pub fn parse_call_result_from_data_type(vec: &Vec<u8>, data_type: String) -> (r: Result<
    String,
    DecodeError,
>)
    ensures
        match dec_outcome(vec@, data_type@) {
            DecOut::Rendered(txt, _) => r is Ok && r->Ok_0@ == txt,
            DecOut::NoDecoder(t) => (r matches Err(DecodeError::TypeNotSupported(s)) && s@ == t),
            DecOut::BytesBad(t) => (r matches Err(DecodeError::MalformedBytes(s)) && s@ == t),
        },
{
    let tc = str_to_chars(data_type.as_str());
    let n = crate::typedesc::normalize_chars(&tc);
    match crate::typedesc::parse_type_chars(&n) {
        None => Err(DecodeError::TypeNotSupported(chars_to_string(&n))),
        Some(d) => {
            if matches!(d, TypeDesc::Custom) || matches!(d, TypeDesc::VecCustom) {
                return Err(DecodeError::TypeNotSupported(chars_to_string(&n)));
            }
            match crate::decode::decode_value(d, vec, 0) {
                None => Err(DecodeError::MalformedBytes(chars_to_string(&n))),
                Some((v, _consumed)) => {
                    let txt = crate::render::render_value(&v);
                    Ok(chars_to_string(&txt))
                }
            }
        }
    }
}

// ---------------------------------------------------------------------------
// Schema flattening and structured decoding.
// ---------------------------------------------------------------------------

/// Why a schema decode failed.
pub enum SchemaErr {
    /// The named node's `argument_type` is neither a string nor an array.
    NodeBad(Seq<char>),
    /// The named leaf's type has no decoding.
    LeafNoDecoder(Seq<char>),
    /// The bytes do not form a value of the named leaf's type.
    LeafBad(Seq<char>),
}

/// The qualified name of a node: `[idx]` at an unnamed root position,
/// the bare name at a named root position, `parent[idx]` for an unnamed
/// child, and `parent.name` for a named one.
pub open spec fn qual_name(nm: Seq<char>, idx: int, an: Seq<char>) -> Seq<char> {
    if nm.len() == 0 && an.len() == 0 {
        seq!['['] + crate::text::dec_digits(idx as nat) + seq![']']
    } else if nm.len() == 0 {
        an
    } else if an.len() == 0 {
        nm + seq!['['] + crate::text::dec_digits(idx as nat) + seq![']']
    } else {
        nm + seq!['.'] + an
    }
}

pub open spec fn node_label(e: (Seq<char>, int, JsonSpec)) -> Seq<char> {
    let an = match field(e.2, argument_name_name()) {
        JsonSpec::Str(s) => s,
        _ => Seq::empty(),
    };
    qual_name(e.0, e.1, an)
}

/// The queue entries for the children of a group node.
pub open spec fn child_entries(vname: Seq<char>, children: Seq<JsonSpec>) -> Seq<
    (Seq<char>, int, JsonSpec),
> {
    Seq::new(children.len(), |j: int| (vname, j, children[j]))
}

pub open spec fn qsize(q: Seq<(Seq<char>, int, JsonSpec)>) -> nat
    decreases q,
{
    if q.len() == 0 {
        0
    } else {
        jsize(q[0].2) + qsize(q.drop_first())
    }
}

proof fn lemma_qsize_concat(a: Seq<(Seq<char>, int, JsonSpec)>, b: Seq<(Seq<char>, int, JsonSpec)>)
    ensures
        qsize(a + b) == qsize(a) + qsize(b),
    decreases a,
{
    if a.len() == 0 {
        assert(a + b =~= b);
    } else {
        assert((a + b).drop_first() =~= a.drop_first() + b);
        lemma_qsize_concat(a.drop_first(), b);
    }
}

proof fn lemma_qsize_nodes(q: Seq<(Seq<char>, int, JsonSpec)>, ch: Seq<JsonSpec>)
    requires
        q.len() == ch.len(),
        forall|i: int| 0 <= i < q.len() ==> (#[trigger] q[i]).2 == ch[i],
    ensures
        qsize(q) == jsize_seq(ch),
    decreases q,
{
    if q.len() > 0 {
        assert(ch.drop_first().len() == q.drop_first().len());
        lemma_qsize_nodes(q.drop_first(), ch.drop_first());
    }
}

/// Breadth-first flattening of a schema queue into the ordered list of
/// `(qualified name, leaf type)` pairs, which is exactly the byte order of
/// the buffer; a node whose `argument_type` is neither string nor array
/// fails with that node's name.
pub open spec fn flat_leaves(q: Seq<(Seq<char>, int, JsonSpec)>) -> Result<
    Seq<(Seq<char>, Seq<char>)>,
    Seq<char>,
>
    decreases qsize(q),
    via flat_leaves_dec
{
    if q.len() == 0 {
        Ok(Seq::empty())
    } else {
        let vname = node_label(q[0]);
        match field(q[0].2, argument_type_name()) {
            JsonSpec::Str(t) => match flat_leaves(q.drop_first()) {
                Ok(rest) => Ok(seq![(vname, t)] + rest),
                Err(e) => Err(e),
            },
            JsonSpec::Arr(children) => flat_leaves(q.drop_first() + child_entries(vname, children)),
            _ => Err(vname),
        }
    }
}

#[via_fn]
proof fn flat_leaves_dec(q: Seq<(Seq<char>, int, JsonSpec)>) {
    if q.len() > 0 {
        lemma_jsize_pos(q[0].2);
        let vname = node_label(q[0]);
        match field(q[0].2, argument_type_name()) {
            JsonSpec::Arr(children) => {
                lemma_field_size(q[0].2, argument_type_name());
                let ce = child_entries(vname, children);
                lemma_qsize_concat(q.drop_first(), ce);
                lemma_qsize_nodes(ce, children);
                assert(jsize(field(q[0].2, argument_type_name())) == 1 + jsize_seq(children));
            }
            _ => {}
        }
    }
}

/// The root queue of a schema: an array becomes one entry per element, and
/// anything else a single entry.
pub open spec fn root_queue(schema: JsonSpec) -> Seq<(Seq<char>, int, JsonSpec)> {
    match schema {
        JsonSpec::Arr(items) => child_entries(Seq::empty(), items),
        _ => seq![(Seq::<char>::empty(), 0int, schema)],
    }
}

/// Decodes each leaf in order, pairing its qualified name with the rendered
/// value; the first failing leaf decides the error, with no partial result.
pub open spec fn walk_leaves(leaves: Seq<(Seq<char>, Seq<char>)>, bs: Seq<u8>, i: int) -> Result<
    Seq<(Seq<char>, Seq<char>)>,
    SchemaErr,
>
    decreases leaves.len(),
{
    if leaves.len() == 0 {
        Ok(Seq::empty())
    } else {
        let nm = leaves[0].0;
        let ty = leaves[0].1;
        match desc_of_raw(ty) {
            None => Err(SchemaErr::LeafNoDecoder(nm)),
            Some(d) => if !is_flat(d) {
                Err(SchemaErr::LeafNoDecoder(nm))
            } else {
                match rd_flat(d, bs, i) {
                    None => Err(SchemaErr::LeafBad(nm)),
                    Some(ve) => match walk_leaves(leaves.drop_first(), bs, ve.1) {
                        Ok(rest) => Ok(seq![(nm, render_flat(ve.0))] + rest),
                        Err(e) => Err(e),
                    },
                }
            },
        }
    }
}

/// The whole structured decode: flatten, then walk.
pub open spec fn schema_outcome(bs: Seq<u8>, schema: JsonSpec) -> Result<
    Seq<(Seq<char>, Seq<char>)>,
    SchemaErr,
> {
    match flat_leaves(root_queue(schema)) {
        Err(n) => Err(SchemaErr::NodeBad(n)),
        Ok(leaves) => walk_leaves(leaves, bs, 0),
    }
}

/// The models of a list of `(name, text)` pairs.
pub open spec fn pair_views(s: Seq<(Vec<char>, Vec<char>)>) -> Seq<(Seq<char>, Seq<char>)> {
    Seq::new(s.len(), |i: int| (s[i].0@, s[i].1@))
}

pub open spec fn string_pair_views(s: Seq<(String, String)>) -> Seq<(Seq<char>, Seq<char>)> {
    Seq::new(s.len(), |i: int| (s[i].0@, s[i].1@))
}

/// The models of the executable queue entries.
pub open spec fn qview(s: Seq<(Vec<char>, usize, JsonValue)>) -> Seq<(Seq<char>, int, JsonSpec)> {
    Seq::new(s.len(), |i: int| (s[i].0@, s[i].1 as int, s[i].2@))
}

// ---------------------------------------------------------------------------
// Executable schema decoding.
// ---------------------------------------------------------------------------

fn argument_name_vec() -> (r: Vec<char>)
    ensures
        r@ == argument_name_name(),
{
    let v = vec!['a', 'r', 'g', 'u', 'm', 'e', 'n', 't', '_', 'n', 'a', 'm', 'e'];
    proof {
        assert(v@ =~= argument_name_name());
    }
    v
}

fn qual_name_exec(nm: &Vec<char>, idx: usize, an: &Vec<char>) -> (r: Vec<char>)
    ensures
        r@ == qual_name(nm@, idx as int, an@),
{
    if nm.len() == 0 && an.len() == 0 {
        let mut r: Vec<char> = Vec::new();
        r.push('[');
        crate::text::push_dec_u128(&mut r, idx as u128);
        r.push(']');
        proof {
            assert(r@ =~= qual_name(nm@, idx as int, an@));
        }
        r
    } else if nm.len() == 0 {
        crate::typedesc::subvec(an, 0, an.len())
    } else if an.len() == 0 {
        let mut r = crate::typedesc::subvec(nm, 0, nm.len());
        r.push('[');
        crate::text::push_dec_u128(&mut r, idx as u128);
        r.push(']');
        proof {
            assert(r@ =~= qual_name(nm@, idx as int, an@));
        }
        r
    } else {
        let mut r = crate::typedesc::subvec(nm, 0, nm.len());
        r.push('.');
        let mut a2 = crate::typedesc::subvec(an, 0, an.len());
        r.append(&mut a2);
        proof {
            assert(r@ =~= qual_name(nm@, idx as int, an@));
        }
        r
    }
}

/// Flattens a schema breadth-first into its ordered leaf list.
#[verifier::rlimit(100)]
fn flatten_schema(schema: &JsonValue) -> (r: Result<Vec<(Vec<char>, Vec<char>)>, DecodeError>)
    ensures
        match flat_leaves(root_queue(schema@)) {
            Ok(leaves) => r is Ok && pair_views(r->Ok_0@) == leaves,
            Err(n) => (r matches Err(DecodeError::BadSchemaNode(s)) && s@ == n),
        },
{
    let mut queue: Vec<(Vec<char>, usize, JsonValue)> = Vec::new();
    match schema {
        JsonValue::Arr(items) => {
            let mut j: usize = 0;
            proof {
                lemma_jviews_len(items@);
            }
            while j < items.len()
                invariant
                    j <= items@.len(),
                    queue@.len() == j,
                    jviews(items@).len() == items@.len(),
                    schema@ == JsonSpec::Arr(jviews(items@)),
                    qview(queue@) =~= child_entries(Seq::<char>::empty(), jviews(items@)).subrange(
                        0,
                        j as int,
                    ),
                decreases items@.len() - j,
            {
                let empty_name: Vec<char> = Vec::new();
                let c = json_clone(&items[j]);
                queue.push((empty_name, j, c));
                proof {
                    lemma_jviews_index(items@, j as int);
                    assert(qview(queue@) =~= child_entries(
                        Seq::<char>::empty(),
                        jviews(items@),
                    ).subrange(0, j as int + 1));
                }
                j = j + 1;
            }
            proof {
                assert(qview(queue@) =~= root_queue(schema@));
            }
        }
        _ => {
            let empty_name: Vec<char> = Vec::new();
            let c = json_clone(schema);
            queue.push((empty_name, 0, c));
            proof {
                assert(qview(queue@) =~= root_queue(schema@));
            }
        }
    }
    let mut done: Vec<(Vec<char>, Vec<char>)> = Vec::new();
    let mut h: usize = 0;
    let ghost root = root_queue(schema@);
    proof {
        assert(queue@.subrange(0, queue@.len() as int) =~= queue@);
        assert(qview(queue@.subrange(0, queue@.len() as int)) =~= root);
        assert(pair_views(done@) =~= Seq::<(Seq<char>, Seq<char>)>::empty());
    }
    while h < queue.len()
        invariant
            h <= queue@.len(),
            root == root_queue(schema@),
            ({
                let rem = qview(queue@.subrange(h as int, queue@.len() as int));
                match flat_leaves(rem) {
                    Ok(rest) => flat_leaves(root) == Ok::<Seq<(Seq<char>, Seq<char>)>, Seq<char>>(
                        pair_views(done@) + rest,
                    ),
                    Err(n) => flat_leaves(root) == Err::<Seq<(Seq<char>, Seq<char>)>, Seq<char>>(n),
                }
            }),
        decreases qsize(qview(queue@.subrange(h as int, queue@.len() as int))),
    {
        let ghost rem = qview(queue@.subrange(h as int, queue@.len() as int));
        proof {
            assert(rem[0] == (queue@[h as int].0@, queue@[h as int].1 as int, queue@[h as int].2@));
            lemma_jsize_pos(rem[0].2);
        }
        let nm = crate::typedesc::subvec(&queue[h].0, 0, queue[h].0.len());
        let idx = queue[h].1;
        let node = json_clone(&queue[h].2);
        proof {
            assert(nm@ =~= rem[0].0);
            assert(node@ == rem[0].2);
        }
        let annames = argument_name_vec();
        let an: Vec<char> = match field_of(&node, &annames) {
            Some(aj) => match aj {
                JsonValue::Str(sv) => str_to_chars(sv.as_str()),
                _ => Vec::new(),
            },
            None => Vec::new(),
        };
        proof {
            assert(an@ == (match field(rem[0].2, argument_name_name()) {
                JsonSpec::Str(sv) => sv,
                _ => Seq::<char>::empty(),
            }));
        }
        let vname = qual_name_exec(&nm, idx, &an);
        proof {
            assert(vname@ == node_label(rem[0]));
        }
        let tynames = argument_type_vec();
        let tres = field_of(&node, &tynames);
        match tres {
            Some(tj) => {
                match tj {
                    JsonValue::Str(t) => {
                        let tch = str_to_chars(t.as_str());
                        let ghost oldd = pair_views(done@);
                        let ghost vn = vname@;
                        let ghost tv = tch@;
                        done.push((vname, tch));
                        h = h + 1;
                        proof {
                            assert(pair_views(done@) =~= oldd.push((vn, tv)));
                            let rem2 = qview(
                                queue@.subrange(h as int, queue@.len() as int),
                            );
                            assert(queue@.subrange(h as int, queue@.len() as int)
                                =~= queue@.subrange(h as int - 1, queue@.len() as int).drop_first());
                            assert(rem2 =~= rem.drop_first());
                            match flat_leaves(rem2) {
                                Ok(rest) => {
                                    assert(oldd + (seq![(vn, tv)] + rest) =~= oldd.push((vn, tv))
                                        + rest);
                                }
                                Err(_) => {}
                            }
                        }
                    }
                    JsonValue::Arr(children) => {
                        let ghost chv = jviews(children@);
                        let ghost oldq = queue@;
                        proof {
                            lemma_jviews_len(children@);
                        }
                        let mut j: usize = 0;
                        while j < children.len()
                            invariant
                                j <= children@.len(),
                                chv == jviews(children@),
                                chv.len() == children@.len(),
                                queue@.len() == oldq.len() + j,
                                queue@.subrange(0, oldq.len() as int) =~= oldq,
                                qview(queue@.subrange(oldq.len() as int, queue@.len() as int))
                                    =~= child_entries(vname@, chv).subrange(0, j as int),
                            decreases children@.len() - j,
                        {
                            let vn2 = crate::typedesc::subvec(&vname, 0, vname.len());
                            let c = json_clone(&children[j]);
                            let ghost qprev = queue@;
                            queue.push((vn2, j, c));
                            proof {
                                lemma_jviews_index(children@, j as int);
                                assert(vn2@ =~= vname@);
                                assert(queue@.subrange(0, oldq.len() as int) =~= oldq);
                                let pre = queue@.subrange(oldq.len() as int, queue@.len() as int);
                                let prevsub = qprev.subrange(
                                    oldq.len() as int,
                                    qprev.len() as int,
                                );
                                assert(pre =~= prevsub.push((vn2, j, c)));
                                assert forall|k: int| 0 <= k < pre.len() implies qview(pre)[k]
                                    == child_entries(vname@, chv).subrange(0, j as int + 1)[k] by {
                                    if k < j {
                                        assert(pre[k] == prevsub[k]);
                                        assert(qview(prevsub)[k] == child_entries(
                                            vname@,
                                            chv,
                                        ).subrange(0, j as int)[k]);
                                    } else {
                                        assert(pre[k] == (vn2, j as usize, c));
                                    }
                                }
                                assert(qview(pre) =~= child_entries(vname@, chv).subrange(
                                    0,
                                    j as int + 1,
                                ));
                            }
                            j = j + 1;
                        }
                        h = h + 1;
                        proof {
                            let rem2 = qview(
                                queue@.subrange(h as int, queue@.len() as int),
                            );
                            assert(queue@.subrange(h as int, oldq.len() as int) =~= oldq.subrange(
                                h as int,
                                oldq.len() as int,
                            ));
                            assert(qview(queue@.subrange(oldq.len() as int, queue@.len() as int))
                                =~= child_entries(vname@, chv));
                            assert(rem2 =~= rem.drop_first() + child_entries(vname@, chv));
                            assert(field(rem[0].2, argument_type_name()) == JsonSpec::Arr(chv));
                            // the measure strictly decreases
                            lemma_field_size(rem[0].2, argument_type_name());
                            lemma_qsize_concat(rem.drop_first(), child_entries(vname@, chv));
                            lemma_qsize_nodes(child_entries(vname@, chv), chv);
                            assert(jsize(field(rem[0].2, argument_type_name())) == 1 + jsize_seq(
                                chv,
                            ));
                            assert(qsize(rem2) < qsize(rem));
                        }
                    }
                    _ => {
                        return Err(DecodeError::BadSchemaNode(chars_to_string(&vname)));
                    }
                }
            }
            None => {
                return Err(DecodeError::BadSchemaNode(chars_to_string(&vname)));
            }
        }
    }
    proof {
        let rem = qview(queue@.subrange(h as int, queue@.len() as int));
        assert(rem.len() == 0);
        assert(pair_views(done@) + Seq::<(Seq<char>, Seq<char>)>::empty() =~= pair_views(done@));
    }
    Ok(done)
}

/// Decodes each flattened leaf in order against the buffer.
fn walk_leaves_exec(leaves: &Vec<(Vec<char>, Vec<char>)>, bs: &Vec<u8>) -> (r: Result<
    Vec<(String, String)>,
    DecodeError,
>)
    ensures
        match walk_leaves(pair_views(leaves@), bs@, 0) {
            Ok(pairs) => r is Ok && string_pair_views(r->Ok_0@) == pairs,
            Err(e) => match e {
                SchemaErr::NodeBad(_) => false,
                SchemaErr::LeafNoDecoder(n) => (r matches Err(
                    DecodeError::LeafTypeNotSupported(s),
                ) && s@ == n),
                SchemaErr::LeafBad(n) => (r matches Err(DecodeError::LeafMalformed(s)) && s@ == n),
            },
        },
{
    let ghost whole = pair_views(leaves@);
    let mut out: Vec<(String, String)> = Vec::new();
    let mut pos: usize = 0;
    let mut i: usize = 0;
    proof {
        assert(whole.subrange(0, whole.len() as int) =~= whole);
        assert(string_pair_views(out@) =~= Seq::<(Seq<char>, Seq<char>)>::empty());
    }
    while i < leaves.len()
        invariant
            i <= leaves@.len(),
            pos <= bs@.len(),
            whole == pair_views(leaves@),
            whole.len() == leaves@.len(),
            ({
                let suffix = whole.subrange(i as int, whole.len() as int);
                walk_leaves(whole, bs@, 0) == (match walk_leaves(suffix, bs@, pos as int) {
                    Ok(rest) => Ok::<Seq<(Seq<char>, Seq<char>)>, SchemaErr>(
                        string_pair_views(out@) + rest,
                    ),
                    Err(e) => Err::<Seq<(Seq<char>, Seq<char>)>, SchemaErr>(e),
                })
            }),
        decreases leaves@.len() - i,
    {
        let ghost suffix = whole.subrange(i as int, whole.len() as int);
        proof {
            assert(suffix[0] == whole[i as int]);
            assert(suffix[0] == (leaves@[i as int].0@, leaves@[i as int].1@));
            assert(suffix.drop_first() =~= whole.subrange(i as int + 1, whole.len() as int));
        }
        let n = crate::typedesc::normalize_chars(&leaves[i].1);
        match crate::typedesc::parse_type_chars(&n) {
            None => {
                return Err(DecodeError::LeafTypeNotSupported(chars_to_string(&leaves[i].0)));
            }
            Some(d) => {
                if matches!(d, TypeDesc::Custom) || matches!(d, TypeDesc::VecCustom) {
                    return Err(DecodeError::LeafTypeNotSupported(chars_to_string(&leaves[i].0)));
                }
                match crate::decode::decode_value(d, bs, pos) {
                    None => {
                        return Err(DecodeError::LeafMalformed(chars_to_string(&leaves[i].0)));
                    }
                    Some((v, j)) => {
                        let txt = crate::render::render_value(&v);
                        let ghost oldo = string_pair_views(out@);
                        let ghost nv = leaves@[i as int].0@;
                        let ghost rv = txt@;
                        out.push((chars_to_string(&leaves[i].0), chars_to_string(&txt)));
                        proof {
                            assert(string_pair_views(out@) =~= oldo.push((nv, rv)));
                            match walk_leaves(suffix.drop_first(), bs@, j as int) {
                                Ok(rest) => {
                                    assert(oldo + (seq![(nv, rv)] + rest) =~= oldo.push((nv, rv))
                                        + rest);
                                }
                                Err(_) => {}
                            }
                        }
                        pos = j;
                        i = i + 1;
                    }
                }
            }
        }
    }
    proof {
        assert(whole.subrange(whole.len() as int, whole.len() as int).len() == 0);
        assert(string_pair_views(out@) + Seq::<(Seq<char>, Seq<char>)>::empty()
            =~= string_pair_views(out@));
    }
    Ok(out)
}

/// Decodes a buffer against a nested schema: flatten it breadth-first into
/// ordered leaves, then decode each leaf in sequence, pairing its qualified
/// name with the rendered value.
pub fn parse_call_result_from_schema(serialized_data: &Vec<u8>, schema: &JsonValue) -> (r: Result<
    Vec<(String, String)>,
    DecodeError,
>)
    ensures
        match flat_leaves(root_queue(schema@)) {
            Err(n) => (r matches Err(DecodeError::BadSchemaNode(s)) && s@ == n),
            Ok(leaves) => match walk_leaves(leaves, serialized_data@, 0) {
                Ok(pairs) => r is Ok && string_pair_views(r->Ok_0@) == pairs,
                Err(e) => match e {
                    SchemaErr::NodeBad(_) => false,
                    SchemaErr::LeafNoDecoder(n) => (r matches Err(
                        DecodeError::LeafTypeNotSupported(s),
                    ) && s@ == n),
                    SchemaErr::LeafBad(n) => (r matches Err(DecodeError::LeafMalformed(s)) && s@
                        == n),
                },
            },
        },
{
    match flatten_schema(schema) {
        Err(e) => Err(e),
        Ok(leaves) => walk_leaves_exec(&leaves, serialized_data),
    }
}

} // verus!
