//! Typed argument values: the executable representation a textual value is
//! parsed into before encoding, its mathematical model, and well-formedness
//! of a value against a type descriptor.

use vstd::prelude::*;
use crate::typedesc::{Prim, TypeDesc, in_range, blen_val};

verus! {

/// Mathematical model of a primitive value.
#[verifier::ext_equal]
pub enum SpecPrim {
    I(int),
    B(bool),
    S(Seq<char>),
}

/// Mathematical model of a flat value.
#[verifier::ext_equal]
pub enum SpecVal {
    One(SpecPrim),
    List(Seq<SpecPrim>),
    ListList(Seq<Seq<SpecPrim>>),
    OptOne(Option<SpecPrim>),
    ListOpt(Seq<Option<SpecPrim>>),
    OptList(Option<Seq<SpecPrim>>),
    Bytes(Seq<u8>),
    OptBytes(Option<Seq<u8>>),
}

/// A primitive value as executable data.  Signed integer kinds are held in
/// an `i128`, unsigned kinds in a `u128`; the well-formedness condition ties
/// the value to its kind's range.
pub enum PrimVal {
    I(i128),
    U(u128),
    B(bool),
    S(String),
}

/// A flat (decodable) value as executable data, shaped as the flat type
/// descriptors are.
pub enum FlatVal {
    One(PrimVal),
    List(Vec<PrimVal>),
    ListList(Vec<Vec<PrimVal>>),
    OptOne(Option<PrimVal>),
    ListOpt(Vec<Option<PrimVal>>),
    OptList(Option<Vec<PrimVal>>),
    Bytes(Vec<u8>),
    OptBytes(Option<Vec<u8>>),
}

impl View for PrimVal {
    type V = SpecPrim;

    open spec fn view(&self) -> SpecPrim {
        match self {
            PrimVal::I(v) => SpecPrim::I(*v as int),
            PrimVal::U(v) => SpecPrim::I(*v as int),
            PrimVal::B(b) => SpecPrim::B(*b),
            PrimVal::S(s) => SpecPrim::S(s@),
        }
    }
}

/// The models of a sequence of primitive values.
pub open spec fn views_of(s: Seq<PrimVal>) -> Seq<SpecPrim> {
    s.map_values(|p: PrimVal| p@)
}

pub open spec fn views_of_opt(s: Seq<Option<PrimVal>>) -> Seq<Option<SpecPrim>> {
    s.map_values(
        |o: Option<PrimVal>|
            match o {
                Some(p) => Some(p@),
                None => None,
            },
    )
}

pub open spec fn views_of_list(s: Seq<Vec<PrimVal>>) -> Seq<Seq<SpecPrim>> {
    s.map_values(|w: Vec<PrimVal>| views_of(w@))
}

impl View for FlatVal {
    type V = SpecVal;

    open spec fn view(&self) -> SpecVal {
        match self {
            FlatVal::One(p) => SpecVal::One(p@),
            FlatVal::List(v) => SpecVal::List(views_of(v@)),
            FlatVal::ListList(v) => SpecVal::ListList(views_of_list(v@)),
            FlatVal::OptOne(o) => SpecVal::OptOne(
                match o {
                    Some(p) => Some(p@),
                    None => None,
                },
            ),
            FlatVal::ListOpt(v) => SpecVal::ListOpt(views_of_opt(v@)),
            FlatVal::OptList(o) => SpecVal::OptList(
                match o {
                    Some(v) => Some(views_of(v@)),
                    None => None,
                },
            ),
            FlatVal::Bytes(b) => SpecVal::Bytes(b@),
            FlatVal::OptBytes(o) => SpecVal::OptBytes(
                match o {
                    Some(b) => Some(b@),
                    None => None,
                },
            ),
        }
    }
}

/// A primitive model value fits a primitive kind.
pub open spec fn wf_prim(p: Prim, v: SpecPrim) -> bool {
    match v {
        SpecPrim::I(n) => p is Int && in_range(p->Int_0, n),
        SpecPrim::B(_) => p is Bool,
        SpecPrim::S(_) => p is Str,
    }
}

pub open spec fn all_wf(p: Prim, s: Seq<SpecPrim>) -> bool {
    forall|i: int| 0 <= i < s.len() ==> wf_prim(p, #[trigger] s[i])
}

pub open spec fn all_wf_opt(p: Prim, s: Seq<Option<SpecPrim>>) -> bool {
    forall|i: int| 0 <= i < s.len() ==> (#[trigger] s[i] is Some ==> wf_prim(p, s[i]->0))
}

/// A model value has exactly the shape of a flat type descriptor, with every
/// primitive inside it in range.
pub open spec fn wf_val(d: TypeDesc, v: SpecVal) -> bool {
    match d {
        TypeDesc::Prim(p) => v is One && wf_prim(p, v->One_0),
        TypeDesc::VecOf(p) => v is List && all_wf(p, v->List_0),
        TypeDesc::VecVec(p) => v is ListList && forall|i: int|
            0 <= i < v->ListList_0.len() ==> all_wf(p, #[trigger] v->ListList_0[i]),
        TypeDesc::OptOf(p) => v is OptOne && (v->OptOne_0 is Some ==> wf_prim(
            p,
            v->OptOne_0->0,
        )),
        TypeDesc::VecOpt(p) => v is ListOpt && all_wf_opt(p, v->ListOpt_0),
        TypeDesc::OptVec(p) => v is OptList && (v->OptList_0 is Some ==> all_wf(
            p,
            v->OptList_0->0,
        )),
        TypeDesc::FixedBytes(b) => v is Bytes && v->Bytes_0.len() == blen_val(b),
        TypeDesc::OptFixedBytes(b) => v is OptBytes && (v->OptBytes_0 is Some
            ==> v->OptBytes_0->0.len() == blen_val(b)),
        TypeDesc::Custom => false,
        TypeDesc::VecCustom => false,
    }
}

} // verus!
