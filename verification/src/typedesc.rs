//! Type descriptors: the closed set of argument type names the codec accepts,
//! the canonicalization of a raw type-name string, and the parser from the
//! canonical string to a descriptor.

use vstd::prelude::*;
use crate::wire::pow256;

verus! {

/// A fixed-width integer kind: sign and bit width.
#[derive(Clone, Copy, PartialEq, Eq, Debug, Structural)]
pub enum IntKind {
    I8,
    I16,
    I32,
    I64,
    I128,
    U8,
    U16,
    U32,
    U64,
    U128,
}

/// A primitive kind: integer, boolean or UTF-8 string.
#[derive(Clone, Copy, PartialEq, Eq, Debug, Structural)]
pub enum Prim {
    Int(IntKind),
    Bool,
    Str,
}

/// The length of a fixed byte array type: 32 or 64.
#[derive(Clone, Copy, PartialEq, Eq, Debug, Structural)]
pub enum ByteLen {
    B32,
    B64,
}

/// A type descriptor: exactly the shapes of argument types the codec knows.
/// Any type-name string that does not canonicalize to one of these shapes is
/// unsupported.
#[derive(Clone, Copy, PartialEq, Eq, Debug, Structural)]
pub enum TypeDesc {
    /// A bare primitive.
    Prim(Prim),
    /// `Vec<T>` of a primitive.
    VecOf(Prim),
    /// `Vec<Vec<T>>`: exactly two nesting levels.
    VecVec(Prim),
    /// `Option<T>` of a primitive.
    OptOf(Prim),
    /// `Vec<Option<T>>`.
    VecOpt(Prim),
    /// `Option<Vec<T>>`.
    OptVec(Prim),
    /// `[u8;32]` or `[u8;64]`, written canonically `Array<u8,N>`.
    FixedBytes(ByteLen),
    /// `Option<[u8;N]>`, written canonically `OptionArray<u8,N>`.
    OptFixedBytes(ByteLen),
    /// An aggregate of named fields, encoded by concatenation; encode-only.
    Custom,
    /// A counted vector of aggregates; encode-only.
    VecCustom,
}

pub open spec fn width(k: IntKind) -> nat {
    match k {
        IntKind::I8 => 1,
        IntKind::I16 => 2,
        IntKind::I32 => 4,
        IntKind::I64 => 8,
        IntKind::I128 => 16,
        IntKind::U8 => 1,
        IntKind::U16 => 2,
        IntKind::U32 => 4,
        IntKind::U64 => 8,
        IntKind::U128 => 16,
    }
}

pub open spec fn is_signed(k: IntKind) -> bool {
    match k {
        IntKind::I8 => true,
        IntKind::I16 => true,
        IntKind::I32 => true,
        IntKind::I64 => true,
        IntKind::I128 => true,
        _ => false,
    }
}

/// Smallest value of the kind.
pub open spec fn kind_min(k: IntKind) -> int {
    if is_signed(k) {
        -(pow256(width(k)) / 2)
    } else {
        0
    }
}

/// Largest value of the kind.
pub open spec fn kind_max(k: IntKind) -> int {
    if is_signed(k) {
        pow256(width(k)) / 2 - 1
    } else {
        pow256(width(k)) - 1
    }
}

pub open spec fn in_range(k: IntKind, v: int) -> bool {
    kind_min(k) <= v <= kind_max(k)
}

pub open spec fn blen_val(b: ByteLen) -> nat {
    match b {
        ByteLen::B32 => 32,
        ByteLen::B64 => 64,
    }
}

/// A descriptor is flat when it holds no `Custom` aggregate; only flat
/// descriptors can be decoded.
pub open spec fn is_flat(d: TypeDesc) -> bool {
    !(d is Custom || d is VecCustom)
}

// ---------------------------------------------------------------------------
// Canonicalization of type-name strings.
// ---------------------------------------------------------------------------

pub open spec fn is_space(c: char) -> bool {
    c == ' ' || c == '\t' || c == '\n' || c == '\r'
}

/// The string with all whitespace characters removed.
pub open spec fn strip_spaces(s: Seq<char>) -> Seq<char>
    decreases s.len(),
{
    if s.len() == 0 {
        Seq::empty()
    } else if is_space(s[0]) {
        strip_spaces(s.drop_first())
    } else {
        seq![s[0]] + strip_spaces(s.drop_first())
    }
}

/// The name of an integer kind as it is spelled in a type string.
pub open spec fn int_name(k: IntKind) -> Seq<char> {
    match k {
        IntKind::I8 => seq!['i', '8'],
        IntKind::I16 => seq!['i', '1', '6'],
        IntKind::I32 => seq!['i', '3', '2'],
        IntKind::I64 => seq!['i', '6', '4'],
        IntKind::I128 => seq!['i', '1', '2', '8'],
        IntKind::U8 => seq!['u', '8'],
        IntKind::U16 => seq!['u', '1', '6'],
        IntKind::U32 => seq!['u', '3', '2'],
        IntKind::U64 => seq!['u', '6', '4'],
        IntKind::U128 => seq!['u', '1', '2', '8'],
    }
}

pub open spec fn kind_of_name(t: Seq<char>) -> Option<IntKind> {
    if t == int_name(IntKind::I8) { Some(IntKind::I8) }
    else if t == int_name(IntKind::I16) { Some(IntKind::I16) }
    else if t == int_name(IntKind::I32) { Some(IntKind::I32) }
    else if t == int_name(IntKind::I64) { Some(IntKind::I64) }
    else if t == int_name(IntKind::I128) { Some(IntKind::I128) }
    else if t == int_name(IntKind::U8) { Some(IntKind::U8) }
    else if t == int_name(IntKind::U16) { Some(IntKind::U16) }
    else if t == int_name(IntKind::U32) { Some(IntKind::U32) }
    else if t == int_name(IntKind::U64) { Some(IntKind::U64) }
    else if t == int_name(IntKind::U128) { Some(IntKind::U128) }
    else { None }
}

pub open spec fn blen_name(b: ByteLen) -> Seq<char> {
    match b {
        ByteLen::B32 => seq!['3', '2'],
        ByteLen::B64 => seq!['6', '4'],
    }
}

pub open spec fn blen_of_name(t: Seq<char>) -> Option<ByteLen> {
    if t == blen_name(ByteLen::B32) { Some(ByteLen::B32) }
    else if t == blen_name(ByteLen::B64) { Some(ByteLen::B64) }
    else { None }
}

/// The first index at or after `i` where `c` occurs, or the length if none.
pub open spec fn find_char(s: Seq<char>, c: char, i: int) -> int
    decreases s.len() - i when 0 <= i <= s.len()
{
    if i >= s.len() {
        s.len() as int
    } else if s[i] == c {
        i
    } else {
        find_char(s, c, i + 1)
    }
}

/// Recognizes the array-literal shape `[<ik>;<n>]` with `ik` an integer kind
/// name and `n` 32 or 64, on a string already stripped of whitespace.
pub open spec fn arr_shape(t: Seq<char>) -> Option<(IntKind, ByteLen)> {
    if t.len() >= 2 && t[0] == '[' && t[t.len() - 1] == ']' {
        let inner = t.subrange(1, t.len() - 1);
        let semi = find_char(inner, ';', 0);
        if semi < inner.len() {
            let kn = kind_of_name(inner.subrange(0, semi));
            let bn = blen_of_name(inner.subrange(semi + 1, inner.len() as int));
            if kn is Some && bn is Some {
                Some((kn->0, bn->0))
            } else {
                None
            }
        } else {
            None
        }
    } else {
        None
    }
}

/// The canonical spelling of a fixed array type.
pub open spec fn arr_spelling(k: IntKind, b: ByteLen) -> Seq<char> {
    seq!['A', 'r', 'r', 'a', 'y', '<'] + int_name(k) + seq![','] + blen_name(b) + seq!['>']
}

/// The canonical spelling of an optional fixed array type.
pub open spec fn opt_arr_spelling(k: IntKind, b: ByteLen) -> Seq<char> {
    seq!['O', 'p', 't', 'i', 'o', 'n'] + arr_spelling(k, b)
}

pub open spec fn opt_prefix() -> Seq<char> {
    seq!['O', 'p', 't', 'i', 'o', 'n', '<']
}

pub open spec fn vec_prefix() -> Seq<char> {
    seq!['V', 'e', 'c', '<']
}

/// Canonicalizes a type-name string: strip all whitespace; rewrite an
/// array-literal shape, optionally wrapped in `Option<...>`, to the canonical
/// array spelling; pass anything else through unchanged.
pub open spec fn normalize(s: Seq<char>) -> Seq<char> {
    let t = strip_spaces(s);
    if arr_shape(t) is Some {
        let sh = arr_shape(t)->0;
        arr_spelling(sh.0, sh.1)
    } else if t.len() >= 9 && t.subrange(0, 7) == opt_prefix() && t[t.len() - 1] == '>'
        && arr_shape(t.subrange(7, t.len() - 1)) is Some {
        let sh = arr_shape(t.subrange(7, t.len() - 1))->0;
        opt_arr_spelling(sh.0, sh.1)
    } else {
        t
    }
}

// ---------------------------------------------------------------------------
// The descriptor table: which canonical strings mean which descriptor.
// ---------------------------------------------------------------------------

pub open spec fn prim_of(t: Seq<char>) -> Option<Prim> {
    if kind_of_name(t) is Some {
        Some(Prim::Int(kind_of_name(t)->0))
    } else if t == seq!['b', 'o', 'o', 'l'] {
        Some(Prim::Bool)
    } else if t == seq!['S', 't', 'r', 'i', 'n', 'g'] {
        Some(Prim::Str)
    } else {
        None
    }
}

/// Case-insensitive match of `c` against a lowercase pattern letter `l`
/// (a non-letter pattern character must match exactly).
pub open spec fn eq_ci(c: char, l: char) -> bool {
    c == l || ('a' <= l <= 'z' && c as int == l as int - 32)
}

pub open spec fn ci_matches(t: Seq<char>, pat: Seq<char>) -> bool {
    t.len() == pat.len() && forall|i: int| 0 <= i < t.len() ==> eq_ci(t[i], #[trigger] pat[i])
}

pub open spec fn custom_pat() -> Seq<char> {
    seq!['c', 'u', 's', 't', 'o', 'm']
}

pub open spec fn vec_custom_pat() -> Seq<char> {
    seq!['v', 'e', 'c', '<', 'c', 'u', 's', 't', 'o', 'm', '>']
}

/// The descriptor named by a canonical type string, or `None` when the string
/// is not a supported type.  This is the whole supported-shape table.
pub open spec fn desc_of(t: Seq<char>) -> Option<TypeDesc> {
    if prim_of(t) is Some {
        Some(TypeDesc::Prim(prim_of(t)->0))
    } else if ci_matches(t, custom_pat()) {
        Some(TypeDesc::Custom)
    } else if ci_matches(t, vec_custom_pat()) {
        Some(TypeDesc::VecCustom)
    } else if t == arr_spelling(IntKind::U8, ByteLen::B32) {
        Some(TypeDesc::FixedBytes(ByteLen::B32))
    } else if t == arr_spelling(IntKind::U8, ByteLen::B64) {
        Some(TypeDesc::FixedBytes(ByteLen::B64))
    } else if t == opt_arr_spelling(IntKind::U8, ByteLen::B32) {
        Some(TypeDesc::OptFixedBytes(ByteLen::B32))
    } else if t == opt_arr_spelling(IntKind::U8, ByteLen::B64) {
        Some(TypeDesc::OptFixedBytes(ByteLen::B64))
    } else if t.len() > 10 && t.subrange(0, 8) == vec_prefix() + vec_prefix()
        && t.subrange(t.len() - 2, t.len() as int) == seq!['>', '>']
        && prim_of(t.subrange(8, t.len() - 2)) is Some {
        Some(TypeDesc::VecVec(prim_of(t.subrange(8, t.len() - 2))->0))
    } else if t.len() > 13 && t.subrange(0, 11) == vec_prefix() + opt_prefix()
        && t.subrange(t.len() - 2, t.len() as int) == seq!['>', '>']
        && prim_of(t.subrange(11, t.len() - 2)) is Some {
        Some(TypeDesc::VecOpt(prim_of(t.subrange(11, t.len() - 2))->0))
    } else if t.len() > 5 && t.subrange(0, 4) == vec_prefix() && t[t.len() - 1] == '>'
        && prim_of(t.subrange(4, t.len() - 1)) is Some {
        Some(TypeDesc::VecOf(prim_of(t.subrange(4, t.len() - 1))->0))
    } else if t.len() > 13 && t.subrange(0, 11) == opt_prefix() + vec_prefix()
        && t.subrange(t.len() - 2, t.len() as int) == seq!['>', '>']
        && prim_of(t.subrange(11, t.len() - 2)) is Some {
        Some(TypeDesc::OptVec(prim_of(t.subrange(11, t.len() - 2))->0))
    } else if t.len() > 8 && t.subrange(0, 7) == opt_prefix() && t[t.len() - 1] == '>'
        && prim_of(t.subrange(7, t.len() - 1)) is Some {
        Some(TypeDesc::OptOf(prim_of(t.subrange(7, t.len() - 1))->0))
    } else {
        None
    }
}

/// The descriptor a raw type-name string denotes: canonicalize, then look the
/// result up in the table.
pub open spec fn desc_of_raw(s: Seq<char>) -> Option<TypeDesc> {
    desc_of(normalize(s))
}

// ---------------------------------------------------------------------------
// Canonicalization is idempotent.
// ---------------------------------------------------------------------------

pub open spec fn no_spaces(t: Seq<char>) -> bool {
    forall|i: int| 0 <= i < t.len() ==> !is_space(#[trigger] t[i])
}

pub proof fn lemma_strip_no_spaces(s: Seq<char>)
    ensures
        no_spaces(strip_spaces(s)),
    decreases s.len(),
{
    if s.len() > 0 {
        lemma_strip_no_spaces(s.drop_first());
    }
}

pub proof fn lemma_strip_of_no_spaces(t: Seq<char>)
    requires
        no_spaces(t),
    ensures
        strip_spaces(t) == t,
    decreases t.len(),
{
    if t.len() == 0 {
        assert(strip_spaces(t) =~= t);
    } else {
        assert(!is_space(t[0]));
        lemma_strip_of_no_spaces(t.drop_first());
        assert(strip_spaces(t) =~= t);
    }
}

pub proof fn lemma_int_name_no_spaces(k: IntKind)
    ensures
        no_spaces(int_name(k)),
{
}

pub proof fn lemma_arr_spelling_no_spaces(k: IntKind, b: ByteLen)
    ensures
        no_spaces(arr_spelling(k, b)),
        no_spaces(opt_arr_spelling(k, b)),
{
    lemma_int_name_no_spaces(k);
}

/// Canonicalizing a type name twice gives what canonicalizing it once gives.
pub proof fn lemma_normalize_idempotent(s: Seq<char>)
    ensures
        normalize(normalize(s)) == normalize(s),
{
    let t = strip_spaces(s);
    lemma_strip_no_spaces(s);
    if arr_shape(t) is Some {
        let sh = arr_shape(t)->0;
        let a = arr_spelling(sh.0, sh.1);
        lemma_arr_spelling_no_spaces(sh.0, sh.1);
        lemma_strip_of_no_spaces(a);
        assert(a[0] == 'A');
        assert(arr_shape(a) is None);
        assert(a.len() >= 9 ==> a.subrange(0, 7) != opt_prefix()) by {
            if a.len() >= 9 {
                assert(a.subrange(0, 7)[0] == 'A');
                assert(opt_prefix()[0] == 'O');
            }
        }
        assert(normalize(a) == a);
    } else if t.len() >= 9 && t.subrange(0, 7) == opt_prefix() && t[t.len() - 1] == '>'
        && arr_shape(t.subrange(7, t.len() - 1)) is Some {
        let sh = arr_shape(t.subrange(7, t.len() - 1))->0;
        let a = opt_arr_spelling(sh.0, sh.1);
        lemma_arr_spelling_no_spaces(sh.0, sh.1);
        lemma_strip_of_no_spaces(a);
        assert(a[0] == 'O');
        assert(arr_shape(a) is None);
        assert(a.len() >= 9 && a.subrange(0, 7) != opt_prefix()) by {
            assert(a.subrange(0, 7)[6] == 'A');
            assert(opt_prefix()[6] == '<');
        }
        assert(normalize(a) == a);
    } else {
        lemma_strip_of_no_spaces(t);
        assert(normalize(t) == t);
    }
}

// ---------------------------------------------------------------------------
// Executable canonicalization and descriptor parsing.
// ---------------------------------------------------------------------------

pub(crate) fn is_space_exec(c: char) -> (r: bool)
    ensures
        r == is_space(c),
{
    c == ' ' || c == '\t' || c == '\n' || c == '\r'
}

/// Copies the characters of `s` in positions `from..to`.
pub fn subvec(s: &Vec<char>, from: usize, to: usize) -> (r: Vec<char>)
    requires
        from <= to <= s@.len(),
    ensures
        r@ == s@.subrange(from as int, to as int),
{
    let mut r: Vec<char> = Vec::new();
    let mut i: usize = from;
    while i < to
        invariant
            from <= i <= to <= s@.len(),
            r@ == s@.subrange(from as int, i as int),
        decreases to - i,
    {
        r.push(s[i]);
        i = i + 1;
        proof {
            assert(r@ =~= s@.subrange(from as int, i as int));
        }
    }
    r
}

/// Compares two character vectors for equality.
pub fn seq_eq(a: &Vec<char>, b: &Vec<char>) -> (r: bool)
    ensures
        r == (a@ == b@),
{
    if a.len() != b.len() {
        return false;
    }
    let mut i: usize = 0;
    while i < a.len()
        invariant
            i <= a.len(),
            a@.len() == b@.len(),
            forall|j: int| 0 <= j < i ==> a@[j] == b@[j],
        decreases a.len() - i,
    {
        if a[i] != b[i] {
            return false;
        }
        i = i + 1;
    }
    proof {
        assert(a@ =~= b@);
    }
    true
}

fn eq_ci_exec(c: char, l: char) -> (r: bool)
    ensures
        r == eq_ci(c, l),
{
    c == l || ('a' <= l && l <= 'z' && (c as u32) + 32 == (l as u32))
}

pub(crate) fn ci_eq(t: &Vec<char>, pat: &Vec<char>) -> (r: bool)
    ensures
        r == ci_matches(t@, pat@),
{
    if t.len() != pat.len() {
        return false;
    }
    let mut i: usize = 0;
    while i < t.len()
        invariant
            i <= t.len(),
            t@.len() == pat@.len(),
            forall|j: int| 0 <= j < i ==> eq_ci(t@[j], #[trigger] pat@[j]),
        decreases t.len() - i,
    {
        if !eq_ci_exec(t[i], pat[i]) {
            return false;
        }
        i = i + 1;
    }
    true
}

fn int_name_vec(k: IntKind) -> (r: Vec<char>)
    ensures
        r@ == int_name(k),
{
    match k {
        IntKind::I8 => { let v = vec!['i', '8']; proof { assert(v@ =~= int_name(k)); } v }
        IntKind::I16 => { let v = vec!['i', '1', '6']; proof { assert(v@ =~= int_name(k)); } v }
        IntKind::I32 => { let v = vec!['i', '3', '2']; proof { assert(v@ =~= int_name(k)); } v }
        IntKind::I64 => { let v = vec!['i', '6', '4']; proof { assert(v@ =~= int_name(k)); } v }
        IntKind::I128 => { let v = vec!['i', '1', '2', '8']; proof { assert(v@ =~= int_name(k)); } v }
        IntKind::U8 => { let v = vec!['u', '8']; proof { assert(v@ =~= int_name(k)); } v }
        IntKind::U16 => { let v = vec!['u', '1', '6']; proof { assert(v@ =~= int_name(k)); } v }
        IntKind::U32 => { let v = vec!['u', '3', '2']; proof { assert(v@ =~= int_name(k)); } v }
        IntKind::U64 => { let v = vec!['u', '6', '4']; proof { assert(v@ =~= int_name(k)); } v }
        IntKind::U128 => { let v = vec!['u', '1', '2', '8']; proof { assert(v@ =~= int_name(k)); } v }
    }
}

fn blen_name_vec(b: ByteLen) -> (r: Vec<char>)
    ensures
        r@ == blen_name(b),
{
    match b {
        ByteLen::B32 => { let v = vec!['3', '2']; proof { assert(v@ =~= blen_name(b)); } v }
        ByteLen::B64 => { let v = vec!['6', '4']; proof { assert(v@ =~= blen_name(b)); } v }
    }
}

fn kind_of_name_exec(t: &Vec<char>) -> (r: Option<IntKind>)
    ensures
        r == kind_of_name(t@),
{
    if seq_eq(t, &int_name_vec(IntKind::I8)) { Some(IntKind::I8) }
    else if seq_eq(t, &int_name_vec(IntKind::I16)) { Some(IntKind::I16) }
    else if seq_eq(t, &int_name_vec(IntKind::I32)) { Some(IntKind::I32) }
    else if seq_eq(t, &int_name_vec(IntKind::I64)) { Some(IntKind::I64) }
    else if seq_eq(t, &int_name_vec(IntKind::I128)) { Some(IntKind::I128) }
    else if seq_eq(t, &int_name_vec(IntKind::U8)) { Some(IntKind::U8) }
    else if seq_eq(t, &int_name_vec(IntKind::U16)) { Some(IntKind::U16) }
    else if seq_eq(t, &int_name_vec(IntKind::U32)) { Some(IntKind::U32) }
    else if seq_eq(t, &int_name_vec(IntKind::U64)) { Some(IntKind::U64) }
    else if seq_eq(t, &int_name_vec(IntKind::U128)) { Some(IntKind::U128) }
    else { None }
}

fn blen_of_name_exec(t: &Vec<char>) -> (r: Option<ByteLen>)
    ensures
        r == blen_of_name(t@),
{
    if seq_eq(t, &blen_name_vec(ByteLen::B32)) { Some(ByteLen::B32) }
    else if seq_eq(t, &blen_name_vec(ByteLen::B64)) { Some(ByteLen::B64) }
    else { None }
}

fn find_char_exec(s: &Vec<char>, c: char, i: usize) -> (r: usize)
    requires
        i <= s@.len(),
    ensures
        r == find_char(s@, c, i as int),
    decreases s@.len() - i,
{
    if i >= s.len() {
        s.len()
    } else if s[i] == c {
        i
    } else {
        find_char_exec(s, c, i + 1)
    }
}

fn arr_shape_exec(t: &Vec<char>) -> (r: Option<(IntKind, ByteLen)>)
    ensures
        r == arr_shape(t@),
{
    if t.len() >= 2 && t[0] == '[' && t[t.len() - 1] == ']' {
        let inner = subvec(t, 1, t.len() - 1);
        let semi = find_char_exec(&inner, ';', 0);
        proof {
            lemma_find_char_le(inner@, ';', 0);
        }
        if semi < inner.len() {
            let kn = kind_of_name_exec(&subvec(&inner, 0, semi));
            let bn = blen_of_name_exec(&subvec(&inner, semi + 1, inner.len()));
            match (kn, bn) {
                (Some(k), Some(b)) => Some((k, b)),
                _ => None,
            }
        } else {
            None
        }
    } else {
        None
    }
}

pub proof fn lemma_find_char_le(s: Seq<char>, c: char, i: int)
    requires
        0 <= i <= s.len(),
    ensures
        i <= find_char(s, c, i) <= s.len(),
    decreases s.len() - i,
{
    if i < s.len() && s[i] != c {
        lemma_find_char_le(s, c, i + 1);
    }
}

fn arr_spelling_vec(k: IntKind, b: ByteLen) -> (r: Vec<char>)
    ensures
        r@ == arr_spelling(k, b),
{
    let mut r: Vec<char> = vec!['A', 'r', 'r', 'a', 'y', '<'];
    let mut kn = int_name_vec(k);
    let mut bn = blen_name_vec(b);
    r.append(&mut kn);
    r.push(',');
    r.append(&mut bn);
    r.push('>');
    proof {
        assert(r@ =~= arr_spelling(k, b));
    }
    r
}

fn opt_arr_spelling_vec(k: IntKind, b: ByteLen) -> (r: Vec<char>)
    ensures
        r@ == opt_arr_spelling(k, b),
{
    let mut r: Vec<char> = vec!['O', 'p', 't', 'i', 'o', 'n'];
    let mut a = arr_spelling_vec(k, b);
    r.append(&mut a);
    proof {
        assert(r@ =~= opt_arr_spelling(k, b));
    }
    r
}

pub(crate) fn strip_spaces_exec(s: &Vec<char>) -> (r: Vec<char>)
    ensures
        r@ == strip_spaces(s@),
{
    let mut r: Vec<char> = Vec::new();
    let mut i: usize = 0;
    proof {
        assert(s@.subrange(0, s@.len() as int) =~= s@);
        assert(r@ + strip_spaces(s@) =~= strip_spaces(s@));
    }
    while i < s.len()
        invariant
            i <= s@.len(),
            strip_spaces(s@) == r@ + strip_spaces(s@.subrange(i as int, s@.len() as int)),
        decreases s.len() - i,
    {
        proof {
            let rest = s@.subrange(i as int, s@.len() as int);
            assert(rest[0] == s@[i as int]);
            assert(rest.drop_first() =~= s@.subrange(i as int + 1, s@.len() as int));
        }
        if !is_space_exec(s[i]) {
            r.push(s[i]);
            proof {
                let rest2 = s@.subrange(i as int + 1, s@.len() as int);
                assert(r@ + strip_spaces(rest2) =~= strip_spaces(s@));
            }
        }
        i = i + 1;
    }
    proof {
        assert(strip_spaces(s@.subrange(s@.len() as int, s@.len() as int)) =~= Seq::<char>::empty());
        assert(r@ =~= r@ + Seq::<char>::empty());
    }
    r
}

/// Canonicalizes the characters of a type name.
pub fn normalize_chars(s: &Vec<char>) -> (r: Vec<char>)
    ensures
        r@ == normalize(s@),
{
    let t = strip_spaces_exec(s);
    match arr_shape_exec(&t) {
        Some((k, b)) => {
            return arr_spelling_vec(k, b);
        }
        None => {}
    }
    if t.len() >= 9 {
        let pre = subvec(&t, 0, 7);
        let mut optpat: Vec<char> = vec!['O', 'p', 't', 'i', 'o', 'n', '<'];
        proof {
            assert(optpat@ =~= opt_prefix());
        }
        if seq_eq(&pre, &optpat) && t[t.len() - 1] == '>' {
            let inner = subvec(&t, 7, t.len() - 1);
            match arr_shape_exec(&inner) {
                Some((k, b)) => {
                    return opt_arr_spelling_vec(k, b);
                }
                None => {}
            }
        }
    }
    t
}

/// Canonicalizes a type name: whitespace is removed and array-literal shapes
/// are rewritten to the canonical array spelling.
pub fn sanitize_argument_type(data_type: &str) -> (r: String)
    ensures
        r@ == normalize(data_type@),
{
    let cs = crate::text::str_to_chars(data_type);
    let n = normalize_chars(&cs);
    crate::text::chars_to_string(&n)
}

fn prim_of_exec(t: &Vec<char>) -> (r: Option<Prim>)
    ensures
        r == prim_of(t@),
{
    match kind_of_name_exec(t) {
        Some(k) => Some(Prim::Int(k)),
        None => {
            let boolpat: Vec<char> = vec!['b', 'o', 'o', 'l'];
            let strpat: Vec<char> = vec!['S', 't', 'r', 'i', 'n', 'g'];
            proof {
                assert(boolpat@ =~= seq!['b', 'o', 'o', 'l']);
                assert(strpat@ =~= seq!['S', 't', 'r', 'i', 'n', 'g']);
            }
            if seq_eq(t, &boolpat) {
                Some(Prim::Bool)
            } else if seq_eq(t, &strpat) {
                Some(Prim::Str)
            } else {
                None
            }
        }
    }
}

/// Parses a canonical type string into a descriptor, mirroring the table.
pub fn parse_type_chars(t: &Vec<char>) -> (r: Option<TypeDesc>)
    ensures
        r == desc_of(t@),
{
    match prim_of_exec(t) {
        Some(p) => {
            return Some(TypeDesc::Prim(p));
        }
        None => {}
    }
    let custom: Vec<char> = vec!['c', 'u', 's', 't', 'o', 'm'];
    let veccustom: Vec<char> = vec!['v', 'e', 'c', '<', 'c', 'u', 's', 't', 'o', 'm', '>'];
    proof {
        assert(custom@ =~= custom_pat());
        assert(veccustom@ =~= vec_custom_pat());
    }
    if ci_eq(t, &custom) {
        return Some(TypeDesc::Custom);
    }
    if ci_eq(t, &veccustom) {
        return Some(TypeDesc::VecCustom);
    }
    if seq_eq(t, &arr_spelling_vec(IntKind::U8, ByteLen::B32)) {
        return Some(TypeDesc::FixedBytes(ByteLen::B32));
    }
    if seq_eq(t, &arr_spelling_vec(IntKind::U8, ByteLen::B64)) {
        return Some(TypeDesc::FixedBytes(ByteLen::B64));
    }
    if seq_eq(t, &opt_arr_spelling_vec(IntKind::U8, ByteLen::B32)) {
        return Some(TypeDesc::OptFixedBytes(ByteLen::B32));
    }
    if seq_eq(t, &opt_arr_spelling_vec(IntKind::U8, ByteLen::B64)) {
        return Some(TypeDesc::OptFixedBytes(ByteLen::B64));
    }
    let vecvec: Vec<char> = vec!['V', 'e', 'c', '<', 'V', 'e', 'c', '<'];
    let vecopt: Vec<char> = vec!['V', 'e', 'c', '<', 'O', 'p', 't', 'i', 'o', 'n', '<'];
    let vecp: Vec<char> = vec!['V', 'e', 'c', '<'];
    let optvec: Vec<char> = vec!['O', 'p', 't', 'i', 'o', 'n', '<', 'V', 'e', 'c', '<'];
    let optp: Vec<char> = vec!['O', 'p', 't', 'i', 'o', 'n', '<'];
    let closetwo: Vec<char> = vec!['>', '>'];
    proof {
        assert(vecvec@ =~= vec_prefix() + vec_prefix());
        assert(vecopt@ =~= vec_prefix() + opt_prefix());
        assert(vecp@ =~= vec_prefix());
        assert(optvec@ =~= opt_prefix() + vec_prefix());
        assert(optp@ =~= opt_prefix());
        assert(closetwo@ =~= seq!['>', '>']);
    }
    if t.len() > 10 && seq_eq(&subvec(t, 0, 8), &vecvec)
        && seq_eq(&subvec(t, t.len() - 2, t.len()), &closetwo) {
        match prim_of_exec(&subvec(t, 8, t.len() - 2)) {
            Some(p) => {
                return Some(TypeDesc::VecVec(p));
            }
            None => {}
        }
    }
    if t.len() > 13 && seq_eq(&subvec(t, 0, 11), &vecopt)
        && seq_eq(&subvec(t, t.len() - 2, t.len()), &closetwo) {
        match prim_of_exec(&subvec(t, 11, t.len() - 2)) {
            Some(p) => {
                return Some(TypeDesc::VecOpt(p));
            }
            None => {}
        }
    }
    if t.len() > 5 && seq_eq(&subvec(t, 0, 4), &vecp) && t[t.len() - 1] == '>' {
        match prim_of_exec(&subvec(t, 4, t.len() - 1)) {
            Some(p) => {
                return Some(TypeDesc::VecOf(p));
            }
            None => {}
        }
    }
    if t.len() > 13 && seq_eq(&subvec(t, 0, 11), &optvec)
        && seq_eq(&subvec(t, t.len() - 2, t.len()), &closetwo) {
        match prim_of_exec(&subvec(t, 11, t.len() - 2)) {
            Some(p) => {
                return Some(TypeDesc::OptVec(p));
            }
            None => {}
        }
    }
    if t.len() > 8 && seq_eq(&subvec(t, 0, 7), &optp) && t[t.len() - 1] == '>' {
        match prim_of_exec(&subvec(t, 7, t.len() - 1)) {
            Some(p) => {
                return Some(TypeDesc::OptOf(p));
            }
            None => {}
        }
    }
    None
}

/// Parses a raw type-name string into its descriptor, if it is supported.
pub fn parse_type_descriptor(data_type: &str) -> (r: Option<TypeDesc>)
    ensures
        r == desc_of_raw(data_type@),
{
    let cs = crate::text::str_to_chars(data_type);
    let n = normalize_chars(&cs);
    parse_type_chars(&n)
}

} // verus!
