//! The literal serializer: native typed values rendered as WGSL source text.
//!
//! A type usable as a macro value implements [`WGSLType`]: it names its WGSL
//! type, optionally supplies a declaration (the full type definition, for
//! aggregate types), and renders any of its values as a WGSL literal
//! expression. The scalar types `u32`, `i32` and `bool` are built in;
//! aggregate record types implement the trait explicitly, usually through
//! [`struct_declaration`] and [`struct_definition`].

use vstd::prelude::*;

use crate::number::{dec_int_rep, dec_rep, render_i32, render_u64};
use crate::text::chars_string;

verus! {

/// A native type that can be written out as WGSL source text.
///
/// The three specification members say what the three methods return; they
/// default to the empty text so that implementations outside verified code
/// need not name them.
pub trait WGSLType {
    /// The WGSL name of the type.
    open spec fn spec_wgsl_type_name() -> Seq<char> {
        Seq::empty()
    }

    /// The WGSL declaration of the type; empty for builtin types.
    open spec fn spec_declaration() -> Seq<char> {
        Seq::empty()
    }

    /// The WGSL literal expression for one value of the type.
    open spec fn spec_definition(&self) -> Seq<char> {
        Seq::empty()
    }

    /// Returns the name of the type in WGSL syntax.
    fn wgsl_type_name() -> (r: String)
        ensures
            r@ == Self::spec_wgsl_type_name(),
    ;

    /// Returns the statement declaring the type in WGSL syntax; the empty
    /// string for types WGSL already knows.
    fn declaration() -> (r: String)
        ensures
            r@ == Self::spec_declaration(),
    ;

    /// Returns a string that creates an instance of the type in WGSL syntax.
    fn string_definition(&self) -> (r: String)
        ensures
            r@ == self.spec_definition(),
    ;
}

impl WGSLType for u32 {
    open spec fn spec_wgsl_type_name() -> Seq<char> {
        "u32"@
    }

    open spec fn spec_declaration() -> Seq<char> {
        Seq::empty()
    }

    /// An unsigned scalar renders with a `u` suffix.
    open spec fn spec_definition(&self) -> Seq<char> {
        dec_rep(*self as nat).push('u')
    }

    fn wgsl_type_name() -> (r: String) {
        "u32".to_owned()
    }

    fn declaration() -> (r: String) {
        String::new()
    }

    fn string_definition(&self) -> (r: String) {
        let mut v = render_u64(*self as u64);
        v.push('u');
        chars_string(&v)
    }
}

impl WGSLType for i32 {
    open spec fn spec_wgsl_type_name() -> Seq<char> {
        "i32"@
    }

    open spec fn spec_declaration() -> Seq<char> {
        Seq::empty()
    }

    /// A signed scalar renders as its natural decimal text.
    open spec fn spec_definition(&self) -> Seq<char> {
        dec_int_rep(*self as int)
    }

    fn wgsl_type_name() -> (r: String) {
        "i32".to_owned()
    }

    fn declaration() -> (r: String) {
        String::new()
    }

    fn string_definition(&self) -> (r: String) {
        let v = render_i32(*self);
        chars_string(&v)
    }
}

impl WGSLType for bool {
    open spec fn spec_wgsl_type_name() -> Seq<char> {
        "bool"@
    }

    open spec fn spec_declaration() -> Seq<char> {
        Seq::empty()
    }

    open spec fn spec_definition(&self) -> Seq<char> {
        if *self {
            "true"@
        } else {
            "false"@
        }
    }

    fn wgsl_type_name() -> (r: String) {
        "bool".to_owned()
    }

    fn declaration() -> (r: String) {
        String::new()
    }

    fn string_definition(&self) -> (r: String) {
        if *self {
            "true".to_owned()
        } else {
            "false".to_owned()
        }
    }
}

/// The definition text of a fixed-size vector value: the vector type name,
/// then the components' decimal texts joined by `, `.
pub open spec fn spec_vector_text(vector_type: Seq<char>, parts: Seq<Seq<char>>) -> Seq<char> {
    vector_type + "("@ + comma_joined(parts, 0) + ")"@
}

/// Builds a vector literal from the rendered components.
fn vector_text(vector_type: &str, parts: &Vec<Vec<char>>) -> (r: String)
    ensures
        r@ == spec_vector_text(vector_type@, crate::text::texts_view(parts@)),
{
    let ghost ps = crate::text::texts_view(parts@);
    let mut out: Vec<char> = Vec::new();
    append_str(&mut out, vector_type);
    append_str(&mut out, "(");
    let ghost head = out@;
    let mut k: usize = 0;
    while k < parts.len()
        invariant
            k <= parts@.len(),
            ps == crate::text::texts_view(parts@),
            ps.len() == parts@.len(),
            head + comma_joined(ps, 0) == out@ + comma_joined(ps, k as int),
        decreases parts@.len() - k,
    {
        proof {
            assert(ps[k as int] == parts@[k as int]@);
        }
        crate::text::append_chars(&mut out, &parts[k]);
        if k + 1 < parts.len() {
            append_str(&mut out, ", ");
        }
        k = k + 1;
    }
    append_str(&mut out, ")");
    proof {
        assert(out@ =~= spec_vector_text(vector_type@, ps));
    }
    chars_string(&out)
}

/// The decimal texts of unsigned components.
pub open spec fn u32_parts(s: Seq<u32>) -> Seq<Seq<char>> {
    s.map_values(|v: u32| dec_rep(v as nat))
}

/// The decimal texts of signed components.
pub open spec fn i32_parts(s: Seq<i32>) -> Seq<Seq<char>> {
    s.map_values(|v: i32| dec_int_rep(v as int))
}

/// The texts of boolean components.
pub open spec fn bool_parts(s: Seq<bool>) -> Seq<Seq<char>> {
    s.map_values(|v: bool| if v { "true"@ } else { "false"@ })
}

/// Renders unsigned components in decimal.
fn render_u32_parts<const N: usize>(a: &[u32; N]) -> (r: Vec<Vec<char>>)
    ensures
        crate::text::texts_view(r@) == u32_parts(a@),
{
    let mut r: Vec<Vec<char>> = Vec::new();
    let mut k: usize = 0;
    while k < N
        invariant
            k <= N,
            a@.len() == N,
            r@.len() == k,
            forall|j: int| 0 <= j < k ==> #[trigger] r@[j]@ == dec_rep(a@[j] as nat),
        decreases N - k,
    {
        r.push(render_u64(a[k] as u64));
        k = k + 1;
    }
    proof {
        assert(crate::text::texts_view(r@) =~= u32_parts(a@));
    }
    r
}

/// Renders signed components in decimal.
fn render_i32_parts<const N: usize>(a: &[i32; N]) -> (r: Vec<Vec<char>>)
    ensures
        crate::text::texts_view(r@) == i32_parts(a@),
{
    let mut r: Vec<Vec<char>> = Vec::new();
    let mut k: usize = 0;
    while k < N
        invariant
            k <= N,
            a@.len() == N,
            r@.len() == k,
            forall|j: int| 0 <= j < k ==> #[trigger] r@[j]@ == dec_int_rep(a@[j] as int),
        decreases N - k,
    {
        r.push(render_i32(a[k]));
        k = k + 1;
    }
    proof {
        assert(crate::text::texts_view(r@) =~= i32_parts(a@));
    }
    r
}

/// Renders boolean components.
fn render_bool_parts<const N: usize>(a: &[bool; N]) -> (r: Vec<Vec<char>>)
    ensures
        crate::text::texts_view(r@) == bool_parts(a@),
{
    let mut r: Vec<Vec<char>> = Vec::new();
    let mut k: usize = 0;
    while k < N
        invariant
            k <= N,
            a@.len() == N,
            r@.len() == k,
            forall|j: int| 0 <= j < k ==> #[trigger] r@[j]@ == (if a@[j] {
                "true"@
            } else {
                "false"@
            }),
        decreases N - k,
    {
        if a[k] {
            r.push(crate::text::str_chars("true"));
        } else {
            r.push(crate::text::str_chars("false"));
        }
        k = k + 1;
    }
    proof {
        assert(crate::text::texts_view(r@) =~= bool_parts(a@));
    }
    r
}

impl WGSLType for [u32; 2] {
    open spec fn spec_wgsl_type_name() -> Seq<char> {
        "vec2<u32>"@
    }

    open spec fn spec_definition(&self) -> Seq<char> {
        spec_vector_text("vec2<u32>"@, u32_parts(self@))
    }

    fn wgsl_type_name() -> (r: String) {
        "vec2<u32>".to_owned()
    }

    fn declaration() -> (r: String) {
        String::new()
    }

    fn string_definition(&self) -> (r: String) {
        vector_text("vec2<u32>", &render_u32_parts(self))
    }
}

impl WGSLType for [u32; 3] {
    open spec fn spec_wgsl_type_name() -> Seq<char> {
        "vec3<u32>"@
    }

    open spec fn spec_definition(&self) -> Seq<char> {
        spec_vector_text("vec3<u32>"@, u32_parts(self@))
    }

    fn wgsl_type_name() -> (r: String) {
        "vec3<u32>".to_owned()
    }

    fn declaration() -> (r: String) {
        String::new()
    }

    fn string_definition(&self) -> (r: String) {
        vector_text("vec3<u32>", &render_u32_parts(self))
    }
}

impl WGSLType for [u32; 4] {
    open spec fn spec_wgsl_type_name() -> Seq<char> {
        "vec4<u32>"@
    }

    open spec fn spec_definition(&self) -> Seq<char> {
        spec_vector_text("vec4<u32>"@, u32_parts(self@))
    }

    fn wgsl_type_name() -> (r: String) {
        "vec4<u32>".to_owned()
    }

    fn declaration() -> (r: String) {
        String::new()
    }

    fn string_definition(&self) -> (r: String) {
        vector_text("vec4<u32>", &render_u32_parts(self))
    }
}

impl WGSLType for [i32; 2] {
    open spec fn spec_wgsl_type_name() -> Seq<char> {
        "vec2<i32>"@
    }

    open spec fn spec_definition(&self) -> Seq<char> {
        spec_vector_text("vec2<i32>"@, i32_parts(self@))
    }

    fn wgsl_type_name() -> (r: String) {
        "vec2<i32>".to_owned()
    }

    fn declaration() -> (r: String) {
        String::new()
    }

    fn string_definition(&self) -> (r: String) {
        vector_text("vec2<i32>", &render_i32_parts(self))
    }
}

impl WGSLType for [i32; 3] {
    open spec fn spec_wgsl_type_name() -> Seq<char> {
        "vec3<i32>"@
    }

    open spec fn spec_definition(&self) -> Seq<char> {
        spec_vector_text("vec3<i32>"@, i32_parts(self@))
    }

    fn wgsl_type_name() -> (r: String) {
        "vec3<i32>".to_owned()
    }

    fn declaration() -> (r: String) {
        String::new()
    }

    fn string_definition(&self) -> (r: String) {
        vector_text("vec3<i32>", &render_i32_parts(self))
    }
}

impl WGSLType for [i32; 4] {
    open spec fn spec_wgsl_type_name() -> Seq<char> {
        "vec4<i32>"@
    }

    open spec fn spec_definition(&self) -> Seq<char> {
        spec_vector_text("vec4<i32>"@, i32_parts(self@))
    }

    fn wgsl_type_name() -> (r: String) {
        "vec4<i32>".to_owned()
    }

    fn declaration() -> (r: String) {
        String::new()
    }

    fn string_definition(&self) -> (r: String) {
        vector_text("vec4<i32>", &render_i32_parts(self))
    }
}

impl WGSLType for [bool; 2] {
    open spec fn spec_wgsl_type_name() -> Seq<char> {
        "vec2<bool>"@
    }

    open spec fn spec_definition(&self) -> Seq<char> {
        spec_vector_text("vec2<bool>"@, bool_parts(self@))
    }

    fn wgsl_type_name() -> (r: String) {
        "vec2<bool>".to_owned()
    }

    fn declaration() -> (r: String) {
        String::new()
    }

    fn string_definition(&self) -> (r: String) {
        vector_text("vec2<bool>", &render_bool_parts(self))
    }
}

impl WGSLType for [bool; 3] {
    open spec fn spec_wgsl_type_name() -> Seq<char> {
        "vec3<bool>"@
    }

    open spec fn spec_definition(&self) -> Seq<char> {
        spec_vector_text("vec3<bool>"@, bool_parts(self@))
    }

    fn wgsl_type_name() -> (r: String) {
        "vec3<bool>".to_owned()
    }

    fn declaration() -> (r: String) {
        String::new()
    }

    fn string_definition(&self) -> (r: String) {
        vector_text("vec3<bool>", &render_bool_parts(self))
    }
}

impl WGSLType for [bool; 4] {
    open spec fn spec_wgsl_type_name() -> Seq<char> {
        "vec4<bool>"@
    }

    open spec fn spec_definition(&self) -> Seq<char> {
        spec_vector_text("vec4<bool>"@, bool_parts(self@))
    }

    fn wgsl_type_name() -> (r: String) {
        "vec4<bool>".to_owned()
    }

    fn declaration() -> (r: String) {
        String::new()
    }

    fn string_definition(&self) -> (r: String) {
        vector_text("vec4<bool>", &render_bool_parts(self))
    }
}

/// The definition texts of the values in `ds` from index `k` on, each
/// followed by a comma (the last element keeps its trailing comma).
pub open spec fn joined_definitions(ds: Seq<Seq<char>>, k: int) -> Seq<char>
    decreases ds.len() - k
        when 0 <= k <= ds.len()
{
    if k >= ds.len() {
        Seq::empty()
    } else {
        ds[k] + seq![','] + joined_definitions(ds, k + 1)
    }
}

/// The macro value synthesized for a fixed-size array: the element type
/// name, the element count, and every element's definition text.
pub open spec fn spec_array_text(elem_type: Seq<char>, ds: Seq<Seq<char>>) -> Seq<char> {
    "array<"@ + elem_type + ", "@ + dec_rep(ds.len()) + ">("@ + joined_definitions(ds, 0) + ");"@
}

/// The definition texts of the fields of a struct value, joined by `, `.
pub open spec fn comma_joined(ds: Seq<Seq<char>>, k: int) -> Seq<char>
    decreases ds.len() - k
        when 0 <= k <= ds.len()
{
    if k >= ds.len() {
        Seq::empty()
    } else if k + 1 == ds.len() {
        ds[k]
    } else {
        ds[k] + ", "@ + comma_joined(ds, k + 1)
    }
}

/// The concatenation of the sequences in `ds` from index `k` on.
pub open spec fn concatenated(ds: Seq<Seq<char>>, k: int) -> Seq<char>
    decreases ds.len() - k
        when 0 <= k <= ds.len()
{
    if k >= ds.len() {
        Seq::empty()
    } else {
        ds[k] + concatenated(ds, k + 1)
    }
}

/// The declaration text of a record type: its name and the WGSL type names
/// of its fields, concatenated in declaration order.
pub open spec fn spec_struct_declaration(name: Seq<char>, field_types: Seq<Seq<char>>) -> Seq<
    char,
> {
    "struct "@ + name + " {"@ + concatenated(field_types, 0) + "};"@
}

/// The definition text of a record value: its type name and its fields'
/// definition texts in declaration order.
pub open spec fn spec_struct_definition(name: Seq<char>, field_defs: Seq<Seq<char>>) -> Seq<
    char,
> {
    name + "("@ + comma_joined(field_defs, 0) + ")"@
}

/// Appends the text of `s` to `out`.
fn append_str(out: &mut Vec<char>, s: &str)
    ensures
        final(out)@ == old(out)@ + s@,
{
    let chars = crate::text::str_chars(s);
    crate::text::append_chars(out, &chars);
}

/// The views of a vector of strings.
pub open spec fn strings_view(ds: Seq<String>) -> Seq<Seq<char>> {
    ds.map_values(|d: String| d@)
}

/// Builds the declaration statement of a record type from its name and its
/// fields' WGSL type names, in declaration order.
pub fn struct_declaration(name: &str, field_types: &Vec<String>) -> (r: String)
    ensures
        r@ == spec_struct_declaration(name@, strings_view(field_types@)),
{
    let ghost fts = strings_view(field_types@);
    let mut out: Vec<char> = Vec::new();
    append_str(&mut out, "struct ");
    append_str(&mut out, name);
    append_str(&mut out, " {");
    let ghost head = out@;
    let mut k: usize = 0;
    while k < field_types.len()
        invariant
            k <= field_types@.len(),
            fts == strings_view(field_types@),
            fts.len() == field_types@.len(),
            head + concatenated(fts, 0) == out@ + concatenated(fts, k as int),
        decreases field_types@.len() - k,
    {
        proof {
            assert(fts[k as int] == field_types@[k as int]@);
        }
        append_str(&mut out, field_types[k].as_str());
        k = k + 1;
    }
    append_str(&mut out, "};");
    proof {
        assert(out@ =~= spec_struct_declaration(name@, fts));
    }
    chars_string(&out)
}

/// Builds the literal expression of a record value from its type name and
/// its fields' definition texts, in declaration order, joined by `, `.
pub fn struct_definition(name: &str, field_defs: &Vec<String>) -> (r: String)
    ensures
        r@ == spec_struct_definition(name@, strings_view(field_defs@)),
{
    let ghost fds = strings_view(field_defs@);
    let mut out: Vec<char> = Vec::new();
    append_str(&mut out, name);
    append_str(&mut out, "(");
    let ghost head = out@;
    let mut k: usize = 0;
    while k < field_defs.len()
        invariant
            k <= field_defs@.len(),
            fds == strings_view(field_defs@),
            fds.len() == field_defs@.len(),
            head + comma_joined(fds, 0) == out@ + comma_joined(fds, k as int),
        decreases field_defs@.len() - k,
    {
        proof {
            assert(fds[k as int] == field_defs@[k as int]@);
        }
        append_str(&mut out, field_defs[k].as_str());
        if k + 1 < field_defs.len() {
            append_str(&mut out, ", ");
        }
        k = k + 1;
    }
    append_str(&mut out, ")");
    proof {
        assert(out@ =~= spec_struct_definition(name@, fds));
    }
    chars_string(&out)
}

/// Builds the macro value for a fixed-size array of values of one type: the
/// array type, then each element's definition text with a trailing comma.
pub fn array_definition_text<T: WGSLType>(array: &Vec<T>) -> (r: Vec<char>)
    ensures
        r@ == spec_array_text(
            T::spec_wgsl_type_name(),
            array@.map_values(|v: T| v.spec_definition()),
        ),
{
    let ghost ds = array@.map_values(|v: T| v.spec_definition());
    let mut out: Vec<char> = Vec::new();
    append_str(&mut out, "array<");
    let tn = T::wgsl_type_name();
    append_str(&mut out, tn.as_str());
    append_str(&mut out, ", ");
    let count = render_u64(array.len() as u64);
    crate::text::append_chars(&mut out, &count);
    append_str(&mut out, ">(");
    let ghost head = out@;
    let mut k: usize = 0;
    while k < array.len()
        invariant
            k <= array@.len(),
            ds == array@.map_values(|v: T| v.spec_definition()),
            ds.len() == array@.len(),
            head + joined_definitions(ds, 0) == out@ + joined_definitions(ds, k as int),
        decreases array@.len() - k,
    {
        proof {
            assert(ds[k as int] == array@[k as int].spec_definition());
        }
        let d = array[k].string_definition();
        append_str(&mut out, d.as_str());
        out.push(',');
        k = k + 1;
    }
    append_str(&mut out, ");");
    proof {
        assert(out@ =~= spec_array_text(T::spec_wgsl_type_name(), ds));
    }
    out
}

} // verus!
