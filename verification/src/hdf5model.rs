//! The shape of the scientific-data preview: a tree of named nodes with a
//! kind, an optional shape, a rendered element type and an optional data
//! preview. The walk of the data file itself happens outside the library;
//! here live the pure parts — the element-type rendering and the ordering
//! of a group's children.

use crate::text::{chars_to_string, push_dec_u64, spec_dec_u64, str_to_chars};
use crate::jsonfmt::push_literal;
use vstd::multiset::Multiset;
use vstd::prelude::*;
use vstd::string::StringExecFns;

verus! {

/// The storage width of an integer element.
pub enum IntWidth {
    B8,
    B16,
    B32,
    B64,
}

/// The storage width of a floating-point element.
pub enum FloatWidth {
    B32,
    B64,
}

/// The element type of a dataset, as far as the preview reads it.
pub enum DtypeDesc {
    /// A signed integer of the given width.
    Integer(IntWidth),
    /// An unsigned integer of the given width.
    Unsigned(IntWidth),
    /// A floating-point number of the given width.
    Float(FloatWidth),
    /// A boolean.
    Boolean,
    /// An enumeration.
    Enumeration,
    /// A compound record; its fields are rendered as child nodes.
    Compound,
    /// A fixed-shape array of elements.
    FixedArray(Box<DtypeDesc>, Vec<u64>),
    /// A variable-length array of elements.
    VarLenArray(Box<DtypeDesc>),
    /// Any of the string types.
    Text,
    /// Anything else, carried as its debug rendering.
    Other(String),
}

/// The number of bits an integer width names.
pub open spec fn spec_int_bits(w: IntWidth) -> u64 {
    match w {
        IntWidth::B8 => 8,
        IntWidth::B16 => 16,
        IntWidth::B32 => 32,
        IntWidth::B64 => 64,
    }
}

/// The number of bits a float width names.
pub open spec fn spec_float_bits(w: FloatWidth) -> u64 {
    match w {
        FloatWidth::B32 => 32,
        FloatWidth::B64 => 64,
    }
}

/// The dimensions themselves, separated by `, `.
pub open spec fn spec_dims_inner(ds: Seq<u64>) -> Seq<char>
    decreases ds.len(),
{
    if ds.len() == 0 {
        Seq::empty()
    } else if ds.len() == 1 {
        spec_dec_u64(ds[0])
    } else {
        spec_dims_inner(ds.drop_last()) + ", "@ + spec_dec_u64(ds.last())
    }
}

/// The dimensions of a fixed array as a debug-style list: `[2, 3]`.
pub open spec fn spec_dims(ds: Seq<u64>) -> Seq<char> {
    "["@ + spec_dims_inner(ds) + "]"@
}

/// The rendering of an element type: `Int32`, `UInt8`, `Float64`, `Bool`,
/// `Enum`, `Compound`, `String`, `Array[2, 3] of Int16`,
/// `VarArray of Float32`, or the carried text.
pub open spec fn spec_format_dtype(d: DtypeDesc) -> Seq<char>
    decreases d,
{
    match d {
        DtypeDesc::Integer(w) => "Int"@ + spec_dec_u64(spec_int_bits(w)),
        DtypeDesc::Unsigned(w) => "UInt"@ + spec_dec_u64(spec_int_bits(w)),
        DtypeDesc::Float(w) => "Float"@ + spec_dec_u64(spec_float_bits(w)),
        DtypeDesc::Boolean => "Bool"@,
        DtypeDesc::Enumeration => "Enum"@,
        DtypeDesc::Compound => "Compound"@,
        DtypeDesc::FixedArray(ty, dims) => "Array"@ + spec_dims(dims@) + " of "@
            + spec_format_dtype(*ty),
        DtypeDesc::VarLenArray(ty) => "VarArray of "@ + spec_format_dtype(*ty),
        DtypeDesc::Text => "String"@,
        DtypeDesc::Other(s) => s@,
    }
}

fn int_bits(w: &IntWidth) -> (r: u64)
    ensures
        r == spec_int_bits(*w),
{
    match w {
        IntWidth::B8 => 8,
        IntWidth::B16 => 16,
        IntWidth::B32 => 32,
        IntWidth::B64 => 64,
    }
}

fn float_bits(w: &FloatWidth) -> (r: u64)
    ensures
        r == spec_float_bits(*w),
{
    match w {
        FloatWidth::B32 => 32,
        FloatWidth::B64 => 64,
    }
}

/// Append the debug-style dimension list of a fixed array.
fn push_dims(out: &mut Vec<char>, ds: &Vec<u64>)
    ensures
        final(out)@ == old(out)@ + spec_dims(ds@),
{
    push_literal(out, "[");
    proof {
        assert(out@ =~= old(out)@ + "["@ + spec_dims_inner(ds@.take(0int)));
    }
    let mut i: usize = 0;
    while i < ds.len()
        invariant
            i <= ds@.len(),
            out@ == old(out)@ + "["@ + spec_dims_inner(ds@.take(i as int)),
        decreases ds@.len() - i,
    {
        if i > 0 {
            push_literal(out, ", ");
        }
        push_dec_u64(out, ds[i]);
        proof {
            let taken = ds@.take(i + 1 as int);
            assert(taken.drop_last() =~= ds@.take(i as int));
            assert(taken.last() == ds@[i as int]);
            if i == 0 {
                assert(spec_dims_inner(taken) == spec_dec_u64(ds@[0]));
                assert(out@ =~= old(out)@ + "["@ + spec_dims_inner(taken));
            } else {
                assert(spec_dims_inner(taken) == spec_dims_inner(ds@.take(i as int)) + ", "@
                    + spec_dec_u64(ds@[i as int]));
                assert(out@ =~= old(out)@ + "["@ + spec_dims_inner(taken));
            }
        }
        i += 1;
    }
    push_literal(out, "]");
    proof {
        assert(ds@.take(ds@.len() as int) =~= ds@);
        assert(out@ =~= old(out)@ + spec_dims(ds@));
    }
}

fn push_format_dtype(out: &mut Vec<char>, d: &DtypeDesc)
    ensures
        final(out)@ == old(out)@ + spec_format_dtype(*d),
    decreases *d,
{
    match d {
        DtypeDesc::Integer(w) => {
            push_literal(out, "Int");
            push_dec_u64(out, int_bits(w));
        },
        DtypeDesc::Unsigned(w) => {
            push_literal(out, "UInt");
            push_dec_u64(out, int_bits(w));
        },
        DtypeDesc::Float(w) => {
            push_literal(out, "Float");
            push_dec_u64(out, float_bits(w));
        },
        DtypeDesc::Boolean => {
            push_literal(out, "Bool");
        },
        DtypeDesc::Enumeration => {
            push_literal(out, "Enum");
        },
        DtypeDesc::Compound => {
            push_literal(out, "Compound");
        },
        DtypeDesc::FixedArray(ty, dims) => {
            push_literal(out, "Array");
            push_dims(out, dims);
            push_literal(out, " of ");
            push_format_dtype(out, ty);
            assert(out@ =~= old(out)@ + spec_format_dtype(*d));
        },
        DtypeDesc::VarLenArray(ty) => {
            push_literal(out, "VarArray of ");
            push_format_dtype(out, ty);
            assert(out@ =~= old(out)@ + spec_format_dtype(*d));
        },
        DtypeDesc::Text => {
            push_literal(out, "String");
        },
        DtypeDesc::Other(s) => {
            push_literal(out, s.as_str());
        },
    }
}

/// Render an element type for the preview tree.
pub fn format_dtype(desc: &DtypeDesc) -> (r: String)
    ensures
        r@ == spec_format_dtype(*desc),
{
    let mut out: Vec<char> = Vec::new();
    push_format_dtype(&mut out, desc);
    chars_to_string(&out)
}

/// The little-endian value of a byte string, as a mathematical integer:
/// the first byte is least significant.
pub open spec fn spec_le_value(bs: Seq<u8>) -> int
    decreases bs.len(),
{
    if bs.len() == 0 {
        0
    } else {
        bs[0] + 256 * spec_le_value(bs.skip(1))
    }
}

/// Powers of 256.
pub open spec fn pow256(n: int) -> int
    decreases n,
{
    if n <= 0 {
        1
    } else {
        256 * pow256(n - 1)
    }
}

/// A little-endian value is bounded by the power of its length.
proof fn lemma_le_value_bound(bs: Seq<u8>)
    ensures
        0 <= spec_le_value(bs) < pow256(bs.len() as int),
    decreases bs.len(),
{
    if bs.len() > 0 {
        lemma_le_value_bound(bs.skip(1));
    }
}

/// Decode a little-endian unsigned value of up to eight bytes.
fn le_u64(bytes: &[u8]) -> (r: u64)
    requires
        bytes@.len() <= 8,
    ensures
        r as int == spec_le_value(bytes@),
{
    proof {
        lemma_pow256_values();
        lemma_le_value_bound(bytes@);
    }
    let mut r: u64 = 0;
    let mut i: usize = bytes.len();
    proof {
        assert(bytes@.skip(bytes@.len() as int) =~= Seq::<u8>::empty());
    }
    while i > 0
        invariant
            i <= bytes@.len() <= 8,
            r as int == spec_le_value(bytes@.skip(i as int)),
        decreases i,
    {
        proof {
            lemma_le_value_bound(bytes@.skip(i - 1 as int));
            assert(pow256(bytes@.skip(i - 1 as int).len() as int) <= pow256(8)) by {
                assert forall|a: int, b: int| 0 <= a <= b implies pow256(a) <= pow256(b) by {
                    lemma_pow256_monotone(a, b);
                }
            }
            lemma_pow256_values();
            assert(bytes@.skip(i - 1 as int).skip(1) =~= bytes@.skip(i as int));
            assert(bytes@.skip(i - 1 as int)[0] == bytes@[i - 1 as int]);
        }
        i -= 1;
        r = r * 256 + (bytes[i] as u64);
    }
    proof {
        assert(bytes@.skip(0) =~= bytes@);
    }
    r
}

/// Larger lengths give no smaller powers.
proof fn lemma_pow256_monotone(a: int, b: int)
    requires
        0 <= a <= b,
    ensures
        pow256(a) <= pow256(b),
    decreases b,
{
    if a < b {
        lemma_pow256_monotone(a, b - 1);
        lemma_pow256_positive(b - 1);
    }
}

/// The powers of 256 the decoders need, spelled out.
proof fn lemma_pow256_values()
    ensures
        pow256(1) == 0x100,
        pow256(2) == 0x10000,
        pow256(4) == 0x100000000,
        pow256(8) == 0x10000000000000000,
{
    reveal_with_fuel(pow256, 9);
}

proof fn lemma_pow256_positive(n: int)
    ensures
        pow256(n) >= 1,
    decreases n,
{
    if n > 0 {
        lemma_pow256_positive(n - 1);
    }
}

/// The signed reading of an unsigned value of the given width, by two's
/// complement.
pub open spec fn spec_signed(w: IntWidth, u: u64) -> int {
    match w {
        IntWidth::B8 => if u < 0x80 {
            u as int
        } else {
            u - 0x100
        },
        IntWidth::B16 => if u < 0x8000 {
            u as int
        } else {
            u - 0x10000
        },
        IntWidth::B32 => if u < 0x80000000 {
            u as int
        } else {
            u - 0x100000000
        },
        IntWidth::B64 => if u < 0x8000000000000000 {
            u as int
        } else {
            u - 0x10000000000000000
        },
    }
}

fn signed_value(w: &IntWidth, u: u64) -> (r: i64)
    requires
        u < pow256(spec_int_bits(*w) as int / 8),
    ensures
        r as int == spec_signed(*w, u),
{
    proof {
        lemma_pow256_values();
    }
    match w {
        IntWidth::B8 => {
            if u < 0x80 {
                u as i64
            } else {
                (u as i64) - 0x100
            }
        },
        IntWidth::B16 => {
            if u < 0x8000 {
                u as i64
            } else {
                (u as i64) - 0x10000
            }
        },
        IntWidth::B32 => {
            if u < 0x80000000 {
                u as i64
            } else {
                (u as i64) - 0x100000000
            }
        },
        IntWidth::B64 => {
            if u < 0x8000000000000000 {
                u as i64
            } else {
                (((u as i128) - 0x10000000000000000i128) as i64)
            }
        },
    }
}

/// A byte string with its trailing zero bytes dropped, as fixed-width
/// string cells are padded.
pub open spec fn spec_trim_nul(bs: Seq<u8>) -> Seq<u8>
    decreases bs.len(),
{
    if bs.len() > 0 && bs.last() == 0 {
        spec_trim_nul(bs.drop_last())
    } else {
        bs
    }
}

/// Trailing zero padding runs exactly back to the last non-zero byte.
proof fn lemma_trim_nul_at(bs: Seq<u8>, hi: int)
    requires
        0 <= hi <= bs.len(),
        forall|j: int| hi <= j < bs.len() ==> bs[j] == 0,
        hi > 0 ==> bs[hi - 1] != 0,
    ensures
        spec_trim_nul(bs) == bs.take(hi),
    decreases bs.len(),
{
    if hi == bs.len() {
        assert(bs.take(hi) =~= bs);
    } else {
        lemma_trim_nul_at(bs.drop_last(), hi);
        assert(bs.drop_last().take(hi) =~= bs.take(hi));
    }
}

/// Drop the trailing zero padding of a fixed-width string cell.
fn trim_nul_bytes(bytes: &[u8]) -> (r: Vec<u8>)
    ensures
        r@ == spec_trim_nul(bytes@),
{
    let mut hi: usize = bytes.len();
    while hi > 0 && bytes[hi - 1] == 0
        invariant
            hi <= bytes@.len(),
            forall|j: int| hi <= j < bytes@.len() ==> bytes@[j] == 0,
        decreases hi,
    {
        hi -= 1;
    }
    let mut out: Vec<u8> = Vec::new();
    let mut i: usize = 0;
    while i < hi
        invariant
            i <= hi <= bytes@.len(),
            out@ == bytes@.take(i as int),
        decreases hi - i,
    {
        out.push(bytes[i]);
        proof {
            assert(bytes@.take(i + 1 as int) =~= bytes@.take(i as int).push(bytes@[i as int]));
        }
        i += 1;
    }
    proof {
        lemma_trim_nul_at(bytes@, hi as int);
    }
    out
}

/// One decoded cell of a dataset or of a compound field. Floating-point
/// cells are carried as their raw bit patterns and rendered by the caller;
/// string cells are carried as their bytes with the zero padding dropped.
pub enum FieldValue {
    /// A signed integer, sign-extended from its stored width.
    Int(i64),
    /// An unsigned integer.
    UInt(u64),
    /// The bits of a 32-bit floating-point number.
    FloatBits32(u32),
    /// The bits of a 64-bit floating-point number.
    FloatBits64(u64),
    /// A boolean: any non-zero byte is true.
    Bool(bool),
    /// The bytes of a fixed-width string cell, padding dropped.
    Text(Vec<u8>),
    /// A cell of a type the preview does not decode.
    Unsupported,
}

/// Decode one cell from its raw little-endian bytes.
///
/// Integers, unsigned integers and floats ask for exactly their stored
/// width and decode little-endian, integers sign-extending; a boolean asks
/// for one byte, true exactly when it is non-zero; the string types take
/// any width and drop their zero padding; every other type, and every
/// mismatched width, is unsupported.
pub fn decode_field(bytes: &[u8], ty: &DtypeDesc) -> (r: FieldValue)
    ensures
        match *ty {
            DtypeDesc::Integer(w) => if bytes@.len() * 8 == spec_int_bits(w) {
                r matches FieldValue::Int(v) && v as int == spec_signed(
                    w,
                    spec_le_value(bytes@) as u64,
                )
            } else {
                r is Unsupported
            },
            DtypeDesc::Unsigned(w) => if bytes@.len() * 8 == spec_int_bits(w) {
                r matches FieldValue::UInt(v) && v as int == spec_le_value(bytes@)
            } else {
                r is Unsupported
            },
            DtypeDesc::Float(w) => if bytes@.len() * 8 == spec_float_bits(w) {
                if w is B32 {
                    r matches FieldValue::FloatBits32(v) && v as int == spec_le_value(bytes@)
                } else {
                    r matches FieldValue::FloatBits64(v) && v as int == spec_le_value(bytes@)
                }
            } else {
                r is Unsupported
            },
            DtypeDesc::Boolean => if bytes@.len() == 1 {
                r == FieldValue::Bool(bytes@[0] != 0)
            } else {
                r is Unsupported
            },
            DtypeDesc::Text => r matches FieldValue::Text(t) && t@ == spec_trim_nul(bytes@),
            _ => r is Unsupported,
        },
{
    match ty {
        DtypeDesc::Integer(w) => {
            let nb = int_bits(w) / 8;
            if bytes.len() as u64 == nb {
                let u = le_u64(bytes);
                proof {
                    lemma_le_value_bound(bytes@);
                }
                FieldValue::Int(signed_value(w, u))
            } else {
                FieldValue::Unsupported
            }
        },
        DtypeDesc::Unsigned(w) => {
            let nb = int_bits(w) / 8;
            if bytes.len() as u64 == nb {
                FieldValue::UInt(le_u64(bytes))
            } else {
                FieldValue::Unsupported
            }
        },
        DtypeDesc::Float(w) => {
            let nb = float_bits(w) / 8;
            if bytes.len() as u64 == nb {
                let u = le_u64(bytes);
                proof {
                    lemma_le_value_bound(bytes@);
                    lemma_pow256_values();
                }
                match w {
                    FloatWidth::B32 => FieldValue::FloatBits32(u as u32),
                    FloatWidth::B64 => FieldValue::FloatBits64(u),
                }
            } else {
                FieldValue::Unsupported
            }
        },
        DtypeDesc::Boolean => {
            if bytes.len() == 1 {
                FieldValue::Bool(bytes[0] != 0)
            } else {
                FieldValue::Unsupported
            }
        },
        DtypeDesc::Text => FieldValue::Text(trim_nul_bytes(bytes)),
        _ => FieldValue::Unsupported,
    }
}

/// One field's slice of a record: its bytes when the range lies within
/// the record, nothing when the stored layout says otherwise.
pub fn field_slice(record: &[u8], offset: usize, size: usize) -> (r: Option<Vec<u8>>)
    ensures
        match r {
            Some(bytes) => offset + size <= record@.len() && bytes@ == record@.subrange(
                offset as int,
                offset + size,
            ),
            None => offset + size > record@.len(),
        },
{
    if size > record.len() || offset > record.len() - size {
        return None;
    }
    let slice = vstd::slice::slice_subrange(record, offset, offset + size);
    Some(vstd::slice::slice_to_vec(slice))
}

/// What a preview node is.
pub enum NodeKind {
    /// A group holding children.
    Group,
    /// A dataset.
    Dataset,
    /// One field of a compound dataset.
    Field,
    /// Anything the walk could not classify.
    Unknown,
}

/// One node of the preview tree.
pub struct Hdf5Node {
    /// The node's name within its parent.
    pub name: String,
    /// What the node is.
    pub kind: NodeKind,
    /// Child nodes: a group's members, or a compound dataset's fields.
    pub children: Option<Vec<Hdf5Node>>,
    /// A dataset's dimensions.
    pub shape: Option<Vec<u64>>,
    /// The rendered element type.
    pub dtype: Option<String>,
    /// A small rendered preview of the data.
    pub data_preview: Option<String>,
}

/// The query of a preview request.
pub struct Hdf5PreviewQuery {
    /// The root-relative path of the data file.
    pub path: String,
    /// How many elements to preview; a small default applies.
    pub data_limit: Option<usize>,
}

/// The rank a node's kind sorts by: groups first, then datasets, then
/// fields, then everything else.
pub open spec fn kind_rank(k: NodeKind) -> int {
    match k {
        NodeKind::Group => 0,
        NodeKind::Dataset => 1,
        NodeKind::Field => 2,
        NodeKind::Unknown => 3,
    }
}

/// Lexicographic order on texts, by code point.
pub open spec fn lex_le(a: Seq<char>, b: Seq<char>) -> bool
    decreases a.len(),
{
    if a.len() == 0 {
        true
    } else if b.len() == 0 {
        false
    } else if (a[0] as u32) < (b[0] as u32) {
        true
    } else if (a[0] as u32) > (b[0] as u32) {
        false
    } else {
        lex_le(a.skip(1), b.skip(1))
    }
}

/// The order of the preview tree: by kind rank, then by name.
pub open spec fn node_le(a: Hdf5Node, b: Hdf5Node) -> bool {
    kind_rank(a.kind) < kind_rank(b.kind) || (kind_rank(a.kind) == kind_rank(b.kind) && lex_le(
        a.name@,
        b.name@,
    ))
}

/// A node sequence is sorted under the tree order.
pub open spec fn nodes_sorted(s: Seq<Hdf5Node>) -> bool {
    forall|i: int, j: int| 0 <= i < j < s.len() ==> node_le(#[trigger] s[i], #[trigger] s[j])
}

/// The order is total.
proof fn lemma_lex_le_total(a: Seq<char>, b: Seq<char>)
    ensures
        lex_le(a, b) || lex_le(b, a),
    decreases a.len(),
{
    if a.len() > 0 && b.len() > 0 && (a[0] as u32) == (b[0] as u32) {
        lemma_lex_le_total(a.skip(1), b.skip(1));
    }
}

/// The order is transitive.
proof fn lemma_lex_le_trans(a: Seq<char>, b: Seq<char>, c: Seq<char>)
    requires
        lex_le(a, b),
        lex_le(b, c),
    ensures
        lex_le(a, c),
    decreases a.len(),
{
    if a.len() > 0 && b.len() > 0 && c.len() > 0 && (a[0] as u32) == (b[0] as u32) && (b[0] as u32)
        == (c[0] as u32) {
        lemma_lex_le_trans(a.skip(1), b.skip(1), c.skip(1));
    }
}

proof fn lemma_node_le_total(a: Hdf5Node, b: Hdf5Node)
    ensures
        node_le(a, b) || node_le(b, a),
{
    if kind_rank(a.kind) == kind_rank(b.kind) {
        lemma_lex_le_total(a.name@, b.name@);
    }
}

proof fn lemma_node_le_trans(a: Hdf5Node, b: Hdf5Node, c: Hdf5Node)
    requires
        node_le(a, b),
        node_le(b, c),
    ensures
        node_le(a, c),
{
    if kind_rank(a.kind) == kind_rank(b.kind) && kind_rank(b.kind) == kind_rank(c.kind) {
        lemma_lex_le_trans(a.name@, b.name@, c.name@);
    }
}

/// Lexicographic comparison of two texts.
fn lex_le_chars(a: &Vec<char>, b: &Vec<char>) -> (r: bool)
    ensures
        r == lex_le(a@, b@),
{
    proof {
        assert(a@.skip(0) =~= a@);
        assert(b@.skip(0) =~= b@);
    }
    let mut i: usize = 0;
    while i < a.len() && i < b.len()
        invariant
            i <= a@.len() && i <= b@.len(),
            lex_le(a@, b@) == lex_le(a@.skip(i as int), b@.skip(i as int)),
            lex_le(b@, a@) == lex_le(b@.skip(i as int), a@.skip(i as int)),
        decreases a@.len() - i,
    {
        let ca = a[i] as u32;
        let cb = b[i] as u32;
        if ca < cb {
            return true;
        }
        if ca > cb {
            return false;
        }
        proof {
            assert(a@.skip(i as int).skip(1) =~= a@.skip(i + 1 as int));
            assert(b@.skip(i as int).skip(1) =~= b@.skip(i + 1 as int));
        }
        i += 1;
    }
    if i >= a.len() {
        proof {
            assert(a@.skip(i as int).len() == 0);
        }
        return true;
    }
    proof {
        assert(a@.skip(i as int).len() > 0);
        assert(b@.skip(i as int).len() == 0);
    }
    false
}

fn kind_rank_of(k: &NodeKind) -> (r: u8)
    ensures
        r as int == kind_rank(*k),
{
    match k {
        NodeKind::Group => 0,
        NodeKind::Dataset => 1,
        NodeKind::Field => 2,
        NodeKind::Unknown => 3,
    }
}

/// Whether `a` comes no later than `b` in the tree order.
fn node_le_exec(a: &Hdf5Node, b: &Hdf5Node) -> (r: bool)
    ensures
        r == node_le(*a, *b),
{
    let ra = kind_rank_of(&a.kind);
    let rb = kind_rank_of(&b.kind);
    if ra < rb {
        return true;
    }
    if ra > rb {
        return false;
    }
    let na = str_to_chars(a.name.as_str());
    let nb = str_to_chars(b.name.as_str());
    lex_le_chars(&na, &nb)
}

/// Order a group's children for the preview tree: groups before datasets
/// before fields before anything else, and by name within a kind. The
/// result holds exactly the given nodes; equal nodes keep their order.
pub fn sort_nodes(nodes: Vec<Hdf5Node>) -> (r: Vec<Hdf5Node>)
    ensures
        nodes_sorted(r@),
        r@.to_multiset() == nodes@.to_multiset(),
{

    broadcast use vstd::seq_lib::group_to_multiset_ensures;
    broadcast use vstd::multiset::group_multiset_axioms;

    let ghost orig: Seq<Hdf5Node> = nodes@;
    let mut rest = nodes;
    let mut out: Vec<Hdf5Node> = Vec::new();
    proof {
        assert(out@.to_multiset() =~= Multiset::<Hdf5Node>::empty());
        assert(out@.to_multiset().add(rest@.to_multiset()) =~= orig.to_multiset());
    }
    while rest.len() > 0
        invariant
            nodes_sorted(out@),
            forall|i: int, j: int|
                0 <= i < out@.len() && 0 <= j < rest@.len() ==> node_le(
                    #[trigger] out@[i],
                    #[trigger] rest@[j],
                ),
            out@.to_multiset().add(rest@.to_multiset()) == orig.to_multiset(),
        decreases rest@.len(),
    {
        broadcast use vstd::seq_lib::group_to_multiset_ensures;
        broadcast use vstd::multiset::group_multiset_axioms;

        let mut m: usize = 0;
        let mut k: usize = 1;
        proof {
            lemma_node_le_total(rest@[0], rest@[0]);
        }
        while k < rest.len()
            invariant
                m < k <= rest@.len(),
                rest@.len() > 0,
                forall|j: int| 0 <= j < k ==> node_le(rest@[m as int], #[trigger] rest@[j]),
            decreases rest@.len() - k,
        {
            let smaller = !node_le_exec(&rest[m], &rest[k]);
            if smaller {
                proof {
                    lemma_node_le_total(rest@[m as int], rest@[k as int]);
                    lemma_node_le_total(rest@[k as int], rest@[k as int]);
                    assert forall|j: int| 0 <= j < k implies node_le(
                        rest@[k as int],
                        #[trigger] rest@[j],
                    ) by {
                        lemma_node_le_trans(rest@[k as int], rest@[m as int], rest@[j]);
                    }
                }
                m = k;
            }
            k += 1;
        }
        let ghost rest_before: Seq<Hdf5Node> = rest@;
        let e = rest.remove(m);
        proof {
            assert(e == rest_before[m as int]);
            assert(rest@ == rest_before.remove(m as int));
            assert(rest@.to_multiset() =~= rest_before.to_multiset().remove(e));
            assert(rest_before.to_multiset().count(e) > 0);
        }
        let ghost out_before: Seq<Hdf5Node> = out@;
        out.push(e);
        proof {
            assert(out@ == out_before.push(e));
            assert(out@.to_multiset() =~= out_before.to_multiset().insert(e));
            assert(out@.to_multiset().add(rest@.to_multiset()) =~= orig.to_multiset());
            // the pushed minimum keeps the output sorted
            assert forall|i: int, j: int| 0 <= i < j < out@.len() implies node_le(
                #[trigger] out@[i],
                #[trigger] out@[j],
            ) by {
                if j == out@.len() - 1 {
                    assert(out@[i] == out_before[i]);
                    assert(node_le(out_before[i], rest_before[m as int]));
                } else {
                    assert(out@[i] == out_before[i] && out@[j] == out_before[j]);
                }
            }
            // everything still unsorted is at or after the minimum
            assert forall|i: int, j: int|
                0 <= i < out@.len() && 0 <= j < rest@.len() implies node_le(
                #[trigger] out@[i],
                #[trigger] rest@[j],
            ) by {
                let oldj = if j < m as int {
                    j
                } else {
                    j + 1
                };
                assert(rest@[j] == rest_before[oldj]);
                if i == out@.len() - 1 {
                    assert(node_le(rest_before[m as int], rest_before[oldj]));
                } else {
                    assert(out@[i] == out_before[i]);
                    assert(node_le(out_before[i], rest_before[oldj]));
                }
            }
        }
    }
    out
}

} // verus!
