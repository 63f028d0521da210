//! Comparison kernels over arrays: `==`, `!=`, `<`, `<=`, `>`, `>=`
//! between two arrays of one logical type, and between an array and a
//! scalar. Results are boolean arrays whose validity is the merge of the
//! operands' validities; the `_and_validity` variants instead fold the
//! validities into the values and return an all-valid result.

use vstd::prelude::*;

use crate::array::binary::is_varbin;
use crate::array::boolean::BooleanArray;
use crate::array::primitive::PrimitiveArray;
use crate::array::Array;
use crate::bitmap::{duplicate_validity, validity_view, Bitmap};
use crate::datatypes::{prim_kind, DataType, Dtv};
use crate::model::{is_valid_at, len_of, validity_ok, wf, Av};

verus! {

broadcast use
    crate::array::primitive::lemma_primitive_shape,
    crate::array::boolean::lemma_boolean_shape,
    crate::array::binary::lemma_binary_shape,
    crate::array::list::lemma_list_shape,
    crate::array::struct_::lemma_struct_shape,
    crate::array::dictionary::lemma_dictionary_shape;

/// One comparison operator.
#[derive(Clone, Copy, Debug, PartialEq, Eq, Structural)]
pub enum CmpOp {
    Eq,
    Neq,
    Lt,
    LtEq,
    Gt,
    GtEq,
}

/// Comparison of two integers.
pub open spec fn cmp_int(op: CmpOp, a: int, b: int) -> bool {
    match op {
        CmpOp::Eq => a == b,
        CmpOp::Neq => a != b,
        CmpOp::Lt => a < b,
        CmpOp::LtEq => a <= b,
        CmpOp::Gt => a > b,
        CmpOp::GtEq => a >= b,
    }
}

/// Comparison of two booleans (`false < true`).
pub open spec fn cmp_bool(op: CmpOp, a: bool, b: bool) -> bool {
    match op {
        CmpOp::Eq => a == b,
        CmpOp::Neq => a != b,
        CmpOp::Lt => !a && b,
        CmpOp::LtEq => !a || b,
        CmpOp::Gt => a && !b,
        CmpOp::GtEq => a || !b,
    }
}

/// Lexicographic order on byte strings.
pub open spec fn bytes_lt(a: Seq<u8>, b: Seq<u8>) -> bool
    decreases a,
{
    if b.len() == 0 {
        false
    } else if a.len() == 0 {
        true
    } else if a[0] < b[0] {
        true
    } else if a[0] > b[0] {
        false
    } else {
        bytes_lt(a.drop_first(), b.drop_first())
    }
}

/// Comparison of two byte strings.
pub open spec fn cmp_bytes(op: CmpOp, a: Seq<u8>, b: Seq<u8>) -> bool {
    match op {
        CmpOp::Eq => a == b,
        CmpOp::Neq => a != b,
        CmpOp::Lt => bytes_lt(a, b),
        CmpOp::LtEq => !bytes_lt(b, a),
        CmpOp::Gt => bytes_lt(b, a),
        CmpOp::GtEq => !bytes_lt(a, b),
    }
}

/// The logical types the element-wise comparisons support.
pub open spec fn cmp_supported(dt: Dtv) -> bool {
    prim_kind(dt) is Some || dt == Dtv::Boolean || is_varbin(dt)
}

/// The logical types the scalar comparisons support: a dictionary is
/// compared through its values type.
pub open spec fn cmp_supported_scalar(dt: Dtv) -> bool
    decreases dt,
{
    match dt {
        Dtv::Dictionary(_, v) => cmp_supported_scalar(*v),
        _ => cmp_supported(dt),
    }
}

/// The validity sequence of a flat array value.
pub open spec fn validity_of(a: Av) -> Option<Seq<bool>> {
    match a {
        Av::Primitive { validity, .. } => validity,
        Av::Boolean { validity, .. } => validity,
        Av::VarBin { validity, .. } => validity,
        Av::List { validity, .. } => validity,
        Av::Struct { validity, .. } => validity,
        Av::Dictionary { key_validity, .. } => key_validity,
    }
}

/// Merged validity of two operands: absent means all-valid; two bitmaps
/// are conjoined pointwise.
pub open spec fn merge_validity(a: Option<Seq<bool>>, b: Option<Seq<bool>>) -> Option<Seq<bool>> {
    match (a, b) {
        (Option::None, Option::None) => Option::None,
        (Option::Some(x), Option::None) => Option::Some(x),
        (Option::None, Option::Some(y)) => Option::Some(y),
        (Option::Some(x), Option::Some(y)) => Option::Some(
            Seq::new(x.len(), |i: int| x[i] && y[i]),
        ),
    }
}

/// The element-wise comparison of two flat arrays of one type, on the raw
/// stored values (validity plays no part here).
pub open spec fn cmp_at(op: CmpOp, a: Av, b: Av, i: int) -> bool {
    match (a, b) {
        (Av::Primitive { values: x, .. }, Av::Primitive { values: y, .. }) => cmp_int(
            op,
            x[i],
            y[i],
        ),
        (Av::Boolean { values: x, .. }, Av::Boolean { values: y, .. }) => cmp_bool(op, x[i], y[i]),
        (
            Av::VarBin { offsets: xo, data: xd, .. },
            Av::VarBin { offsets: yo, data: yd, .. },
        ) => cmp_bytes(op, xd.subrange(xo[i], xo[i + 1]), yd.subrange(yo[i], yo[i + 1])),
        _ => false,
    }
}

/// Decides `bytes_lt` executably.
#[verifier::loop_isolation(false)]
fn bytes_lt_exec(a: &Vec<u8>, b: &Vec<u8>) -> (r: bool)
    ensures
        r == bytes_lt(a@, b@),
{
    let n: usize = if a.len() < b.len() {
        a.len()
    } else {
        b.len()
    };
    let mut j: usize = 0;
    proof {
        assert(a@.skip(0) =~= a@);
        assert(b@.skip(0) =~= b@);
    }
    while j < n
        invariant
            n <= a@.len(),
            n <= b@.len(),
            0 <= j <= n,
            bytes_lt(a@, b@) == bytes_lt(a@.skip(j as int), b@.skip(j as int)),
        decreases n - j,
    {
        if a[j] < b[j] {
            proof {
                assert(bytes_lt(a@.skip(j as int), b@.skip(j as int)));
            }
            return true;
        }
        if a[j] > b[j] {
            proof {
                assert(!bytes_lt(a@.skip(j as int), b@.skip(j as int)));
            }
            return false;
        }
        proof {
            assert(a@.skip(j as int).drop_first() =~= a@.skip(j as int + 1));
            assert(b@.skip(j as int).drop_first() =~= b@.skip(j as int + 1));
        }
        j = j + 1;
    }
    proof {
        assert(a@.skip(n as int).len() == a@.len() - n);
        assert(b@.skip(n as int).len() == b@.len() - n);
    }
    a.len() < b.len()
}

/// Byte-string equality, executably.
#[verifier::loop_isolation(false)]
fn bytes_eq_exec(a: &Vec<u8>, b: &Vec<u8>) -> (r: bool)
    ensures
        r == (a@ == b@),
{
    if a.len() != b.len() {
        return false;
    }
    let n: usize = a.len();
    let mut j: usize = 0;
    while j < n
        invariant
            n == a@.len() == b@.len(),
            0 <= j <= n,
            forall|k: int| 0 <= k < j ==> a@[k] == b@[k],
        decreases n - j,
    {
        if a[j] != b[j] {
            return false;
        }
        j = j + 1;
    }
    proof {
        assert(a@ =~= b@);
    }
    true
}

/// One byte-string comparison.
fn cmp_bytes_exec(op: CmpOp, a: &Vec<u8>, b: &Vec<u8>) -> (r: bool)
    ensures
        r == cmp_bytes(op, a@, b@),
{
    match op {
        CmpOp::Eq => bytes_eq_exec(a, b),
        CmpOp::Neq => !bytes_eq_exec(a, b),
        CmpOp::Lt => bytes_lt_exec(a, b),
        CmpOp::LtEq => !bytes_lt_exec(b, a),
        CmpOp::Gt => bytes_lt_exec(b, a),
        CmpOp::GtEq => !bytes_lt_exec(a, b),
    }
}

/// One integer comparison.
fn cmp_int_exec(op: CmpOp, a: i128, b: i128) -> (r: bool)
    ensures
        r == cmp_int(op, a as int, b as int),
{
    match op {
        CmpOp::Eq => a == b,
        CmpOp::Neq => a != b,
        CmpOp::Lt => a < b,
        CmpOp::LtEq => a <= b,
        CmpOp::Gt => a > b,
        CmpOp::GtEq => a >= b,
    }
}

/// One boolean comparison.
fn cmp_bool_exec(op: CmpOp, a: bool, b: bool) -> (r: bool)
    ensures
        r == cmp_bool(op, a, b),
{
    match op {
        CmpOp::Eq => a == b,
        CmpOp::Neq => a != b,
        CmpOp::Lt => !a && b,
        CmpOp::LtEq => !a || b,
        CmpOp::Gt => a && !b,
        CmpOp::GtEq => a || !b,
    }
}

/// Merges two optional validity bitmaps over `n` elements.
#[verifier::loop_isolation(false)]
fn merge_validity_exec(a: &Option<Bitmap>, b: &Option<Bitmap>, n: usize) -> (r: Option<Bitmap>)
    requires
        validity_ok(validity_view(*a), n as int),
        validity_ok(validity_view(*b), n as int),
    ensures
        validity_view(r) == merge_validity(validity_view(*a), validity_view(*b)),
        validity_ok(validity_view(r), n as int),
{
    match (a, b) {
        (Option::None, Option::None) => Option::None,
        (Option::Some(x), Option::None) => Option::Some(x.duplicate()),
        (Option::None, Option::Some(y)) => Option::Some(y.duplicate()),
        (Option::Some(x), Option::Some(y)) => {
            let mut bits: Vec<bool> = Vec::new();
            let mut i: usize = 0;
            while i < n
                invariant
                    x@.len() == n,
                    y@.len() == n,
                    0 <= i <= n,
                    bits@.len() == i,
                    forall|k: int| 0 <= k < i ==> bits@[k] == (x@[k] && y@[k]),
                decreases n - i,
            {
                bits.push(x.get(i) && y.get(i));
                i = i + 1;
            }
            let bm = Bitmap::new(bits);
            proof {
                assert(bm@ =~= Seq::new(x@.len(), |i: int| x@[i] && y@[i]));
            }
            Option::Some(bm)
        },
    }
}

/// The shared element-wise comparison: result values compare the raw
/// stored elements; when `merge` is set the result's validity is the
/// operands' merged validity, otherwise the result is all-valid.
#[verifier::loop_isolation(false)]
fn compare_arrays(lhs: &Array, rhs: &Array, op: CmpOp, merge: bool) -> (r: BooleanArray)
    requires
        wf(lhs@),
        wf(rhs@),
        crate::model::dtv_of(lhs@) == crate::model::dtv_of(rhs@),
        len_of(lhs@) == len_of(rhs@),
        cmp_supported(crate::model::dtv_of(lhs@)),
    ensures
        wf(r@),
        r@->Boolean_values.len() == len_of(lhs@),
        forall|i: int|
            0 <= i < len_of(lhs@) ==> #[trigger] r@->Boolean_values[i] == cmp_at(
                op,
                lhs@,
                rhs@,
                i,
            ),
        r@->Boolean_validity == (if merge {
            merge_validity(validity_of(lhs@), validity_of(rhs@))
        } else {
            Option::<Seq<bool>>::None
        }),
{
    let n: usize = lhs.len();
    let mut bits: Vec<bool> = Vec::new();
    match (lhs, rhs) {
        (Array::Primitive(a), Array::Primitive(b)) => {
            let mut i: usize = 0;
            while i < n
                invariant
                    n as int == len_of(lhs@),
                    0 <= i <= n,
                    bits@.len() == i,
                    forall|k: int| 0 <= k < i ==> #[trigger] bits@[k] == cmp_at(op, lhs@, rhs@, k),
                decreases n - i,
            {
                bits.push(cmp_int_exec(op, a.value(i), b.value(i)));
                i = i + 1;
            }
            let validity = if merge {
                merge_validity_exec(a.validity(), b.validity(), n)
            } else {
                Option::None
            };
            BooleanArray::new(DataType::Boolean, Bitmap::new(bits), validity)
        },
        (Array::Boolean(a), Array::Boolean(b)) => {
            let mut i: usize = 0;
            while i < n
                invariant
                    n as int == len_of(lhs@),
                    0 <= i <= n,
                    bits@.len() == i,
                    forall|k: int| 0 <= k < i ==> #[trigger] bits@[k] == cmp_at(op, lhs@, rhs@, k),
                decreases n - i,
            {
                bits.push(cmp_bool_exec(op, a.value(i), b.value(i)));
                i = i + 1;
            }
            let validity = if merge {
                merge_validity_exec(a.validity(), b.validity(), n)
            } else {
                Option::None
            };
            BooleanArray::new(DataType::Boolean, Bitmap::new(bits), validity)
        },
        (Array::Binary(a), Array::Binary(b)) => {
            let mut i: usize = 0;
            while i < n
                invariant
                    n as int == len_of(lhs@),
                    0 <= i <= n,
                    bits@.len() == i,
                    forall|k: int| 0 <= k < i ==> #[trigger] bits@[k] == cmp_at(op, lhs@, rhs@, k),
                decreases n - i,
            {
                let va = a.value(i);
                let vb = b.value(i);
                bits.push(cmp_bytes_exec(op, &va, &vb));
                i = i + 1;
            }
            let validity = if merge {
                merge_validity_exec(a.validity(), b.validity(), n)
            } else {
                Option::None
            };
            BooleanArray::new(DataType::Boolean, Bitmap::new(bits), validity)
        },
        _ => {
            proof {
                assert(false);
            }
            unreached()
        },
    }
}

/// A typed scalar value; `None` is the null scalar.
pub enum Scalar {
    Boolean { value: Option<bool> },
    Primitive { data_type: DataType, value: Option<i128> },
    VarBin { data_type: DataType, value: Option<Vec<u8>> },
}

/// Whether the scalar holds a value.
pub open spec fn scalar_is_valid(s: Scalar) -> bool {
    match s {
        Scalar::Boolean { value } => value is Some,
        Scalar::Primitive { value, .. } => value is Some,
        Scalar::VarBin { value, .. } => value is Some,
    }
}

/// The scalar's declared type.
pub open spec fn scalar_dtv(s: Scalar) -> Dtv {
    match s {
        Scalar::Boolean { .. } => Dtv::Boolean,
        Scalar::Primitive { data_type, .. } => data_type@,
        Scalar::VarBin { data_type, .. } => data_type@,
    }
}

/// A scalar's declared type agrees with its variant.
pub open spec fn scalar_wf(s: Scalar) -> bool {
    match s {
        Scalar::Boolean { .. } => true,
        Scalar::Primitive { data_type, .. } => prim_kind(data_type@) is Some,
        Scalar::VarBin { data_type, .. } => is_varbin(data_type@),
    }
}

/// Whether the scalar's type fits an array of type `dt`: a dictionary is
/// compared through its values type.
pub open spec fn scalar_matches(s: Scalar, dt: Dtv) -> bool
    decreases dt,
{
    match dt {
        Dtv::Dictionary(_, v) => scalar_matches(s, *v),
        _ => scalar_dtv(s) == dt,
    }
}

impl Scalar {
    /// Whether the scalar holds a value.
    pub fn is_valid(&self) -> (b: bool)
        ensures
            b == scalar_is_valid(*self),
    {
        match self {
            Scalar::Boolean { value } => value.is_some(),
            Scalar::Primitive { value, .. } => value.is_some(),
            Scalar::VarBin { value, .. } => value.is_some(),
        }
    }
}

/// One element of a flat array compared against a valid scalar, on raw
/// stored values.
pub open spec fn cmp_scalar_at(op: CmpOp, a: Av, s: Scalar, i: int) -> bool {
    match a {
        Av::Primitive { values, .. } => cmp_int(op, values[i], match s {
            Scalar::Primitive { value, .. } => value->Some_0 as int,
            _ => 0,
        }),
        Av::Boolean { values, .. } => cmp_bool(op, values[i], match s {
            Scalar::Boolean { value } => value->Some_0,
            _ => false,
        }),
        Av::VarBin { offsets, data, .. } => cmp_bytes(
            op,
            data.subrange(offsets[i], offsets[i + 1]),
            match s {
                Scalar::VarBin { value, .. } => value->Some_0@,
                _ => Seq::empty(),
            },
        ),
        _ => false,
    }
}

/// The ghost outcome of an array-against-scalar comparison. A null scalar
/// yields an all-null result. With `fold` set (the `_and_validity`
/// variants, equality operators only) the operand's validity is folded
/// into the values and the result is all-valid; otherwise the operand's
/// validity carries over. A dictionary compares its values array once and
/// gathers the results through its keys.
pub open spec fn scalar_cmp_spec(op: CmpOp, fold: bool, a: Av, s: Scalar) -> Av
    decreases a,
{
    if !scalar_is_valid(s) {
        Av::Boolean {
            dt: Dtv::Boolean,
            values: Seq::new(len_of(a) as nat, |i: int| false),
            validity: Some(Seq::new(len_of(a) as nat, |i: int| false)),
        }
    } else {
        match a {
            Av::Dictionary { keys, key_validity, values, .. } => {
                let inner = scalar_cmp_spec(op, fold, *values, s);
                Av::Boolean {
                    dt: Dtv::Boolean,
                    values: Seq::new(
                        keys.len(),
                        |i: int| is_valid_at(key_validity, i) && inner->Boolean_values[keys[i]],
                    ),
                    validity: Some(
                        Seq::new(
                            keys.len(),
                            |i: int| is_valid_at(key_validity, i) && is_valid_at(
                                inner->Boolean_validity,
                                keys[i],
                            ),
                        ),
                    ),
                }
            },
            _ => {
                if fold {
                    Av::Boolean {
                        dt: Dtv::Boolean,
                        values: Seq::new(
                            len_of(a) as nat,
                            |i: int| cmp_fold(op, cmp_scalar_at(op, a, s, i), is_valid_at(
                                validity_of(a),
                                i,
                            )),
                        ),
                        validity: None,
                    }
                } else {
                    Av::Boolean {
                        dt: Dtv::Boolean,
                        values: Seq::new(len_of(a) as nat, |i: int| cmp_scalar_at(op, a, s, i)),
                        validity: validity_of(a),
                    }
                }
            },
        }
    }
}

/// How a folded comparison combines the raw comparison with one element's
/// validity: equality demands a valid element, inequality accepts an
/// invalid one.
pub open spec fn cmp_fold(op: CmpOp, raw: bool, valid: bool) -> bool {
    match op {
        CmpOp::Neq => raw || !valid,
        _ => raw && valid,
    }
}

/// Gathers boolean values through a key array: element `i` of the result
/// is `values[keys[i]]`, null where the key is null or the gathered
/// element is.
#[verifier::loop_isolation(false)]
pub fn take_boolean(values: &BooleanArray, keys: &PrimitiveArray) -> (r: BooleanArray)
    requires
        wf(values@),
        validity_ok(keys@->Primitive_validity, keys@->Primitive_values.len() as int),
        forall|i: int|
            0 <= i < keys@->Primitive_values.len() && is_valid_at(keys@->Primitive_validity, i)
                ==> 0 <= #[trigger] keys@->Primitive_values[i]
                < values@->Boolean_values.len(),
    ensures
        wf(r@),
        r@->Boolean_values.len() == keys@->Primitive_values.len(),
        forall|i: int|
            0 <= i < keys@->Primitive_values.len() ==> #[trigger] r@->Boolean_values[i] == (
            is_valid_at(keys@->Primitive_validity, i)
                && values@->Boolean_values[keys@->Primitive_values[i]]),
        r@->Boolean_validity matches Some(v) && v.len() == keys@->Primitive_values.len() && (
        forall|i: int|
            0 <= i < keys@->Primitive_values.len() ==> #[trigger] v[i] == (is_valid_at(
                keys@->Primitive_validity,
                i,
            ) && is_valid_at(values@->Boolean_validity, keys@->Primitive_values[i]))),
{
    let n: usize = keys.len();
    let m: usize = values.len();
    let mut bits: Vec<bool> = Vec::new();
    let mut valid: Vec<bool> = Vec::new();
    let mut i: usize = 0;
    while i < n
        invariant
            n as int == keys@->Primitive_values.len(),
            m as int == values@->Boolean_values.len(),
            0 <= i <= n,
            bits@.len() == i,
            valid@.len() == i,
            forall|k: int|
                0 <= k < i ==> #[trigger] bits@[k] == (is_valid_at(keys@->Primitive_validity, k)
                    && values@->Boolean_values[keys@->Primitive_values[k]]),
            forall|k: int|
                0 <= k < i ==> #[trigger] valid@[k] == (is_valid_at(keys@->Primitive_validity, k)
                    && is_valid_at(values@->Boolean_validity, keys@->Primitive_values[k])),
        decreases n - i,
    {
        if keys.is_valid(i) {
            let kv: i128 = keys.value(i);
            let idx: usize = kv as usize;
            bits.push(values.value(idx));
            valid.push(values.is_valid(idx));
        } else {
            bits.push(false);
            valid.push(false);
        }
        i = i + 1;
    }
    let r = BooleanArray::new(
        DataType::Boolean,
        Bitmap::new(bits),
        Option::Some(Bitmap::new(valid)),
    );
    r
}

/// The validity of any array variant, copied out.
fn validity_of_exec(a: &Array) -> (v: Option<Bitmap>)
    ensures
        validity_view(v) == validity_of(a@),
{
    match a {
        Array::Primitive(x) => duplicate_validity(x.validity()),
        Array::Boolean(x) => duplicate_validity(x.validity()),
        Array::Binary(x) => duplicate_validity(x.validity()),
        Array::List(x) => duplicate_validity(x.validity()),
        Array::Struct(x) => duplicate_validity(x.validity()),
        Array::Dictionary(x) => {
            let kv = x.keys();
            duplicate_validity(kv.validity())
        },
    }
}

/// Folds two operands' validities into an equality result: element `i`
/// stays set only where both sides agree on validity.
#[verifier::loop_isolation(false)]
pub fn finish_eq_validities(
    output_without_validities: BooleanArray,
    validity_lhs: Option<Bitmap>,
    validity_rhs: Option<Bitmap>,
) -> (r: BooleanArray)
    requires
        wf(output_without_validities@),
        validity_ok(
            validity_view(validity_lhs),
            output_without_validities@->Boolean_values.len() as int,
        ),
        validity_ok(
            validity_view(validity_rhs),
            output_without_validities@->Boolean_values.len() as int,
        ),
    ensures
        wf(r@),
        r@->Boolean_values.len() == output_without_validities@->Boolean_values.len(),
        forall|i: int|
            0 <= i < r@->Boolean_values.len() ==> #[trigger] r@->Boolean_values[i] == (
            output_without_validities@->Boolean_values[i] && (is_valid_at(
                validity_view(validity_lhs),
                i,
            ) == is_valid_at(validity_view(validity_rhs), i))),
        r@->Boolean_validity == output_without_validities@->Boolean_validity,
{
    let n: usize = output_without_validities.len();
    let mut bits: Vec<bool> = Vec::new();
    let mut i: usize = 0;
    while i < n
        invariant
            n as int == output_without_validities@->Boolean_values.len(),
            validity_ok(validity_view(validity_lhs), n as int),
            validity_ok(validity_view(validity_rhs), n as int),
            0 <= i <= n,
            bits@.len() == i,
            forall|k: int|
                0 <= k < i ==> #[trigger] bits@[k] == (
                output_without_validities@->Boolean_values[k] && (is_valid_at(
                    validity_view(validity_lhs),
                    k,
                ) == is_valid_at(validity_view(validity_rhs), k))),
        decreases n - i,
    {
        let vl = match &validity_lhs {
            Option::Some(b) => b.get(i),
            Option::None => true,
        };
        let vr = match &validity_rhs {
            Option::Some(b) => b.get(i),
            Option::None => true,
        };
        bits.push(output_without_validities.value(i) && (vl == vr));
        i = i + 1;
    }
    BooleanArray::new(
        DataType::Boolean,
        Bitmap::new(bits),
        duplicate_validity(output_without_validities.validity()),
    )
}

/// Folds two operands' validities into an inequality result: element `i`
/// is also set wherever the two sides disagree on validity.
#[verifier::loop_isolation(false)]
pub fn finish_neq_validities(
    output_without_validities: BooleanArray,
    validity_lhs: Option<Bitmap>,
    validity_rhs: Option<Bitmap>,
) -> (r: BooleanArray)
    requires
        wf(output_without_validities@),
        validity_ok(
            validity_view(validity_lhs),
            output_without_validities@->Boolean_values.len() as int,
        ),
        validity_ok(
            validity_view(validity_rhs),
            output_without_validities@->Boolean_values.len() as int,
        ),
    ensures
        wf(r@),
        r@->Boolean_values.len() == output_without_validities@->Boolean_values.len(),
        forall|i: int|
            0 <= i < r@->Boolean_values.len() ==> #[trigger] r@->Boolean_values[i] == (
            output_without_validities@->Boolean_values[i] || (is_valid_at(
                validity_view(validity_lhs),
                i,
            ) != is_valid_at(validity_view(validity_rhs), i))),
        r@->Boolean_validity == output_without_validities@->Boolean_validity,
{
    let n: usize = output_without_validities.len();
    let mut bits: Vec<bool> = Vec::new();
    let mut i: usize = 0;
    while i < n
        invariant
            n as int == output_without_validities@->Boolean_values.len(),
            validity_ok(validity_view(validity_lhs), n as int),
            validity_ok(validity_view(validity_rhs), n as int),
            0 <= i <= n,
            bits@.len() == i,
            forall|k: int|
                0 <= k < i ==> #[trigger] bits@[k] == (
                output_without_validities@->Boolean_values[k] || (is_valid_at(
                    validity_view(validity_lhs),
                    k,
                ) != is_valid_at(validity_view(validity_rhs), k))),
        decreases n - i,
    {
        let vl = match &validity_lhs {
            Option::Some(b) => b.get(i),
            Option::None => true,
        };
        let vr = match &validity_rhs {
            Option::Some(b) => b.get(i),
            Option::None => true,
        };
        bits.push(output_without_validities.value(i) || (vl != vr));
        i = i + 1;
    }
    BooleanArray::new(
        DataType::Boolean,
        Bitmap::new(bits),
        duplicate_validity(output_without_validities.validity()),
    )
}

/// `==` between two arrays of one logical type and length.
pub fn eq(lhs: &Array, rhs: &Array) -> (r: BooleanArray)
    requires
        wf(lhs@),
        wf(rhs@),
        crate::model::dtv_of(lhs@) == crate::model::dtv_of(rhs@),
        len_of(lhs@) == len_of(rhs@),
        cmp_supported(crate::model::dtv_of(lhs@)),
    ensures
        wf(r@),
        r@->Boolean_values.len() == len_of(lhs@),
        forall|i: int|
            0 <= i < len_of(lhs@) ==> #[trigger] r@->Boolean_values[i] == cmp_at(
                CmpOp::Eq,
                lhs@,
                rhs@,
                i,
            ),
        r@->Boolean_validity == merge_validity(validity_of(lhs@), validity_of(rhs@)),
{
    compare_arrays(lhs, rhs, CmpOp::Eq, true)
}

/// `==` between two arrays, validities folded into the values.
pub fn eq_and_validity(lhs: &Array, rhs: &Array) -> (r: BooleanArray)
    requires
        wf(lhs@),
        wf(rhs@),
        crate::model::dtv_of(lhs@) == crate::model::dtv_of(rhs@),
        len_of(lhs@) == len_of(rhs@),
        cmp_supported(crate::model::dtv_of(lhs@)),
    ensures
        wf(r@),
        r@->Boolean_values.len() == len_of(lhs@),
        forall|i: int|
            0 <= i < len_of(lhs@) ==> #[trigger] r@->Boolean_values[i] == (cmp_at(
                CmpOp::Eq,
                lhs@,
                rhs@,
                i,
            ) && (is_valid_at(validity_of(lhs@), i) == is_valid_at(validity_of(rhs@), i))),
        r@->Boolean_validity is None,
{
    let out = compare_arrays(lhs, rhs, CmpOp::Eq, false);
    finish_eq_validities(out, validity_of_exec(lhs), validity_of_exec(rhs))
}

/// `!=` between two arrays of one logical type and length.
pub fn neq(lhs: &Array, rhs: &Array) -> (r: BooleanArray)
    requires
        wf(lhs@),
        wf(rhs@),
        crate::model::dtv_of(lhs@) == crate::model::dtv_of(rhs@),
        len_of(lhs@) == len_of(rhs@),
        cmp_supported(crate::model::dtv_of(lhs@)),
    ensures
        wf(r@),
        r@->Boolean_values.len() == len_of(lhs@),
        forall|i: int|
            0 <= i < len_of(lhs@) ==> #[trigger] r@->Boolean_values[i] == cmp_at(
                CmpOp::Neq,
                lhs@,
                rhs@,
                i,
            ),
        r@->Boolean_validity == merge_validity(validity_of(lhs@), validity_of(rhs@)),
{
    compare_arrays(lhs, rhs, CmpOp::Neq, true)
}

/// `!=` between two arrays, validities folded into the values.
pub fn neq_and_validity(lhs: &Array, rhs: &Array) -> (r: BooleanArray)
    requires
        wf(lhs@),
        wf(rhs@),
        crate::model::dtv_of(lhs@) == crate::model::dtv_of(rhs@),
        len_of(lhs@) == len_of(rhs@),
        cmp_supported(crate::model::dtv_of(lhs@)),
    ensures
        wf(r@),
        r@->Boolean_values.len() == len_of(lhs@),
        forall|i: int|
            0 <= i < len_of(lhs@) ==> #[trigger] r@->Boolean_values[i] == (cmp_at(
                CmpOp::Neq,
                lhs@,
                rhs@,
                i,
            ) || (is_valid_at(validity_of(lhs@), i) != is_valid_at(validity_of(rhs@), i))),
        r@->Boolean_validity is None,
{
    let out = compare_arrays(lhs, rhs, CmpOp::Neq, false);
    finish_neq_validities(out, validity_of_exec(lhs), validity_of_exec(rhs))
}

/// `<` between two arrays of one logical type and length.
pub fn lt(lhs: &Array, rhs: &Array) -> (r: BooleanArray)
    requires
        wf(lhs@),
        wf(rhs@),
        crate::model::dtv_of(lhs@) == crate::model::dtv_of(rhs@),
        len_of(lhs@) == len_of(rhs@),
        cmp_supported(crate::model::dtv_of(lhs@)),
    ensures
        wf(r@),
        r@->Boolean_values.len() == len_of(lhs@),
        forall|i: int|
            0 <= i < len_of(lhs@) ==> #[trigger] r@->Boolean_values[i] == cmp_at(
                CmpOp::Lt,
                lhs@,
                rhs@,
                i,
            ),
        r@->Boolean_validity == merge_validity(validity_of(lhs@), validity_of(rhs@)),
{
    compare_arrays(lhs, rhs, CmpOp::Lt, true)
}

/// `<=` between two arrays of one logical type and length.
pub fn lt_eq(lhs: &Array, rhs: &Array) -> (r: BooleanArray)
    requires
        wf(lhs@),
        wf(rhs@),
        crate::model::dtv_of(lhs@) == crate::model::dtv_of(rhs@),
        len_of(lhs@) == len_of(rhs@),
        cmp_supported(crate::model::dtv_of(lhs@)),
    ensures
        wf(r@),
        r@->Boolean_values.len() == len_of(lhs@),
        forall|i: int|
            0 <= i < len_of(lhs@) ==> #[trigger] r@->Boolean_values[i] == cmp_at(
                CmpOp::LtEq,
                lhs@,
                rhs@,
                i,
            ),
        r@->Boolean_validity == merge_validity(validity_of(lhs@), validity_of(rhs@)),
{
    compare_arrays(lhs, rhs, CmpOp::LtEq, true)
}

/// `>` between two arrays of one logical type and length.
pub fn gt(lhs: &Array, rhs: &Array) -> (r: BooleanArray)
    requires
        wf(lhs@),
        wf(rhs@),
        crate::model::dtv_of(lhs@) == crate::model::dtv_of(rhs@),
        len_of(lhs@) == len_of(rhs@),
        cmp_supported(crate::model::dtv_of(lhs@)),
    ensures
        wf(r@),
        r@->Boolean_values.len() == len_of(lhs@),
        forall|i: int|
            0 <= i < len_of(lhs@) ==> #[trigger] r@->Boolean_values[i] == cmp_at(
                CmpOp::Gt,
                lhs@,
                rhs@,
                i,
            ),
        r@->Boolean_validity == merge_validity(validity_of(lhs@), validity_of(rhs@)),
{
    compare_arrays(lhs, rhs, CmpOp::Gt, true)
}

/// `>=` between two arrays of one logical type and length.
pub fn gt_eq(lhs: &Array, rhs: &Array) -> (r: BooleanArray)
    requires
        wf(lhs@),
        wf(rhs@),
        crate::model::dtv_of(lhs@) == crate::model::dtv_of(rhs@),
        len_of(lhs@) == len_of(rhs@),
        cmp_supported(crate::model::dtv_of(lhs@)),
    ensures
        wf(r@),
        r@->Boolean_values.len() == len_of(lhs@),
        forall|i: int|
            0 <= i < len_of(lhs@) ==> #[trigger] r@->Boolean_values[i] == cmp_at(
                CmpOp::GtEq,
                lhs@,
                rhs@,
                i,
            ),
        r@->Boolean_validity == merge_validity(validity_of(lhs@), validity_of(rhs@)),
{
    compare_arrays(lhs, rhs, CmpOp::GtEq, true)
}

/// Whether `eq` supports a logical type.
pub fn can_eq(data_type: &DataType) -> (b: bool)
    ensures
        b == cmp_supported(data_type@),
{
    can_partial_eq(data_type)
}

/// Whether `neq` supports a logical type.
pub fn can_neq(data_type: &DataType) -> (b: bool)
    ensures
        b == cmp_supported(data_type@),
{
    can_partial_eq(data_type)
}

/// Whether `lt` supports a logical type.
pub fn can_lt(data_type: &DataType) -> (b: bool)
    ensures
        b == cmp_supported(data_type@),
{
    can_partial_eq_and_ord(data_type)
}

/// Whether `lt_eq` supports a logical type.
pub fn can_lt_eq(data_type: &DataType) -> (b: bool)
    ensures
        b == cmp_supported(data_type@),
{
    can_partial_eq_and_ord(data_type)
}

/// Whether `gt` supports a logical type.
pub fn can_gt(data_type: &DataType) -> (b: bool)
    ensures
        b == cmp_supported(data_type@),
{
    can_partial_eq_and_ord(data_type)
}

/// Whether `gt_eq` supports a logical type.
pub fn can_gt_eq(data_type: &DataType) -> (b: bool)
    ensures
        b == cmp_supported(data_type@),
{
    can_partial_eq_and_ord(data_type)
}

/// The set of logical types the equality comparisons support.
pub fn can_partial_eq(data_type: &DataType) -> (b: bool)
    ensures
        b == cmp_supported(data_type@),
{
    can_partial_eq_and_ord(data_type)
}

/// The set of logical types the ordering comparisons support: booleans,
/// the integer kinds, and the variable-length binary and text kinds.
pub fn can_partial_eq_and_ord(data_type: &DataType) -> (b: bool)
    ensures
        b == cmp_supported(data_type@),
{
    match data_type {
        DataType::Boolean => true,
        DataType::Int8 => true,
        DataType::Int16 => true,
        DataType::Int32 => true,
        DataType::Int64 => true,
        DataType::UInt8 => true,
        DataType::UInt16 => true,
        DataType::UInt32 => true,
        DataType::UInt64 => true,
        DataType::Utf8 => true,
        DataType::LargeUtf8 => true,
        DataType::Binary => true,
        DataType::LargeBinary => true,
        _ => false,
    }
}

/// The set of logical types the scalar comparisons support, reaching
/// through dictionaries.
pub fn can_partial_eq_and_ord_scalar(data_type: &DataType) -> (b: bool)
    ensures
        b == cmp_supported_scalar(data_type@),
    decreases *data_type,
{
    match data_type {
        DataType::Dictionary(_, values) => can_partial_eq_and_ord_scalar(values),
        _ => can_partial_eq_and_ord(data_type),
    }
}

/// The set of logical types the scalar equality comparisons support.
pub fn can_partial_eq_scalar(data_type: &DataType) -> (b: bool)
    ensures
        b == cmp_supported_scalar(data_type@),
{
    can_partial_eq_and_ord_scalar(data_type)
}

/// The shared array-against-scalar comparison.
#[verifier::loop_isolation(false)]
fn compare_scalar(lhs: &Array, rhs: &Scalar, op: CmpOp, fold: bool) -> (r: BooleanArray)
    requires
        wf(lhs@),
        scalar_wf(*rhs),
        scalar_matches(*rhs, crate::model::dtv_of(lhs@)),
        cmp_supported_scalar(crate::model::dtv_of(lhs@)),
    ensures
        wf(r@),
        r@ == scalar_cmp_spec(op, fold, lhs@, *rhs),
    decreases crate::datatypes::dtv_height(crate::model::dtv_of(lhs@)),
{
    let n: usize = lhs.len();
    if !rhs.is_valid() {
        let r = BooleanArray::new_null(DataType::Boolean, n);
        proof {
            assert(r@->Boolean_values =~= scalar_cmp_spec(op, fold, lhs@, *rhs)->Boolean_values);
            assert(r@->Boolean_validity->Some_0 =~= scalar_cmp_spec(
                op,
                fold,
                lhs@,
                *rhs,
            )->Boolean_validity->Some_0);
            assert(r@ =~= scalar_cmp_spec(op, fold, lhs@, *rhs));
        }
        return r;
    }
    match (lhs, rhs) {
        (Array::Primitive(a), Scalar::Primitive { value, .. }) => {
            let sv: i128 = match value {
                Option::Some(v) => *v,
                Option::None => {
                    proof {
                        assert(false);
                    }
                    unreached()
                },
            };
            let mut bits: Vec<bool> = Vec::new();
            let mut i: usize = 0;
            while i < n
                invariant
                    n as int == len_of(lhs@),
                    sv as int == (match *rhs {
                        Scalar::Primitive { value, .. } => value->Some_0 as int,
                        _ => 0,
                    }),
                    0 <= i <= n,
                    bits@.len() == i,
                    forall|k: int|
                        0 <= k < i ==> #[trigger] bits@[k] == (if fold {
                            cmp_fold(op, cmp_scalar_at(op, lhs@, *rhs, k), is_valid_at(
                                validity_of(lhs@),
                                k,
                            ))
                        } else {
                            cmp_scalar_at(op, lhs@, *rhs, k)
                        }),
                decreases n - i,
            {
                let raw = cmp_int_exec(op, a.value(i), sv);
                let bit = if fold {
                    fold_exec(op, raw, a.is_valid(i))
                } else {
                    raw
                };
                bits.push(bit);
                i = i + 1;
            }
            let validity = if fold {
                Option::None
            } else {
                duplicate_validity(a.validity())
            };
            let r = BooleanArray::new(DataType::Boolean, Bitmap::new(bits), validity);
            proof {
                assert(r@ =~= scalar_cmp_spec(op, fold, lhs@, *rhs));
            }
            r
        },
        (Array::Boolean(a), Scalar::Boolean { value }) => {
            let sv: bool = match value {
                Option::Some(v) => *v,
                Option::None => {
                    proof {
                        assert(false);
                    }
                    unreached()
                },
            };
            let mut bits: Vec<bool> = Vec::new();
            let mut i: usize = 0;
            while i < n
                invariant
                    n as int == len_of(lhs@),
                    sv == (match *rhs {
                        Scalar::Boolean { value } => value->Some_0,
                        _ => false,
                    }),
                    0 <= i <= n,
                    bits@.len() == i,
                    forall|k: int|
                        0 <= k < i ==> #[trigger] bits@[k] == (if fold {
                            cmp_fold(op, cmp_scalar_at(op, lhs@, *rhs, k), is_valid_at(
                                validity_of(lhs@),
                                k,
                            ))
                        } else {
                            cmp_scalar_at(op, lhs@, *rhs, k)
                        }),
                decreases n - i,
            {
                let raw = cmp_bool_exec(op, a.value(i), sv);
                let bit = if fold {
                    fold_exec(op, raw, a.is_valid(i))
                } else {
                    raw
                };
                bits.push(bit);
                i = i + 1;
            }
            let validity = if fold {
                Option::None
            } else {
                duplicate_validity(a.validity())
            };
            let r = BooleanArray::new(DataType::Boolean, Bitmap::new(bits), validity);
            proof {
                assert(r@ =~= scalar_cmp_spec(op, fold, lhs@, *rhs));
            }
            r
        },
        (Array::Binary(a), Scalar::VarBin { value, .. }) => {
            let sv: &Vec<u8> = match value {
                Option::Some(v) => v,
                Option::None => {
                    proof {
                        assert(false);
                    }
                    unreached()
                },
            };
            let mut bits: Vec<bool> = Vec::new();
            let mut i: usize = 0;
            while i < n
                invariant
                    n as int == len_of(lhs@),
                    sv@ == (match *rhs {
                        Scalar::VarBin { value, .. } => value->Some_0@,
                        _ => Seq::<u8>::empty(),
                    }),
                    0 <= i <= n,
                    bits@.len() == i,
                    forall|k: int|
                        0 <= k < i ==> #[trigger] bits@[k] == (if fold {
                            cmp_fold(op, cmp_scalar_at(op, lhs@, *rhs, k), is_valid_at(
                                validity_of(lhs@),
                                k,
                            ))
                        } else {
                            cmp_scalar_at(op, lhs@, *rhs, k)
                        }),
                decreases n - i,
            {
                let va = a.value(i);
                let raw = cmp_bytes_exec(op, &va, sv);
                let bit = if fold {
                    fold_exec(op, raw, a.is_valid(i))
                } else {
                    raw
                };
                bits.push(bit);
                i = i + 1;
            }
            let validity = if fold {
                Option::None
            } else {
                duplicate_validity(a.validity())
            };
            let r = BooleanArray::new(DataType::Boolean, Bitmap::new(bits), validity);
            proof {
                assert(r@ =~= scalar_cmp_spec(op, fold, lhs@, *rhs));
            }
            r
        },
        (Array::Dictionary(d), _) => {
            let inner = compare_scalar(d.values(), rhs, op, fold);
            let r = take_boolean(&inner, d.keys());
            proof {
                assert(r@->Boolean_values =~= scalar_cmp_spec(op, fold, lhs@, *rhs)->Boolean_values);
                assert(r@->Boolean_validity->Some_0 =~= scalar_cmp_spec(
                    op,
                    fold,
                    lhs@,
                    *rhs,
                )->Boolean_validity->Some_0);
                assert(r@ =~= scalar_cmp_spec(op, fold, lhs@, *rhs));
            }
            r
        },
        _ => {
            proof {
                assert(false);
            }
            unreached()
        },
    }
}

/// How a folded comparison combines one raw result with validity,
/// executably.
fn fold_exec(op: CmpOp, raw: bool, valid: bool) -> (r: bool)
    ensures
        r == cmp_fold(op, raw, valid),
{
    match op {
        CmpOp::Neq => raw || !valid,
        _ => raw && valid,
    }
}

/// `==` between an array and a scalar.
pub fn eq_scalar(lhs: &Array, rhs: &Scalar) -> (r: BooleanArray)
    requires
        wf(lhs@),
        scalar_wf(*rhs),
        scalar_matches(*rhs, crate::model::dtv_of(lhs@)),
        cmp_supported_scalar(crate::model::dtv_of(lhs@)),
    ensures
        wf(r@),
        r@ == scalar_cmp_spec(CmpOp::Eq, false, lhs@, *rhs),
{
    compare_scalar(lhs, rhs, CmpOp::Eq, false)
}

/// `==` between an array and a scalar, validity folded into the values.
pub fn eq_scalar_and_validity(lhs: &Array, rhs: &Scalar) -> (r: BooleanArray)
    requires
        wf(lhs@),
        scalar_wf(*rhs),
        scalar_matches(*rhs, crate::model::dtv_of(lhs@)),
        cmp_supported_scalar(crate::model::dtv_of(lhs@)),
    ensures
        wf(r@),
        r@ == scalar_cmp_spec(CmpOp::Eq, true, lhs@, *rhs),
{
    compare_scalar(lhs, rhs, CmpOp::Eq, true)
}

/// `!=` between an array and a scalar.
pub fn neq_scalar(lhs: &Array, rhs: &Scalar) -> (r: BooleanArray)
    requires
        wf(lhs@),
        scalar_wf(*rhs),
        scalar_matches(*rhs, crate::model::dtv_of(lhs@)),
        cmp_supported_scalar(crate::model::dtv_of(lhs@)),
    ensures
        wf(r@),
        r@ == scalar_cmp_spec(CmpOp::Neq, false, lhs@, *rhs),
{
    compare_scalar(lhs, rhs, CmpOp::Neq, false)
}

/// `!=` between an array and a scalar, validity folded into the values.
pub fn neq_scalar_and_validity(lhs: &Array, rhs: &Scalar) -> (r: BooleanArray)
    requires
        wf(lhs@),
        scalar_wf(*rhs),
        scalar_matches(*rhs, crate::model::dtv_of(lhs@)),
        cmp_supported_scalar(crate::model::dtv_of(lhs@)),
    ensures
        wf(r@),
        r@ == scalar_cmp_spec(CmpOp::Neq, true, lhs@, *rhs),
{
    compare_scalar(lhs, rhs, CmpOp::Neq, true)
}

/// `<` between an array and a scalar.
pub fn lt_scalar(lhs: &Array, rhs: &Scalar) -> (r: BooleanArray)
    requires
        wf(lhs@),
        scalar_wf(*rhs),
        scalar_matches(*rhs, crate::model::dtv_of(lhs@)),
        cmp_supported_scalar(crate::model::dtv_of(lhs@)),
    ensures
        wf(r@),
        r@ == scalar_cmp_spec(CmpOp::Lt, false, lhs@, *rhs),
{
    compare_scalar(lhs, rhs, CmpOp::Lt, false)
}

/// `<=` between an array and a scalar.
pub fn lt_eq_scalar(lhs: &Array, rhs: &Scalar) -> (r: BooleanArray)
    requires
        wf(lhs@),
        scalar_wf(*rhs),
        scalar_matches(*rhs, crate::model::dtv_of(lhs@)),
        cmp_supported_scalar(crate::model::dtv_of(lhs@)),
    ensures
        wf(r@),
        r@ == scalar_cmp_spec(CmpOp::LtEq, false, lhs@, *rhs),
{
    compare_scalar(lhs, rhs, CmpOp::LtEq, false)
}

/// `>` between an array and a scalar.
pub fn gt_scalar(lhs: &Array, rhs: &Scalar) -> (r: BooleanArray)
    requires
        wf(lhs@),
        scalar_wf(*rhs),
        scalar_matches(*rhs, crate::model::dtv_of(lhs@)),
        cmp_supported_scalar(crate::model::dtv_of(lhs@)),
    ensures
        wf(r@),
        r@ == scalar_cmp_spec(CmpOp::Gt, false, lhs@, *rhs),
{
    compare_scalar(lhs, rhs, CmpOp::Gt, false)
}

/// `>=` between an array and a scalar.
pub fn gt_eq_scalar(lhs: &Array, rhs: &Scalar) -> (r: BooleanArray)
    requires
        wf(lhs@),
        scalar_wf(*rhs),
        scalar_matches(*rhs, crate::model::dtv_of(lhs@)),
        cmp_supported_scalar(crate::model::dtv_of(lhs@)),
    ensures
        wf(r@),
        r@ == scalar_cmp_spec(CmpOp::GtEq, false, lhs@, *rhs),
{
    compare_scalar(lhs, rhs, CmpOp::GtEq, false)
}

/// Whether `eq_scalar` supports a logical type.
pub fn can_eq_scalar(data_type: &DataType) -> (b: bool)
    ensures
        b == cmp_supported_scalar(data_type@),
{
    can_partial_eq_scalar(data_type)
}

/// Whether `neq_scalar` supports a logical type.
pub fn can_neq_scalar(data_type: &DataType) -> (b: bool)
    ensures
        b == cmp_supported_scalar(data_type@),
{
    can_partial_eq_scalar(data_type)
}

/// Whether `lt_scalar` supports a logical type.
pub fn can_lt_scalar(data_type: &DataType) -> (b: bool)
    ensures
        b == cmp_supported_scalar(data_type@),
{
    can_partial_eq_and_ord_scalar(data_type)
}

/// Whether `lt_eq_scalar` supports a logical type.
pub fn can_lt_eq_scalar(data_type: &DataType) -> (b: bool)
    ensures
        b == cmp_supported_scalar(data_type@),
{
    can_partial_eq_and_ord_scalar(data_type)
}

/// Whether `gt_scalar` supports a logical type.
pub fn can_gt_scalar(data_type: &DataType) -> (b: bool)
    ensures
        b == cmp_supported_scalar(data_type@),
{
    can_partial_eq_and_ord_scalar(data_type)
}

/// Whether `gt_eq_scalar` supports a logical type.
pub fn can_gt_eq_scalar(data_type: &DataType) -> (b: bool)
    ensures
        b == cmp_supported_scalar(data_type@),
{
    can_partial_eq_and_ord_scalar(data_type)
}

} // verus!
