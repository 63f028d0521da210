//! The logical type taxonomy the decoder dispatches on, together with its
//! ghost mirror. Exec values (`DataType`, `Field`) carry `Vec` and `Box`
//! children; contracts speak of the ghost mirror (`Dtv`, `Fieldv`), reached
//! through `@`.

use vstd::prelude::*;

verus! {

/// The integer kinds a primitive array can hold. The kind fixes the wire
/// width in bytes and the signedness, and thereby the value range.
#[derive(Clone, Copy, Debug, PartialEq, Eq, Structural)]
pub enum IntKind {
    Int8,
    Int16,
    Int32,
    Int64,
    UInt8,
    UInt16,
    UInt32,
    UInt64,
}

/// A declared logical type. `List`/`LargeList` differ only in the wire width
/// of their offsets (4 or 8 bytes), as do `Utf8`/`LargeUtf8` and
/// `Binary`/`LargeBinary`. `FixedSizeBinary` is recognized by the taxonomy
/// but not materialized by the decoder.
pub enum DataType {
    Int8,
    Int16,
    Int32,
    Int64,
    UInt8,
    UInt16,
    UInt32,
    UInt64,
    Boolean,
    Utf8,
    LargeUtf8,
    Binary,
    LargeBinary,
    FixedSizeBinary(usize),
    List(Box<Field>),
    LargeList(Box<Field>),
    Struct(Vec<Field>),
    Dictionary(IntKind, Box<DataType>),
}

/// One declared child of a schema node.
pub struct Field {
    pub data_type: DataType,
    pub is_nullable: bool,
}

/// Ghost mirror of `DataType`: `Vec` becomes `Seq`, so contracts can use
/// extensional reasoning.
#[verifier::ext_equal]
pub enum Dtv {
    Int8,
    Int16,
    Int32,
    Int64,
    UInt8,
    UInt16,
    UInt32,
    UInt64,
    Boolean,
    Utf8,
    LargeUtf8,
    Binary,
    LargeBinary,
    FixedSizeBinary(usize),
    List(Box<Fieldv>),
    LargeList(Box<Fieldv>),
    Struct(Seq<Fieldv>),
    Dictionary(IntKind, Box<Dtv>),
}

/// Ghost mirror of `Field`.
#[verifier::ext_equal]
pub struct Fieldv {
    pub data_type: Dtv,
    pub is_nullable: bool,
}

pub open spec fn fields_view(fs: Seq<Field>) -> Seq<Fieldv>
    decreases fs,
{
    if fs.len() == 0 {
        Seq::empty()
    } else {
        fields_view(fs.drop_last()).push(
            Fieldv { data_type: fs.last().data_type.dtv(), is_nullable: fs.last().is_nullable },
        )
    }
}

impl View for Field {
    type V = Fieldv;

    open spec fn view(&self) -> Fieldv {
        Fieldv { data_type: self.data_type.dtv(), is_nullable: self.is_nullable }
    }
}

impl View for DataType {
    type V = Dtv;

    open spec fn view(&self) -> Dtv {
        self.dtv()
    }
}

impl DataType {
    pub open spec fn dtv(self) -> Dtv
        decreases self,
    {
        match self {
            DataType::Int8 => Dtv::Int8,
            DataType::Int16 => Dtv::Int16,
            DataType::Int32 => Dtv::Int32,
            DataType::Int64 => Dtv::Int64,
            DataType::UInt8 => Dtv::UInt8,
            DataType::UInt16 => Dtv::UInt16,
            DataType::UInt32 => Dtv::UInt32,
            DataType::UInt64 => Dtv::UInt64,
            DataType::Boolean => Dtv::Boolean,
            DataType::Utf8 => Dtv::Utf8,
            DataType::LargeUtf8 => Dtv::LargeUtf8,
            DataType::Binary => Dtv::Binary,
            DataType::LargeBinary => Dtv::LargeBinary,
            DataType::FixedSizeBinary(n) => Dtv::FixedSizeBinary(n),
            DataType::List(f) => Dtv::List(
                Box::new(Fieldv { data_type: f.data_type.dtv(), is_nullable: f.is_nullable }),
            ),
            DataType::LargeList(f) => Dtv::LargeList(
                Box::new(Fieldv { data_type: f.data_type.dtv(), is_nullable: f.is_nullable }),
            ),
            DataType::Struct(fs) => Dtv::Struct(fields_view(fs@)),
            DataType::Dictionary(k, v) => Dtv::Dictionary(k, Box::new(v.dtv())),
        }
    }
}

/// `fields_view` indexes pointwise.
pub broadcast proof fn lemma_fields_view_index(fs: Seq<Field>, i: int)
    requires
        0 <= i < fs.len(),
    ensures
        fields_view(fs).len() == fs.len(),
        #[trigger] fields_view(fs)[i] == fs[i]@,
    decreases fs,
{
    if fs.len() > 0 {
        if i < fs.len() - 1 {
            lemma_fields_view_index(fs.drop_last(), i);
        } else {
            lemma_fields_view_len(fs.drop_last());
        }
    }
}

/// `fields_view` preserves length.
pub broadcast proof fn lemma_fields_view_len(fs: Seq<Field>)
    ensures
        #[trigger] fields_view(fs).len() == fs.len(),
    decreases fs,
{
    if fs.len() > 0 {
        lemma_fields_view_len(fs.drop_last());
    }
}

/// Nesting depth of a logical type; the termination measure of the
/// recursive decode.
pub open spec fn dtv_height(d: Dtv) -> nat
    decreases d,
{
    match d {
        Dtv::List(f) => 1 + dtv_height(f.data_type),
        Dtv::LargeList(f) => 1 + dtv_height(f.data_type),
        Dtv::Struct(fs) => 1 + fields_height(fs),
        Dtv::Dictionary(_, v) => 1 + dtv_height(*v),
        _ => 1,
    }
}

/// The largest height among a list of declared children.
pub open spec fn fields_height(fs: Seq<Fieldv>) -> nat
    decreases fs,
{
    if fs.len() == 0 {
        0
    } else {
        let rest = fields_height(fs.drop_last());
        let last = dtv_height(fs.last().data_type);
        if rest > last {
            rest
        } else {
            last
        }
    }
}

/// Each child's height is bounded by the list's height.
pub broadcast proof fn lemma_fields_height(fs: Seq<Fieldv>, i: int)
    requires
        0 <= i < fs.len(),
    ensures
        #[trigger] dtv_height(fs[i].data_type) <= fields_height(fs),
    decreases fs,
{
    if i < fs.len() - 1 {
        lemma_fields_height(fs.drop_last(), i);
    }
}

pub open spec fn kind_width(k: IntKind) -> nat {
    match k {
        IntKind::Int8 => 1,
        IntKind::Int16 => 2,
        IntKind::Int32 => 4,
        IntKind::Int64 => 8,
        IntKind::UInt8 => 1,
        IntKind::UInt16 => 2,
        IntKind::UInt32 => 4,
        IntKind::UInt64 => 8,
    }
}

pub open spec fn kind_signed(k: IntKind) -> bool {
    match k {
        IntKind::Int8 => true,
        IntKind::Int16 => true,
        IntKind::Int32 => true,
        IntKind::Int64 => true,
        IntKind::UInt8 => false,
        IntKind::UInt16 => false,
        IntKind::UInt32 => false,
        IntKind::UInt64 => false,
    }
}

pub open spec fn kind_min(k: IntKind) -> int {
    match k {
        IntKind::Int8 => -128,
        IntKind::Int16 => -32768,
        IntKind::Int32 => -2147483648,
        IntKind::Int64 => -9223372036854775808,
        IntKind::UInt8 => 0,
        IntKind::UInt16 => 0,
        IntKind::UInt32 => 0,
        IntKind::UInt64 => 0,
    }
}

pub open spec fn kind_max(k: IntKind) -> int {
    match k {
        IntKind::Int8 => 127,
        IntKind::Int16 => 32767,
        IntKind::Int32 => 2147483647,
        IntKind::Int64 => 9223372036854775807,
        IntKind::UInt8 => 255,
        IntKind::UInt16 => 65535,
        IntKind::UInt32 => 4294967295,
        IntKind::UInt64 => 18446744073709551615,
    }
}

/// The `Dtv` a primitive array of kind `k` carries.
pub open spec fn kind_dtv(k: IntKind) -> Dtv {
    match k {
        IntKind::Int8 => Dtv::Int8,
        IntKind::Int16 => Dtv::Int16,
        IntKind::Int32 => Dtv::Int32,
        IntKind::Int64 => Dtv::Int64,
        IntKind::UInt8 => Dtv::UInt8,
        IntKind::UInt16 => Dtv::UInt16,
        IntKind::UInt32 => Dtv::UInt32,
        IntKind::UInt64 => Dtv::UInt64,
    }
}

/// The primitive kind of a logical type, if it has one.
pub open spec fn prim_kind(d: Dtv) -> Option<IntKind> {
    match d {
        Dtv::Int8 => Some(IntKind::Int8),
        Dtv::Int16 => Some(IntKind::Int16),
        Dtv::Int32 => Some(IntKind::Int32),
        Dtv::Int64 => Some(IntKind::Int64),
        Dtv::UInt8 => Some(IntKind::UInt8),
        Dtv::UInt16 => Some(IntKind::UInt16),
        Dtv::UInt32 => Some(IntKind::UInt32),
        Dtv::UInt64 => Some(IntKind::UInt64),
        _ => None,
    }
}

impl IntKind {
    /// Wire width of one element, in bytes.
    pub fn width(&self) -> (w: usize)
        ensures
            w == kind_width(*self),
    {
        match self {
            IntKind::Int8 => 1,
            IntKind::Int16 => 2,
            IntKind::Int32 => 4,
            IntKind::Int64 => 8,
            IntKind::UInt8 => 1,
            IntKind::UInt16 => 2,
            IntKind::UInt32 => 4,
            IntKind::UInt64 => 8,
        }
    }

    pub fn signed(&self) -> (s: bool)
        ensures
            s == kind_signed(*self),
    {
        match self {
            IntKind::Int8 => true,
            IntKind::Int16 => true,
            IntKind::Int32 => true,
            IntKind::Int64 => true,
            IntKind::UInt8 => false,
            IntKind::UInt16 => false,
            IntKind::UInt32 => false,
            IntKind::UInt64 => false,
        }
    }
}

impl DataType {
    /// The primitive kind of this type, if it is a primitive type.
    pub fn primitive_kind(&self) -> (r: Option<IntKind>)
        ensures
            r == prim_kind(self@),
    {
        match self {
            DataType::Int8 => Some(IntKind::Int8),
            DataType::Int16 => Some(IntKind::Int16),
            DataType::Int32 => Some(IntKind::Int32),
            DataType::Int64 => Some(IntKind::Int64),
            DataType::UInt8 => Some(IntKind::UInt8),
            DataType::UInt16 => Some(IntKind::UInt16),
            DataType::UInt32 => Some(IntKind::UInt32),
            DataType::UInt64 => Some(IntKind::UInt64),
            _ => None,
        }
    }

    /// Structural equality against the ghost mirror: two types are equal
    /// exactly when their views are.
    pub fn same_as(&self, other: &DataType) -> (r: bool)
        ensures
            r == (self@ == other@),
        decreases *self,
    {
        match (self, other) {
            (DataType::Int8, DataType::Int8) => true,
            (DataType::Int16, DataType::Int16) => true,
            (DataType::Int32, DataType::Int32) => true,
            (DataType::Int64, DataType::Int64) => true,
            (DataType::UInt8, DataType::UInt8) => true,
            (DataType::UInt16, DataType::UInt16) => true,
            (DataType::UInt32, DataType::UInt32) => true,
            (DataType::UInt64, DataType::UInt64) => true,
            (DataType::Boolean, DataType::Boolean) => true,
            (DataType::Utf8, DataType::Utf8) => true,
            (DataType::LargeUtf8, DataType::LargeUtf8) => true,
            (DataType::Binary, DataType::Binary) => true,
            (DataType::LargeBinary, DataType::LargeBinary) => true,
            (DataType::FixedSizeBinary(a), DataType::FixedSizeBinary(b)) => a == b,
            (DataType::List(a), DataType::List(b)) => (a.is_nullable == b.is_nullable)
                && a.data_type.same_as(&b.data_type),
            (DataType::LargeList(a), DataType::LargeList(b)) => (a.is_nullable == b.is_nullable)
                && a.data_type.same_as(&b.data_type),
            (DataType::Struct(a), DataType::Struct(b)) => fields_match(a, b),
            (DataType::Dictionary(ka, va), DataType::Dictionary(kb, vb)) => (ka == kb)
                && va.same_as(vb),
            _ => false,
        }
    }

    /// A deep copy whose view is the same.
    pub fn duplicate(&self) -> (r: DataType)
        ensures
            r@ == self@,
        decreases *self,
    {
        match self {
            DataType::Int8 => DataType::Int8,
            DataType::Int16 => DataType::Int16,
            DataType::Int32 => DataType::Int32,
            DataType::Int64 => DataType::Int64,
            DataType::UInt8 => DataType::UInt8,
            DataType::UInt16 => DataType::UInt16,
            DataType::UInt32 => DataType::UInt32,
            DataType::UInt64 => DataType::UInt64,
            DataType::Boolean => DataType::Boolean,
            DataType::Utf8 => DataType::Utf8,
            DataType::LargeUtf8 => DataType::LargeUtf8,
            DataType::Binary => DataType::Binary,
            DataType::LargeBinary => DataType::LargeBinary,
            DataType::FixedSizeBinary(n) => DataType::FixedSizeBinary(*n),
            DataType::List(f) => DataType::List(
                Box::new(Field { data_type: f.data_type.duplicate(), is_nullable: f.is_nullable }),
            ),
            DataType::LargeList(f) => DataType::LargeList(
                Box::new(Field { data_type: f.data_type.duplicate(), is_nullable: f.is_nullable }),
            ),
            DataType::Struct(fs) => DataType::Struct(duplicate_fields(fs)),
            DataType::Dictionary(k, v) => DataType::Dictionary(*k, Box::new(v.duplicate())),
        }
    }
}

/// Pointwise equality of two declared field lists.
pub fn fields_match(a: &Vec<Field>, b: &Vec<Field>) -> (r: bool)
    ensures
        r == (fields_view(a@) == fields_view(b@)),
    decreases a,
{
    proof {
        lemma_fields_view_len(a@);
        lemma_fields_view_len(b@);
    }
    if a.len() != b.len() {
        proof {
            assert(fields_view(a@).len() != fields_view(b@).len());
        }
        return false;
    }
    let n: usize = a.len();
    let mut i: usize = 0;
    while i < n
        invariant
            n == a.len() == b.len(),
            0 <= i <= n,
            forall|j: int| 0 <= j < i ==> a@[j]@ == b@[j]@,
        decreases n - i,
    {
        let fa = &a[i];
        let fb = &b[i];
        if fa.is_nullable != fb.is_nullable || !fa.data_type.same_as(&fb.data_type) {
            proof {
                lemma_fields_view_index(a@, i as int);
                lemma_fields_view_index(b@, i as int);
                assert(fields_view(a@)[i as int] != fields_view(b@)[i as int]);
            }
            return false;
        }
        i = i + 1;
    }
    proof {
        assert forall|j: int| 0 <= j < fields_view(a@).len() implies fields_view(a@)[j]
            == fields_view(b@)[j] by {
            lemma_fields_view_index(a@, j);
            lemma_fields_view_index(b@, j);
        }
        assert(fields_view(a@) =~= fields_view(b@));
    }
    true
}

/// A deep copy of a declared field list.
pub fn duplicate_fields(fs: &Vec<Field>) -> (r: Vec<Field>)
    ensures
        fields_view(r@) == fields_view(fs@),
        r@.len() == fs@.len(),
        forall|j: int| 0 <= j < fs@.len() ==> r@[j]@ == fs@[j]@,
    decreases fs,
{
    let n: usize = fs.len();
    let mut out: Vec<Field> = Vec::new();
    let mut i: usize = 0;
    while i < n
        invariant
            n == fs.len(),
            0 <= i <= n,
            out@.len() == i,
            forall|j: int| 0 <= j < i ==> out@[j]@ == fs@[j]@,
        decreases n - i,
    {
        let f = &fs[i];
        out.push(Field { data_type: f.data_type.duplicate(), is_nullable: f.is_nullable });
        i = i + 1;
    }
    proof {
        lemma_fields_view_len(out@);
        lemma_fields_view_len(fs@);
        assert forall|j: int| 0 <= j < fields_view(out@).len() implies fields_view(out@)[j]
            == fields_view(fs@)[j] by {
            lemma_fields_view_index(out@, j);
            lemma_fields_view_index(fs@, j);
        }
        assert(fields_view(out@) =~= fields_view(fs@));
    }
    out
}

} // verus!
