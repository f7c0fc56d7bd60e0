//! Layout descriptors and the validity predicate they induce on raw bytes.
use vstd::prelude::*;

verus! {

broadcast use vstd::std_specs::vec::group_vec_axioms;

/// Bytes in a data pointer, a function pointer and a `usize`.
pub const POINTER_BYTES: usize = 8;

/// A field of a product: where it starts in the product, and its own shape.
pub struct Field {
    pub offset: usize,
    pub shape: Shape,
}

/// The byte layout of a type that can cross the boundary.
///
/// Multi-byte integers (discriminants, pointers, lengths) are little-endian.
pub enum Shape {
    /// An integer, float or raw pointer of `size` bytes: every pattern is valid.
    Primitive { size: usize },
    /// A struct or tuple: fields at their offsets, the other bytes are padding.
    Product { size: usize, fields: Vec<Field> },
    /// A fieldless enum whose discriminant is `width` bytes wide.
    Discriminant { width: usize, values: Vec<u64> },
    /// An optional value whose absence is stored in a niche of `inner`.
    Optional { inner: Box<Shape> },
    /// A pointer and a length, each `POINTER_BYTES` wide, to elements aligned to `elem_align`.
    Slice { elem_align: usize },
    /// A function pointer.
    FnPtr,
}

/// The number that bytes `b` encode, least significant byte first.
pub open spec fn le_value(b: Seq<u8>) -> nat
    decreases b.len(),
{
    if b.len() == 0 {
        0
    } else {
        b[0] as nat + 256 * le_value(b.subrange(1, b.len() as int))
    }
}

/// `256` to the power `n`: the number of patterns of `n` bytes.
pub open spec fn pow256(n: nat) -> nat
    decreases n,
{
    if n == 0 {
        1
    } else {
        256 * pow256((n - 1) as nat)
    }
}

/// The least number above every declared discriminant value: the pattern that
/// stands for absence in an optional wrapping of the enum.
pub open spec fn sentinel(values: Seq<u64>) -> nat
    decreases values.len(),
{
    if values.len() == 0 {
        0
    } else {
        let rest = sentinel(values.drop_last());
        let here = values.last() as nat + 1;
        if rest < here {
            here
        } else {
            rest
        }
    }
}

/// The bytes of `b` that field `f` occupies.
pub open spec fn field_bytes(f: Field, b: Seq<u8>) -> Seq<u8> {
    b.subrange(f.offset as int, f.offset + f.shape.size())
}

impl Shape {
    /// The number of bytes a value of this shape occupies.
    pub open spec fn size(&self) -> nat
        decreases self,
    {
        match self {
            Shape::Primitive { size } => *size as nat,
            Shape::Product { size, .. } => *size as nat,
            Shape::Discriminant { width, .. } => *width as nat,
            Shape::Optional { inner } => inner.size(),
            Shape::Slice { .. } => (2 * POINTER_BYTES) as nat,
            Shape::FnPtr => POINTER_BYTES as nat,
        }
    }

    /// Whether some pattern of this shape's size is never a valid value, with
    /// one of them designated to encode absence. An enum has one when its
    /// largest value leaves room above it, a product when one of its fields
    /// has one; a slice has a null pointer with a nonzero length; an optional
    /// spends its niche and offers none.
    pub open spec fn has_niche(&self) -> bool
        decreases self,
    {
        match self {
            Shape::Product { fields, .. } => exists|i: int|
                0 <= i < fields.len() && (#[trigger] fields[i]).shape.has_niche(),
            Shape::Discriminant { width, values } => sentinel(values@) < pow256(*width as nat),
            Shape::Slice { .. } => true,
            Shape::FnPtr => true,
            _ => false,
        }
    }

    /// A well-formed descriptor: fields lie inside their product, a discriminant
    /// is one to eight bytes wide and holds its values, an optional wraps a shape
    /// with a niche.
    pub open spec fn wf(&self) -> bool
        decreases self,
    {
        match self {
            Shape::Primitive { .. } => true,
            Shape::Product { size, fields } => forall|i: int|
                0 <= i < fields.len() ==> (#[trigger] fields[i]).offset + fields[i].shape.size()
                    <= *size && fields[i].shape.wf(),
            Shape::Discriminant { width, values } => 1 <= *width <= 8 && forall|i: int|
                0 <= i < values.len() ==> (#[trigger] values[i]) < pow256(*width as nat),
            Shape::Optional { inner } => inner.wf() && inner.has_niche(),
            Shape::Slice { elem_align } => *elem_align >= 1,
            Shape::FnPtr => true,
        }
    }
}


/// Field `i` is the first field of `fields` that has a niche.
pub open spec fn first_niche(fields: Seq<Field>, i: int) -> bool {
    &&& 0 <= i < fields.len()
    &&& fields[i].shape.has_niche()
    &&& forall|j: int| 0 <= j < i ==> !(#[trigger] fields[j]).shape.has_niche()
}

/// The pointer half of a slice's bytes.
pub open spec fn slice_ptr(b: Seq<u8>) -> nat {
    le_value(b.subrange(0, POINTER_BYTES as int))
}

/// The length half of a slice's bytes.
pub open spec fn slice_len(b: Seq<u8>) -> nat {
    le_value(b.subrange(POINTER_BYTES as int, 2 * POINTER_BYTES))
}

impl Shape {
    /// Bytes `b` hold the pattern designated to encode absence: a discriminant
    /// one above the largest declared value, a null function pointer, a slice
    /// of length one at the null pointer, or that pattern in the first field
    /// of a product that has a niche.
    pub open spec fn absent(&self, b: Seq<u8>) -> bool
        decreases self,
    {
        match self {
            Shape::Product { fields, .. } => exists|i: int|
                first_niche(fields@, i) && (#[trigger] fields[i]).shape.absent(
                    field_bytes(fields[i], b),
                ),
            Shape::Discriminant { values, .. } => le_value(b) == sentinel(values@),
            Shape::Slice { .. } => slice_ptr(b) == 0 && slice_len(b) == 1,
            Shape::FnPtr => le_value(b) == 0,
            _ => false,
        }
    }

    /// Bytes `b`, of this shape's size, are a legal value of the shape.
    ///
    /// A slice's pointer must be aligned; it may be null only when the length is
    /// zero, so an empty slice with a null pointer is accepted.
    pub open spec fn valid(&self, b: Seq<u8>) -> bool
        decreases self,
    {
        match self {
            Shape::Primitive { .. } => true,
            Shape::Product { fields, .. } => forall|i: int|
                0 <= i < fields.len() ==> (#[trigger] fields[i]).shape.valid(
                    field_bytes(fields[i], b),
                ),
            Shape::Discriminant { values, .. } => exists|i: int|
                0 <= i < values.len() && (#[trigger] values[i]) as nat == le_value(b),
            Shape::Optional { inner } => inner.valid(b) || inner.absent(b),
            Shape::Slice { elem_align } => slice_ptr(b) % (*elem_align as nat) == 0 && (slice_len(b)
                != 0 ==> slice_ptr(b) != 0),
            Shape::FnPtr => le_value(b) != 0,
        }
    }
}

proof fn lemma_le_bound(b: Seq<u8>)
    ensures
        le_value(b) < pow256(b.len()),
    decreases b.len(),
{
    if b.len() > 0 {
        let rest = b.subrange(1, b.len() as int);
        lemma_le_bound(rest);
        let r = le_value(rest);
        let p = pow256(rest.len());
        assert(b[0] as nat + 256 * r < 256 * p) by (nonlinear_arith)
            requires
                r < p,
                b[0] < 256,
        ;
    }
}

proof fn lemma_pow256_mono(m: nat, n: nat)
    requires
        m <= n,
    ensures
        pow256(m) <= pow256(n),
    decreases n,
{
    if m < n {
        lemma_pow256_mono(m, (n - 1) as nat);
    }
}

proof fn lemma_pow256_8()
    ensures
        pow256(8) == 0x1_0000_0000_0000_0000,
{
    reveal_with_fuel(pow256, 9);
}

/// Reads `width` bytes of `bytes` from `at`, least significant first.
fn read_le(bytes: &[u8], at: usize, width: usize) -> (r: u64)
    requires
        width <= 8,
        at + width <= bytes@.len(),
        at + width <= usize::MAX,
    ensures
        r as nat == le_value(bytes@.subrange(at as int, at + width)),
{
    let mut acc: u64 = 0;
    let mut i: usize = width;
    while i > 0
        invariant
            i <= width <= 8,
            at + width <= bytes@.len(),
            at + width <= usize::MAX,
            acc as nat == le_value(bytes@.subrange(at + i, at + width)),
        decreases i,
    {
        let ghost tail = bytes@.subrange(at + i, at + width);
        let ghost whole = bytes@.subrange(at + i - 1, at + width);
        assert(whole.subrange(1, whole.len() as int) =~= tail);
        proof {
            lemma_le_bound(whole);
            lemma_pow256_mono(whole.len(), 8);
            lemma_pow256_8();
        }
        assert(le_value(whole) == whole[0] as nat + 256 * le_value(tail));
        assert(whole[0] == bytes@[at + i - 1]);
        assert(whole.len() <= 8);
        assert(le_value(whole) < 0x1_0000_0000_0000_0000);
        assert(256 * (acc as nat) < 0x1_0000_0000_0000_0000);
        let byte = bytes[at + i - 1];
        acc = byte as u64 + 256 * acc;
        i = i - 1;
    }
    acc
}


/// The pattern that encodes absence for an enum with these discriminant values.
pub fn absent_discriminant(values: &Vec<u64>) -> (r: u128)
    ensures
        r as nat == sentinel(values@),
{
    let mut acc: u128 = 0;
    let mut i: usize = 0;
    while i < values.len()
        invariant
            i <= values.len(),
            acc as nat == sentinel(values@.subrange(0, i as int)),
            acc <= 0x1_0000_0000_0000_0000,
        decreases values.len() - i,
    {
        assert(values@.subrange(0, i + 1).drop_last() =~= values@.subrange(0, i as int));
        let here = values[i] as u128 + 1;
        if acc < here {
            acc = here;
        }
        i = i + 1;
    }
    assert(values@.subrange(0, values.len() as int) =~= values@);
    acc
}

/// `256` to the power `n`, for `n` up to eight.
fn patterns(n: usize) -> (r: u128)
    requires
        n <= 8,
    ensures
        r as nat == pow256(n as nat),
{
    let mut acc: u128 = 1;
    let mut k: usize = 0;
    while k < n
        invariant
            k <= n <= 8,
            acc as nat == pow256(k as nat),
        decreases n - k,
    {
        proof {
            lemma_pow256_mono(k as nat, 7);
            reveal_with_fuel(pow256, 8);
        }
        acc = acc * 256;
        k = k + 1;
    }
    acc
}

impl Shape {
    /// The number of bytes a value of this shape occupies.
    pub fn size_of(&self) -> (r: usize)
        ensures
            r as nat == self.size(),
        decreases self,
    {
        match self {
            Shape::Primitive { size } => *size,
            Shape::Product { size, .. } => *size,
            Shape::Discriminant { width, .. } => *width,
            Shape::Optional { inner } => inner.size_of(),
            Shape::Slice { .. } => 2 * POINTER_BYTES,
            Shape::FnPtr => POINTER_BYTES,
        }
    }

    /// Whether the shape has a pattern to spare for encoding absence.
    pub fn niche_available(&self) -> (r: bool)
        requires
            self.wf(),
        ensures
            r == self.has_niche(),
        decreases self,
    {
        match self {
            Shape::Product { fields, .. } => {
                let mut i: usize = 0;
                while i < fields.len()
                    invariant
                        self.wf(),
                        self is Product && self->fields == *fields,
                        i <= fields.len(),
                        forall|j: int| 0 <= j < i ==> !(#[trigger] fields[j]).shape.has_niche(),
                    decreases fields.len() - i,
                {
                    if fields[i].shape.niche_available() {
                        return true;
                    }
                    i = i + 1;
                }
                false
            },
            Shape::Discriminant { width, values } => absent_discriminant(values) < patterns(
                *width,
            ),
            Shape::Slice { .. } => true,
            Shape::FnPtr => true,
            _ => false,
        }
    }

    /// Whether the shape's bytes starting at `at` hold its absence pattern.
    fn absent_at(&self, bytes: &[u8], at: usize) -> (r: bool)
        requires
            self.wf(),
            at + self.size() <= bytes@.len(),
            at + self.size() <= usize::MAX,
        ensures
            r == self.absent(bytes@.subrange(at as int, at + self.size())),
        decreases self,
    {
        let ghost sub = bytes@.subrange(at as int, at + self.size());
        match self {
            Shape::Product { fields, .. } => {
                let mut i: usize = 0;
                while i < fields.len()
                    invariant
                        self.wf(),
                        self is Product && self->fields == *fields,
                        at + self.size() <= bytes@.len(),
                        at + self.size() <= usize::MAX,
                        sub == bytes@.subrange(at as int, at + self.size()),
                        i <= fields.len(),
                        forall|j: int| 0 <= j < i ==> !(#[trigger] fields[j]).shape.has_niche(),
                    decreases fields.len() - i,
                {
                    let f = &fields[i];
                    if f.shape.niche_available() {
                        assert(first_niche(fields@, i as int));
                        assert(forall|k: int| first_niche(fields@, k) ==> k == i);
                        let ghost fs = f.shape.size();
                        assert(sub.subrange(f.offset as int, f.offset + fs) =~= bytes@.subrange(
                            at + f.offset,
                            at + f.offset + fs,
                        ));
                        return f.shape.absent_at(bytes, at + f.offset);
                    }
                    i = i + 1;
                }
                false
            },
            Shape::Discriminant { width, values } => {
                read_le(bytes, at, *width) as u128 == absent_discriminant(values)
            },
            Shape::Slice { .. } => {
                assert(sub.subrange(0, POINTER_BYTES as int) =~= bytes@.subrange(
                    at as int,
                    at + POINTER_BYTES,
                ));
                assert(sub.subrange(POINTER_BYTES as int, 2 * POINTER_BYTES) =~= bytes@.subrange(
                    at + POINTER_BYTES,
                    at + 2 * POINTER_BYTES,
                ));
                read_le(bytes, at, POINTER_BYTES) == 0 && read_le(bytes, at + POINTER_BYTES, POINTER_BYTES)
                    == 1
            },
            Shape::FnPtr => read_le(bytes, at, POINTER_BYTES) == 0,
            _ => false,
        }
    }

    /// Whether the shape's bytes starting at `at` are a legal value.
    fn valid_at(&self, bytes: &[u8], at: usize) -> (r: bool)
        requires
            self.wf(),
            at + self.size() <= bytes@.len(),
            at + self.size() <= usize::MAX,
        ensures
            r == self.valid(bytes@.subrange(at as int, at + self.size())),
        decreases self,
    {
        let ghost sub = bytes@.subrange(at as int, at + self.size());
        match self {
            Shape::Primitive { .. } => true,
            Shape::Product { fields, .. } => {
                let mut i: usize = 0;
                while i < fields.len()
                    invariant
                        self.wf(),
                        self is Product && self->fields == *fields,
                        at + self.size() <= bytes@.len(),
                        at + self.size() <= usize::MAX,
                        sub == bytes@.subrange(at as int, at + self.size()),
                        i <= fields.len(),
                        forall|j: int|
                            0 <= j < i ==> (#[trigger] fields[j]).shape.valid(
                                field_bytes(fields[j], sub),
                            ),
                    decreases fields.len() - i,
                {
                    let f = &fields[i];
                    let ghost fs = f.shape.size();
                    assert(sub.subrange(f.offset as int, f.offset + fs) =~= bytes@.subrange(
                        at + f.offset,
                        at + f.offset + fs,
                    ));
                    if !f.shape.valid_at(bytes, at + f.offset) {
                        return false;
                    }
                    i = i + 1;
                }
                true
            },
            Shape::Discriminant { width, values } => {
                let v = read_le(bytes, at, *width);
                let mut i: usize = 0;
                while i < values.len()
                    invariant
                        self is Discriminant && self->values == *values,
                        sub == bytes@.subrange(at as int, at + self.size()),
                        v as nat == le_value(sub),
                        i <= values.len(),
                        forall|j: int| 0 <= j < i ==> (#[trigger] values[j]) != v,
                    decreases values.len() - i,
                {
                    if values[i] == v {
                        return true;
                    }
                    i = i + 1;
                }
                false
            },
            Shape::Optional { inner } => inner.valid_at(bytes, at) || inner.absent_at(bytes, at),
            Shape::Slice { elem_align } => {
                assert(sub.subrange(0, POINTER_BYTES as int) =~= bytes@.subrange(
                    at as int,
                    at + POINTER_BYTES,
                ));
                assert(sub.subrange(POINTER_BYTES as int, 2 * POINTER_BYTES) =~= bytes@.subrange(
                    at + POINTER_BYTES,
                    at + 2 * POINTER_BYTES,
                ));
                let ptr = read_le(bytes, at, POINTER_BYTES);
                let len = read_le(bytes, at + POINTER_BYTES, POINTER_BYTES);
                ptr % (*elem_align as u64) == 0 && (len == 0 || ptr != 0)
            },
            Shape::FnPtr => read_le(bytes, at, POINTER_BYTES) != 0,
        }
    }

    /// Decides whether `bytes` are a legal value of this shape, before anyone
    /// reinterprets them as one.
    pub fn is_valid(&self, bytes: &[u8]) -> (r: bool)
        requires
            self.wf(),
            bytes@.len() == self.size(),
        ensures
            r == self.valid(bytes@),
    {
        assert(bytes@.subrange(0, bytes@.len() as int) =~= bytes@);
        let _ = self.size_of();
        self.valid_at(bytes, 0)
    }

    /// Validates the bytes of a fieldless enum and converts them: the index of
    /// the declared variant they hold, or nothing when they hold none.
    pub fn variant_index(&self, bytes: &[u8]) -> (r: Option<usize>)
        requires
            self is Discriminant,
            self.wf(),
            bytes@.len() == self.size(),
        ensures
            r is Some <==> self.valid(bytes@),
            r is Some ==> r->0 < self->values.len() && self->values[r->0 as int] as nat
                == le_value(bytes@),
    {
        match self {
            Shape::Discriminant { width, values } => {
                assert(bytes@.subrange(0, *width as int) =~= bytes@);
                let v = read_le(bytes, 0, *width);
                let mut i: usize = 0;
                while i < values.len()
                    invariant
                        self is Discriminant && self->values == *values,
                        v as nat == le_value(bytes@),
                        i <= values.len(),
                        forall|j: int| 0 <= j < i ==> (#[trigger] values[j]) != v,
                    decreases values.len() - i,
                {
                    if values[i] == v {
                        return Some(i);
                    }
                    i = i + 1;
                }
                None
            },
            _ => None,
        }
    }

    /// Decides whether `bytes` hold the pattern that encodes absence for this shape.
    pub fn is_absent(&self, bytes: &[u8]) -> (r: bool)
        requires
            self.wf(),
            bytes@.len() == self.size(),
        ensures
            r == self.absent(bytes@),
    {
        assert(bytes@.subrange(0, bytes@.len() as int) =~= bytes@);
        let _ = self.size_of();
        self.absent_at(bytes, 0)
    }
}


/// A value of some shape, as a producer on either side of the boundary builds it.
pub enum Value {
    /// Any bit pattern of a primitive.
    Bits,
    /// One value per field of a product.
    Fields(Seq<Value>),
    /// The declared variant at this index of a fieldless enum.
    Variant(int),
    /// An optional that holds nothing.
    Absent,
    /// An optional that holds a value.
    Present(Box<Value>),
    /// A slice made from a reference: its start and its number of elements.
    SliceOf { ptr: nat, len: nat },
    /// A function pointer to the code at `addr`.
    Function { addr: nat },
}

impl Shape {
    /// `v` is a value that can legitimately be built for this shape: a slice
    /// comes from a reference, so its pointer is non-null and aligned; a
    /// function pointer points at code.
    pub open spec fn conforms(&self, v: Value) -> bool
        decreases self,
    {
        match self {
            Shape::Primitive { .. } => v is Bits,
            Shape::Product { fields, .. } => match v {
                Value::Fields(vs) => vs.len() == fields.len() && forall|i: int|
                    0 <= i < fields.len() ==> (#[trigger] fields[i]).shape.conforms(vs[i]),
                _ => false,
            },
            Shape::Discriminant { values, .. } => match v {
                Value::Variant(k) => 0 <= k < values.len(),
                _ => false,
            },
            Shape::Optional { inner } => match v {
                Value::Absent => true,
                Value::Present(w) => inner.conforms(*w),
                _ => false,
            },
            Shape::Slice { elem_align } => match v {
                Value::SliceOf { ptr, len } => ptr != 0 && ptr % (*elem_align as nat) == 0,
                _ => false,
            },
            Shape::FnPtr => match v {
                Value::Function { addr } => addr != 0,
                _ => false,
            },
        }
    }

    /// Bytes `b` are how value `v` of this shape looks in memory; padding and
    /// the bits of a primitive are left free.
    pub open spec fn represents(&self, v: Value, b: Seq<u8>) -> bool
        decreases self,
    {
        match self {
            Shape::Primitive { .. } => true,
            Shape::Product { fields, .. } => match v {
                Value::Fields(vs) => forall|i: int|
                    0 <= i < fields.len() ==> (#[trigger] fields[i]).shape.represents(
                        vs[i],
                        field_bytes(fields[i], b),
                    ),
                _ => false,
            },
            Shape::Discriminant { values, .. } => match v {
                Value::Variant(k) => 0 <= k < values.len() && le_value(b) == values[k] as nat,
                _ => false,
            },
            Shape::Optional { inner } => match v {
                Value::Absent => inner.absent(b),
                Value::Present(w) => inner.represents(*w, b),
                _ => false,
            },
            Shape::Slice { .. } => match v {
                Value::SliceOf { ptr, len } => slice_ptr(b) == ptr && slice_len(b) == len,
                _ => false,
            },
            Shape::FnPtr => match v {
                Value::Function { addr } => le_value(b) == addr,
                _ => false,
            },
        }
    }
}

proof fn lemma_sentinel_above(values: Seq<u64>, i: int)
    requires
        0 <= i < values.len(),
    ensures
        values[i] < sentinel(values),
    decreases values.len(),
{
    if i < values.len() - 1 {
        lemma_sentinel_above(values.drop_last(), i);
    }
}

/// The pattern that a shape designates for absence is never a valid value of
/// it, so an optional wrapping tells its two cases apart.
pub proof fn lemma_absent_never_valid(s: Shape, b: Seq<u8>)
    requires
        s.wf(),
        s.absent(b),
    ensures
        !s.valid(b),
    decreases s,
{
    match s {
        Shape::Product { fields, .. } => {
            let i = choose|i: int|
                first_niche(fields@, i) && (#[trigger] fields[i]).shape.absent(
                    field_bytes(fields[i], b),
                );
            lemma_absent_never_valid(fields[i].shape, field_bytes(fields[i], b));
        },
        Shape::Discriminant { values, .. } => {
            assert forall|i: int| 0 <= i < values.len() implies (#[trigger] values[i]) as nat
                != le_value(b) by {
                lemma_sentinel_above(values@, i);
            }
        },
        _ => {},
    }
}

/// Whether bytes are a valid product depends only on the bytes its fields
/// occupy: whatever fills the padding leaves the outcome as it is.
pub proof fn lemma_padding_irrelevant(s: Shape, b1: Seq<u8>, b2: Seq<u8>)
    requires
        s is Product,
        s.wf(),
        b1.len() == s.size(),
        b2.len() == s.size(),
        forall|i: int|
            0 <= i < s->fields.len() ==> field_bytes(#[trigger] s->fields[i], b1) == field_bytes(
                s->fields[i],
                b2,
            ),
    ensures
        s.valid(b1) == s.valid(b2),
{
}

/// Round trip: the bytes of any value legitimately built for a shape pass
/// that shape's validity check.
pub proof fn lemma_round_trip(s: Shape, v: Value, b: Seq<u8>)
    requires
        s.wf(),
        s.conforms(v),
        s.represents(v, b),
    ensures
        s.valid(b),
    decreases s,
{
    match s {
        Shape::Product { fields, .. } => {
            let vs = v->Fields_0;
            assert forall|i: int| 0 <= i < fields.len() implies (#[trigger] fields[i]).shape.valid(
                field_bytes(fields[i], b),
            ) by {
                lemma_round_trip(fields[i].shape, vs[i], field_bytes(fields[i], b));
            }
        },
        Shape::Discriminant { values, .. } => {
            let k = v->Variant_0;
            assert(values[k] as nat == le_value(b));
        },
        Shape::Optional { inner } => {
            if let Value::Present(w) = v {
                lemma_round_trip(*inner, *w, b);
            }
        },
        _ => {},
    }
}

} // verus!
