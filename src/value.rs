use vstd::prelude::*;

use crate::text::{first_nul, lemma_first_nul, units_before_nul, valid_utf16, WideString};
use crate::util::{le_bytes_of_units, padded_to_even, units_of_le_bytes, U16AlignedU8Vec};

verus! {

/// What can go wrong when value data is read or a wide string is built.
#[derive(Debug, Clone, Copy, PartialEq, Eq, Structural)]
pub enum Error {
    /// The type tag is outside the known range.
    UnhandledType(u32),
    /// A NUL code unit inside a string.
    InvalidNul,
    /// A string without its terminating NUL.
    MissingNul,
    /// A multi-string without its terminating double NUL.
    MissingMultiNul,
    /// Code units that are not well-formed UTF-16.
    InvalidUtf16,
    /// A text buffer of odd byte length.
    InvalidBufferSize(usize),
    /// A numeric buffer shorter than its width.
    BufferTooShort(usize),
}

/// The value types of the store, by tag `0` to `11` in this order.
#[derive(Debug, Clone, Copy, PartialEq, Eq, Structural)]
pub enum Type {
    Untyped,
    String,
    ExpandString,
    Binary,
    U32,
    U32BE,
    Link,
    MultiString,
    ResourceList,
    FullResourceDescriptor,
    ResourceRequirementsList,
    U64,
}

/// The largest known type tag.
pub const TYPE_TAG_MAX: u32 = 11;

impl Type {
    /// The numeric tag of the type.
    pub open spec fn tag(self) -> u32 {
        match self {
            Type::Untyped => 0,
            Type::String => 1,
            Type::ExpandString => 2,
            Type::Binary => 3,
            Type::U32 => 4,
            Type::U32BE => 5,
            Type::Link => 6,
            Type::MultiString => 7,
            Type::ResourceList => 8,
            Type::FullResourceDescriptor => 9,
            Type::ResourceRequirementsList => 10,
            Type::U64 => 11,
        }
    }

    /// The type with a given tag, for a tag up to `TYPE_TAG_MAX`.
    pub open spec fn of_tag(ty: u32) -> Type {
        if ty == 0 {
            Type::Untyped
        } else if ty == 1 {
            Type::String
        } else if ty == 2 {
            Type::ExpandString
        } else if ty == 3 {
            Type::Binary
        } else if ty == 4 {
            Type::U32
        } else if ty == 5 {
            Type::U32BE
        } else if ty == 6 {
            Type::Link
        } else if ty == 7 {
            Type::MultiString
        } else if ty == 8 {
            Type::ResourceList
        } else if ty == 9 {
            Type::FullResourceDescriptor
        } else if ty == 10 {
            Type::ResourceRequirementsList
        } else {
            Type::U64
        }
    }

    /// The numeric tag of the type.
    pub fn to_u32(self) -> (r: u32)
        ensures
            r == self.tag(),
    {
        match self {
            Type::Untyped => 0,
            Type::String => 1,
            Type::ExpandString => 2,
            Type::Binary => 3,
            Type::U32 => 4,
            Type::U32BE => 5,
            Type::Link => 6,
            Type::MultiString => 7,
            Type::ResourceList => 8,
            Type::FullResourceDescriptor => 9,
            Type::ResourceRequirementsList => 10,
            Type::U64 => 11,
        }
    }
}

/// A tag that names no known type.
#[derive(Debug, Clone, Copy, PartialEq, Eq, Structural)]
pub struct TryIntoTypeError(pub u32);

impl TryFrom<u32> for Type {
    type Error = TryIntoTypeError;

    fn try_from(ty: u32) -> (r: Result<Type, TryIntoTypeError>) {
        if ty > TYPE_TAG_MAX {
            return Err(TryIntoTypeError(ty));
        }
        let t = if ty == 0 {
            Type::Untyped
        } else if ty == 1 {
            Type::String
        } else if ty == 2 {
            Type::ExpandString
        } else if ty == 3 {
            Type::Binary
        } else if ty == 4 {
            Type::U32
        } else if ty == 5 {
            Type::U32BE
        } else if ty == 6 {
            Type::Link
        } else if ty == 7 {
            Type::MultiString
        } else if ty == 8 {
            Type::ResourceList
        } else if ty == 9 {
            Type::FullResourceDescriptor
        } else if ty == 10 {
            Type::ResourceRequirementsList
        } else {
            Type::U64
        };
        Ok(t)
    }
}

impl vstd::std_specs::convert::TryFromSpecImpl<u32> for Type {
    open spec fn obeys_try_from_spec() -> bool {
        true
    }

    open spec fn try_from_spec(ty: u32) -> Result<Type, TryIntoTypeError> {
        if ty <= TYPE_TAG_MAX {
            Ok(Type::of_tag(ty))
        } else {
            Err(TryIntoTypeError(ty))
        }
    }
}

/// Typed value data, one variant per value type.
#[derive(Debug, Clone, PartialEq, Eq)]
pub enum Data {
    Untyped,
    String(WideString),
    ExpandString(WideString),
    Binary(Vec<u8>),
    U32(u32),
    U32BE(u32),
    Link,
    MultiString(Vec<WideString>),
    ResourceList,
    FullResourceDescriptor,
    ResourceRequirementsList,
    U64(u64),
}

/// The code units of each string of a list.
pub open spec fn text_views(l: Seq<WideString>) -> Seq<Seq<u16>> {
    l.map_values(|w: WideString| w@)
}

/// The contents of each vector of a list.
pub open spec fn unit_views(l: Seq<Vec<u16>>) -> Seq<Seq<u16>> {
    l.map_values(|v: Vec<u16>| v@)
}

/// The mathematical content of a [`Data`]: strings as their code units.
pub enum DataView {
    Untyped,
    String(Seq<u16>),
    ExpandString(Seq<u16>),
    Binary(Seq<u8>),
    U32(u32),
    U32BE(u32),
    Link,
    MultiString(Seq<Seq<u16>>),
    ResourceList,
    FullResourceDescriptor,
    ResourceRequirementsList,
    U64(u64),
}

impl View for Data {
    type V = DataView;

    open spec fn view(&self) -> DataView {
        match self {
            Data::Untyped => DataView::Untyped,
            Data::String(s) => DataView::String(s@),
            Data::ExpandString(s) => DataView::ExpandString(s@),
            Data::Binary(b) => DataView::Binary(b@),
            Data::U32(v) => DataView::U32(*v),
            Data::U32BE(v) => DataView::U32BE(*v),
            Data::Link => DataView::Link,
            Data::MultiString(l) => DataView::MultiString(text_views(l@)),
            Data::ResourceList => DataView::ResourceList,
            Data::FullResourceDescriptor => DataView::FullResourceDescriptor,
            Data::ResourceRequirementsList => DataView::ResourceRequirementsList,
            Data::U64(v) => DataView::U64(*v),
        }
    }
}

impl DataView {
    /// The value type that the variant stands for.
    pub open spec fn value_type(self) -> Type {
        match self {
            DataView::Untyped => Type::Untyped,
            DataView::String(_) => Type::String,
            DataView::ExpandString(_) => Type::ExpandString,
            DataView::Binary(_) => Type::Binary,
            DataView::U32(_) => Type::U32,
            DataView::U32BE(_) => Type::U32BE,
            DataView::Link => Type::Link,
            DataView::MultiString(_) => Type::MultiString,
            DataView::ResourceList => Type::ResourceList,
            DataView::FullResourceDescriptor => Type::FullResourceDescriptor,
            DataView::ResourceRequirementsList => Type::ResourceRequirementsList,
            DataView::U64(_) => Type::U64,
        }
    }
}

/// The four bytes of `v`, least significant first.
pub open spec fn le_u32_bytes(v: u32) -> Seq<u8> {
    seq![(v % 0x100) as u8, (v / 0x100 % 0x100) as u8, (v / 0x10000 % 0x100) as u8, (v / 0x1000000) as u8]
}

/// The four bytes of `v`, most significant first.
pub open spec fn be_u32_bytes(v: u32) -> Seq<u8> {
    seq![(v / 0x1000000) as u8, (v / 0x10000 % 0x100) as u8, (v / 0x100 % 0x100) as u8, (v % 0x100) as u8]
}

/// The eight bytes of `v`, least significant first.
pub open spec fn le_u64_bytes(v: u64) -> Seq<u8> {
    le_u32_bytes((v % 0x1_0000_0000) as u32) + le_u32_bytes((v / 0x1_0000_0000) as u32)
}

/// The number held by the first four bytes, least significant first.
pub open spec fn read_le_u32(b: Seq<u8>) -> u32 {
    (b[0] + 0x100 * b[1] + 0x10000 * b[2] + 0x1000000 * b[3]) as u32
}

/// The number held by the first four bytes, most significant first.
pub open spec fn read_be_u32(b: Seq<u8>) -> u32 {
    (b[3] + 0x100 * b[2] + 0x10000 * b[1] + 0x1000000 * b[0]) as u32
}

/// The number held by the first eight bytes, least significant first.
pub open spec fn read_le_u64(b: Seq<u8>) -> u64 {
    (read_le_u32(b) + 0x1_0000_0000 * read_le_u32(b.skip(4))) as u64
}

/// The entries of a multi-string, each followed by its NUL.
pub open spec fn terminated_units(l: Seq<Seq<u16>>) -> Seq<u16>
    decreases l.len(),
{
    if l.len() == 0 {
        Seq::empty()
    } else {
        terminated_units(l.drop_last()) + l.last().push(0u16)
    }
}

/// The code units of a multi-string: the terminated entries and one more
/// NUL, so that it ends in a double NUL; the empty list is a double NUL alone.
pub open spec fn multi_string_units(l: Seq<Seq<u16>>) -> Seq<u16> {
    if l.len() == 0 {
        seq![0u16, 0u16]
    } else {
        terminated_units(l).push(0u16)
    }
}

/// The bytes that a value is stored as.
pub open spec fn encode_spec(d: DataView) -> Seq<u8> {
    match d {
        DataView::String(s) => le_bytes_of_units(s.push(0u16)),
        DataView::ExpandString(s) => le_bytes_of_units(s.push(0u16)),
        DataView::Binary(b) => b,
        DataView::U32(v) => le_u32_bytes(v),
        DataView::U32BE(v) => be_u32_bytes(v),
        DataView::MultiString(l) => le_bytes_of_units(multi_string_units(l)),
        DataView::U64(v) => le_u64_bytes(v),
        _ => Seq::empty(),
    }
}

/// The pieces of a sequence between its NUL units, in order; a sequence
/// with `k` NULs has `k + 1` pieces.
pub open spec fn split_at_nul(s: Seq<u16>) -> Seq<Seq<u16>>
    decreases s.len(),
{
    if s.len() == 0 {
        seq![Seq::empty()]
    } else if s.last() == 0 {
        split_at_nul(s.drop_last()).push(Seq::empty())
    } else {
        let p = split_at_nul(s.drop_last());
        p.update(p.len() - 1, p.last().push(s.last()))
    }
}

/// The entries of a multi-string body (its units before the double NUL):
/// none for an empty body, else the pieces between NULs.
pub open spec fn multi_string_entries(body: Seq<u16>) -> Seq<Seq<u16>> {
    if body.len() == 0 {
        Seq::empty()
    } else {
        split_at_nul(body)
    }
}

/// Reading a single string: an even number of bytes whose last unit is a
/// NUL; the string is the units before the first NUL, which must be
/// well-formed UTF-16.
pub open spec fn decode_text(b: Seq<u8>) -> Result<Seq<u16>, Error> {
    let u = units_of_le_bytes(b);
    if b.len() % 2 == 1 {
        Err(Error::InvalidBufferSize(b.len() as usize))
    } else if u.len() == 0 || u.last() != 0 {
        Err(Error::MissingNul)
    } else if !valid_utf16(u.take(first_nul(u))) {
        Err(Error::InvalidUtf16)
    } else {
        Ok(u.take(first_nul(u)))
    }
}

/// Reading a multi-string: an even number of bytes whose units end in a
/// double NUL; every entry must be well-formed UTF-16.
pub open spec fn decode_multi(b: Seq<u8>) -> Result<Seq<Seq<u16>>, Error> {
    let u = units_of_le_bytes(b);
    let entries = multi_string_entries(u.take(u.len() - 2));
    if b.len() % 2 == 1 {
        Err(Error::InvalidBufferSize(b.len() as usize))
    } else if u.len() < 2 || u[u.len() - 1] != 0 || u[u.len() - 2] != 0 {
        Err(Error::MissingMultiNul)
    } else if exists|i: int| 0 <= i < entries.len() && !valid_utf16(#[trigger] entries[i]) {
        Err(Error::InvalidUtf16)
    } else {
        Ok(entries)
    }
}

/// The value that a tag and a buffer decode to, or the error.
pub open spec fn decode_spec(ty: u32, b: Seq<u8>) -> Result<DataView, Error> {
    if ty > TYPE_TAG_MAX {
        Err(Error::UnhandledType(ty))
    } else {
        match Type::of_tag(ty) {
            Type::Untyped => Ok(DataView::Untyped),
            Type::String => match decode_text(b) {
                Ok(t) => Ok(DataView::String(t)),
                Err(e) => Err(e),
            },
            Type::ExpandString => match decode_text(b) {
                Ok(t) => Ok(DataView::ExpandString(t)),
                Err(e) => Err(e),
            },
            Type::Binary => Ok(DataView::Binary(b)),
            Type::U32 => if b.len() < 4 {
                Err(Error::BufferTooShort(b.len() as usize))
            } else {
                Ok(DataView::U32(read_le_u32(b)))
            },
            Type::U32BE => if b.len() < 4 {
                Err(Error::BufferTooShort(b.len() as usize))
            } else {
                Ok(DataView::U32BE(read_be_u32(b)))
            },
            Type::Link => Ok(DataView::Link),
            Type::MultiString => match decode_multi(b) {
                Ok(l) => Ok(DataView::MultiString(l)),
                Err(e) => Err(e),
            },
            Type::ResourceList => Ok(DataView::ResourceList),
            Type::FullResourceDescriptor => Ok(DataView::FullResourceDescriptor),
            Type::ResourceRequirementsList => Ok(DataView::ResourceRequirementsList),
            Type::U64 => if b.len() < 8 {
                Err(Error::BufferTooShort(b.len() as usize))
            } else {
                Ok(DataView::U64(read_le_u64(b)))
            },
        }
    }
}

/// `r` is what decoding `b` under tag `ty` gives.
pub open spec fn decodes_to(ty: u32, b: Seq<u8>, r: Result<Data, Error>) -> bool {
    match r {
        Ok(d) => decode_spec(ty, b) == Ok::<DataView, Error>(d@),
        Err(e) => decode_spec(ty, b) == Err::<DataView, Error>(e),
    }
}

/// The code units laid out as bytes, low byte first.
pub fn u16_to_u8_vec(vec: Vec<u16>) -> (r: Vec<u8>)
    ensures
        r@ == le_bytes_of_units(vec@),
{
    let n: usize = vec.len();
    let mut out: Vec<u8> = Vec::new();
    let mut k: usize = 0;
    while k < n
        invariant
            n == vec@.len(),
            k <= n,
            out@ == le_bytes_of_units(vec@.take(k as int)),
        decreases n - k,
    {
        let u = vec[k];
        out.push((u % 256) as u8);
        out.push((u / 256) as u8);
        k = k + 1;
        proof {
            let t = vec@.take(k as int);
            assert forall|i: int| 0 <= i < 2 * k implies #[trigger] le_bytes_of_units(t)[i] == out@[i] by {
                if i < 2 * (k - 1) {
                    assert(vec@.take(k - 1)[i / 2] == t[i / 2]);
                }
            }
            assert(out@ =~= le_bytes_of_units(t));
        }
    }
    assert(vec@.take(n as int) =~= vec@);
    out
}

/// Appends the units of `s` to `out`.
fn push_units(out: &mut Vec<u16>, s: &[u16])
    ensures
        final(out)@ == old(out)@ + s@,
{
    let mut k: usize = 0;
    while k < s.len()
        invariant
            k <= s@.len(),
            out@ == old(out)@ + s@.take(k as int),
        decreases s@.len() - k,
    {
        out.push(s[k]);
        k = k + 1;
        assert(out@ =~= old(out)@ + s@.take(k as int));
    }
    assert(s@.take(k as int) =~= s@);
}

/// A string as stored: its units, a NUL, each unit low byte first.
fn string_to_utf16_byte_vec(s: &WideString) -> (r: Vec<u8>)
    ensures
        r@ == le_bytes_of_units(s@.push(0u16)),
{
    let mut units: Vec<u16> = Vec::new();
    push_units(&mut units, s.as_slice());
    units.push(0);
    assert(units@ =~= s@.push(0u16));
    u16_to_u8_vec(units)
}

/// A multi-string as stored.
fn multi_string_bytes(l: &Vec<WideString>) -> (r: Vec<u8>)
    ensures
        r@ == le_bytes_of_units(multi_string_units(text_views(l@))),
{
    let ghost m = text_views(l@);
    let mut units: Vec<u16> = Vec::new();
    let mut i: usize = 0;
    while i < l.len()
        invariant
            i <= l@.len(),
            m == text_views(l@),
            units@ == terminated_units(m.take(i as int)),
        decreases l@.len() - i,
    {
        push_units(&mut units, l[i].as_slice());
        units.push(0);
        proof {
            let t = m.take(i + 1);
            assert(t.drop_last() =~= m.take(i as int));
            assert(t.last() == l@[i as int]@);
        }
        i = i + 1;
    }
    assert(m.take(i as int) =~= m);
    if l.len() == 0 {
        units.push(0);
        units.push(0);
        assert(units@ =~= seq![0u16, 0u16]);
    } else {
        units.push(0);
    }
    u16_to_u8_vec(units)
}

impl Data {
    /// The value type of the variant.
    pub fn as_type(&self) -> (r: Type)
        ensures
            r == self@.value_type(),
    {
        match self {
            Data::Untyped => Type::Untyped,
            Data::String(_) => Type::String,
            Data::ExpandString(_) => Type::ExpandString,
            Data::Binary(_) => Type::Binary,
            Data::U32(_) => Type::U32,
            Data::U32BE(_) => Type::U32BE,
            Data::Link => Type::Link,
            Data::MultiString(_) => Type::MultiString,
            Data::ResourceList => Type::ResourceList,
            Data::FullResourceDescriptor => Type::FullResourceDescriptor,
            Data::ResourceRequirementsList => Type::ResourceRequirementsList,
            Data::U64(_) => Type::U64,
        }
    }

    /// The bytes that the value is stored as.
    pub fn to_bytes(&self) -> (r: Vec<u8>)
        ensures
            r@ == encode_spec(self@),
    {
        match self {
            Data::String(s) => string_to_utf16_byte_vec(s),
            Data::ExpandString(s) => string_to_utf16_byte_vec(s),
            Data::Binary(x) => {
                let r = x.clone();
                assert(r@ =~= x@);
                r
            },
            Data::U32(x) => vec![(*x % 0x100) as u8, (*x / 0x100 % 0x100) as u8, (*x / 0x10000 % 0x100) as u8, (*x / 0x1000000) as u8],
            Data::U32BE(x) => vec![(*x / 0x1000000) as u8, (*x / 0x10000 % 0x100) as u8, (*x / 0x100 % 0x100) as u8, (*x % 0x100) as u8],
            Data::MultiString(l) => multi_string_bytes(l),
            Data::U64(x) => {
                let lo = (*x % 0x1_0000_0000) as u32;
                let hi = (*x / 0x1_0000_0000) as u32;
                let r = vec![
                    (lo % 0x100) as u8, (lo / 0x100 % 0x100) as u8, (lo / 0x10000 % 0x100) as u8, (lo / 0x1000000) as u8,
                    (hi % 0x100) as u8, (hi / 0x100 % 0x100) as u8, (hi / 0x10000 % 0x100) as u8, (hi / 0x1000000) as u8,
                ];
                assert(r@ =~= le_u64_bytes(*x));
                r
            },
            _ => Vec::new(),
        }
    }
}

/// The tag and the bytes that a value is stored as.
pub fn encode(data: &Data) -> (r: (u32, Vec<u8>))
    ensures
        r.0 == data@.value_type().tag(),
        r.1@ == encode_spec(data@),
{
    (data.as_type().to_u32(), data.to_bytes())
}

/// No piece between NULs holds a NUL.
pub proof fn lemma_split_at_nul_nul_free(s: Seq<u16>)
    ensures
        forall|i: int|
            0 <= i < split_at_nul(s).len() ==> !(#[trigger] split_at_nul(s)[i]).contains(0u16),
        split_at_nul(s).len() >= 1,
    decreases s.len(),
{
    if s.len() > 0 {
        lemma_split_at_nul_nul_free(s.drop_last());
        let p = split_at_nul(s.drop_last());
        if s.last() != 0 {
            let q = p.last().push(s.last());
            assert(!q.contains(0u16)) by {
                if q.contains(0u16) {
                    let k = choose|k: int| 0 <= k < q.len() && q[k] == 0u16;
                    if k < p.last().len() {
                        assert(p[p.len() - 1][k] == 0u16);
                    }
                }
            }
        }
    }
}

/// The units of a text buffer, or the error that its length or terminator gives.
fn decode_text_units(buf: Vec<u8>) -> (r: Result<WideString, Error>)
    ensures
        match r {
            Ok(w) => decode_text(buf@) == Ok::<Seq<u16>, Error>(w@),
            Err(e) => decode_text(buf@) == Err::<Seq<u16>, Error>(e),
        },
{
    let len: usize = buf.len();
    if len % 2 == 1 {
        return Err(Error::InvalidBufferSize(len));
    }
    let ghost b = buf@;
    let units = U16AlignedU8Vec(buf).into_u16_vec();
    assert(padded_to_even(b) == b);
    let ghost u = units@;
    proof {
        lemma_first_nul(u);
    }
    let n: usize = units.len();
    if n == 0 || units[n - 1] != 0 {
        return Err(Error::MissingNul);
    }
    assert(u.contains(0u16)) by {
        assert(u[n - 1] == 0u16);
    }
    match units_before_nul(units) {
        None => Err(Error::MissingNul),
        Some(t) => {
            assert(!t@.contains(0u16)) by {
                if t@.contains(0u16) {
                    let k = choose|k: int| 0 <= k < t@.len() && t@[k] == 0u16;
                    assert(u[k] == 0u16);
                }
            }
            WideString::from_units(t)
        },
    }
}

/// The entries of a multi-string buffer, or the error that it gives.
#[verifier::rlimit(30)]
fn decode_multi_string(buf: Vec<u8>) -> (r: Result<Vec<WideString>, Error>)
    ensures
        match r {
            Ok(l) => decode_multi(buf@) == Ok::<Seq<Seq<u16>>, Error>(
                text_views(l@),
            ),
            Err(e) => decode_multi(buf@) == Err::<Seq<Seq<u16>>, Error>(e),
        },
{
    let len: usize = buf.len();
    if len % 2 == 1 {
        return Err(Error::InvalidBufferSize(len));
    }
    let ghost b = buf@;
    let units = U16AlignedU8Vec(buf).into_u16_vec();
    assert(padded_to_even(b) == b);
    let n: usize = units.len();
    if n < 2 || units[n - 1] != 0 || units[n - 2] != 0 {
        return Err(Error::MissingMultiNul);
    }
    let body_len: usize = n - 2;
    let ghost body = units@.take(body_len as int);
    let ghost entries = multi_string_entries(body);
    let mut out: Vec<WideString> = Vec::new();
    if body_len == 0 {
        assert(text_views(out@) =~= entries);
        return Ok(out);
    }
    let mut pieces: Vec<Vec<u16>> = Vec::new();
    let mut cur: Vec<u16> = Vec::new();
    let mut i: usize = 0;
    while i < body_len
        invariant
            b == buf@,
            units@ == units_of_le_bytes(b),
            b.len() % 2 == 0,
            units@[n - 1] == 0 && units@[n - 2] == 0,
            body_len == n - 2,
            entries == multi_string_entries(body),
            body_len < n,
            n == units@.len(),
            body == units@.take(body_len as int),
            i <= body_len,
            unit_views(pieces@).push(cur@) == split_at_nul(body.take(i as int)),
        decreases body_len - i,
    {
        let x = units[i];
        let ghost before = unit_views(pieces@);
        proof {
            let t = body.take(i + 1);
            assert(t.drop_last() =~= body.take(i as int));
            assert(t.last() == x);
        }
        if x == 0 {
            pieces.push(cur);
            cur = Vec::new();
            assert(unit_views(pieces@).push(cur@) =~= split_at_nul(body.take(i + 1)));
        } else {
            cur.push(x);
            assert(unit_views(pieces@).push(cur@) =~= split_at_nul(body.take(i + 1)));
        }
        i = i + 1;
    }
    pieces.push(cur);
    assert(body.take(body_len as int) =~= body);
    assert(unit_views(pieces@) =~= entries);
    proof {
        lemma_split_at_nul_nul_free(body);
    }
    let mut j: usize = 0;
    while j < pieces.len()
        invariant
            b == buf@,
            units@ == units_of_le_bytes(b),
            b.len() % 2 == 0,
            n == units@.len(),
            n >= 2,
            units@[n - 1] == 0 && units@[n - 2] == 0,
            body == units@.take(n - 2),
            entries == multi_string_entries(body),
            entries == unit_views(pieces@),
            j <= pieces@.len(),
            text_views(out@) == entries.take(j as int),
            forall|k: int| 0 <= k < j ==> valid_utf16(#[trigger] entries[k]),
            forall|k: int| 0 <= k < entries.len() ==> !(#[trigger] entries[k]).contains(0u16),
        decreases pieces@.len() - j,
    {
        let piece = pieces[j].clone();
        assert(piece@ =~= entries[j as int]);
        match WideString::from_units(piece) {
            Ok(w) => {
                let ghost prev = out@;
                assert(w@ == entries[j as int]);
                out.push(w);
                assert(out@ == prev.push(w));
                assert(text_views(prev).len() == prev.len());
                assert(prev.len() == j);
                assert forall|k: int| 0 <= k < j + 1 implies #[trigger] text_views(out@)[k] == entries.take(j + 1)[k] by {
                    assert(text_views(out@)[k] == out@[k]@);
                    if k < j {
                        assert(out@[k] == prev[k]);
                        assert(text_views(prev)[k] == prev[k]@);
                        assert(text_views(prev)[k] == entries.take(j as int)[k]);
                    } else {
                        assert(out@[k] == w);
                    }
                }
                assert(text_views(out@).len() == j + 1);
                assert(text_views(out@) =~= entries.take(j + 1));
            },
            Err(e) => {
                assert(!valid_utf16(entries[j as int]));
                return Err(e);
            },
        }
        j = j + 1;
    }
    assert(entries.take(j as int) =~= entries);
    Ok(out)
}

/// Decodes a buffer read from the store under type tag `ty`.
#[verifier::rlimit(30)]
pub fn decode(ty: u32, buf: Vec<u8>) -> (r: Result<Data, Error>)
    ensures
        decodes_to(ty, buf@, r),
{
    let t = match Type::try_from(ty) {
        Ok(t) => t,
        Err(_) => return Err(Error::UnhandledType(ty)),
    };
    let len: usize = buf.len();
    match t {
        Type::Untyped => Ok(Data::Untyped),
        Type::String => match decode_text_units(buf) {
            Ok(w) => Ok(Data::String(w)),
            Err(e) => Err(e),
        },
        Type::ExpandString => match decode_text_units(buf) {
            Ok(w) => Ok(Data::ExpandString(w)),
            Err(e) => Err(e),
        },
        Type::Binary => Ok(Data::Binary(buf)),
        Type::U32 => {
            if len < 4 {
                Err(Error::BufferTooShort(len))
            } else {
                Ok(Data::U32(buf[0] as u32 + (buf[1] as u32) * 0x100 + (buf[2] as u32) * 0x10000 + (buf[3] as u32) * 0x1000000))
            }
        },
        Type::U32BE => {
            if len < 4 {
                Err(Error::BufferTooShort(len))
            } else {
                Ok(Data::U32BE(buf[3] as u32 + (buf[2] as u32) * 0x100 + (buf[1] as u32) * 0x10000 + (buf[0] as u32) * 0x1000000))
            }
        },
        Type::Link => Ok(Data::Link),
        Type::MultiString => match decode_multi_string(buf) {
            Ok(l) => Ok(Data::MultiString(l)),
            Err(e) => Err(e),
        },
        Type::ResourceList => Ok(Data::ResourceList),
        Type::FullResourceDescriptor => Ok(Data::FullResourceDescriptor),
        Type::ResourceRequirementsList => Ok(Data::ResourceRequirementsList),
        Type::U64 => {
            if len < 8 {
                Err(Error::BufferTooShort(len))
            } else {
                let lo: u64 = buf[0] as u64 + (buf[1] as u64) * 0x100 + (buf[2] as u64) * 0x10000 + (buf[3] as u64) * 0x1000000;
                let hi: u64 = buf[4] as u64 + (buf[5] as u64) * 0x100 + (buf[6] as u64) * 0x10000 + (buf[7] as u64) * 0x1000000;
                assert(buf@.skip(4)[0] == buf@[4] && buf@.skip(4)[1] == buf@[5] && buf@.skip(4)[2] == buf@[6] && buf@.skip(4)[3] == buf@[7]);
                Ok(Data::U64(lo + hi * 0x1_0000_0000))
            }
        },
    }
}

} // verus!
