//! Record tags, the wire-type descriptions of class fields, and the readers
//! that decode them.
use vstd::prelude::*;

use crate::error::DecodeError;
use crate::primitives::{
    read_i16, read_i32, read_i64, read_i8, read_lps, read_result, read_u16, read_u32, read_u64,
    read_u8, spec_i16, spec_i32, spec_i64, spec_i8, spec_lps, spec_u16, spec_u32, spec_u64, spec_u8,
    Stream,
};
use crate::value::{Value, ValueModel};

verus! {

/// The kind of a record, given by its leading tag byte.
#[derive(Debug, Clone, Copy, PartialEq, Eq, Structural)]
pub enum RecordType {
    SerializationHeader,
    ClassWithId,
    SystemClassWithMembers,
    ClassWithMembers,
    SystemClassWithMembersAndTypes,
    ClassWithMembersAndTypes,
    BinaryObjectString,
    BinaryArray,
    MemberPrimitiveTyped,
    MemberReference,
    ObjectNull,
    MessageEnd,
    BinaryLibrary,
    ObjectNullMultiple256,
    ObjectNullMultiple,
    ArraySinglePrimitive,
    ArraySingleObject,
    ArraySingleString,
    MethodCall,
    MethodReturn,
}

impl RecordType {
    pub open spec fn spec_from_tag(t: u8) -> Option<RecordType> {
        match t {
            0 => Some(RecordType::SerializationHeader),
            1 => Some(RecordType::ClassWithId),
            2 => Some(RecordType::SystemClassWithMembers),
            3 => Some(RecordType::ClassWithMembers),
            4 => Some(RecordType::SystemClassWithMembersAndTypes),
            5 => Some(RecordType::ClassWithMembersAndTypes),
            6 => Some(RecordType::BinaryObjectString),
            7 => Some(RecordType::BinaryArray),
            8 => Some(RecordType::MemberPrimitiveTyped),
            9 => Some(RecordType::MemberReference),
            10 => Some(RecordType::ObjectNull),
            11 => Some(RecordType::MessageEnd),
            12 => Some(RecordType::BinaryLibrary),
            13 => Some(RecordType::ObjectNullMultiple256),
            14 => Some(RecordType::ObjectNullMultiple),
            15 => Some(RecordType::ArraySinglePrimitive),
            16 => Some(RecordType::ArraySingleObject),
            17 => Some(RecordType::ArraySingleString),
            21 => Some(RecordType::MethodCall),
            22 => Some(RecordType::MethodReturn),
            _ => None,
        }
    }

    pub fn from_tag(t: u8) -> (r: Option<RecordType>)
        ensures
            r == Self::spec_from_tag(t),
    {
        match t {
            0 => Some(RecordType::SerializationHeader),
            1 => Some(RecordType::ClassWithId),
            2 => Some(RecordType::SystemClassWithMembers),
            3 => Some(RecordType::ClassWithMembers),
            4 => Some(RecordType::SystemClassWithMembersAndTypes),
            5 => Some(RecordType::ClassWithMembersAndTypes),
            6 => Some(RecordType::BinaryObjectString),
            7 => Some(RecordType::BinaryArray),
            8 => Some(RecordType::MemberPrimitiveTyped),
            9 => Some(RecordType::MemberReference),
            10 => Some(RecordType::ObjectNull),
            11 => Some(RecordType::MessageEnd),
            12 => Some(RecordType::BinaryLibrary),
            13 => Some(RecordType::ObjectNullMultiple256),
            14 => Some(RecordType::ObjectNullMultiple),
            15 => Some(RecordType::ArraySinglePrimitive),
            16 => Some(RecordType::ArraySingleObject),
            17 => Some(RecordType::ArraySingleString),
            21 => Some(RecordType::MethodCall),
            22 => Some(RecordType::MethodReturn),
            _ => None,
        }
    }
}

/// How a class field's value is carried on the wire.
#[derive(Debug, Clone, Copy, PartialEq, Eq, Structural)]
pub enum BinaryType {
    Primitive,
    String,
    Object,
    SystemClass,
    Class,
    ObjectArray,
    StringArray,
    PrimitiveArray,
    /// Not a wire tag: a field whose value is simply the next record.
    Record,
}

impl BinaryType {
    pub open spec fn spec_from_tag(t: u8) -> Option<BinaryType> {
        match t {
            0 => Some(BinaryType::Primitive),
            1 => Some(BinaryType::String),
            2 => Some(BinaryType::Object),
            3 => Some(BinaryType::SystemClass),
            4 => Some(BinaryType::Class),
            5 => Some(BinaryType::ObjectArray),
            6 => Some(BinaryType::StringArray),
            7 => Some(BinaryType::PrimitiveArray),
            _ => None,
        }
    }

    pub fn from_tag(t: u8) -> (r: Option<BinaryType>)
        ensures
            r == Self::spec_from_tag(t),
    {
        match t {
            0 => Some(BinaryType::Primitive),
            1 => Some(BinaryType::String),
            2 => Some(BinaryType::Object),
            3 => Some(BinaryType::SystemClass),
            4 => Some(BinaryType::Class),
            5 => Some(BinaryType::ObjectArray),
            6 => Some(BinaryType::StringArray),
            7 => Some(BinaryType::PrimitiveArray),
            _ => None,
        }
    }
}

/// The scalar kinds of the format.
#[derive(Debug, Clone, Copy, PartialEq, Eq, Structural)]
pub enum PrimitiveType {
    Boolean,
    Byte,
    Char,
    Decimal,
    Double,
    Int16,
    Int32,
    Int64,
    SByte,
    Single,
    TimeSpan,
    DateTime,
    UInt16,
    UInt32,
    UInt64,
    Null,
    String,
}

impl PrimitiveType {
    pub open spec fn spec_from_tag(t: u8) -> Option<PrimitiveType> {
        match t {
            1 => Some(PrimitiveType::Boolean),
            2 => Some(PrimitiveType::Byte),
            3 => Some(PrimitiveType::Char),
            5 => Some(PrimitiveType::Decimal),
            6 => Some(PrimitiveType::Double),
            7 => Some(PrimitiveType::Int16),
            8 => Some(PrimitiveType::Int32),
            9 => Some(PrimitiveType::Int64),
            10 => Some(PrimitiveType::SByte),
            11 => Some(PrimitiveType::Single),
            12 => Some(PrimitiveType::TimeSpan),
            13 => Some(PrimitiveType::DateTime),
            14 => Some(PrimitiveType::UInt16),
            15 => Some(PrimitiveType::UInt32),
            16 => Some(PrimitiveType::UInt64),
            17 => Some(PrimitiveType::Null),
            18 => Some(PrimitiveType::String),
            _ => None,
        }
    }

    pub fn from_tag(t: u8) -> (r: Option<PrimitiveType>)
        ensures
            r == Self::spec_from_tag(t),
    {
        match t {
            1 => Some(PrimitiveType::Boolean),
            2 => Some(PrimitiveType::Byte),
            3 => Some(PrimitiveType::Char),
            5 => Some(PrimitiveType::Decimal),
            6 => Some(PrimitiveType::Double),
            7 => Some(PrimitiveType::Int16),
            8 => Some(PrimitiveType::Int32),
            9 => Some(PrimitiveType::Int64),
            10 => Some(PrimitiveType::SByte),
            11 => Some(PrimitiveType::Single),
            12 => Some(PrimitiveType::TimeSpan),
            13 => Some(PrimitiveType::DateTime),
            14 => Some(PrimitiveType::UInt16),
            15 => Some(PrimitiveType::UInt32),
            16 => Some(PrimitiveType::UInt64),
            17 => Some(PrimitiveType::Null),
            18 => Some(PrimitiveType::String),
            _ => None,
        }
    }
}

/// The shape of a general array record.
#[derive(Debug, Clone, Copy, PartialEq, Eq, Structural)]
pub enum BinaryArrayType {
    Single,
    Jagged,
    Rectangular,
    SingleOffset,
    JaggedOffset,
    RectangularOffset,
}

impl BinaryArrayType {
    pub open spec fn spec_from_tag(t: u8) -> Option<BinaryArrayType> {
        match t {
            0 => Some(BinaryArrayType::Single),
            1 => Some(BinaryArrayType::Jagged),
            2 => Some(BinaryArrayType::Rectangular),
            3 => Some(BinaryArrayType::SingleOffset),
            4 => Some(BinaryArrayType::JaggedOffset),
            5 => Some(BinaryArrayType::RectangularOffset),
            _ => None,
        }
    }

    pub fn from_tag(t: u8) -> (r: Option<BinaryArrayType>)
        ensures
            r == Self::spec_from_tag(t),
    {
        match t {
            0 => Some(BinaryArrayType::Single),
            1 => Some(BinaryArrayType::Jagged),
            2 => Some(BinaryArrayType::Rectangular),
            3 => Some(BinaryArrayType::SingleOffset),
            4 => Some(BinaryArrayType::JaggedOffset),
            5 => Some(BinaryArrayType::RectangularOffset),
            _ => None,
        }
    }

    /// Offset shapes carry a lower bound per dimension.
    pub open spec fn spec_has_offsets(self) -> bool {
        self == BinaryArrayType::SingleOffset || self == BinaryArrayType::JaggedOffset || self
            == BinaryArrayType::RectangularOffset
    }

    pub fn has_offsets(self) -> (r: bool)
        ensures
            r == self.spec_has_offsets(),
    {
        match self {
            BinaryArrayType::SingleOffset => true,
            BinaryArrayType::JaggedOffset => true,
            BinaryArrayType::RectangularOffset => true,
            _ => false,
        }
    }
}

/// Reads a tag byte and maps it through a tag table, failing with `err` on
/// a byte the table does not know.
pub open spec fn spec_tag<T>(
    b: Seq<u8>,
    table: spec_fn(u8) -> Option<T>,
    err: spec_fn(u8) -> DecodeError,
) -> Result<(T, Seq<u8>), DecodeError> {
    match spec_u8(b) {
        Ok((t, r)) => match table(t) {
            Some(x) => Ok((x, r)),
            None => Err(err(t)),
        },
        Err(e) => Err(e),
    }
}

pub open spec fn spec_record_type(b: Seq<u8>) -> Result<(RecordType, Seq<u8>), DecodeError> {
    spec_tag(
        b,
        |t: u8| RecordType::spec_from_tag(t),
        |t: u8| DecodeError::UnknownRecordType(t),
    )
}

pub open spec fn spec_binary_type(b: Seq<u8>) -> Result<(BinaryType, Seq<u8>), DecodeError> {
    spec_tag(
        b,
        |t: u8| BinaryType::spec_from_tag(t),
        |t: u8| DecodeError::UnknownBinaryType(t),
    )
}

pub open spec fn spec_primitive_type(b: Seq<u8>) -> Result<(PrimitiveType, Seq<u8>), DecodeError> {
    spec_tag(
        b,
        |t: u8| PrimitiveType::spec_from_tag(t),
        |t: u8| DecodeError::UnknownPrimitiveType(t),
    )
}

pub open spec fn spec_array_type(b: Seq<u8>) -> Result<(BinaryArrayType, Seq<u8>), DecodeError> {
    spec_tag(
        b,
        |t: u8| BinaryArrayType::spec_from_tag(t),
        |t: u8| DecodeError::UnknownArrayType(t),
    )
}

pub fn read_record_type(stream: &mut Stream) -> (r: Result<RecordType, DecodeError>)
    requires
        old(stream).wf(),
    ensures
        final(stream).wf(),
        final(stream)@.len() <= old(stream)@.len(),
        read_result(final(stream)@, r, spec_record_type(old(stream)@)),
{
    let t = read_u8(stream)?;
    match RecordType::from_tag(t) {
        Some(x) => Ok(x),
        None => Err(DecodeError::UnknownRecordType(t)),
    }
}

pub fn read_binary_type(stream: &mut Stream) -> (r: Result<BinaryType, DecodeError>)
    requires
        old(stream).wf(),
    ensures
        final(stream).wf(),
        final(stream)@.len() <= old(stream)@.len(),
        read_result(final(stream)@, r, spec_binary_type(old(stream)@)),
{
    let t = read_u8(stream)?;
    match BinaryType::from_tag(t) {
        Some(x) => Ok(x),
        None => Err(DecodeError::UnknownBinaryType(t)),
    }
}

pub fn read_primitive_type(stream: &mut Stream) -> (r: Result<PrimitiveType, DecodeError>)
    requires
        old(stream).wf(),
    ensures
        final(stream).wf(),
        final(stream)@.len() <= old(stream)@.len(),
        read_result(final(stream)@, r, spec_primitive_type(old(stream)@)),
{
    let t = read_u8(stream)?;
    match PrimitiveType::from_tag(t) {
        Some(x) => Ok(x),
        None => Err(DecodeError::UnknownPrimitiveType(t)),
    }
}

pub fn read_array_type(stream: &mut Stream) -> (r: Result<BinaryArrayType, DecodeError>)
    requires
        old(stream).wf(),
    ensures
        final(stream).wf(),
        final(stream)@.len() <= old(stream)@.len(),
        read_result(final(stream)@, r, spec_array_type(old(stream)@)),
{
    let t = read_u8(stream)?;
    match BinaryArrayType::from_tag(t) {
        Some(x) => Ok(x),
        None => Err(DecodeError::UnknownArrayType(t)),
    }
}

/// Maps the result of a reader through `f`.
pub open spec fn then_map<A, B>(
    r: Result<(A, Seq<u8>), DecodeError>,
    f: spec_fn(A) -> B,
) -> Result<(B, Seq<u8>), DecodeError> {
    match r {
        Ok((x, rest)) => Ok((f(x), rest)),
        Err(e) => Err(e),
    }
}

impl PrimitiveType {
    /// What reading one scalar of this kind makes of the bytes `b`.
    pub open spec fn spec_read(self, b: Seq<u8>) -> Result<(ValueModel, Seq<u8>), DecodeError> {
        match self {
            PrimitiveType::Boolean => then_map(spec_u8(b), |x: u8| ValueModel::Bool(x != 0)),
            PrimitiveType::SByte => then_map(spec_i8(b), |x: i8| ValueModel::I8(x)),
            PrimitiveType::Int16 => then_map(spec_i16(b), |x: i16| ValueModel::I32(x as i32)),
            PrimitiveType::Int32 => then_map(spec_i32(b), |x: i32| ValueModel::I32(x)),
            PrimitiveType::Int64 => then_map(spec_i64(b), |x: i64| ValueModel::I64(x)),
            PrimitiveType::Byte => then_map(spec_u8(b), |x: u8| ValueModel::U8(x)),
            PrimitiveType::UInt16 => then_map(spec_u16(b), |x: u16| ValueModel::U32(x as u32)),
            PrimitiveType::UInt32 => then_map(spec_u32(b), |x: u32| ValueModel::U32(x)),
            PrimitiveType::UInt64 => then_map(spec_u64(b), |x: u64| ValueModel::U64(x)),
            PrimitiveType::Single => then_map(spec_u32(b), |x: u32| ValueModel::F32(x)),
            PrimitiveType::Double => then_map(spec_u64(b), |x: u64| ValueModel::F64(x)),
            PrimitiveType::Null => Ok((ValueModel::Null, b)),
            PrimitiveType::String => then_map(spec_lps(b), |s: Seq<char>| ValueModel::Str(s)),
            PrimitiveType::Char => Err(DecodeError::UnsupportedPrimitive(self)),
            PrimitiveType::Decimal => Err(DecodeError::UnsupportedPrimitive(self)),
            PrimitiveType::TimeSpan => Err(DecodeError::UnsupportedPrimitive(self)),
            PrimitiveType::DateTime => Err(DecodeError::UnsupportedPrimitive(self)),
        }
    }

    /// Reads one scalar of this kind.
    pub fn read(&self, stream: &mut Stream) -> (r: Result<Value, DecodeError>)
        requires
            old(stream).wf(),
        ensures
            final(stream).wf(),
            final(stream)@.len() <= old(stream)@.len(),
            match r {
                Ok(v) => self.spec_read(old(stream)@) == Ok::<(ValueModel, Seq<u8>), DecodeError>(
                    (v.model(), final(stream)@),
                ),
                Err(e) => self.spec_read(old(stream)@) == Err::<(ValueModel, Seq<u8>), DecodeError>(
                    e,
                ),
            },
    {
        match self {
            PrimitiveType::Boolean => Ok(Value::Bool(read_u8(stream)? != 0)),
            PrimitiveType::SByte => Ok(Value::I8(read_i8(stream)?)),
            PrimitiveType::Int16 => Ok(Value::I32(read_i16(stream)? as i32)),
            PrimitiveType::Int32 => Ok(Value::I32(read_i32(stream)?)),
            PrimitiveType::Int64 => Ok(Value::I64(read_i64(stream)?)),
            PrimitiveType::Byte => Ok(Value::U8(read_u8(stream)?)),
            PrimitiveType::UInt16 => Ok(Value::U32(read_u16(stream)? as u32)),
            PrimitiveType::UInt32 => Ok(Value::U32(read_u32(stream)?)),
            PrimitiveType::UInt64 => Ok(Value::U64(read_u64(stream)?)),
            PrimitiveType::Single => Ok(Value::F32(read_u32(stream)?)),
            PrimitiveType::Double => Ok(Value::F64(read_u64(stream)?)),
            PrimitiveType::Null => Ok(Value::Null),
            PrimitiveType::String => Ok(Value::String(read_lps(stream)?)),
            PrimitiveType::Char => Err(DecodeError::UnsupportedPrimitive(*self)),
            PrimitiveType::Decimal => Err(DecodeError::UnsupportedPrimitive(*self)),
            PrimitiveType::TimeSpan => Err(DecodeError::UnsupportedPrimitive(*self)),
            PrimitiveType::DateTime => Err(DecodeError::UnsupportedPrimitive(*self)),
        }
    }
}

/// Runs the reader `f` for the indices `i..n` in turn, appending what each
/// gives to `acc`.
pub open spec fn spec_many<T>(
    b: Seq<u8>,
    i: nat,
    n: nat,
    acc: Seq<T>,
    f: spec_fn(nat, Seq<u8>) -> Result<(T, Seq<u8>), DecodeError>,
) -> Result<(Seq<T>, Seq<u8>), DecodeError>
    decreases n - i,
{
    if i >= n {
        Ok((acc, b))
    } else {
        match f(i, b) {
            Ok((x, r)) => spec_many(r, i + 1, n, acc.push(x), f),
            Err(e) => Err(e),
        }
    }
}

/// Schema of a class-typed field: the class name and its library id.
pub struct ClassTypeInfo {
    pub name: String,
    pub library_id: i32,
}

/// What a field's binary type is followed by in a class record.
pub enum AdditionalInfos {
    Nothing,
    PrimitiveType(PrimitiveType),
    ClassName(String),
    Class(ClassTypeInfo),
}

/// The model of `AdditionalInfos`.
pub enum InfoModel {
    Nothing,
    Primitive(PrimitiveType),
    ClassName(Seq<char>),
    Class(Seq<char>, i32),
}

/// One field of a class schema: name, binary type, additional info.
pub struct ClassField(pub String, pub BinaryType, pub AdditionalInfos);

/// A class schema: name and fields in declaration order.
pub struct Class(pub String, pub Vec<ClassField>);

pub struct FieldModel {
    pub name: Seq<char>,
    pub binary_type: BinaryType,
    pub info: InfoModel,
}

pub struct ClassModel {
    pub name: Seq<char>,
    pub fields: Seq<FieldModel>,
}

impl AdditionalInfos {
    pub open spec fn model(&self) -> InfoModel {
        match self {
            AdditionalInfos::Nothing => InfoModel::Nothing,
            AdditionalInfos::PrimitiveType(p) => InfoModel::Primitive(*p),
            AdditionalInfos::ClassName(s) => InfoModel::ClassName(s@),
            AdditionalInfos::Class(c) => InfoModel::Class(c.name@, c.library_id),
        }
    }

    /// What follows a field of binary type `bt`: a primitive-type tag for
    /// primitive and primitive-array fields, a class name for system-class
    /// fields, a class name and library id for class fields, nothing else.
    pub open spec fn spec_read(bt: BinaryType, b: Seq<u8>) -> Result<(InfoModel, Seq<u8>), DecodeError> {
        match bt {
            BinaryType::Primitive | BinaryType::PrimitiveArray => then_map(
                spec_primitive_type(b),
                |p: PrimitiveType| InfoModel::Primitive(p),
            ),
            BinaryType::SystemClass => then_map(spec_lps(b), |s: Seq<char>| InfoModel::ClassName(s)),
            BinaryType::Class => match spec_lps(b) {
                Ok((n, r)) => then_map(spec_i32(r), |id: i32| InfoModel::Class(n, id)),
                Err(e) => Err(e),
            },
            _ => Ok((InfoModel::Nothing, b)),
        }
    }

    pub fn from_stream(stream: &mut Stream, binary_type: BinaryType) -> (r: Result<
        AdditionalInfos,
        DecodeError,
    >)
        requires
            old(stream).wf(),
        ensures
            final(stream).wf(),
            final(stream)@.len() <= old(stream)@.len(),
            match r {
                Ok(x) => Self::spec_read(binary_type, old(stream)@) == Ok::<
                    (InfoModel, Seq<u8>),
                    DecodeError,
                >((x.model(), final(stream)@)),
                Err(e) => Self::spec_read(binary_type, old(stream)@) == Err::<
                    (InfoModel, Seq<u8>),
                    DecodeError,
                >(e),
            },
    {
        match binary_type {
            BinaryType::Primitive | BinaryType::PrimitiveArray => {
                Ok(AdditionalInfos::PrimitiveType(read_primitive_type(stream)?))
            },
            BinaryType::SystemClass => Ok(AdditionalInfos::ClassName(read_lps(stream)?)),
            BinaryType::Class => {
                let name = read_lps(stream)?;
                let library_id = read_i32(stream)?;
                Ok(AdditionalInfos::Class(ClassTypeInfo { name, library_id }))
            },
            _ => Ok(AdditionalInfos::Nothing),
        }
    }

    pub fn deep_copy(&self) -> (r: AdditionalInfos)
        ensures
            r.model() == self.model(),
    {
        match self {
            AdditionalInfos::Nothing => AdditionalInfos::Nothing,
            AdditionalInfos::PrimitiveType(p) => AdditionalInfos::PrimitiveType(*p),
            AdditionalInfos::ClassName(s) => AdditionalInfos::ClassName(s.clone()),
            AdditionalInfos::Class(c) => AdditionalInfos::Class(
                ClassTypeInfo { name: c.name.clone(), library_id: c.library_id },
            ),
        }
    }
}

impl ClassField {
    pub open spec fn model(&self) -> FieldModel {
        FieldModel { name: self.0@, binary_type: self.1, info: self.2.model() }
    }
}

pub open spec fn field_schema_models(fs: Seq<ClassField>) -> Seq<FieldModel> {
    fs.map_values(|f: ClassField| f.model())
}

impl Class {
    pub open spec fn model(&self) -> ClassModel {
        ClassModel { name: self.0@, fields: field_schema_models(self.1@) }
    }

    pub fn deep_copy(&self) -> (r: Class)
        ensures
            r.model() == self.model(),
    {
        let mut out: Vec<ClassField> = Vec::new();
        let mut i: usize = 0;
        while i < self.1.len()
            invariant
                i <= self.1.len(),
                field_schema_models(out@) == field_schema_models(self.1@.take(i as int)),
            decreases self.1.len() - i,
        {
            let f = &self.1[i];
            let ghost pre = out@;
            let copy = ClassField(f.0.clone(), f.1, f.2.deep_copy());
            assert(copy.model() == self.1@[i as int].model());
            out.push(copy);
            assert(out@ =~= pre.push(copy));
            assert(self.1@.take(i + 1) =~= self.1@.take(i as int).push(self.1@[i as int]));
            assert(field_schema_models(out@) =~= field_schema_models(pre).push(copy.model()));
            assert(field_schema_models(self.1@.take(i + 1)) =~= field_schema_models(
                self.1@.take(i as int),
            ).push(self.1@[i as int].model()));
            i = i + 1;
        }
        assert(self.1@.take(self.1.len() as int) =~= self.1@);
        Class(self.0.clone(), out)
    }
}

pub open spec fn string_models(v: Seq<String>) -> Seq<Seq<char>> {
    v.map_values(|s: String| s@)
}

/// The object id, class name and field names that open every class record.
pub struct ClassInfo {
    pub id: i32,
    pub name: String,
    pub field_names: Vec<String>,
}

/// A field count as the class records use it: a negative count declares no
/// fields.
pub open spec fn field_count(n: i32) -> nat {
    if n < 0 {
        0
    } else {
        n as nat
    }
}

impl ClassInfo {
    pub open spec fn spec_read(b: Seq<u8>) -> Result<
        ((i32, Seq<char>, Seq<Seq<char>>), Seq<u8>),
        DecodeError,
    > {
        match spec_i32(b) {
            Ok((id, r1)) => match spec_lps(r1) {
                Ok((name, r2)) => match spec_i32(r2) {
                    Ok((count, r3)) => match spec_many(
                        r3,
                        0,
                        field_count(count),
                        Seq::empty(),
                        |i: nat, b: Seq<u8>| spec_lps(b),
                    ) {
                        Ok((names, r4)) => Ok(((id, name, names), r4)),
                        Err(e) => Err(e),
                    },
                    Err(e) => Err(e),
                },
                Err(e) => Err(e),
            },
            Err(e) => Err(e),
        }
    }

    pub fn from_stream(stream: &mut Stream) -> (r: Result<ClassInfo, DecodeError>)
        requires
            old(stream).wf(),
        ensures
            final(stream).wf(),
            final(stream)@.len() <= old(stream)@.len(),
            match r {
                Ok(c) => Self::spec_read(old(stream)@) == Ok::<
                    ((i32, Seq<char>, Seq<Seq<char>>), Seq<u8>),
                    DecodeError,
                >(((c.id, c.name@, string_models(c.field_names@)), final(stream)@)),
                Err(e) => Self::spec_read(old(stream)@) == Err::<
                    ((i32, Seq<char>, Seq<Seq<char>>), Seq<u8>),
                    DecodeError,
                >(e),
            },
    {
        let id = read_i32(stream)?;
        let name = read_lps(stream)?;
        let count = read_i32(stream)?;
        let n: usize = if count < 0 {
            0
        } else {
            count as usize
        };
        let ghost f = |i: nat, b: Seq<u8>| spec_lps(b);
        let ghost start = stream@;
        let mut names: Vec<String> = Vec::new();
        let mut i: usize = 0;
        assert(string_models(names@) =~= Seq::<Seq<char>>::empty());
        while i < n
            invariant
                stream.wf(),
                stream@.len() <= old(stream)@.len(),
                i <= n,
                n == field_count(count),
                forall|j: nat, b: Seq<u8>| #[trigger] f(j, b) == spec_lps(b),
                f == (|i: nat, b: Seq<u8>| spec_lps(b)),
                Self::spec_read(old(stream)@) == match spec_many(start, 0, n as nat, Seq::empty(), f) {
                    Ok((names, r4)) => Ok(((id, name@, names), r4)),
                    Err(e) => Err(e),
                },
                spec_many(start, 0, n as nat, Seq::empty(), f) == spec_many(
                    stream@,
                    i as nat,
                    n as nat,
                    string_models(names@),
                    f,
                ),
            decreases n - i,
        {
            let ghost before = stream@;
            assert(f(i as nat, before) == spec_lps(before));
            let s = read_lps(stream)?;
            let ghost pre = names@;
            names.push(s);
            assert(string_models(names@) =~= string_models(pre).push(s@));
            i = i + 1;
        }
        assert(f == (|i: nat, b: Seq<u8>| spec_lps(b)));
        Ok(ClassInfo { id, name, field_names: names })
    }
}

} // verus!
