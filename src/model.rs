//! The decoding of a stream, stated as spec functions over a model of the
//! decoder session.
use vstd::prelude::*;

use crate::error::DecodeError;
use crate::primitives::{spec_i32, spec_lps, spec_u8};
use crate::schema::{
    spec_array_type, spec_binary_type, spec_many, spec_primitive_type, spec_record_type,
    AdditionalInfos, BinaryArrayType, BinaryType, ClassInfo, ClassModel, FieldModel, InfoModel,
    PrimitiveType, RecordType,
};
use crate::value::ValueModel;

verus! {

/// The model of a decoder session: the bytes not read yet, and the tables
/// filled so far.
pub struct SessionModel {
    pub rest: Seq<u8>,
    pub root_id: Option<i32>,
    pub header_id: Option<i32>,
    pub libraries: Map<i32, Seq<char>>,
    pub classes: Map<i32, ClassModel>,
    pub values: Map<i32, ValueModel>,
    pub null_count: nat,
}

/// A fresh session over `b`.
pub open spec fn initial(b: Seq<u8>) -> SessionModel {
    SessionModel {
        rest: b,
        root_id: None,
        header_id: None,
        libraries: Map::empty(),
        classes: Map::empty(),
        values: Map::empty(),
        null_count: 0,
    }
}

/// `a` has gone no further back than `b`: no more bytes left, and no more
/// pending nulls when the bytes left are the same.
pub open spec fn no_later(a: SessionModel, b: SessionModel) -> bool {
    a.rest.len() < b.rest.len() || (a.rest.len() == b.rest.len() && a.null_count <= b.null_count)
}

/// `a` is strictly further on than `b`.
pub open spec fn earlier(a: SessionModel, b: SessionModel) -> bool {
    a.rest.len() < b.rest.len() || (a.rest.len() == b.rest.len() && a.null_count < b.null_count)
}

pub open spec fn with_rest(s: SessionModel, r: Seq<u8>) -> SessionModel {
    SessionModel { rest: r, ..s }
}

/// Stores `v` under `id` unless the id already has a value: the first write wins.
pub open spec fn store(s: SessionModel, id: i32, v: ValueModel) -> SessionModel {
    if s.values.contains_key(id) {
        s
    } else {
        SessionModel { values: s.values.insert(id, v), ..s }
    }
}

/// The running product of `lens`, taken left to right; `None` once it
/// leaves `usize`.
pub open spec fn checked_product(lens: Seq<usize>) -> Option<nat>
    decreases lens.len(),
{
    if lens.len() == 0 {
        Some(1)
    } else {
        match checked_product(lens.drop_last()) {
            Some(p) => if p * lens.last() <= usize::MAX {
                Some((p * lens.last()) as nat)
            } else {
                None
            },
            None => None,
        }
    }
}

/// A non-negative `i32` read as a length.
pub open spec fn spec_length(b: Seq<u8>) -> Result<(usize, Seq<u8>), DecodeError> {
    match spec_i32(b) {
        Ok((n, r)) => if n < 0 {
            Err(DecodeError::NegativeLength(n))
        } else {
            Ok((n as usize, r))
        },
        Err(e) => Err(e),
    }
}

/// The schema of a class whose fields are all records of their own.
pub open spec fn untyped_fields(names: Seq<Seq<char>>) -> Seq<FieldModel> {
    Seq::new(
        names.len(),
        |i: int| FieldModel { name: names[i], binary_type: BinaryType::Record, info: InfoModel::Nothing },
    )
}

pub open spec fn typed_fields(
    names: Seq<Seq<char>>,
    types: Seq<BinaryType>,
    infos: Seq<InfoModel>,
) -> Seq<FieldModel> {
    Seq::new(
        names.len(),
        |i: int| FieldModel { name: names[i], binary_type: types[i], info: infos[i] },
    )
}

/// Whether a field of this binary type and info is decoded as the next record.
pub open spec fn is_record_field(f: FieldModel) -> bool {
    match (f.binary_type, f.info) {
        (BinaryType::Record, InfoModel::Nothing) => true,
        (BinaryType::String, InfoModel::Nothing) => true,
        (BinaryType::SystemClass, InfoModel::ClassName(_)) => true,
        (BinaryType::Class, InfoModel::Class(_, _)) => true,
        (BinaryType::PrimitiveArray, InfoModel::Primitive(_)) => true,
        _ => false,
    }
}

/// A lower bound: any `i32`, kept as `usize` the way `as` converts it.
pub open spec fn bound_at(i: nat, b: Seq<u8>) -> Result<(usize, Seq<u8>), DecodeError> {
    match spec_i32(b) {
        Ok((x, r)) => Ok((x as usize, r)),
        Err(e) => Err(e),
    }
}

pub open spec fn length_at(i: nat, b: Seq<u8>) -> Result<(usize, Seq<u8>), DecodeError> {
    spec_length(b)
}

pub open spec fn binary_type_at(i: nat, b: Seq<u8>) -> Result<(BinaryType, Seq<u8>), DecodeError> {
    spec_binary_type(b)
}

/// The binary types of `n` fields, then their additional infos, in two passes.
pub open spec fn spec_field_types(b: Seq<u8>, n: nat) -> Result<
    ((Seq<BinaryType>, Seq<InfoModel>), Seq<u8>),
    DecodeError,
> {
    match spec_many(b, 0, n, Seq::empty(), |i: nat, b: Seq<u8>| binary_type_at(i, b)) {
        Ok((types, r)) => match spec_many(
            r,
            0,
            n,
            Seq::empty(),
            |i: nat, b: Seq<u8>| AdditionalInfos::spec_read(types[i as int], b),
        ) {
            Ok((infos, r2)) => Ok(((types, infos), r2)),
            Err(e) => Err(e),
        },
        Err(e) => Err(e),
    }
}

/// The metadata of a general array record, after its object id: shape,
/// lengths, lower bounds, element type and info.
pub open spec fn spec_array_header(b: Seq<u8>) -> Result<
    ((Seq<usize>, Seq<usize>), Seq<u8>),
    DecodeError,
> {
    match spec_array_type(b) {
        Ok((shape, r1)) => match spec_length(r1) {
            Ok((rank, r2)) => match spec_many(
                r2,
                0,
                rank as nat,
                Seq::empty(),
                |i: nat, b: Seq<u8>| length_at(i, b),
            ) {
                Ok((lens, r3)) => {
                    let bounds = if shape.spec_has_offsets() {
                        spec_many(r3, 0, lens.len(), Seq::empty(), |i: nat, b: Seq<u8>| bound_at(i, b))
                    } else {
                        Ok((Seq::new(lens.len(), |i: int| 0usize), r3))
                    };
                    match bounds {
                        Ok((lows, r4)) => match spec_binary_type(r4) {
                            Ok((item, r5)) => match AdditionalInfos::spec_read(item, r5) {
                                Ok((_, r6)) => Ok(((lens, lows), r6)),
                                Err(e) => Err(e),
                            },
                            Err(e) => Err(e),
                        },
                        Err(e) => Err(e),
                    }
                },
                Err(e) => Err(e),
            },
            Err(e) => Err(e),
        },
        Err(e) => Err(e),
    }
}

/// Registers class `c` under `id`, decodes its first instance (whose object
/// id is the class id) and stores it.
pub open spec fn spec_new_class(s: SessionModel, id: i32, c: ClassModel) -> Result<
    (SessionModel, ValueModel),
    DecodeError,
>
    decreases s.rest.len(), s.null_count, 4nat, 0nat,
{
    let s1 = SessionModel { classes: s.classes.insert(id, c), ..s };
    match spec_object(s1, id) {
        Ok((s2, obj)) => Ok((store(s2, id, obj), ValueModel::Reference(id))),
        Err(e) => Err(e),
    }
}

/// Decodes one value from the session: a pending null, or the next record.
pub open spec fn spec_next(s: SessionModel) -> Result<(SessionModel, ValueModel), DecodeError>
    decreases s.rest.len(), s.null_count, 0nat, 0nat,
{
    if s.null_count > 0 {
        Ok((SessionModel { null_count: (s.null_count - 1) as nat, ..s }, ValueModel::Null))
    } else {
        match spec_record_type(s.rest) {
            Err(e) => Err(e),
            Ok((rt, r)) => {
                let s1 = with_rest(s, r);
                spec_record(s1, rt)
            },
        }
    }
}

/// Decodes the record of kind `rt` whose tag has just been read, in the
/// session `s`.
///
/// The readers only ever consume bytes, so the tests that a remainder is
/// no longer than the input never fail; they let the recursion be seen to
/// terminate. The same holds of the `no_later` and `earlier` tests below.
pub open spec fn spec_record(s: SessionModel, rt: RecordType) -> Result<
    (SessionModel, ValueModel),
    DecodeError,
>
    decreases s.rest.len(), s.null_count, 5nat, 0nat,
{
    match rt {
        RecordType::SerializationHeader => match spec_i32(s.rest) {
            Ok((root, r1)) => match spec_i32(r1) {
                Ok((header, r2)) => match spec_i32(r2) {
                    Ok((major, r3)) => if major != 1 {
                        Err(DecodeError::WrongMajorVersion(major))
                    } else {
                        match spec_i32(r3) {
                            Ok((minor, r4)) => if minor != 0 {
                                Err(DecodeError::WrongMinorVersion(minor))
                            } else {
                                Ok((
                                    SessionModel {
                                        rest: r4,
                                        root_id: Some(root),
                                        header_id: Some(header),
                                        ..s
                                    },
                                    ValueModel::Bottom,
                                ))
                            },
                            Err(e) => Err(e),
                        }
                    },
                    Err(e) => Err(e),
                },
                Err(e) => Err(e),
            },
            Err(e) => Err(e),
        },
        RecordType::BinaryLibrary => match spec_i32(s.rest) {
            Ok((id, r1)) => match spec_lps(r1) {
                Ok((name, r2)) => Ok((
                    SessionModel { rest: r2, libraries: s.libraries.insert(id, name), ..s },
                    ValueModel::Bottom,
                )),
                Err(e) => Err(e),
            },
            Err(e) => Err(e),
        },
        RecordType::MessageEnd => Ok((s, ValueModel::Bottom)),
        RecordType::ClassWithId => match spec_i32(s.rest) {
            Ok((id, r1)) => match spec_i32(r1) {
                Ok((class_id, r2)) => if r2.len() > s.rest.len() {
                    Err(DecodeError::UnexpectedEnd)
                } else {
                    match spec_object(with_rest(s, r2), class_id) {
                        Ok((s3, obj)) => Ok((store(s3, id, obj), ValueModel::Reference(id))),
                        Err(e) => Err(e),
                    }
                },
                Err(e) => Err(e),
            },
            Err(e) => Err(e),
        },
        RecordType::ClassWithMembers => match ClassInfo::spec_read(s.rest) {
            Ok(((id, name, names), r1)) => match spec_i32(r1) {
                Ok((_, r2)) => if r2.len() > s.rest.len() {
                    Err(DecodeError::UnexpectedEnd)
                } else {
                    spec_new_class(
                        with_rest(s, r2),
                        id,
                        ClassModel { name, fields: untyped_fields(names) },
                    )
                },
                Err(e) => Err(e),
            },
            Err(e) => Err(e),
        },
        RecordType::ClassWithMembersAndTypes => match ClassInfo::spec_read(s.rest) {
            Ok(((id, name, names), r1)) => match spec_field_types(r1, names.len()) {
                Ok(((types, infos), r2)) => match spec_i32(r2) {
                    Ok((_, r3)) => if r3.len() > s.rest.len() {
                        Err(DecodeError::UnexpectedEnd)
                    } else {
                        spec_new_class(
                            with_rest(s, r3),
                            id,
                            ClassModel { name, fields: typed_fields(names, types, infos) },
                        )
                    },
                    Err(e) => Err(e),
                },
                Err(e) => Err(e),
            },
            Err(e) => Err(e),
        },
        RecordType::SystemClassWithMembersAndTypes => match ClassInfo::spec_read(s.rest) {
            Ok(((id, name, names), r1)) => match spec_field_types(r1, names.len()) {
                Ok(((types, infos), r2)) => if r2.len() > s.rest.len() {
                    Err(DecodeError::UnexpectedEnd)
                } else {
                    spec_new_class(
                        with_rest(s, r2),
                        id,
                        ClassModel { name, fields: typed_fields(names, types, infos) },
                    )
                },
                Err(e) => Err(e),
            },
            Err(e) => Err(e),
        },
        RecordType::BinaryArray => match spec_i32(s.rest) {
            Ok((id, r1)) => match spec_array_header(r1) {
                Ok(((lens, lows), r2)) => match checked_product(lens) {
                    Some(size) => if r2.len() > s.rest.len() {
                        Err(DecodeError::UnexpectedEnd)
                    } else {
                        match spec_elems(with_rest(s, r2), 0, size, Seq::empty()) {
                            Ok((s3, elems)) => Ok((
                                store(s3, id, ValueModel::Array(lens, lows, elems)),
                                ValueModel::Reference(id),
                            )),
                            Err(e) => Err(e),
                        }
                    },
                    None => Err(DecodeError::ArrayTooLarge),
                },
                Err(e) => Err(e),
            },
            Err(e) => Err(e),
        },
        RecordType::ArraySinglePrimitive => match spec_i32(s.rest) {
            Ok((id, r1)) => match spec_length(r1) {
                Ok((len, r2)) => match spec_primitive_type(r2) {
                    Ok((p, r3)) => match spec_many(
                        r3,
                        0,
                        len as nat,
                        Seq::empty(),
                        |i: nat, b: Seq<u8>| p.spec_read(b),
                    ) {
                        Ok((elems, r4)) => Ok((
                            store(
                                with_rest(s, r4),
                                id,
                                ValueModel::Array(seq![len], seq![0usize], elems),
                            ),
                            ValueModel::Reference(id),
                        )),
                        Err(e) => Err(e),
                    },
                    Err(e) => Err(e),
                },
                Err(e) => Err(e),
            },
            Err(e) => Err(e),
        },
        RecordType::BinaryObjectString => match spec_i32(s.rest) {
            Ok((id, r1)) => match spec_lps(r1) {
                Ok((text, r2)) => Ok((
                    store(with_rest(s, r2), id, ValueModel::Str(text)),
                    ValueModel::Reference(id),
                )),
                Err(e) => Err(e),
            },
            Err(e) => Err(e),
        },
        RecordType::ObjectNull => Ok((s, ValueModel::Null)),
        RecordType::ObjectNullMultiple256 => match spec_u8(s.rest) {
            Ok((count, r1)) => if r1.len() >= s.rest.len() {
                Err(DecodeError::UnexpectedEnd)
            } else {
                spec_next(SessionModel { rest: r1, null_count: count as nat, ..s })
            },
            Err(e) => Err(e),
        },
        RecordType::ObjectNullMultiple => match spec_length(s.rest) {
            Ok((count, r1)) => if r1.len() >= s.rest.len() {
                Err(DecodeError::UnexpectedEnd)
            } else {
                spec_next(SessionModel { rest: r1, null_count: count as nat, ..s })
            },
            Err(e) => Err(e),
        },
        RecordType::MemberReference => match spec_i32(s.rest) {
            Ok((id, r1)) => Ok((with_rest(s, r1), ValueModel::Reference(id))),
            Err(e) => Err(e),
        },
        _ => Err(DecodeError::UnsupportedRecord(rt)),
    }
}

/// Decodes the elements `i..n` of a general array, each as the next value
/// of the session, appending them to `acc`.
pub open spec fn spec_elems(s: SessionModel, i: nat, n: nat, acc: Seq<ValueModel>) -> Result<
    (SessionModel, Seq<ValueModel>),
    DecodeError,
>
    decreases s.rest.len(), s.null_count, 2nat, n - i,
{
    if i >= n {
        Ok((s, acc))
    } else {
        match spec_next(s) {
            Ok((s2, v)) => if no_later(s2, s) {
                spec_elems(s2, i + 1, n, acc.push(v))
            } else {
                Err(DecodeError::UnexpectedEnd)
            },
            Err(e) => Err(e),
        }
    }
}

/// Decodes an instance of the class registered under `class_id`.
pub open spec fn spec_object(s: SessionModel, class_id: i32) -> Result<
    (SessionModel, ValueModel),
    DecodeError,
>
    decreases s.rest.len(), s.null_count, 3nat, 0nat,
{
    if !s.classes.contains_key(class_id) {
        Err(DecodeError::UnknownClass(class_id))
    } else {
        let c = s.classes[class_id];
        match spec_members(s, c.fields, 0, Seq::empty()) {
            Ok((s2, members)) => Ok((s2, ValueModel::Object(c.name, members))),
            Err(e) => Err(e),
        }
    }
}

/// Decodes the value of one field: a scalar read in place for a primitive
/// field, the next value of the session for a field carried as a record.
pub open spec fn spec_member(s: SessionModel, f: FieldModel) -> Result<
    (SessionModel, ValueModel),
    DecodeError,
>
    decreases s.rest.len(), s.null_count, 2nat, 0nat,
{
    match (f.binary_type, f.info) {
        (BinaryType::Primitive, InfoModel::Primitive(p)) => match p.spec_read(s.rest) {
            Ok((v, r)) => Ok((with_rest(s, r), v)),
            Err(e) => Err(e),
        },
        _ => if is_record_field(f) {
            spec_next(s)
        } else {
            Err(DecodeError::NoParser)
        },
    }
}

/// Decodes the fields `i..` of an object, appending them to `acc`.
pub open spec fn spec_members(
    s: SessionModel,
    fields: Seq<FieldModel>,
    i: nat,
    acc: Seq<(Seq<char>, ValueModel)>,
) -> Result<(SessionModel, Seq<(Seq<char>, ValueModel)>), DecodeError>
    decreases s.rest.len(), s.null_count, 2nat, fields.len() - i,
{
    if i >= fields.len() {
        Ok((s, acc))
    } else {
        let f = fields[i as int];
        let step = spec_member(s, f);
        match step {
            Ok((s2, v)) => if no_later(s2, s) {
                spec_members(s2, fields, i + 1, acc.push((f.name, v)))
            } else {
                Err(DecodeError::UnexpectedEnd)
            },
            Err(e) => Err(e),
        }
    }
}

/// Replaces every reference in `v` by the value stored under its id,
/// resolved in turn. A reference to an id not stored yet decodes further
/// values until it is. At most `fuel` references are followed one inside
/// another.
pub open spec fn spec_resolve(s: SessionModel, v: ValueModel, fuel: nat) -> Result<
    (SessionModel, ValueModel),
    DecodeError,
>
    decreases s.rest.len(), s.null_count, fuel, v, 0nat,
{
    match v {
        ValueModel::Object(name, fs) => match spec_resolve_fields(s, fs, 0, Seq::empty(), fuel) {
            Ok((s2, out)) => Ok((s2, ValueModel::Object(name, out))),
            Err(e) => Err(e),
        },
        ValueModel::Array(lens, lows, vs) => match spec_resolve_elems(s, vs, 0, Seq::empty(), fuel) {
            Ok((s2, out)) => Ok((s2, ValueModel::Array(lens, lows, out))),
            Err(e) => Err(e),
        },
        ValueModel::Reference(id) => if s.values.contains_key(id) {
            if fuel == 0 {
                Err(DecodeError::ReferenceCycle(id))
            } else {
                spec_resolve(s, s.values[id], (fuel - 1) as nat)
            }
        } else {
            match spec_next(s) {
                Ok((s2, _)) => if earlier(s2, s) {
                    spec_resolve(s2, v, fuel)
                } else {
                    Err(DecodeError::UnexpectedEnd)
                },
                Err(e) => Err(e),
            }
        },
        _ => Ok((s, v)),
    }
}

pub open spec fn spec_resolve_fields(
    s: SessionModel,
    fs: Seq<(Seq<char>, ValueModel)>,
    i: nat,
    acc: Seq<(Seq<char>, ValueModel)>,
    fuel: nat,
) -> Result<(SessionModel, Seq<(Seq<char>, ValueModel)>), DecodeError>
    decreases s.rest.len(), s.null_count, fuel, fs, fs.len() - i,
{
    if i >= fs.len() {
        Ok((s, acc))
    } else {
        match spec_resolve(s, fs[i as int].1, fuel) {
            Ok((s2, v)) => if no_later(s2, s) {
                spec_resolve_fields(s2, fs, i + 1, acc.push((fs[i as int].0, v)), fuel)
            } else {
                Err(DecodeError::UnexpectedEnd)
            },
            Err(e) => Err(e),
        }
    }
}

pub open spec fn spec_resolve_elems(
    s: SessionModel,
    vs: Seq<ValueModel>,
    i: nat,
    acc: Seq<ValueModel>,
    fuel: nat,
) -> Result<(SessionModel, Seq<ValueModel>), DecodeError>
    decreases s.rest.len(), s.null_count, fuel, vs, vs.len() - i,
{
    if i >= vs.len() {
        Ok((s, acc))
    } else {
        match spec_resolve(s, vs[i as int], fuel) {
            Ok((s2, v)) => if no_later(s2, s) {
                spec_resolve_elems(s2, vs, i + 1, acc.push(v), fuel)
            } else {
                Err(DecodeError::UnexpectedEnd)
            },
            Err(e) => Err(e),
        }
    }
}

/// Decodes values until the stream header has given the root id.
pub open spec fn spec_until_root(s: SessionModel) -> Result<SessionModel, DecodeError>
    decreases s.rest.len(), s.null_count,
{
    if s.root_id is Some {
        Ok(s)
    } else {
        match spec_next(s) {
            Ok((s2, _)) => if earlier(s2, s) {
                spec_until_root(s2)
            } else {
                Err(DecodeError::UnexpectedEnd)
            },
            Err(e) => Err(e),
        }
    }
}

/// The whole decode of `b`: records up to the header, the root resolved
/// (refused if a control record's empty value stands in it), then a record
/// that carries no value.
pub open spec fn spec_parse(b: Seq<u8>) -> Result<ValueModel, DecodeError> {
    match spec_until_root(initial(b)) {
        Ok(s1) => match spec_resolve(s1, ValueModel::Reference(s1.root_id->0), b.len()) {
            Ok((s2, root)) => if !is_resolved(root) {
                Err(DecodeError::MisplacedControlRecord)
            } else {
                match spec_next(s2) {
                    Ok((_, ValueModel::Bottom)) => Ok(root),
                    Ok(_) => Err(DecodeError::MissingEnd),
                    Err(e) => Err(e),
                }
            },
            Err(e) => Err(e),
        },
        Err(e) => Err(e),
    }
}

/// A tree with no reference and no control record's empty value in it.
pub open spec fn is_resolved(v: ValueModel) -> bool
    decreases v, 0nat,
{
    match v {
        ValueModel::Object(_, fs) => fields_resolved(fs),
        ValueModel::Array(_, _, vs) => values_resolved(vs),
        ValueModel::Reference(_) => false,
        ValueModel::Bottom => false,
        _ => true,
    }
}

pub open spec fn fields_resolved(fs: Seq<(Seq<char>, ValueModel)>) -> bool
    decreases fs, 0nat,
{
    fs.len() == 0 || (fields_resolved(fs.drop_last()) && is_resolved(fs.last().1))
}

pub open spec fn values_resolved(vs: Seq<ValueModel>) -> bool
    decreases vs, 0nat,
{
    vs.len() == 0 || (values_resolved(vs.drop_last()) && is_resolved(vs.last()))
}

} // verus!
