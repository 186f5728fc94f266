//! The decoder session: reads records one at a time, keeps the class and
//! value tables, and links references.
use vstd::prelude::*;

use std::collections::HashMap;

use crate::error::DecodeError;
use crate::model::{
    binary_type_at, bound_at, checked_product, earlier, initial, is_record_field, length_at, no_later,
    spec_array_header, spec_elems, spec_field_types, spec_length, spec_member, spec_members,
    spec_new_class, spec_next, spec_object, spec_record, store, typed_fields, untyped_fields,
    with_rest, SessionModel, spec_resolve, spec_resolve_elems, spec_resolve_fields,
    spec_until_root, spec_parse, is_resolved, fields_resolved, values_resolved,
};
use crate::primitives::{read_i32, read_lps, read_u8, Stream};
use crate::schema::{
    read_array_type, read_binary_type, read_primitive_type, read_record_type, spec_many,
    string_models, AdditionalInfos, BinaryType, Class, ClassField, ClassInfo, InfoModel,
    PrimitiveType, RecordType,
};
use crate::value::{
    copy_usizes, field_models, lemma_field_models_index, lemma_models_index, models, Value, ValueModel,
};

verus! {

broadcast use vstd::std_specs::hash::group_hash_axioms;

/// The state of one decode: the stream and the tables filled from it.
pub struct DecoderState {
    stream: Stream,
    root_id: Option<i32>,
    header_id: Option<i32>,
    libraries: HashMap<i32, String>,
    classes: HashMap<i32, Class>,
    values: HashMap<i32, Value>,
    null_count: usize,
}

/// What a decoding step promises: on success the session and the value
/// are those of the spec, on failure the error is.
pub open spec fn step_matches(
    after: SessionModel,
    r: Result<Value, DecodeError>,
    spec_r: Result<(SessionModel, ValueModel), DecodeError>,
) -> bool {
    match r {
        Ok(v) => spec_r == Ok::<(SessionModel, ValueModel), DecodeError>((after, v.model())),
        Err(e) => spec_r == Err::<(SessionModel, ValueModel), DecodeError>(e),
    }
}

impl DecoderState {
    pub closed spec fn wf(&self) -> bool {
        self.stream.wf()
    }

    pub closed spec fn model(&self) -> SessionModel {
        SessionModel {
            rest: self.stream@,
            root_id: self.root_id,
            header_id: self.header_id,
            libraries: self.libraries@.map_values(|s: String| s@),
            classes: self.classes@.map_values(|c: Class| c.model()),
            values: self.values@.map_values(|v: Value| v.model()),
            null_count: self.null_count as nat,
        }
    }

    pub fn new(data: Vec<u8>) -> (d: DecoderState)
        ensures
            d.wf(),
            d.model() == initial(data@),
    {
        let d = DecoderState {
            stream: Stream::new(data),
            root_id: None,
            header_id: None,
            libraries: HashMap::new(),
            classes: HashMap::new(),
            values: HashMap::new(),
            null_count: 0,
        };
        assert(d.model().libraries =~= Map::empty());
        assert(d.model().classes =~= Map::empty());
        assert(d.model().values =~= Map::empty());
        d
    }

    /// Stores `v` under `id` unless that id already holds a value.
    fn store(&mut self, id: i32, v: Value)
        ensures
            final(self).model() == store(old(self).model(), id, v.model()),
            final(self).wf() == old(self).wf(),
    {
        if !self.values.contains_key(&id) {
            let ghost pre = self.model();
            let ghost mv = v.model();
            self.values.insert(id, v);
            assert(self.model().values =~= pre.values.insert(id, mv));
        }
    }

    /// Decodes one value: a pending null of a null run, or the next record.
    pub fn next_value_record(&mut self) -> (r: Result<Value, DecodeError>)
        requires
            old(self).wf(),
        ensures
            final(self).wf(),
            step_matches(final(self).model(), r, spec_next(old(self).model())),
            r is Ok ==> earlier(final(self).model(), old(self).model()),
        decreases old(self).model().rest.len(), old(self).model().null_count, 0nat, 0nat,
    {
        if self.null_count > 0 {
            self.null_count = self.null_count - 1;
            return Ok(Value::Null);
        }
        let rt = read_record_type(&mut self.stream)?;
        let ghost s1 = self.model();
        assert(s1 == with_rest(old(self).model(), s1.rest));
        let r = match rt {
            RecordType::SerializationHeader => self.read_header(),
            RecordType::BinaryLibrary => self.read_library(),
            RecordType::MessageEnd => Ok(Value::Bottom),
            RecordType::ClassWithId => self.read_class_with_id(),
            RecordType::ClassWithMembers => self.read_class_with_members(),
            RecordType::ClassWithMembersAndTypes => self.read_class_with_types(true),
            RecordType::SystemClassWithMembersAndTypes => self.read_class_with_types(false),
            RecordType::BinaryArray => self.read_binary_array(),
            RecordType::ArraySinglePrimitive => self.read_array_single_primitive(),
            RecordType::BinaryObjectString => self.read_object_string(),
            RecordType::ObjectNull => Ok(Value::Null),
            RecordType::ObjectNullMultiple256 => self.read_null_run(false),
            RecordType::ObjectNullMultiple => self.read_null_run(true),
            RecordType::MemberReference => {
                let id = read_i32(&mut self.stream)?;
                Ok(Value::Reference(id))
            },
            _ => Err(DecodeError::UnsupportedRecord(rt)),
        };
        r
    }

    fn read_header(&mut self) -> (r: Result<Value, DecodeError>)
        requires
            old(self).wf(),
        ensures
            final(self).wf(),
            step_matches(
                final(self).model(),
                r,
                spec_record(old(self).model(), RecordType::SerializationHeader),
            ),
            r is Ok ==> no_later(final(self).model(), old(self).model()),
    {
        let root = read_i32(&mut self.stream)?;
        let header = read_i32(&mut self.stream)?;
        let major = read_i32(&mut self.stream)?;
        if major != 1 {
            return Err(DecodeError::WrongMajorVersion(major));
        }
        let minor = read_i32(&mut self.stream)?;
        if minor != 0 {
            return Err(DecodeError::WrongMinorVersion(minor));
        }
        self.root_id = Some(root);
        self.header_id = Some(header);
        Ok(Value::Bottom)
    }

    fn read_library(&mut self) -> (r: Result<Value, DecodeError>)
        requires
            old(self).wf(),
        ensures
            final(self).wf(),
            step_matches(
                final(self).model(),
                r,
                spec_record(old(self).model(), RecordType::BinaryLibrary),
            ),
            r is Ok ==> no_later(final(self).model(), old(self).model()),
    {
        let id = read_i32(&mut self.stream)?;
        let name = read_lps(&mut self.stream)?;
        let ghost pre = self.model();
        let ghost n = name@;
        self.libraries.insert(id, name);
        assert(self.model().libraries =~= pre.libraries.insert(id, n));
        Ok(Value::Bottom)
    }

    fn read_object_string(&mut self) -> (r: Result<Value, DecodeError>)
        requires
            old(self).wf(),
        ensures
            final(self).wf(),
            step_matches(
                final(self).model(),
                r,
                spec_record(old(self).model(), RecordType::BinaryObjectString),
            ),
            r is Ok ==> no_later(final(self).model(), old(self).model()),
    {
        let id = read_i32(&mut self.stream)?;
        let text = read_lps(&mut self.stream)?;
        self.store(id, Value::String(text));
        Ok(Value::Reference(id))
    }

    /// A null-run record: sets the run and yields its first null.
    fn read_null_run(&mut self, wide: bool) -> (r: Result<Value, DecodeError>)
        requires
            old(self).wf(),
        ensures
            final(self).wf(),
            step_matches(
                final(self).model(),
                r,
                spec_record(
                    old(self).model(),
                    if wide {
                        RecordType::ObjectNullMultiple
                    } else {
                        RecordType::ObjectNullMultiple256
                    },
                ),
            ),
            r is Ok ==> no_later(final(self).model(), old(self).model()),
        decreases old(self).model().rest.len(), old(self).model().null_count, 5nat, 0nat,
    {
        let count: usize = if wide {
            let n = read_i32(&mut self.stream)?;
            if n < 0 {
                return Err(DecodeError::NegativeLength(n));
            }
            n as usize
        } else {
            read_u8(&mut self.stream)? as usize
        };
        self.null_count = count;
        self.next_value_record()
    }

    fn read_class_with_id(&mut self) -> (r: Result<Value, DecodeError>)
        requires
            old(self).wf(),
        ensures
            final(self).wf(),
            step_matches(
                final(self).model(),
                r,
                spec_record(old(self).model(), RecordType::ClassWithId),
            ),
            r is Ok ==> no_later(final(self).model(), old(self).model()),
        decreases old(self).model().rest.len(), old(self).model().null_count, 5nat, 0nat,
    {
        let id = read_i32(&mut self.stream)?;
        let class_id = read_i32(&mut self.stream)?;
        let obj = self.parse_object(class_id)?;
        self.store(id, obj);
        Ok(Value::Reference(id))
    }

    /// Registers class `c` under `id`, then decodes and stores its first
    /// instance, whose object id is the class id.
    fn new_class(&mut self, id: i32, c: Class) -> (r: Result<Value, DecodeError>)
        requires
            old(self).wf(),
        ensures
            final(self).wf(),
            step_matches(final(self).model(), r, spec_new_class(old(self).model(), id, c.model())),
            r is Ok ==> no_later(final(self).model(), old(self).model()),
        decreases old(self).model().rest.len(), old(self).model().null_count, 4nat, 0nat,
    {
        let ghost pre = self.model();
        let ghost cm = c.model();
        self.classes.insert(id, c);
        assert(self.model().classes =~= pre.classes.insert(id, cm));
        let obj = self.parse_object(id)?;
        self.store(id, obj);
        Ok(Value::Reference(id))
    }

    fn read_class_with_members(&mut self) -> (r: Result<Value, DecodeError>)
        requires
            old(self).wf(),
        ensures
            final(self).wf(),
            step_matches(
                final(self).model(),
                r,
                spec_record(old(self).model(), RecordType::ClassWithMembers),
            ),
            r is Ok ==> no_later(final(self).model(), old(self).model()),
        decreases old(self).model().rest.len(), old(self).model().null_count, 5nat, 0nat,
    {
        let info = ClassInfo::from_stream(&mut self.stream)?;
        let _library_id = read_i32(&mut self.stream)?;
        let ghost names = string_models(info.field_names@);
        let mut fields: Vec<ClassField> = Vec::new();
        let mut i: usize = 0;
        while i < info.field_names.len()
            invariant
                i <= info.field_names.len(),
                names == string_models(info.field_names@),
                fields@.len() == i,
                forall|j: int|
                    0 <= j < i ==> #[trigger] fields@[j].model() == untyped_fields(names)[j],
            decreases info.field_names.len() - i,
        {
            fields.push(
                ClassField(info.field_names[i].clone(), BinaryType::Record, AdditionalInfos::Nothing),
            );
            i = i + 1;
        }
        let c = Class(info.name, fields);
        assert(c.model().fields =~= untyped_fields(names));
        self.new_class(info.id, c)
    }

    fn read_class_with_types(&mut self, with_library: bool) -> (r: Result<Value, DecodeError>)
        requires
            old(self).wf(),
        ensures
            final(self).wf(),
            step_matches(
                final(self).model(),
                r,
                spec_record(
                    old(self).model(),
                    if with_library {
                        RecordType::ClassWithMembersAndTypes
                    } else {
                        RecordType::SystemClassWithMembersAndTypes
                    },
                ),
            ),
            r is Ok ==> no_later(final(self).model(), old(self).model()),
        decreases old(self).model().rest.len(), old(self).model().null_count, 5nat, 0nat,
    {
        let info = ClassInfo::from_stream(&mut self.stream)?;
        let ghost names = string_models(info.field_names@);
        assert(names.len() == info.field_names.len());
        let ghost r1 = self.stream@;
        let types = read_binary_types(&mut self.stream, info.field_names.len())?;
        let ghost r_mid = self.stream@;
        let ghost tys = types@;
        assert(spec_many(r1, 0, names.len(), Seq::empty(), |i: nat, b: Seq<u8>| binary_type_at(i, b))
            == Ok::<(Seq<BinaryType>, Seq<u8>), DecodeError>((tys, r_mid)));
        proof {
            assert(tys.len() == names.len()) by {
                lemma_many_len(r1, 0, names.len(), Seq::empty(), |i: nat, b: Seq<u8>| binary_type_at(i, b));
            }
            assert((|i: nat, b: Seq<u8>| AdditionalInfos::spec_read(types@[i as int], b)) == (|
                i: nat,
                b: Seq<u8>,
            | AdditionalInfos::spec_read(tys[i as int], b)));
        }
        let infos = read_infos(&mut self.stream, &types)?;
        proof {
            assert(spec_field_types(r1, names.len()) == Ok::<
                ((Seq<BinaryType>, Seq<InfoModel>), Seq<u8>),
                DecodeError,
            >(((types@, info_models(infos@)), self.stream@)));
        }
        if with_library {
            let _library_id = read_i32(&mut self.stream)?;
        }
        let ghost ims = info_models(infos@);
        proof {
            lemma_many_len(
                r_mid,
                0,
                tys.len(),
                Seq::empty(),
                |i: nat, b: Seq<u8>| AdditionalInfos::spec_read(tys[i as int], b),
            );
        }
        let mut fields: Vec<ClassField> = Vec::new();
        let mut i: usize = 0;
        while i < info.field_names.len()
            invariant
                i <= info.field_names.len(),
                names == string_models(info.field_names@),
                names.len() == tys.len(),
                names.len() == ims.len(),
                tys == types@,
                ims == info_models(infos@),
                fields@.len() == i,
                forall|j: int|
                    0 <= j < i ==> #[trigger] fields@[j].model() == typed_fields(names, tys, ims)[j],
            decreases info.field_names.len() - i,
        {
            fields.push(ClassField(info.field_names[i].clone(), types[i], infos[i].deep_copy()));
            i = i + 1;
        }
        let c = Class(info.name, fields);
        assert(c.model().fields =~= typed_fields(names, tys, ims));
        self.new_class(info.id, c)
    }

    /// Decodes an instance of the class registered under `class_id`.
    fn parse_object(&mut self, class_id: i32) -> (r: Result<Value, DecodeError>)
        requires
            old(self).wf(),
        ensures
            final(self).wf(),
            step_matches(final(self).model(), r, spec_object(old(self).model(), class_id)),
            r is Ok ==> no_later(final(self).model(), old(self).model()),
        decreases old(self).model().rest.len(), old(self).model().null_count, 3nat, 0nat,
    {
        let class = match self.classes.get(&class_id) {
            Some(c) => c.deep_copy(),
            None => {
                return Err(DecodeError::UnknownClass(class_id));
            },
        };
        let ghost fields = class.model().fields;
        assert(fields == old(self).model().classes[class_id].fields);
        let mut members: Vec<(String, Value)> = Vec::new();
        let mut i: usize = 0;
        assert(field_models(members@) =~= Seq::<(Seq<char>, ValueModel)>::empty());
        while i < class.1.len()
            invariant
                self.wf(),
                i <= class.1.len(),
                fields == class.model().fields,
                old(self).model().classes.contains_key(class_id),
                old(self).model().classes[class_id] == class.model(),
                no_later(self.model(), old(self).model()),
                spec_members(old(self).model(), fields, 0, Seq::empty()) == spec_members(
                    self.model(),
                    fields,
                    i as nat,
                    field_models(members@),
                ),
            decreases class.1.len() - i,
        {
            let f = &class.1[i];
            let ghost s = self.model();
            let v = self.parse_class_member(f)?;
            let ghost pre = members@;
            let ghost fm = f.model();
            let ghost vm = v.model();
            members.push((f.0.clone(), v));
            proof {
                assert(members@.drop_last() =~= pre);
                assert(fields[i as int] == fm);
                assert(field_models(members@) == field_models(pre).push((fm.name, vm)));
            }
            i = i + 1;
        }
        Ok(Value::Object(class.0, members))
    }

    /// Decodes the value of one field of an object.
    fn parse_class_member(&mut self, f: &ClassField) -> (r: Result<Value, DecodeError>)
        requires
            old(self).wf(),
        ensures
            final(self).wf(),
            step_matches(final(self).model(), r, spec_member(old(self).model(), f.model())),
            r is Ok ==> no_later(final(self).model(), old(self).model()),
        decreases old(self).model().rest.len(), old(self).model().null_count, 2nat, 0nat,
    {
        match (f.1, &f.2) {
            (BinaryType::Primitive, AdditionalInfos::PrimitiveType(p)) => p.read(&mut self.stream),
            _ => if carried_as_record(f) {
                self.next_value_record()
            } else {
                Err(DecodeError::NoParser)
            },
        }
    }

    fn read_binary_array(&mut self) -> (r: Result<Value, DecodeError>)
        requires
            old(self).wf(),
        ensures
            final(self).wf(),
            step_matches(
                final(self).model(),
                r,
                spec_record(old(self).model(), RecordType::BinaryArray),
            ),
            r is Ok ==> no_later(final(self).model(), old(self).model()),
        decreases old(self).model().rest.len(), old(self).model().null_count, 5nat, 0nat,
    {
        let id = read_i32(&mut self.stream)?;
        let (lens, lows) = read_array_header(&mut self.stream)?;
        let size = match product(&lens) {
            Some(n) => n,
            None => {
                return Err(DecodeError::ArrayTooLarge);
            },
        };
        let ghost s2 = self.model();
        let mut elems: Vec<Value> = Vec::new();
        let mut i: usize = 0;
        assert(models(elems@) =~= Seq::<ValueModel>::empty());
        while i < size
            invariant
                self.wf(),
                i <= size,
                no_later(self.model(), old(self).model()),
                spec_record(old(self).model(), RecordType::BinaryArray) == match spec_elems(
                    s2,
                    0,
                    size as nat,
                    Seq::empty(),
                ) {
                    Ok((s3, es)) => Ok(
                        (store(s3, id, ValueModel::Array(lens@, lows@, es)), ValueModel::Reference(id)),
                    ),
                    Err(e) => Err(e),
                },
                spec_elems(s2, 0, size as nat, Seq::empty()) == spec_elems(
                    self.model(),
                    i as nat,
                    size as nat,
                    models(elems@),
                ),
            decreases size - i,
        {
            let v = self.next_value_record()?;
            let ghost pre = elems@;
            elems.push(v);
            assert(elems@.drop_last() =~= pre);
            i = i + 1;
        }
        self.store(id, Value::Array(lens, lows, elems));
        Ok(Value::Reference(id))
    }

    fn read_array_single_primitive(&mut self) -> (r: Result<Value, DecodeError>)
        requires
            old(self).wf(),
        ensures
            final(self).wf(),
            step_matches(
                final(self).model(),
                r,
                spec_record(old(self).model(), RecordType::ArraySinglePrimitive),
            ),
            r is Ok ==> no_later(final(self).model(), old(self).model()),
    {
        let id = read_i32(&mut self.stream)?;
        let len = read_length(&mut self.stream)?;
        let p = read_primitive_type(&mut self.stream)?;
        let elems = read_primitives(&mut self.stream, p, len)?;
        let mut lens: Vec<usize> = Vec::new();
        lens.push(len);
        let mut lows: Vec<usize> = Vec::new();
        lows.push(0);
        assert(lens@ =~= seq![len]);
        assert(lows@ =~= seq![0usize]);
        self.store(id, Value::Array(lens, lows, elems));
        Ok(Value::Reference(id))
    }
}

impl DecoderState {
    /// Replaces every reference in `v` by the value stored under its id,
    /// decoding further records while an id is not stored yet. Fails once
    /// references nest more than `fuel` deep.
    pub fn resolve_references(&mut self, v: &Value, fuel: usize) -> (r: Result<Value, DecodeError>)
        requires
            old(self).wf(),
        ensures
            final(self).wf(),
            step_matches(final(self).model(), r, spec_resolve(old(self).model(), v.model(), fuel as nat)),
            r is Ok ==> no_later(final(self).model(), old(self).model()),
        decreases old(self).model().rest.len(), old(self).model().null_count, fuel, *v,
    {
        match v {
            Value::Object(name, fs) => {
                let ghost fms = field_models(fs@);
                proof {
                    lemma_field_models_index(fs@);
                }
                let mut out: Vec<(String, Value)> = Vec::new();
                let mut i: usize = 0;
                assert(field_models(out@) =~= Seq::<(Seq<char>, ValueModel)>::empty());
                while i < fs.len()
                    invariant
                        self.wf(),
                        i <= fs.len(),
                        *v is Object,
                        (*v)->Object_1 == *fs,
                        fms == field_models(fs@),
                        fms.len() == fs.len(),
                        forall|j: int|
                            0 <= j < fs.len() ==> #[trigger] fms[j] == (fs@[j].0@, fs@[j].1.model()),
                        no_later(self.model(), old(self).model()),
                        spec_resolve(old(self).model(), v.model(), fuel as nat) == match spec_resolve_fields(
                            old(self).model(),
                            fms,
                            0,
                            Seq::empty(),
                            fuel as nat,
                        ) {
                            Ok((s2, o)) => Ok((s2, ValueModel::Object(name@, o))),
                            Err(e) => Err(e),
                        },
                        spec_resolve_fields(old(self).model(), fms, 0, Seq::empty(), fuel as nat)
                            == spec_resolve_fields(self.model(), fms, i as nat, field_models(out@), fuel as nat),
                    decreases fs.len() - i,
                {
                    proof {
                        broadcast use vstd::std_specs::vec::axiom_vec_index_decreases;

                        assert(decreases_to!(*v => (*v)->Object_1));
                        assert(decreases_to!((*v)->Object_1 => (*v)->Object_1[i as int]));
                        assert(decreases_to!((*v)->Object_1[i as int] => (*v)->Object_1[i as int].1));
                    }
                    let x = self.resolve_references(&fs[i].1, fuel)?;
                    let ghost pre = out@;
                    let ghost xm = x.model();
                    out.push((fs[i].0.clone(), x));
                    proof {
                        assert(out@.drop_last() =~= pre);
                        assert(field_models(out@) == field_models(pre).push((fs@[i as int].0@, xm)));
                    }
                    i = i + 1;
                }
                Ok(Value::Object(name.clone(), out))
            },
            Value::Array(lens, lows, vs) => {
                let ghost ms = models(vs@);
                proof {
                    lemma_models_index(vs@);
                }
                let mut out: Vec<Value> = Vec::new();
                let mut i: usize = 0;
                assert(models(out@) =~= Seq::<ValueModel>::empty());
                while i < vs.len()
                    invariant
                        self.wf(),
                        i <= vs.len(),
                        *v is Array,
                        (*v)->Array_2 == *vs,
                        ms == models(vs@),
                        ms.len() == vs.len(),
                        forall|j: int| 0 <= j < vs.len() ==> #[trigger] ms[j] == vs@[j].model(),
                        no_later(self.model(), old(self).model()),
                        spec_resolve(old(self).model(), v.model(), fuel as nat) == match spec_resolve_elems(
                            old(self).model(),
                            ms,
                            0,
                            Seq::empty(),
                            fuel as nat,
                        ) {
                            Ok((s2, o)) => Ok((s2, ValueModel::Array(lens@, lows@, o))),
                            Err(e) => Err(e),
                        },
                        spec_resolve_elems(old(self).model(), ms, 0, Seq::empty(), fuel as nat)
                            == spec_resolve_elems(self.model(), ms, i as nat, models(out@), fuel as nat),
                    decreases vs.len() - i,
                {
                    proof {
                        broadcast use vstd::std_specs::vec::axiom_vec_index_decreases;

                        assert(decreases_to!(*v => (*v)->Array_2));
                        assert(decreases_to!((*v)->Array_2 => (*v)->Array_2[i as int]));
                    }
                    let x = self.resolve_references(&vs[i], fuel)?;
                    let ghost pre = out@;
                    out.push(x);
                    assert(out@.drop_last() =~= pre);
                    i = i + 1;
                }
                Ok(Value::Array(copy_usizes(lens), copy_usizes(lows), out))
            },
            Value::Reference(id) => {
                let id = *id;
                loop
                    invariant
                        self.wf(),
                        v.model() == ValueModel::Reference(id),
                        no_later(self.model(), old(self).model()),
                        spec_resolve(old(self).model(), v.model(), fuel as nat) == spec_resolve(
                            self.model(),
                            v.model(),
                            fuel as nat,
                        ),
                    decreases self.model().rest.len(), self.model().null_count,
                {
                    match self.values.get(&id) {
                        Some(x) => {
                            let c = x.deep_copy();
                            if fuel == 0 {
                                return Err(DecodeError::ReferenceCycle(id));
                            }
                            return self.resolve_references(&c, fuel - 1);
                        },
                        None => {},
                    }
                    self.next_value_record()?;
                }
            },
            _ => Ok(v.deep_copy()),
        }
    }
}

/// `r` is what decoding `b` gives.
pub open spec fn parse_outcome(b: Seq<u8>, r: Result<Value, DecodeError>) -> bool {
    match r {
        Ok(v) => spec_parse(b) == Ok::<ValueModel, DecodeError>(v.model()),
        Err(e) => spec_parse(b) == Err::<ValueModel, DecodeError>(e),
    }
}

/// Decodes a whole stream: records until the stream header names the root
/// object, the root with every reference linked, then one record that
/// carries no value.
pub fn parse_nrbf(data: Vec<u8>) -> (r: Result<Value, DecodeError>)
    ensures
        parse_outcome(data@, r),
        r is Ok ==> is_resolved(r->Ok_0.model()),
{
    let fuel = data.len();
    let ghost b = data@;
    let mut decoder = DecoderState::new(data);
    while decoder.root_id.is_none()
        invariant
            decoder.wf(),
            b == data@,
            fuel == b.len(),
            spec_until_root(initial(b)) == spec_until_root(decoder.model()),
        decreases decoder.model().rest.len(), decoder.model().null_count,
    {
        decoder.next_value_record()?;
    }
    let root_id = match decoder.root_id {
        Some(id) => id,
        None => {
            return Err(DecodeError::MissingEnd);
        },
    };
    let root = decoder.resolve_references(&Value::Reference(root_id), fuel)?;
    if !tree_is_resolved(&root) {
        return Err(DecodeError::MisplacedControlRecord);
    }
    let end = decoder.next_value_record()?;
    match end {
        Value::Bottom => Ok(root),
        _ => Err(DecodeError::MissingEnd),
    }
}

/// Whether `v` holds no reference and no control record's empty value.
pub fn tree_is_resolved(v: &Value) -> (r: bool)
    ensures
        r == is_resolved(v.model()),
    decreases v,
{
    match v {
        Value::Object(_, fs) => {
            let ghost fms = field_models(fs@);
            proof {
                lemma_field_models_index(fs@);
            }
            let mut all = true;
            let mut i: usize = 0;
            assert(fms.take(0) =~= Seq::<(Seq<char>, ValueModel)>::empty());
            while i < fs.len()
                invariant
                    i <= fs.len(),
                    *v is Object,
                    (*v)->Object_1 == *fs,
                    fms == field_models(fs@),
                    fms.len() == fs.len(),
                    forall|j: int|
                        0 <= j < fs.len() ==> #[trigger] fms[j] == (fs@[j].0@, fs@[j].1.model()),
                    all == fields_resolved(fms.take(i as int)),
                decreases fs.len() - i,
            {
                proof {
                    broadcast use vstd::std_specs::vec::axiom_vec_index_decreases;

                    assert(decreases_to!(*v => (*v)->Object_1));
                    assert(decreases_to!((*v)->Object_1 => (*v)->Object_1[i as int]));
                    assert(decreases_to!((*v)->Object_1[i as int] => (*v)->Object_1[i as int].1));
                }
                let x = tree_is_resolved(&fs[i].1);
                assert(fms.take(i + 1).drop_last() =~= fms.take(i as int));
                all = all && x;
                i = i + 1;
            }
            assert(fms.take(fs.len() as int) =~= fms);
            all
        },
        Value::Array(_, _, vs) => {
            let ghost ms = models(vs@);
            proof {
                lemma_models_index(vs@);
            }
            let mut all = true;
            let mut i: usize = 0;
            assert(ms.take(0) =~= Seq::<ValueModel>::empty());
            while i < vs.len()
                invariant
                    i <= vs.len(),
                    *v is Array,
                    (*v)->Array_2 == *vs,
                    ms == models(vs@),
                    ms.len() == vs.len(),
                    forall|j: int| 0 <= j < vs.len() ==> #[trigger] ms[j] == vs@[j].model(),
                    all == values_resolved(ms.take(i as int)),
                decreases vs.len() - i,
            {
                proof {
                    broadcast use vstd::std_specs::vec::axiom_vec_index_decreases;

                    assert(decreases_to!(*v => (*v)->Array_2));
                    assert(decreases_to!((*v)->Array_2 => (*v)->Array_2[i as int]));
                }
                let x = tree_is_resolved(&vs[i]);
                assert(ms.take(i + 1).drop_last() =~= ms.take(i as int));
                all = all && x;
                i = i + 1;
            }
            assert(ms.take(vs.len() as int) =~= ms);
            all
        },
        Value::Reference(_) => false,
        Value::Bottom => false,
        _ => true,
    }
}

/// Whether a field of this binary type and info is decoded as the next record.
fn carried_as_record(f: &ClassField) -> (r: bool)
    ensures
        r == is_record_field(f.model()),
{
    match (f.1, &f.2) {
        (BinaryType::Record, AdditionalInfos::Nothing) => true,
        (BinaryType::String, AdditionalInfos::Nothing) => true,
        (BinaryType::SystemClass, AdditionalInfos::ClassName(_)) => true,
        (BinaryType::Class, AdditionalInfos::Class(_)) => true,
        (BinaryType::PrimitiveArray, AdditionalInfos::PrimitiveType(_)) => true,
        _ => false,
    }
}

pub open spec fn info_models(v: Seq<AdditionalInfos>) -> Seq<InfoModel> {
    v.map_values(|a: AdditionalInfos| a.model())
}

/// Reads the binary-type tags of `n` fields.
fn read_binary_types(stream: &mut Stream, n: usize) -> (r: Result<Vec<BinaryType>, DecodeError>)
    requires
        old(stream).wf(),
    ensures
        final(stream).wf(),
        final(stream)@.len() <= old(stream)@.len(),
        match r {
            Ok(v) => spec_many(
                old(stream)@,
                0,
                n as nat,
                Seq::empty(),
                |i: nat, b: Seq<u8>| binary_type_at(i, b),
            ) == Ok::<(Seq<BinaryType>, Seq<u8>), DecodeError>((v@, final(stream)@)),
            Err(e) => spec_many(
                old(stream)@,
                0,
                n as nat,
                Seq::empty(),
                |i: nat, b: Seq<u8>| binary_type_at(i, b),
            ) == Err::<(Seq<BinaryType>, Seq<u8>), DecodeError>(e),
        },
{
    let ghost f = |i: nat, b: Seq<u8>| binary_type_at(i, b);
    let mut out: Vec<BinaryType> = Vec::new();
    let mut i: usize = 0;
    while i < n
        invariant
            stream.wf(),
            stream@.len() <= old(stream)@.len(),
            i <= n,
            f == (|i: nat, b: Seq<u8>| binary_type_at(i, b)),
            spec_many(old(stream)@, 0, n as nat, Seq::empty(), f) == spec_many(
                stream@,
                i as nat,
                n as nat,
                out@,
                f,
            ),
        decreases n - i,
    {
        let t = read_binary_type(stream)?;
        out.push(t);
        i = i + 1;
    }
    Ok(out)
}

/// Reads the additional info that follows each of the binary types `types`.
fn read_infos(stream: &mut Stream, types: &Vec<BinaryType>) -> (r: Result<
    Vec<AdditionalInfos>,
    DecodeError,
>)
    requires
        old(stream).wf(),
    ensures
        final(stream).wf(),
        final(stream)@.len() <= old(stream)@.len(),
        match r {
            Ok(v) => spec_many(
                old(stream)@,
                0,
                types@.len(),
                Seq::empty(),
                |i: nat, b: Seq<u8>| AdditionalInfos::spec_read(types@[i as int], b),
            ) == Ok::<(Seq<InfoModel>, Seq<u8>), DecodeError>((info_models(v@), final(stream)@)),
            Err(e) => spec_many(
                old(stream)@,
                0,
                types@.len(),
                Seq::empty(),
                |i: nat, b: Seq<u8>| AdditionalInfos::spec_read(types@[i as int], b),
            ) == Err::<(Seq<InfoModel>, Seq<u8>), DecodeError>(e),
        },
{
    let ghost f = |i: nat, b: Seq<u8>| AdditionalInfos::spec_read(types@[i as int], b);
    let mut out: Vec<AdditionalInfos> = Vec::new();
    let mut i: usize = 0;
    assert(info_models(out@) =~= Seq::<InfoModel>::empty());
    while i < types.len()
        invariant
            stream.wf(),
            stream@.len() <= old(stream)@.len(),
            i <= types.len(),
            f == (|i: nat, b: Seq<u8>| AdditionalInfos::spec_read(types@[i as int], b)),
            spec_many(old(stream)@, 0, types@.len(), Seq::empty(), f) == spec_many(
                stream@,
                i as nat,
                types@.len(),
                info_models(out@),
                f,
            ),
        decreases types.len() - i,
    {
        let a = AdditionalInfos::from_stream(stream, types[i])?;
        let ghost pre = out@;
        let ghost am = a.model();
        out.push(a);
        assert(info_models(out@) =~= info_models(pre).push(am));
        i = i + 1;
    }
    Ok(out)
}

/// Reads a non-negative `i32` as a length.
fn read_length(stream: &mut Stream) -> (r: Result<usize, DecodeError>)
    requires
        old(stream).wf(),
    ensures
        final(stream).wf(),
        final(stream)@.len() <= old(stream)@.len(),
        match r {
            Ok(n) => spec_length(old(stream)@) == Ok::<(usize, Seq<u8>), DecodeError>(
                (n, final(stream)@),
            ),
            Err(e) => spec_length(old(stream)@) == Err::<(usize, Seq<u8>), DecodeError>(e),
        },
{
    let n = read_i32(stream)?;
    if n < 0 {
        return Err(DecodeError::NegativeLength(n));
    }
    Ok(n as usize)
}

/// Reads `n` lengths.
fn read_lengths(stream: &mut Stream, n: usize) -> (r: Result<Vec<usize>, DecodeError>)
    requires
        old(stream).wf(),
    ensures
        final(stream).wf(),
        final(stream)@.len() <= old(stream)@.len(),
        match r {
            Ok(v) => spec_many(
                old(stream)@,
                0,
                n as nat,
                Seq::empty(),
                |i: nat, b: Seq<u8>| length_at(i, b),
            ) == Ok::<(Seq<usize>, Seq<u8>), DecodeError>((v@, final(stream)@)),
            Err(e) => spec_many(
                old(stream)@,
                0,
                n as nat,
                Seq::empty(),
                |i: nat, b: Seq<u8>| length_at(i, b),
            ) == Err::<(Seq<usize>, Seq<u8>), DecodeError>(e),
        },
{
    let ghost f = |i: nat, b: Seq<u8>| length_at(i, b);
    let mut out: Vec<usize> = Vec::new();
    let mut i: usize = 0;
    while i < n
        invariant
            stream.wf(),
            stream@.len() <= old(stream)@.len(),
            i <= n,
            f == (|i: nat, b: Seq<u8>| length_at(i, b)),
            spec_many(old(stream)@, 0, n as nat, Seq::empty(), f) == spec_many(
                stream@,
                i as nat,
                n as nat,
                out@,
                f,
            ),
        decreases n - i,
    {
        let x = read_length(stream)?;
        out.push(x);
        i = i + 1;
    }
    Ok(out)
}

/// Reads `n` lower bounds: any `i32`, kept as `usize` the way `as` converts it.
fn read_bounds(stream: &mut Stream, n: usize) -> (r: Result<Vec<usize>, DecodeError>)
    requires
        old(stream).wf(),
    ensures
        final(stream).wf(),
        final(stream)@.len() <= old(stream)@.len(),
        match r {
            Ok(v) => spec_many(
                old(stream)@,
                0,
                n as nat,
                Seq::empty(),
                |i: nat, b: Seq<u8>| bound_at(i, b),
            ) == Ok::<(Seq<usize>, Seq<u8>), DecodeError>((v@, final(stream)@)),
            Err(e) => spec_many(
                old(stream)@,
                0,
                n as nat,
                Seq::empty(),
                |i: nat, b: Seq<u8>| bound_at(i, b),
            ) == Err::<(Seq<usize>, Seq<u8>), DecodeError>(e),
        },
{
    let ghost f = |i: nat, b: Seq<u8>| bound_at(i, b);
    let mut out: Vec<usize> = Vec::new();
    let mut i: usize = 0;
    while i < n
        invariant
            stream.wf(),
            stream@.len() <= old(stream)@.len(),
            i <= n,
            f == (|i: nat, b: Seq<u8>| bound_at(i, b)),
            spec_many(old(stream)@, 0, n as nat, Seq::empty(), f) == spec_many(
                stream@,
                i as nat,
                n as nat,
                out@,
                f,
            ),
        decreases n - i,
    {
        let x = read_i32(stream)? as usize;
        out.push(x);
        i = i + 1;
    }
    Ok(out)
}

/// Reads `n` scalars of kind `p`.
fn read_primitives(stream: &mut Stream, p: PrimitiveType, n: usize) -> (r: Result<
    Vec<Value>,
    DecodeError,
>)
    requires
        old(stream).wf(),
    ensures
        final(stream).wf(),
        final(stream)@.len() <= old(stream)@.len(),
        match r {
            Ok(v) => spec_many(
                old(stream)@,
                0,
                n as nat,
                Seq::empty(),
                |i: nat, b: Seq<u8>| p.spec_read(b),
            ) == Ok::<(Seq<ValueModel>, Seq<u8>), DecodeError>((models(v@), final(stream)@)),
            Err(e) => spec_many(
                old(stream)@,
                0,
                n as nat,
                Seq::empty(),
                |i: nat, b: Seq<u8>| p.spec_read(b),
            ) == Err::<(Seq<ValueModel>, Seq<u8>), DecodeError>(e),
        },
{
    let ghost f = |i: nat, b: Seq<u8>| p.spec_read(b);
    let mut out: Vec<Value> = Vec::new();
    let mut i: usize = 0;
    assert(models(out@) =~= Seq::<ValueModel>::empty());
    while i < n
        invariant
            stream.wf(),
            stream@.len() <= old(stream)@.len(),
            i <= n,
            f == (|i: nat, b: Seq<u8>| p.spec_read(b)),
            spec_many(old(stream)@, 0, n as nat, Seq::empty(), f) == spec_many(
                stream@,
                i as nat,
                n as nat,
                models(out@),
                f,
            ),
        decreases n - i,
    {
        let v = p.read(stream)?;
        let ghost pre = out@;
        out.push(v);
        assert(out@.drop_last() =~= pre);
        i = i + 1;
    }
    Ok(out)
}

/// Reads the metadata of a general array record after its object id.
fn read_array_header(stream: &mut Stream) -> (r: Result<(Vec<usize>, Vec<usize>), DecodeError>)
    requires
        old(stream).wf(),
    ensures
        final(stream).wf(),
        final(stream)@.len() <= old(stream)@.len(),
        match r {
            Ok((lens, lows)) => spec_array_header(old(stream)@) == Ok::<
                ((Seq<usize>, Seq<usize>), Seq<u8>),
                DecodeError,
            >(((lens@, lows@), final(stream)@)),
            Err(e) => spec_array_header(old(stream)@) == Err::<
                ((Seq<usize>, Seq<usize>), Seq<u8>),
                DecodeError,
            >(e),
        },
{
    let shape = read_array_type(stream)?;
    let rank = read_length(stream)?;
    let lens = read_lengths(stream, rank)?;
    let lows = if shape.has_offsets() {
        read_bounds(stream, lens.len())?
    } else {
        let mut zeros: Vec<usize> = Vec::new();
        let mut i: usize = 0;
        while i < lens.len()
            invariant
                i <= lens.len(),
                zeros@ == Seq::new(i as nat, |j: int| 0usize),
            decreases lens.len() - i,
        {
            zeros.push(0);
            assert(zeros@ =~= Seq::new((i + 1) as nat, |j: int| 0usize));
            i = i + 1;
        }
        zeros
    };
    let item = read_binary_type(stream)?;
    let _info = AdditionalInfos::from_stream(stream, item)?;
    Ok((lens, lows))
}

/// The product of `lens`, or `None` once the running product leaves `usize`.
fn product(lens: &Vec<usize>) -> (r: Option<usize>)
    ensures
        match r {
            Some(n) => checked_product(lens@) == Some(n as nat),
            None => checked_product(lens@) is None,
        },
{
    let mut acc: usize = 1;
    let mut i: usize = 0;
    assert(lens@.take(0) =~= Seq::<usize>::empty());
    while i < lens.len()
        invariant
            i <= lens.len(),
            checked_product(lens@.take(i as int)) == Some(acc as nat),
        decreases lens.len() - i,
    {
        assert(lens@.take(i + 1).drop_last() =~= lens@.take(i as int));
        match acc.checked_mul(lens[i]) {
            Some(next) => {
                acc = next;
            },
            None => {
                proof {
                    lemma_product_none_stays(lens@, (i + 1) as nat);
                }
                return None;
            },
        }
        i = i + 1;
    }
    assert(lens@.take(lens.len() as int) =~= lens@);
    Some(acc)
}

proof fn lemma_product_none_stays(lens: Seq<usize>, k: nat)
    requires
        k <= lens.len(),
        checked_product(lens.take(k as int)) is None,
    ensures
        checked_product(lens) is None,
    decreases lens.len() - k,
{
    if k < lens.len() {
        assert(lens.take(k + 1 as int).drop_last() =~= lens.take(k as int));
        lemma_product_none_stays(lens, k + 1);
    } else {
        assert(lens.take(k as int) =~= lens);
    }
}

/// What `spec_many` collects has one entry per index.
proof fn lemma_many_len<T>(
    b: Seq<u8>,
    i: nat,
    n: nat,
    acc: Seq<T>,
    f: spec_fn(nat, Seq<u8>) -> Result<(T, Seq<u8>), DecodeError>,
)
    requires
        i <= n,
    ensures
        spec_many(b, i, n, acc, f) is Ok ==> spec_many(b, i, n, acc, f)->Ok_0.0.len() == acc.len()
            + n - i,
    decreases n - i,
{
    if i < n {
        match f(i, b) {
            Ok((x, r)) => lemma_many_len(r, i + 1, n, acc.push(x), f),
            Err(_) => {},
        }
    }
}

} // verus!
