//! The decoded value tree and its mathematical model.
use vstd::prelude::*;

verus! {

/// A decoded value. Floating-point values are kept as their IEEE-754 bit
/// patterns.
#[derive(Debug, PartialEq)]
pub enum Value {
    Null,
    Byte(u8),
    Bool(bool),
    U8(u8),
    U32(u32),
    U64(u64),
    I8(i8),
    I32(i32),
    I64(i64),
    /// The bits of a 32-bit float.
    F32(u32),
    /// The bits of a 64-bit float.
    F64(u64),
    String(String),
    /// Per-dimension lengths, per-dimension lower bounds, elements in row-major order.
    Array(Vec<usize>, Vec<usize>, Vec<Value>),
    /// Class name and the fields in the order the class declares them. A
    /// name the class declares twice appears twice, each with its own value:
    /// names are never merged.
    Object(String, Vec<(String, Value)>),
    /// An object id whose value is not linked in yet.
    Reference(i32),
    /// A record that carried no value.
    Bottom,
}

/// The mathematical model of a `Value`: strings as character sequences,
/// vectors as sequences.
pub enum ValueModel {
    Null,
    Byte(u8),
    Bool(bool),
    U8(u8),
    U32(u32),
    U64(u64),
    I8(i8),
    I32(i32),
    I64(i64),
    F32(u32),
    F64(u64),
    Str(Seq<char>),
    Array(Seq<usize>, Seq<usize>, Seq<ValueModel>),
    Object(Seq<char>, Seq<(Seq<char>, ValueModel)>),
    Reference(i32),
    Bottom,
}

impl Value {
    pub open spec fn model(&self) -> ValueModel
        decreases self, 0nat,
    {
        match self {
            Value::Null => ValueModel::Null,
            Value::Byte(x) => ValueModel::Byte(*x),
            Value::Bool(x) => ValueModel::Bool(*x),
            Value::U8(x) => ValueModel::U8(*x),
            Value::U32(x) => ValueModel::U32(*x),
            Value::U64(x) => ValueModel::U64(*x),
            Value::I8(x) => ValueModel::I8(*x),
            Value::I32(x) => ValueModel::I32(*x),
            Value::I64(x) => ValueModel::I64(*x),
            Value::F32(x) => ValueModel::F32(*x),
            Value::F64(x) => ValueModel::F64(*x),
            Value::String(s) => ValueModel::Str(s@),
            Value::Array(a, b, vs) => ValueModel::Array(a@, b@, models(vs@)),
            Value::Object(n, fs) => ValueModel::Object(n@, field_models(fs@)),
            Value::Reference(id) => ValueModel::Reference(*id),
            Value::Bottom => ValueModel::Bottom,
        }
    }
}

pub open spec fn models(vs: Seq<Value>) -> Seq<ValueModel>
    decreases vs, 0nat,
{
    if vs.len() == 0 {
        Seq::empty()
    } else {
        models(vs.drop_last()).push(vs.last().model())
    }
}

pub open spec fn field_models(fs: Seq<(String, Value)>) -> Seq<(Seq<char>, ValueModel)>
    decreases fs, 0nat,
{
    if fs.len() == 0 {
        Seq::empty()
    } else {
        field_models(fs.drop_last()).push((fs.last().0@, fs.last().1.model()))
    }
}

impl Value {
    /// A copy of the whole tree.
    pub fn deep_copy(&self) -> (r: Value)
        ensures
            r.model() == self.model(),
        decreases self,
    {
        match self {
            Value::Null => Value::Null,
            Value::Byte(x) => Value::Byte(*x),
            Value::Bool(x) => Value::Bool(*x),
            Value::U8(x) => Value::U8(*x),
            Value::U32(x) => Value::U32(*x),
            Value::U64(x) => Value::U64(*x),
            Value::I8(x) => Value::I8(*x),
            Value::I32(x) => Value::I32(*x),
            Value::I64(x) => Value::I64(*x),
            Value::F32(x) => Value::F32(*x),
            Value::F64(x) => Value::F64(*x),
            Value::String(s) => Value::String(s.clone()),
            Value::Array(a, b, vs) => {
                let mut out: Vec<Value> = Vec::new();
                let mut i: usize = 0;
                while i < vs.len()
                    invariant
                        i <= vs.len(),
                        *self is Array,
                        (*self)->Array_2 == *vs,
                        models(out@) == models(vs@.take(i as int)),
                    decreases vs.len() - i,
                {
                    proof {

                        broadcast use vstd::std_specs::vec::axiom_vec_index_decreases;

                        assert((*self)->Array_2 == *vs);
                        assert(decreases_to!(*self => (*self)->Array_2));
                        assert(decreases_to!((*self)->Array_2 => (*self)->Array_2[i as int]));
                    }
                    let v = vs[i].deep_copy();
                    let ghost pre = out@;
                    out.push(v);
                    proof {
                        assert(out@.drop_last() =~= pre);
                        assert(vs@.take(i + 1).drop_last() =~= vs@.take(i as int));
                    }
                    i = i + 1;
                }
                assert(vs@.take(vs.len() as int) =~= vs@);
                Value::Array(copy_usizes(a), copy_usizes(b), out)
            },
            Value::Object(n, fs) => {
                let mut out: Vec<(String, Value)> = Vec::new();
                let mut i: usize = 0;
                while i < fs.len()
                    invariant
                        i <= fs.len(),
                        *self is Object,
                        (*self)->Object_1 == *fs,
                        field_models(out@) == field_models(fs@.take(i as int)),
                    decreases fs.len() - i,
                {
                    proof {
                        broadcast use vstd::std_specs::vec::axiom_vec_index_decreases;

                        assert((*self)->Object_1 == *fs);
                        assert(decreases_to!(*self => (*self)->Object_1));
                        assert(decreases_to!((*self)->Object_1 => (*self)->Object_1[i as int]));
                        assert(decreases_to!((*self)->Object_1[i as int] => (*self)->Object_1[i as int].1));
                    }
                    let v = fs[i].1.deep_copy();
                    let ghost pre = out@;
                    out.push((fs[i].0.clone(), v));
                    proof {
                        assert(out@.drop_last() =~= pre);
                        assert(fs@.take(i + 1).drop_last() =~= fs@.take(i as int));
                    }
                    i = i + 1;
                }
                assert(fs@.take(fs.len() as int) =~= fs@);
                Value::Object(n.clone(), out)
            },
            Value::Reference(id) => Value::Reference(*id),
            Value::Bottom => Value::Bottom,
        }
    }
}

impl Clone for Value {
    fn clone(&self) -> (r: Value)
        ensures
            r.model() == self.model(),
    {
        self.deep_copy()
    }
}

pub fn copy_usizes(v: &Vec<usize>) -> (r: Vec<usize>)
    ensures
        r@ == v@,
{
    let mut out: Vec<usize> = Vec::new();
    let mut i: usize = 0;
    while i < v.len()
        invariant
            i <= v.len(),
            out@ == v@.take(i as int),
        decreases v.len() - i,
    {
        out.push(v[i]);
        assert(out@ =~= v@.take(i + 1));
        i = i + 1;
    }
    assert(v@.take(v.len() as int) =~= v@);
    out
}

pub proof fn lemma_models_index(vs: Seq<Value>)
    ensures
        models(vs).len() == vs.len(),
        forall|i: int| 0 <= i < vs.len() ==> #[trigger] models(vs)[i] == vs[i].model(),
    decreases vs.len(),
{
    if vs.len() > 0 {
        lemma_models_index(vs.drop_last());
    }
}

pub proof fn lemma_field_models_index(fs: Seq<(String, Value)>)
    ensures
        field_models(fs).len() == fs.len(),
        forall|i: int|
            0 <= i < fs.len() ==> #[trigger] field_models(fs)[i] == (fs[i].0@, fs[i].1.model()),
    decreases fs.len(),
{
    if fs.len() > 0 {
        lemma_field_models_index(fs.drop_last());
    }
}

} // verus!
