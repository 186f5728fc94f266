//! Typed views of a decoded value: each gives the native value when the
//! variant matches and nothing otherwise.
use vstd::prelude::*;

use crate::value::{copy_usizes, models, Value, ValueModel};

verus! {

pub fn as_bool(v: &Value) -> (r: Option<bool>)
    ensures
        r == match v.model() {
            ValueModel::Bool(x) => Some(x),
            _ => None,
        },
{
    match v {
        Value::Bool(x) => Some(*x),
        _ => None,
    }
}

pub fn as_u8(v: &Value) -> (r: Option<u8>)
    ensures
        r == match v.model() {
            ValueModel::U8(x) => Some(x),
            _ => None,
        },
{
    match v {
        Value::U8(x) => Some(*x),
        _ => None,
    }
}

pub fn as_u32(v: &Value) -> (r: Option<u32>)
    ensures
        r == match v.model() {
            ValueModel::U32(x) => Some(x),
            _ => None,
        },
{
    match v {
        Value::U32(x) => Some(*x),
        _ => None,
    }
}

pub fn as_u64(v: &Value) -> (r: Option<u64>)
    ensures
        r == match v.model() {
            ValueModel::U64(x) => Some(x),
            _ => None,
        },
{
    match v {
        Value::U64(x) => Some(*x),
        _ => None,
    }
}

pub fn as_i8(v: &Value) -> (r: Option<i8>)
    ensures
        r == match v.model() {
            ValueModel::I8(x) => Some(x),
            _ => None,
        },
{
    match v {
        Value::I8(x) => Some(*x),
        _ => None,
    }
}

pub fn as_i32(v: &Value) -> (r: Option<i32>)
    ensures
        r == match v.model() {
            ValueModel::I32(x) => Some(x),
            _ => None,
        },
{
    match v {
        Value::I32(x) => Some(*x),
        _ => None,
    }
}

pub fn as_i64(v: &Value) -> (r: Option<i64>)
    ensures
        r == match v.model() {
            ValueModel::I64(x) => Some(x),
            _ => None,
        },
{
    match v {
        Value::I64(x) => Some(*x),
        _ => None,
    }
}

/// The bits of a 32-bit float value.
pub fn as_f32_bits(v: &Value) -> (r: Option<u32>)
    ensures
        r == match v.model() {
            ValueModel::F32(x) => Some(x),
            _ => None,
        },
{
    match v {
        Value::F32(x) => Some(*x),
        _ => None,
    }
}

/// The bits of a 64-bit float value.
pub fn as_f64_bits(v: &Value) -> (r: Option<u64>)
    ensures
        r == match v.model() {
            ValueModel::F64(x) => Some(x),
            _ => None,
        },
{
    match v {
        Value::F64(x) => Some(*x),
        _ => None,
    }
}

pub fn as_string(v: &Value) -> (r: Option<String>)
    ensures
        match v.model() {
            ValueModel::Str(s) => r is Some && r->0@ == s,
            _ => r is None,
        },
{
    match v {
        Value::String(s) => Some(s.clone()),
        _ => None,
    }
}

/// The elements of an array value, in row-major order.
pub fn as_elements(v: &Value) -> (r: Option<Vec<Value>>)
    ensures
        match v.model() {
            ValueModel::Array(_, _, es) => r is Some && models(r->0@) == es,
            _ => r is None,
        },
{
    match v {
        Value::Array(_, _, vs) => {
            let mut out: Vec<Value> = Vec::new();
            let mut i: usize = 0;
            while i < vs.len()
                invariant
                    i <= vs.len(),
                    models(out@) == models(vs@.take(i as int)),
                decreases vs.len() - i,
            {
                let x = vs[i].deep_copy();
                let ghost pre = out@;
                out.push(x);
                assert(out@.drop_last() =~= pre);
                assert(vs@.take(i + 1).drop_last() =~= vs@.take(i as int));
                i = i + 1;
            }
            assert(vs@.take(vs.len() as int) =~= vs@);
            Some(out)
        },
        _ => None,
    }
}

/// The per-dimension lengths of an array value.
pub fn array_lengths(v: &Value) -> (r: Option<Vec<usize>>)
    ensures
        match v.model() {
            ValueModel::Array(lens, _, _) => r is Some && r->0@ == lens,
            _ => r is None,
        },
{
    match v {
        Value::Array(lens, _, _) => Some(copy_usizes(lens)),
        _ => None,
    }
}

} // verus!
