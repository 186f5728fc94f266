//! General properties of the decoder, proved over the spec model.
use vstd::prelude::*;

use crate::decoder::parse_outcome;
use crate::error::DecodeError;
use crate::model::{
    earlier, initial, no_later, spec_elems, spec_next, spec_object, spec_parse, spec_record,
    spec_resolve, spec_resolve_fields, is_resolved, with_rest,
    SessionModel,
};
use crate::primitives::{
    le_nat, signed, spec_i32, spec_variable_length, spec_varint,
};
use crate::schema::RecordType;
use crate::value::{Value, ValueModel};

verus! {

/// Two decodes of the same bytes give the same outcome: equal trees, or the
/// same error.
pub proof fn lemma_decode_deterministic(
    b: Seq<u8>,
    r1: Result<Value, DecodeError>,
    r2: Result<Value, DecodeError>,
)
    requires
        parse_outcome(b, r1),
        parse_outcome(b, r2),
    ensures
        match (r1, r2) {
            (Ok(v1), Ok(v2)) => v1.model() == v2.model(),
            (Err(e1), Err(e2)) => e1 == e2,
            _ => false,
        },
{
}

/// The variable-length encoding of `n`: seven bits per byte, lowest first,
/// the high bit set on every byte but the last.
pub open spec fn varint_encode(n: nat) -> Seq<u8>
    decreases n,
{
    if n < 128 {
        seq![n as u8]
    } else {
        seq![(n % 128 + 128) as u8] + varint_encode(n / 128)
    }
}

/// Decoding the encoding of `n`, followed by any bytes, gives back `n` and
/// leaves those bytes.
pub proof fn lemma_varint_round_trip(n: nat, rest: Seq<u8>)
    ensures
        spec_varint(varint_encode(n) + rest) == Ok::<(nat, Seq<u8>), DecodeError>((n, rest)),
    decreases n,
{
    let b = varint_encode(n) + rest;
    if n < 128 {
        assert(b[0] == n as u8);
        assert(b.drop_first() =~= rest);
    } else {
        let tail = varint_encode(n / 128) + rest;
        assert(b =~= seq![(n % 128 + 128) as u8] + tail);
        assert(b.drop_first() =~= tail);
        lemma_varint_round_trip(n / 128, rest);
        assert(b[0] == (n % 128 + 128) as u8);
    }
}

/// The reader of variable-length integers gives back every `usize`.
pub proof fn lemma_variable_length_round_trip(n: usize, rest: Seq<u8>)
    ensures
        spec_variable_length(varint_encode(n as nat) + rest) == Ok::<(usize, Seq<u8>), DecodeError>(
            (n, rest),
        ),
{
    lemma_varint_round_trip(n as nat, rest);
}

/// Groups compose additively at seven-bit offsets: a byte with its high
/// bit set contributes its low seven bits, and what follows counts 128
/// times as much.
pub proof fn lemma_varint_groups(first: u8, b: Seq<u8>)
    requires
        first >= 128,
    ensures
        spec_varint(seq![first] + b) == match spec_varint(b) {
            Ok((v, r)) => Ok::<(nat, Seq<u8>), DecodeError>((((first - 128) + 128 * v) as nat, r)),
            Err(e) => Err(e),
        },
{
    assert((seq![first] + b).drop_first() =~= b);
}

/// 128 to the power `n`: the weight of the group at byte offset `n`.
pub open spec fn pow128(n: nat) -> nat
    decreases n,
{
    if n == 0 {
        1
    } else {
        128 * pow128((n - 1) as nat)
    }
}

/// The low seven bits of a byte.
pub open spec fn low7(x: u8) -> nat {
    if x >= 128 {
        (x - 128) as nat
    } else {
        x as nat
    }
}

/// The sum, over the first `n` bytes of `b`, of each byte's low seven bits
/// times 128 to the power of its offset.
pub open spec fn groups_sum(b: Seq<u8>, n: nat) -> nat
    decreases n,
{
    if n == 0 {
        0
    } else {
        groups_sum(b, (n - 1) as nat) + low7(b[n - 1]) * pow128((n - 1) as nat)
    }
}

proof fn lemma_groups_sum_front(b: Seq<u8>, n: nat)
    requires
        1 <= n <= b.len(),
    ensures
        groups_sum(b, n) == low7(b[0]) + 128 * groups_sum(b.drop_first(), (n - 1) as nat),
    decreases n,
{
    if n == 1 {
        assert(pow128(0) == 1);
        assert(groups_sum(b, 0) == 0);
        assert(groups_sum(b.drop_first(), 0) == 0);
        assert(groups_sum(b, 1) == low7(b[0]) * pow128(0));
    } else {
        lemma_groups_sum_front(b, (n - 1) as nat);
        let t = b.drop_first();
        let x = low7(b[n - 1]);
        assert(t[n - 2] == b[n - 1]);
        let p = pow128((n - 2) as nat);
        assert(pow128((n - 1) as nat) == 128 * p);
        assert(x * (128 * p) == 128 * (x * p)) by (nonlinear_arith);
        assert(groups_sum(t, (n - 1) as nat) == groups_sum(t, (n - 2) as nat) + x * p);
        assert(groups_sum(b, n) == groups_sum(b, (n - 1) as nat) + x * pow128((n - 1) as nat));
    }
}

/// In closed form: a variable-length integer whose bytes are `b` (every
/// byte but the last with its high bit set) is the sum of each byte's low
/// seven bits shifted by seven times its offset.
pub proof fn lemma_varint_closed_form(b: Seq<u8>, rest: Seq<u8>)
    requires
        b.len() >= 1,
        forall|i: int| 0 <= i < b.len() - 1 ==> #[trigger] b[i] >= 128,
        b.last() < 128,
    ensures
        spec_varint(b + rest) == Ok::<(nat, Seq<u8>), DecodeError>((groups_sum(b, b.len()), rest)),
    decreases b.len(),
{
    let whole = b + rest;
    if b.len() == 1 {
        assert(pow128(0) == 1);
        assert(groups_sum(b, 0) == 0);
        assert(groups_sum(b, 1) == low7(b[0]) * pow128(0));
        assert(whole[0] == b[0]);
        assert(whole.drop_first() =~= rest);
    } else {
        let t = b.drop_first();
        assert(whole.drop_first() =~= t + rest);
        assert(forall|i: int| 0 <= i < t.len() - 1 ==> #[trigger] t[i] == b[i + 1]);
        lemma_varint_closed_form(t, rest);
        lemma_groups_sum_front(b, b.len());
        assert(whole[0] == b[0]);
        assert(b[0] >= 128);
        assert(t.last() == b.last());
        assert(low7(b[0]) == b[0] - 128);
    }
}

/// `n` nulls.
pub open spec fn nulls(n: nat) -> Seq<ValueModel> {
    Seq::new(n, |i: int| ValueModel::Null)
}

/// The byte `b`, `n` times.
pub open spec fn repeat_byte(b: u8, n: nat) -> Seq<u8> {
    Seq::new(n, |i: int| b)
}

proof fn lemma_first_byte(b: Seq<u8>)
    requires
        b.len() >= 1,
    ensures
        le_nat(b.take(1)) == b[0] as nat,
{
    reveal_with_fuel(le_nat, 2);
    assert(b.take(1).drop_first() =~= Seq::<u8>::empty());
}

/// While nulls are pending, each value decoded is one of them.
proof fn lemma_pending_nulls(s: SessionModel, i: nat, n: nat, acc: Seq<ValueModel>)
    requires
        i <= n,
        s.null_count >= n - i,
    ensures
        spec_elems(s, i, n, acc) == Ok::<(SessionModel, Seq<ValueModel>), DecodeError>(
            (SessionModel { null_count: (s.null_count - (n - i)) as nat, ..s }, acc + nulls((n - i) as nat)),
        ),
    decreases n - i,
{
    if i < n {
        let s2 = SessionModel { null_count: (s.null_count - 1) as nat, ..s };
        assert(spec_next(s) == Ok::<(SessionModel, ValueModel), DecodeError>((s2, ValueModel::Null)));
        assert(no_later(s2, s));
        lemma_pending_nulls(s2, i + 1, n, acc.push(ValueModel::Null));
        assert(acc.push(ValueModel::Null) + nulls((n - (i + 1)) as nat) =~= acc + nulls((n - i) as nat));
    } else {
        assert(acc + nulls(0) =~= acc);
    }
}

/// A run of single null records decodes to as many nulls.
proof fn lemma_null_records(s: SessionModel, r: Seq<u8>, i: nat, n: nat, acc: Seq<ValueModel>)
    requires
        i <= n,
        s.null_count == 0,
        s.rest == repeat_byte(10, (n - i) as nat) + r,
    ensures
        spec_elems(s, i, n, acc) == Ok::<(SessionModel, Seq<ValueModel>), DecodeError>(
            (with_rest(s, r), acc + nulls((n - i) as nat)),
        ),
    decreases n - i,
{
    if i < n {
        lemma_first_byte(s.rest);
        assert(s.rest[0] == 10);
        let s2 = with_rest(s, s.rest.skip(1));
        assert(RecordType::spec_from_tag(10) == Some(RecordType::ObjectNull));
        assert(spec_next(s) == Ok::<(SessionModel, ValueModel), DecodeError>((s2, ValueModel::Null)));
        assert(s.rest.skip(1) =~= repeat_byte(10, (n - (i + 1)) as nat) + r);
        lemma_null_records(s2, r, i + 1, n, acc.push(ValueModel::Null));
        assert(acc.push(ValueModel::Null) + nulls((n - (i + 1)) as nat) =~= acc + nulls((n - i) as nat));
        assert(with_rest(s2, r) == with_rest(s, r));
    } else {
        assert(acc + nulls(0) =~= acc);
        assert(s.rest =~= r);
    }
}

/// Once a null-run record of count `k` has yielded its first null and left
/// `k - 1` pending, the next `k` values are the same as those of `k` single
/// null records.
proof fn lemma_run_like_singles(s: SessionModel, run: SessionModel, k: nat, r: Seq<u8>)
    requires
        s.null_count == 0,
        k >= 1,
        run.rest.len() > r.len(),
        run == with_rest(s, run.rest),
        spec_next(run) == Ok::<(SessionModel, ValueModel), DecodeError>(
            (SessionModel { rest: r, null_count: (k - 1) as nat, ..s }, ValueModel::Null),
        ),
    ensures
        spec_elems(run, 0, k, Seq::empty()) == Ok::<(SessionModel, Seq<ValueModel>), DecodeError>(
            (with_rest(s, r), nulls(k)),
        ),
        spec_elems(with_rest(s, repeat_byte(10, k) + r), 0, k, Seq::empty()) == Ok::<
            (SessionModel, Seq<ValueModel>),
            DecodeError,
        >((with_rest(s, r), nulls(k))),
{
    let s2 = SessionModel { rest: r, null_count: (k - 1) as nat, ..s };
    assert(no_later(s2, run));
    lemma_pending_nulls(s2, 1, k, seq![ValueModel::Null]);
    assert(Seq::<ValueModel>::empty().push(ValueModel::Null) == seq![ValueModel::Null]);
    assert(seq![ValueModel::Null] + nulls((k - 1) as nat) =~= nulls(k));
    assert(SessionModel { null_count: 0, ..s2 } == with_rest(s, r));
    lemma_null_records(with_rest(s, repeat_byte(10, k) + r), r, 0, k, Seq::empty());
    assert(Seq::<ValueModel>::empty() + nulls(k) =~= nulls(k));
}

/// A null-run record of count `k` decodes, over the next `k` values, to the
/// same nulls and the same session as `k` single null records do.
pub proof fn lemma_null_run(s: SessionModel, k: u8, r: Seq<u8>)
    requires
        s.null_count == 0,
        k >= 1,
    ensures
        spec_elems(with_rest(s, seq![13u8, k] + r), 0, k as nat, Seq::empty()) == Ok::<
            (SessionModel, Seq<ValueModel>),
            DecodeError,
        >((with_rest(s, r), nulls(k as nat))),
        spec_elems(with_rest(s, repeat_byte(10, k as nat) + r), 0, k as nat, Seq::empty()) == Ok::<
            (SessionModel, Seq<ValueModel>),
            DecodeError,
        >((with_rest(s, r), nulls(k as nat))),
{
    let run = with_rest(s, seq![13u8, k] + r);
    lemma_first_byte(run.rest);
    assert(RecordType::spec_from_tag(13) == Some(RecordType::ObjectNullMultiple256));
    let after_tag = run.rest.skip(1);
    assert(after_tag =~= seq![k] + r);
    lemma_first_byte(after_tag);
    assert(after_tag.skip(1) =~= r);
    let pending = SessionModel { rest: r, null_count: k as nat, ..s };
    let s2 = SessionModel { rest: r, null_count: (k - 1) as nat, ..s };
    assert(spec_next(pending) == Ok::<(SessionModel, ValueModel), DecodeError>((s2, ValueModel::Null)));
    assert(spec_next(run) == Ok::<(SessionModel, ValueModel), DecodeError>((s2, ValueModel::Null)));
    lemma_run_like_singles(s, run, k as nat, r);
}

/// A reference to an id that is not stored yet resolves as it would in the
/// session where the record that comes next had already been read; when
/// that record defines the id, this is the resolution of its value.
pub proof fn lemma_forward_reference(s: SessionModel, id: i32, fuel: nat)
    requires
        !s.values.contains_key(id),
        spec_next(s) is Ok,
        earlier(spec_next(s)->Ok_0.0, s),
    ensures
        spec_resolve(s, ValueModel::Reference(id), fuel) == spec_resolve(
            spec_next(s)->Ok_0.0,
            ValueModel::Reference(id),
            fuel,
        ),
        spec_next(s)->Ok_0.0.values.contains_key(id) && fuel > 0 ==> spec_resolve(
            s,
            ValueModel::Reference(id),
            fuel,
        ) == spec_resolve(
            spec_next(s)->Ok_0.0,
            spec_next(s)->Ok_0.0.values[id],
            (fuel - 1) as nat,
        ),
{
}

/// A record tag outside the known record kinds aborts decoding.
pub proof fn lemma_unknown_tag_fails(s: SessionModel, t: u8, r: Seq<u8>)
    requires
        s.null_count == 0,
        RecordType::spec_from_tag(t) is None,
    ensures
        spec_next(with_rest(s, seq![t] + r)) == Err::<(SessionModel, ValueModel), DecodeError>(
            DecodeError::UnknownRecordType(t),
        ),
{
    lemma_first_byte(seq![t] + r);
}

proof fn lemma_i32_front(x: Seq<u8>, rest: Seq<u8>)
    requires
        x.len() == 4,
    ensures
        spec_i32(x + rest) == Ok::<(i32, Seq<u8>), DecodeError>(
            (signed(le_nat(x), 4) as i32, rest),
        ),
{
    assert((x + rest).take(4) =~= x);
    assert((x + rest).skip(4) =~= rest);
}

/// The value of four bytes read as a little-endian `i32`.
pub open spec fn i32_of(x: Seq<u8>) -> i32 {
    signed(le_nat(x), 4) as i32
}

/// A stream header whose major version is not 1 aborts decoding.
pub proof fn lemma_wrong_major_fails(
    s: SessionModel,
    root: Seq<u8>,
    header: Seq<u8>,
    major: Seq<u8>,
    r: Seq<u8>,
)
    requires
        s.null_count == 0,
        root.len() == 4,
        header.len() == 4,
        major.len() == 4,
        i32_of(major) != 1,
    ensures
        spec_next(with_rest(s, seq![0u8] + root + header + major + r)) == Err::<
            (SessionModel, ValueModel),
            DecodeError,
        >(DecodeError::WrongMajorVersion(i32_of(major))),
{
    let b = seq![0u8] + root + header + major + r;
    lemma_first_byte(b);
    assert(b.skip(1) =~= root + (header + (major + r)));
    lemma_i32_front(root, header + (major + r));
    lemma_i32_front(header, major + r);
    lemma_i32_front(major, r);
}

/// A stream header whose minor version is not 0 aborts decoding.
pub proof fn lemma_wrong_minor_fails(
    s: SessionModel,
    root: Seq<u8>,
    header: Seq<u8>,
    major: Seq<u8>,
    minor: Seq<u8>,
    r: Seq<u8>,
)
    requires
        s.null_count == 0,
        root.len() == 4,
        header.len() == 4,
        major.len() == 4,
        minor.len() == 4,
        i32_of(major) == 1,
        i32_of(minor) != 0,
    ensures
        spec_next(with_rest(s, seq![0u8] + root + header + major + minor + r)) == Err::<
            (SessionModel, ValueModel),
            DecodeError,
        >(DecodeError::WrongMinorVersion(i32_of(minor))),
{
    let b = seq![0u8] + root + header + major + minor + r;
    lemma_first_byte(b);
    assert(b.skip(1) =~= root + (header + (major + (minor + r))));
    lemma_i32_front(root, header + (major + (minor + r)));
    lemma_i32_front(header, major + (minor + r));
    lemma_i32_front(major, minor + r);
    lemma_i32_front(minor, r);
}

/// A record that instantiates a class id no earlier record defined aborts
/// decoding.
pub proof fn lemma_unknown_class_fails(s: SessionModel, id: Seq<u8>, class_id: Seq<u8>, r: Seq<u8>)
    requires
        s.null_count == 0,
        id.len() == 4,
        class_id.len() == 4,
        !s.classes.contains_key(i32_of(class_id)),
    ensures
        spec_next(with_rest(s, seq![1u8] + id + class_id + r)) == Err::<
            (SessionModel, ValueModel),
            DecodeError,
        >(DecodeError::UnknownClass(i32_of(class_id))),
{
    let b = seq![1u8] + id + class_id + r;
    lemma_first_byte(b);
    assert(b.skip(1) =~= id + (class_id + r));
    lemma_i32_front(id, class_id + r);
    lemma_i32_front(class_id, r);
    assert(RecordType::spec_from_tag(1) == Some(RecordType::ClassWithId));
    let s1 = with_rest(s, b.skip(1));
    assert(spec_object(with_rest(s1, r), i32_of(class_id)) == Err::<
        (SessionModel, ValueModel),
        DecodeError,
    >(DecodeError::UnknownClass(i32_of(class_id))));
    assert(spec_record(s1, RecordType::ClassWithId) == Err::<
        (SessionModel, ValueModel),
        DecodeError,
    >(DecodeError::UnknownClass(i32_of(class_id))));
}

/// A failure in the first record read is the outcome of the whole decode.
pub proof fn lemma_first_record_error_aborts(b: Seq<u8>)
    requires
        spec_next(initial(b)) is Err,
    ensures
        spec_parse(b) == Err::<ValueModel, DecodeError>(spec_next(initial(b))->Err_0),
{
}

/// The same for the null-run record with a four-byte count.
pub proof fn lemma_wide_null_run(s: SessionModel, count: Seq<u8>, r: Seq<u8>)
    requires
        s.null_count == 0,
        count.len() == 4,
        i32_of(count) >= 1,
    ensures
        spec_elems(
            with_rest(s, seq![14u8] + count + r),
            0,
            i32_of(count) as nat,
            Seq::empty(),
        ) == Ok::<(SessionModel, Seq<ValueModel>), DecodeError>(
            (with_rest(s, r), nulls(i32_of(count) as nat)),
        ),
        spec_elems(
            with_rest(s, repeat_byte(10, i32_of(count) as nat) + r),
            0,
            i32_of(count) as nat,
            Seq::empty(),
        ) == Ok::<(SessionModel, Seq<ValueModel>), DecodeError>(
            (with_rest(s, r), nulls(i32_of(count) as nat)),
        ),
{
    let k = i32_of(count) as nat;
    let run = with_rest(s, seq![14u8] + count + r);
    lemma_first_byte(run.rest);
    assert(RecordType::spec_from_tag(14) == Some(RecordType::ObjectNullMultiple));
    let after_tag = run.rest.skip(1);
    assert(after_tag =~= count + r);
    lemma_i32_front(count, r);
    let pending = SessionModel { rest: r, null_count: k, ..s };
    let s2 = SessionModel { rest: r, null_count: (k - 1) as nat, ..s };
    assert(spec_next(pending) == Ok::<(SessionModel, ValueModel), DecodeError>((s2, ValueModel::Null)));
    assert(spec_next(run) == Ok::<(SessionModel, ValueModel), DecodeError>((s2, ValueModel::Null)));
    lemma_run_like_singles(s, run, k, r);
}

/// A value that holds no other value.
pub open spec fn is_leaf(v: ValueModel) -> bool {
    !(v is Object) && !(v is Array) && !(v is Reference) && !(v is Bottom)
}

/// The session after the next value has been decoded.
pub open spec fn after_next(s: SessionModel) -> SessionModel {
    spec_next(s)->Ok_0.0
}

/// The next value decodes, moves the session on, and leaves `id` stored
/// as `v`.
pub open spec fn next_stores(s: SessionModel, id: i32, v: ValueModel) -> bool {
    &&& spec_next(s) is Ok
    &&& earlier(after_next(s), s)
    &&& after_next(s).values.contains_key(id)
    &&& after_next(s).values[id] == v
}

/// An object `a` whose field refers to `b`, and `b` holding a value with no
/// references: whether the record defining `b` comes after the one
/// defining `a` (session `s`) or before it (session `t`), resolving `a`
/// gives the object with the field linked to `b`'s value.
pub proof fn lemma_forward_reference_order(
    s: SessionModel,
    t: SessionModel,
    a: i32,
    b: i32,
    name: Seq<char>,
    field: Seq<char>,
    w: ValueModel,
    fuel: nat,
)
    requires
        a != b,
        fuel >= 2,
        is_leaf(w),
        !s.values.contains_key(a),
        !s.values.contains_key(b),
        !t.values.contains_key(a),
        !t.values.contains_key(b),
        next_stores(s, a, ValueModel::Object(name, seq![(field, ValueModel::Reference(b))])),
        !after_next(s).values.contains_key(b),
        next_stores(after_next(s), b, w),
        next_stores(t, b, w),
        !after_next(t).values.contains_key(a),
        next_stores(after_next(t), a, ValueModel::Object(name, seq![(field, ValueModel::Reference(b))])),
        after_next(after_next(t)).values.contains_key(b),
        after_next(after_next(t)).values[b] == w,
    ensures
        spec_resolve(s, ValueModel::Reference(a), fuel) is Ok,
        spec_resolve(t, ValueModel::Reference(a), fuel) is Ok,
        spec_resolve(s, ValueModel::Reference(a), fuel)->Ok_0.1 == ValueModel::Object(
            name,
            seq![(field, w)],
        ),
        spec_resolve(t, ValueModel::Reference(a), fuel)->Ok_0.1 == ValueModel::Object(
            name,
            seq![(field, w)],
        ),
{
    let obj = ValueModel::Object(name, seq![(field, ValueModel::Reference(b))]);
    let fs = seq![(field, ValueModel::Reference(b))];
    let linked = seq![(field, w)];
    assert(Seq::<(Seq<char>, ValueModel)>::empty().push((field, w)) == linked);
    // b defined after a
    let s2 = after_next(s);
    let s3 = after_next(s2);
    assert(spec_resolve(s3, w, (fuel - 1) as nat) == Ok::<(SessionModel, ValueModel), DecodeError>((s3, w)));
    assert(spec_resolve(s3, ValueModel::Reference(b), (fuel - 1) as nat) == spec_resolve(s3, w, (fuel - 2) as nat));
    assert(spec_resolve(s3, w, (fuel - 2) as nat) == Ok::<(SessionModel, ValueModel), DecodeError>((s3, w)));
    assert(spec_resolve(s2, ValueModel::Reference(b), (fuel - 1) as nat) == Ok::<(SessionModel, ValueModel), DecodeError>((s3, w)));
    assert(no_later(s3, s2));
    assert(spec_resolve_fields(s3, fs, 1, linked, (fuel - 1) as nat) == Ok::<(SessionModel, Seq<(Seq<char>, ValueModel)>), DecodeError>((s3, linked)));
    assert(spec_resolve_fields(s2, fs, 0, Seq::empty(), (fuel - 1) as nat) == Ok::<(SessionModel, Seq<(Seq<char>, ValueModel)>), DecodeError>((s3, linked)));
    assert(spec_resolve(s2, obj, (fuel - 1) as nat) == Ok::<(SessionModel, ValueModel), DecodeError>((s3, ValueModel::Object(name, linked))));
    assert(spec_resolve(s2, ValueModel::Reference(a), fuel) == spec_resolve(s2, obj, (fuel - 1) as nat));
    // b defined before a
    let t2 = after_next(t);
    let t3 = after_next(t2);
    assert(spec_resolve(t3, w, (fuel - 2) as nat) == Ok::<(SessionModel, ValueModel), DecodeError>((t3, w)));
    assert(spec_resolve(t3, ValueModel::Reference(b), (fuel - 1) as nat) == spec_resolve(t3, w, (fuel - 2) as nat));
    assert(spec_resolve_fields(t3, fs, 1, linked, (fuel - 1) as nat) == Ok::<(SessionModel, Seq<(Seq<char>, ValueModel)>), DecodeError>((t3, linked)));
    assert(no_later(t3, t3));
    assert(spec_resolve_fields(t3, fs, 0, Seq::empty(), (fuel - 1) as nat) == Ok::<(SessionModel, Seq<(Seq<char>, ValueModel)>), DecodeError>((t3, linked)));
    assert(spec_resolve(t3, obj, (fuel - 1) as nat) == Ok::<(SessionModel, ValueModel), DecodeError>((t3, ValueModel::Object(name, linked))));
    assert(spec_resolve(t3, ValueModel::Reference(a), fuel) == spec_resolve(t3, obj, (fuel - 1) as nat));
    assert(spec_resolve(t2, ValueModel::Reference(a), fuel) == spec_resolve(t3, ValueModel::Reference(a), fuel));
}

/// A tree that decoding gives holds no reference and no control record's
/// empty value, at any depth.
pub proof fn lemma_decoded_tree_is_resolved(b: Seq<u8>, r: Result<Value, DecodeError>)
    requires
        parse_outcome(b, r),
        r is Ok,
    ensures
        is_resolved(r->Ok_0.model()),
{
}

} // verus!
