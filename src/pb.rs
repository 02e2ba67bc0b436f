//! Typed access to field lists: strings, scalars, nested messages and
//! repeated fields, as they are laid out by the record and message codecs.
use vstd::prelude::*;
use vstd::utf8::*;
use crate::wire::{
    fields_bytes, lemma_fields_ok, lemma_parse_serialize, lemma_payload_within, parse_fields,
    parse_fields_exec, serialize_fields, valid_num, Field, FieldV, Wire, WireVal,
};

verus! {

broadcast use {encode_utf8_valid_utf8, encode_utf8_decode_utf8};

/// Every field number is valid.
pub open spec fn nums_ok(fs: Seq<FieldV>) -> bool {
    forall|i: int| 0 <= i < fs.len() ==> valid_num(#[trigger] fs[i].num)
}

pub open spec fn fview(fs: Seq<Field>) -> Seq<FieldV> {
    fs.map_values(|f: Field| f@)
}

/// The characters that a UTF-8 byte string holds, if it is valid.
pub open spec fn str_of(b: Seq<u8>) -> Option<Seq<char>> {
    if valid_utf8(b) {
        Some(decode_utf8(b))
    } else {
        None
    }
}

pub open spec fn len_f(n: u64, b: Seq<u8>) -> FieldV {
    FieldV { num: n, val: WireVal::Len(b) }
}

pub open spec fn str_bytes_spec(s: Seq<char>) -> Seq<u8> {
    encode_utf8(s)
}

pub open spec fn str_f(n: u64, s: Seq<char>) -> FieldV {
    len_f(n, encode_utf8(s))
}

pub open spec fn varint_f(n: u64, v: u64) -> FieldV {
    FieldV { num: n, val: WireVal::Varint(v) }
}

pub open spec fn fixed32_f(n: u64, v: u32) -> FieldV {
    FieldV { num: n, val: WireVal::Fixed32(v) }
}

/// The payload of the last length-delimited field numbered `n`.
pub open spec fn last_len(fs: Seq<FieldV>, n: u64) -> Option<Seq<u8>>
    decreases fs.len(),
{
    if fs.len() == 0 {
        None
    } else if fs.last().num == n && fs.last().val is Len {
        Some(fs.last().val->Len_0)
    } else {
        last_len(fs.drop_last(), n)
    }
}

/// The value of the last varint field numbered `n`.
pub open spec fn last_varint(fs: Seq<FieldV>, n: u64) -> Option<u64>
    decreases fs.len(),
{
    if fs.len() == 0 {
        None
    } else if fs.last().num == n && fs.last().val is Varint {
        Some(fs.last().val->Varint_0)
    } else {
        last_varint(fs.drop_last(), n)
    }
}

/// The value of the last fixed 32-bit field numbered `n`.
pub open spec fn last_fixed32(fs: Seq<FieldV>, n: u64) -> Option<u32>
    decreases fs.len(),
{
    if fs.len() == 0 {
        None
    } else if fs.last().num == n && fs.last().val is Fixed32 {
        Some(fs.last().val->Fixed32_0)
    } else {
        last_fixed32(fs.drop_last(), n)
    }
}

/// The payloads of all length-delimited fields numbered `n`, in order.
pub open spec fn all_len(fs: Seq<FieldV>, n: u64) -> Seq<Seq<u8>>
    decreases fs.len(),
{
    if fs.len() == 0 {
        seq![]
    } else if fs.last().num == n && fs.last().val is Len {
        all_len(fs.drop_last(), n).push(fs.last().val->Len_0)
    } else {
        all_len(fs.drop_last(), n)
    }
}

/// A string field: absent means empty.
pub open spec fn opt_str(o: Option<Seq<u8>>) -> Option<Seq<char>> {
    match o {
        None => Some(Seq::empty()),
        Some(b) => str_of(b),
    }
}

pub open spec fn opt_bytes(o: Option<Seq<u8>>) -> Seq<u8> {
    match o {
        None => Seq::empty(),
        Some(b) => b,
    }
}

pub open spec fn opt_u64(o: Option<u64>) -> u64 {
    match o {
        None => 0,
        Some(v) => v,
    }
}

pub open spec fn opt_u32(o: Option<u32>) -> u32 {
    match o {
        None => 0,
        Some(v) => v,
    }
}

/// Decodes each payload with `f`; fails if any fails.
pub open spec fn dec_all<V>(s: Seq<Seq<u8>>, f: spec_fn(Seq<u8>) -> Option<V>) -> Option<Seq<V>>
    decreases s.len(),
{
    if s.len() == 0 {
        Some(seq![])
    } else {
        match dec_all(s.drop_last(), f) {
            Some(a) => match f(s.last()) {
                Some(v) => Some(a.push(v)),
                None => None,
            },
            None => None,
        }
    }
}

/// Decodes each payload as a UTF-8 string.
pub open spec fn strs_of(s: Seq<Seq<u8>>) -> Option<Seq<Seq<char>>> {
    dec_all(s, |b: Seq<u8>| str_of(b))
}

pub proof fn lemma_dec_all_map<V>(vs: Seq<V>, enc: spec_fn(V) -> Seq<u8>, f: spec_fn(Seq<u8>) -> Option<V>)
    requires
        forall|i: int| 0 <= i < vs.len() ==> f(enc(#[trigger] vs[i])) == Some(vs[i]),
    ensures
        dec_all(vs.map_values(enc), f) == Some(vs),
    decreases vs.len(),
{
    if vs.len() > 0 {
        let init = vs.drop_last();
        assert(vs.map_values(enc).drop_last() =~= init.map_values(enc));
        assert forall|i: int| 0 <= i < init.len() implies f(enc(#[trigger] init[i])) == Some(init[i]) by {
            assert(init[i] == vs[i]);
        }
        lemma_dec_all_map(init, enc, f);
        assert(f(enc(vs[vs.len() - 1])) == Some(vs.last()));
        assert(init.push(vs.last()) =~= vs);
    }
}

pub proof fn lemma_str_round(s: Seq<char>)
    ensures
        str_of(encode_utf8(s)) == Some(s),
{
}

/// Fields that do not carry number `n` leave the accessors for `n` unchanged.
pub proof fn lemma_skip(a: Seq<FieldV>, b: Seq<FieldV>, n: u64)
    requires
        forall|i: int| 0 <= i < b.len() ==> (#[trigger] b[i]).num != n,
    ensures
        last_len(a + b, n) == last_len(a, n),
        last_varint(a + b, n) == last_varint(a, n),
        last_fixed32(a + b, n) == last_fixed32(a, n),
        all_len(a + b, n) == all_len(a, n),
    decreases b.len(),
{
    if b.len() == 0 {
        assert(a + b =~= a);
    } else {
        let b2 = b.drop_last();
        assert((a + b).drop_last() =~= a + b2);
        assert((a + b).last() == b.last());
        assert(b.last() == b[b.len() - 1]);
        assert forall|i: int| 0 <= i < b2.len() implies (#[trigger] b2[i]).num != n by {
            assert(b2[i] == b[i]);
        }
        lemma_skip(a, b2, n);
    }
}

/// Length-delimited fields numbered `n` appended after `a` add their
/// payloads to the list for `n`.
pub proof fn lemma_all_len_map(a: Seq<FieldV>, vs: Seq<Seq<u8>>, n: u64)
    ensures
        all_len(a + vs.map_values(|p: Seq<u8>| len_f(n, p)), n) == all_len(a, n) + vs,
    decreases vs.len(),
{
    let m = vs.map_values(|p: Seq<u8>| len_f(n, p));
    if vs.len() == 0 {
        assert(a + m =~= a);
        assert(all_len(a, n) + vs =~= all_len(a, n));
    } else {
        let v2 = vs.drop_last();
        let m2 = v2.map_values(|p: Seq<u8>| len_f(n, p));
        assert((a + m).drop_last() =~= a + m2);
        assert((a + m).last() == len_f(n, vs.last()));
        lemma_all_len_map(a, v2, n);
        assert(all_len(a, n) + v2.push(vs.last()) =~= (all_len(a, n) + v2).push(vs.last()));
        assert(v2.push(vs.last()) =~= vs);
    }
}

/// The accessors for `n` read the field at `i` when no later field has
/// number `n`.
pub proof fn lemma_last_at(fs: Seq<FieldV>, i: int, n: u64)
    requires
        0 <= i < fs.len(),
        fs[i].num == n,
        forall|j: int| i < j < fs.len() ==> (#[trigger] fs[j]).num != n,
    ensures
        fs[i].val is Len ==> last_len(fs, n) == Some(fs[i].val->Len_0),
        fs[i].val is Varint ==> last_varint(fs, n) == Some(fs[i].val->Varint_0),
        fs[i].val is Fixed32 ==> last_fixed32(fs, n) == Some(fs[i].val->Fixed32_0),
    decreases fs.len(),
{
    if i < fs.len() - 1 {
        let d = fs.drop_last();
        assert forall|j: int| i < j < d.len() implies (#[trigger] d[j]).num != n by {
            assert(d[j] == fs[j]);
        }
        assert(fs.last() == fs[fs.len() - 1]);
        lemma_last_at(d, i, n);
    }
}

/// No field numbered `n`: the accessors for `n` find nothing.
pub proof fn lemma_absent(fs: Seq<FieldV>, n: u64)
    requires
        forall|j: int| 0 <= j < fs.len() ==> (#[trigger] fs[j]).num != n,
    ensures
        last_len(fs, n) is None,
        last_varint(fs, n) is None,
        last_fixed32(fs, n) is None,
        all_len(fs, n) == Seq::<Seq<u8>>::empty(),
{
    lemma_skip(Seq::empty(), fs, n);
    assert(Seq::<FieldV>::empty() + fs =~= fs);
}

/// The last length-delimited field whose number is one of `nums`.
pub open spec fn last_among(fs: Seq<FieldV>, nums: Seq<u64>) -> Option<FieldV>
    decreases fs.len(),
{
    if fs.len() == 0 {
        None
    } else if nums.contains(fs.last().num) && fs.last().val is Len {
        Some(fs.last())
    } else {
        last_among(fs.drop_last(), nums)
    }
}

// ---------------------------------------------------------------- messages

/// A message type with a field-list encoding.
pub trait Proto: Sized + View {
    /// The fields written for a value, in order.
    spec fn fields_of(v: Self::V) -> Seq<FieldV>;

    /// The value that a field list describes, if any.
    spec fn from_fields(fs: Seq<FieldV>) -> Option<Self::V>;

    fn to_fields(&self) -> (r: Vec<Field>)
        ensures
            fview(r@) == Self::fields_of(self@),
    ;

    fn from_field_list(fs: &Vec<Field>) -> (r: Option<Self>)
        ensures
            match Self::from_fields(fview(fs@)) {
                Some(v) => r matches Some(x) && x@ == v,
                None => r is None,
            },
    ;

    proof fn lemma_nums(v: Self::V)
        ensures
            nums_ok(Self::fields_of(v)),
    ;

    proof fn lemma_round(v: Self::V)
        requires
            fields_bytes(Self::fields_of(v)).len() < 0x1_0000_0000_0000_0000,
        ensures
            Self::from_fields(Self::fields_of(v)) == Some(v),
    ;
}

/// The wire form of a message.
pub open spec fn enc<T: Proto>(v: T::V) -> Seq<u8> {
    fields_bytes(T::fields_of(v))
}

/// The message that bytes decode to, if any.
pub open spec fn dec<T: Proto>(b: Seq<u8>) -> Option<T::V> {
    match parse_fields(b) {
        Some(fs) => T::from_fields(fs),
        None => None,
    }
}

pub fn encode_fields(fs: &Vec<Field>) -> (r: Vec<u8>)
    requires
        nums_ok(fview(fs@)),
    ensures
        r@ == fields_bytes(fview(fs@)),
{
    assert forall|i: int| 0 <= i < fs@.len() implies valid_num(#[trigger] fs@[i].num) by {
        assert(fview(fs@)[i] == fs@[i]@);
        assert(valid_num(fview(fs@)[i].num));
    }
    serialize_fields(fs)
}

pub fn encode_msg_of<T: Proto>(x: &T) -> (r: Vec<u8>)
    ensures
        r@ == enc::<T>(x@),
{
    let fs = x.to_fields();
    proof {
        T::lemma_nums(x@);
    }
    encode_fields(&fs)
}

pub fn decode_msg_of<T: Proto>(b: &[u8]) -> (r: Option<T>)
    ensures
        match dec::<T>(b@) {
            Some(v) => r matches Some(x) && x@ == v,
            None => r is None,
        },
{
    match parse_fields_exec(b) {
        Some(fs) => T::from_field_list(&fs),
        None => None,
    }
}

/// Decoding the encoding of a message gives it back, whenever the encoding
/// fits in memory.
pub proof fn lemma_enc_dec<T: Proto>(v: T::V)
    requires
        enc::<T>(v).len() < 0x1_0000_0000_0000_0000,
    ensures
        dec::<T>(enc::<T>(v)) == Some(v),
{
    T::lemma_nums(v);
    lemma_fields_ok(T::fields_of(v));
    lemma_parse_serialize(T::fields_of(v));
    T::lemma_round(v);
}

/// A field that holds the encoding of a nested message.
pub fn msg_field<T: Proto>(n: u64, x: &T) -> (f: Field)
    ensures
        f@ == len_f(n, enc::<T>(x@)),
{
    Field { num: n, val: Wire::Len(encode_msg_of(x)) }
}

/// An optional nested message numbered `n`: absent stays absent.
pub open spec fn opt_msg<T: Proto>(fs: Seq<FieldV>, n: u64) -> Option<Option<T::V>> {
    match last_len(fs, n) {
        None => Some(None),
        Some(b) => match dec::<T>(b) {
            Some(v) => Some(Some(v)),
            None => None,
        },
    }
}

pub fn find_opt_msg<T: Proto>(fs: &Vec<Field>, n: u64) -> (r: Option<Option<T>>)
    ensures
        match opt_msg::<T>(fview(fs@), n) {
            Some(None) => r matches Some(None),
            Some(Some(v)) => r matches Some(Some(x)) && x@ == v,
            None => r is None,
        },
{
    match find_last_len(fs, n) {
        None => Some(None),
        Some(b) => match decode_msg_of::<T>(b.as_slice()) {
            Some(x) => Some(Some(x)),
            None => None,
        },
    }
}

/// A nested message numbered `n` that must decode; absent decodes as the
/// empty field list.
pub open spec fn req_msg<T: Proto>(fs: Seq<FieldV>, n: u64) -> Option<T::V> {
    dec::<T>(opt_bytes(last_len(fs, n)))
}

pub fn find_req_msg<T: Proto>(fs: &Vec<Field>, n: u64) -> (r: Option<T>)
    ensures
        match req_msg::<T>(fview(fs@), n) {
            Some(v) => r matches Some(x) && x@ == v,
            None => r is None,
        },
{
    match find_last_len(fs, n) {
        None => {
            let empty: Vec<u8> = Vec::new();
            decode_msg_of::<T>(empty.as_slice())
        },
        Some(b) => decode_msg_of::<T>(b.as_slice()),
    }
}

/// Repeated nested messages numbered `n`.
pub open spec fn child_fields<T: Proto>(n: u64, vs: Seq<T::V>) -> Seq<FieldV> {
    vs.map_values(|v: T::V| len_f(n, enc::<T>(v)))
}

pub open spec fn view_seq<T: View>(v: Seq<T>) -> Seq<T::V> {
    v.map_values(|x: T| x@)
}

pub fn push_children<T: Proto>(fs: &mut Vec<Field>, n: u64, items: &Vec<T>)
    ensures
        fview(final(fs)@) == fview(old(fs)@) + child_fields::<T>(n, view_seq(items@)),
{
    let mut i: usize = 0;
    while i < items.len()
        invariant
            i <= items@.len(),
            fview(fs@) == fview(old(fs)@) + child_fields::<T>(n, view_seq(items@).take(i as int)),
        decreases items@.len() - i,
    {
        let ghost before = fview(fs@);
        fs.push(msg_field(n, &items[i]));
        proof {
            let vs = view_seq(items@);
            assert(vs.take(i + 1) =~= vs.take(i as int).push(vs[i as int]));
            assert(child_fields::<T>(n, vs.take(i + 1)) =~= child_fields::<T>(n, vs.take(i as int)).push(
                len_f(n, enc::<T>(vs[i as int])),
            ));
            assert(fview(fs@) =~= before.push(len_f(n, enc::<T>(items@[i as int]@))));
            assert(fview(old(fs)@) + child_fields::<T>(n, vs.take(i + 1)) =~= before.push(
                len_f(n, enc::<T>(vs[i as int])),
            ));
        }
        i = i + 1;
    }
    assert(view_seq(items@).take(i as int) =~= view_seq(items@));
}

pub open spec fn all_msgs<T: Proto>(fs: Seq<FieldV>, n: u64) -> Option<Seq<T::V>> {
    dec_all(all_len(fs, n), |b: Seq<u8>| dec::<T>(b))
}

pub fn collect_children<T: Proto>(fs: &Vec<Field>, n: u64) -> (r: Option<Vec<T>>)
    ensures
        match all_msgs::<T>(fview(fs@), n) {
            Some(vs) => r matches Some(v) && view_seq(v@) == vs,
            None => r is None,
        },
{
    let mut out: Vec<T> = Vec::new();
    let mut i: usize = 0;
    let mut failed = false;
    while i < fs.len()
        invariant
            i <= fs@.len(),
            failed ==> all_msgs::<T>(fview(fs@).take(i as int), n) is None,
            !failed ==> all_msgs::<T>(fview(fs@).take(i as int), n) == Some(view_seq(out@)),
        decreases fs@.len() - i,
    {
        proof {
            assert(fview(fs@).take(i + 1).drop_last() =~= fview(fs@).take(i as int));
            assert(fview(fs@).take(i + 1).last() == fs@[i as int]@);
        }
        let f = &fs[i];
        if f.num == n {
            match &f.val {
                Wire::Len(b) => {
                    let ghost prev = all_len(fview(fs@).take(i as int), n);
                    proof {
                        assert(all_len(fview(fs@).take(i + 1), n) == prev.push(b@));
                        assert(prev.push(b@).drop_last() =~= prev);
                    }
                    if !failed {
                        match decode_msg_of::<T>(b.as_slice()) {
                            Some(x) => {
                                let ghost before = view_seq(out@);
                                out.push(x);
                                assert(view_seq(out@) =~= before.push(out@[out@.len() - 1]@));
                            },
                            None => {
                                failed = true;
                            },
                        }
                    }
                },
                _ => {},
            }
        }
        i = i + 1;
    }
    assert(fview(fs@).take(i as int) =~= fview(fs@));
    if failed {
        None
    } else {
        Some(out)
    }
}

/// Repeated nested messages written after fields without number `n` decode
/// back to the same list.
pub proof fn lemma_children_round<T: Proto>(pre: Seq<FieldV>, n: u64, vs: Seq<T::V>)
    requires
        forall|i: int| 0 <= i < pre.len() ==> (#[trigger] pre[i]).num != n,
        fields_bytes(pre + child_fields::<T>(n, vs)).len() < 0x1_0000_0000_0000_0000,
    ensures
        all_msgs::<T>(pre + child_fields::<T>(n, vs), n) == Some(vs),
{
    let all = pre + child_fields::<T>(n, vs);
    let encs = vs.map_values(|v: T::V| enc::<T>(v));
    assert(child_fields::<T>(n, vs) =~= encs.map_values(|p: Seq<u8>| len_f(n, p)));
    lemma_all_len_map(pre, encs, n);
    lemma_absent(pre, n);
    assert(Seq::<Seq<u8>>::empty() + encs =~= encs);
    assert forall|i: int| 0 <= i < vs.len() implies dec::<T>(enc::<T>(#[trigger] vs[i])) == Some(vs[i]) by {
        lemma_payload_within(all, pre.len() + i);
        assert(all[pre.len() + i] == len_f(n, enc::<T>(vs[i])));
        lemma_enc_dec::<T>(vs[i]);
    }
    lemma_dec_all_map(vs, |v: T::V| enc::<T>(v), |b: Seq<u8>| dec::<T>(b));
}

/// A nested message at position `i` that no later field overrides decodes
/// back to itself.
pub proof fn lemma_child_at<T: Proto>(fs: Seq<FieldV>, i: int, n: u64, v: T::V)
    requires
        0 <= i < fs.len(),
        fs[i] == len_f(n, enc::<T>(v)),
        forall|j: int| i < j < fs.len() ==> (#[trigger] fs[j]).num != n,
        fields_bytes(fs).len() < 0x1_0000_0000_0000_0000,
    ensures
        last_len(fs, n) == Some(enc::<T>(v)),
        dec::<T>(enc::<T>(v)) == Some(v),
        opt_msg::<T>(fs, n) == Some(Some(v)),
        req_msg::<T>(fs, n) == Some(v),
{
    lemma_last_at(fs, i, n);
    lemma_payload_within(fs, i);
    lemma_enc_dec::<T>(v);
}

/// The strings of a repeated string field, in order.
pub open spec fn str_fields(n: u64, ss: Seq<Seq<char>>) -> Seq<FieldV> {
    ss.map_values(|s: Seq<char>| str_f(n, s))
}

pub fn push_strings(fs: &mut Vec<Field>, n: u64, items: &Vec<String>)
    ensures
        fview(final(fs)@) == fview(old(fs)@) + str_fields(n, view_seq(items@)),
{
    let mut i: usize = 0;
    while i < items.len()
        invariant
            i <= items@.len(),
            fview(fs@) == fview(old(fs)@) + str_fields(n, view_seq(items@).take(i as int)),
        decreases items@.len() - i,
    {
        let ghost before = fview(fs@);
        fs.push(str_field(n, items[i].as_str()));
        proof {
            let vs = view_seq(items@);
            assert(vs.take(i + 1) =~= vs.take(i as int).push(vs[i as int]));
            assert(str_fields(n, vs.take(i + 1)) =~= str_fields(n, vs.take(i as int)).push(str_f(n, vs[i as int])));
            assert(fview(fs@) =~= before.push(str_f(n, items@[i as int]@)));
        }
        i = i + 1;
    }
    assert(view_seq(items@).take(i as int) =~= view_seq(items@));
}

pub proof fn lemma_strings_round(pre: Seq<FieldV>, n: u64, ss: Seq<Seq<char>>)
    requires
        forall|i: int| 0 <= i < pre.len() ==> (#[trigger] pre[i]).num != n,
    ensures
        strs_of(all_len(pre + str_fields(n, ss), n)) == Some(ss),
{
    let encs = ss.map_values(|s: Seq<char>| encode_utf8(s));
    assert(str_fields(n, ss) =~= encs.map_values(|p: Seq<u8>| len_f(n, p)));
    lemma_all_len_map(pre, encs, n);
    lemma_absent(pre, n);
    assert(Seq::<Seq<u8>>::empty() + encs =~= encs);
    lemma_dec_all_map(ss, |s: Seq<char>| encode_utf8(s), |b: Seq<u8>| str_of(b));
}

// ---------------------------------------------------------------- exec

/// Relies on String::from_utf8: it succeeds exactly on valid UTF-8 and then
/// holds the characters that the bytes encode.
#[verifier::external_body]
fn string_from_utf8(b: Vec<u8>) -> (r: Option<String>)
    ensures
        match r {
            Some(s) => valid_utf8(b@) && s@ == decode_utf8(b@),
            None => !valid_utf8(b@),
        },
{
    match String::from_utf8(b) {
        Ok(s) => Some(s),
        Err(_) => None,
    }
}

pub fn copy_bytes(b: &[u8]) -> (r: Vec<u8>)
    ensures
        r@ == b@,
{
    vstd::slice::slice_to_vec(b)
}

/// The UTF-8 bytes of a string.
pub fn str_bytes(s: &str) -> (r: Vec<u8>)
    ensures
        r@ == encode_utf8(s@),
{
    vstd::slice::slice_to_vec(s.as_bytes())
}

pub fn str_field(n: u64, s: &str) -> (f: Field)
    ensures
        f@ == str_f(n, s@),
{
    Field { num: n, val: Wire::Len(str_bytes(s)) }
}

pub fn bytes_field(n: u64, b: &[u8]) -> (f: Field)
    ensures
        f@ == len_f(n, b@),
{
    Field { num: n, val: Wire::Len(copy_bytes(b)) }
}

pub fn varint_field(n: u64, v: u64) -> (f: Field)
    ensures
        f@ == varint_f(n, v),
{
    Field { num: n, val: Wire::Varint(v) }
}

pub fn fixed32_field(n: u64, v: u32) -> (f: Field)
    ensures
        f@ == fixed32_f(n, v),
{
    Field { num: n, val: Wire::Fixed32(v) }
}

/// A string from its UTF-8 bytes, if valid.
pub fn string_of(b: &[u8]) -> (r: Option<String>)
    ensures
        match str_of(b@) {
            Some(s) => r matches Some(x) && x@ == s,
            None => r is None,
        },
{
    string_from_utf8(copy_bytes(b))
}

/// A string field's value: absent means empty.
pub fn opt_string(o: Option<&Vec<u8>>) -> (r: Option<String>)
    ensures
        match opt_str(
            match o {
                Some(b) => Some(b@),
                None => None,
            },
        ) {
            Some(s) => r matches Some(x) && x@ == s,
            None => r is None,
        },
{
    match o {
        Some(b) => string_of(b.as_slice()),
        None => Some(String::new()),
    }
}

pub fn find_last_len(fs: &Vec<Field>, n: u64) -> (r: Option<&Vec<u8>>)
    ensures
        match last_len(fview(fs@), n) {
            Some(b) => r matches Some(x) && x@ == b,
            None => r is None,
        },
{
    let mut j: usize = fs.len();
    assert(fview(fs@).take(fs@.len() as int) =~= fview(fs@));
    while j > 0
        invariant
            j <= fs@.len(),
            last_len(fview(fs@), n) == last_len(fview(fs@).take(j as int), n),
        decreases j,
    {
        proof {
            assert(fview(fs@).take(j as int).drop_last() =~= fview(fs@).take(j - 1));
            assert(fview(fs@).take(j as int).last() == fs@[j - 1]@);
        }
        let f = &fs[j - 1];
        if f.num == n {
            match &f.val {
                Wire::Len(b) => {
                    return Some(b);
                },
                _ => {},
            }
        }
        j = j - 1;
    }
    assert(fview(fs@).take(0) =~= Seq::<FieldV>::empty());
    None
}

pub fn find_last_varint(fs: &Vec<Field>, n: u64) -> (r: Option<u64>)
    ensures
        r == last_varint(fview(fs@), n),
{
    let mut j: usize = fs.len();
    assert(fview(fs@).take(fs@.len() as int) =~= fview(fs@));
    while j > 0
        invariant
            j <= fs@.len(),
            last_varint(fview(fs@), n) == last_varint(fview(fs@).take(j as int), n),
        decreases j,
    {
        proof {
            assert(fview(fs@).take(j as int).drop_last() =~= fview(fs@).take(j - 1));
            assert(fview(fs@).take(j as int).last() == fs@[j - 1]@);
        }
        let f = &fs[j - 1];
        if f.num == n {
            match &f.val {
                Wire::Varint(v) => {
                    return Some(*v);
                },
                _ => {},
            }
        }
        j = j - 1;
    }
    assert(fview(fs@).take(0) =~= Seq::<FieldV>::empty());
    None
}

pub fn find_last_fixed32(fs: &Vec<Field>, n: u64) -> (r: Option<u32>)
    ensures
        r == last_fixed32(fview(fs@), n),
{
    let mut j: usize = fs.len();
    assert(fview(fs@).take(fs@.len() as int) =~= fview(fs@));
    while j > 0
        invariant
            j <= fs@.len(),
            last_fixed32(fview(fs@), n) == last_fixed32(fview(fs@).take(j as int), n),
        decreases j,
    {
        proof {
            assert(fview(fs@).take(j as int).drop_last() =~= fview(fs@).take(j - 1));
            assert(fview(fs@).take(j as int).last() == fs@[j - 1]@);
        }
        let f = &fs[j - 1];
        if f.num == n {
            match &f.val {
                Wire::Fixed32(v) => {
                    return Some(*v);
                },
                _ => {},
            }
        }
        j = j - 1;
    }
    assert(fview(fs@).take(0) =~= Seq::<FieldV>::empty());
    None
}

/// All string fields numbered `n`, in order, if all are valid UTF-8.
pub fn collect_strings(fs: &Vec<Field>, n: u64) -> (r: Option<Vec<String>>)
    ensures
        match strs_of(all_len(fview(fs@), n)) {
            Some(ss) => r matches Some(v) && v@.map_values(|s: String| s@) == ss,
            None => r is None,
        },
{
    let mut out: Vec<String> = Vec::new();
    let mut i: usize = 0;
    while i < fs.len()
        invariant
            i <= fs@.len(),
            strs_of(all_len(fview(fs@).take(i as int), n)) == Some(out@.map_values(|s: String| s@)),
        decreases fs@.len() - i,
    {
        proof {
            assert(fview(fs@).take(i + 1).drop_last() =~= fview(fs@).take(i as int));
            assert(fview(fs@).take(i + 1).last() == fs@[i as int]@);
        }
        let f = &fs[i];
        if f.num == n {
            match &f.val {
                Wire::Len(b) => {
                    match string_of(b.as_slice()) {
                        Some(s) => {
                            let ghost before = out@.map_values(|s: String| s@);
                            proof {
                                let prev = all_len(fview(fs@).take(i as int), n);
                                assert(all_len(fview(fs@).take(i + 1), n) == prev.push(b@));
                                assert(prev.push(b@).drop_last() =~= prev);
                            }
                            out.push(s);
                            assert(out@.map_values(|s: String| s@) =~= before.push(s@));
                        },
                        None => {
                            proof {
                                let prev = all_len(fview(fs@).take(i as int), n);
                                assert(all_len(fview(fs@).take(i + 1), n) == prev.push(b@));
                                assert(prev.push(b@).drop_last() =~= prev);
                                lemma_dec_all_none(all_len(fview(fs@), n), fview(fs@), (i + 1) as int, n);
                            }
                            return None;
                        },
                    }
                },
                _ => {},
            }
        }
        i = i + 1;
    }
    assert(fview(fs@).take(i as int) =~= fview(fs@));
    Some(out)
}

/// All length-delimited fields numbered `n`, in order.
pub fn collect_bytes(fs: &Vec<Field>, n: u64) -> (r: Vec<Vec<u8>>)
    ensures
        r@.map_values(|b: Vec<u8>| b@) == all_len(fview(fs@), n),
{
    let mut out: Vec<Vec<u8>> = Vec::new();
    let mut i: usize = 0;
    while i < fs.len()
        invariant
            i <= fs@.len(),
            all_len(fview(fs@).take(i as int), n) == out@.map_values(|b: Vec<u8>| b@),
        decreases fs@.len() - i,
    {
        proof {
            assert(fview(fs@).take(i + 1).drop_last() =~= fview(fs@).take(i as int));
            assert(fview(fs@).take(i + 1).last() == fs@[i as int]@);
        }
        let f = &fs[i];
        if f.num == n {
            match &f.val {
                Wire::Len(b) => {
                    let ghost before = out@.map_values(|b: Vec<u8>| b@);
                    out.push(copy_bytes(b.as_slice()));
                    assert(out@.map_values(|b: Vec<u8>| b@) =~= before.push(b@));
                },
                _ => {},
            }
        }
        i = i + 1;
    }
    assert(fview(fs@).take(i as int) =~= fview(fs@));
    out
}

proof fn lemma_all_len_take(fs: Seq<FieldV>, k: int, n: u64)
    requires
        0 <= k <= fs.len(),
    ensures
        all_len(fs, n).len() >= all_len(fs.take(k), n).len(),
        all_len(fs.take(k), n) == all_len(fs, n).take(all_len(fs.take(k), n).len() as int),
    decreases fs.len() - k,
{
    if k < fs.len() {
        lemma_all_len_take(fs, k + 1, n);
        assert(fs.take(k + 1).drop_last() =~= fs.take(k));
    } else {
        assert(fs.take(k) =~= fs);
        assert(all_len(fs, n).take(all_len(fs, n).len() as int) =~= all_len(fs, n));
    }
}

proof fn lemma_dec_all_prefix_none<V>(s: Seq<Seq<u8>>, k: int, f: spec_fn(Seq<u8>) -> Option<V>)
    requires
        0 <= k <= s.len(),
        dec_all(s.take(k), f) is None,
    ensures
        dec_all(s, f) is None,
    decreases s.len() - k,
{
    if k < s.len() {
        assert(s.take(k + 1).drop_last() =~= s.take(k));
        lemma_dec_all_prefix_none(s, k + 1, f);
    } else {
        assert(s.take(k) =~= s);
    }
}

proof fn lemma_dec_all_none(all: Seq<Seq<u8>>, fs: Seq<FieldV>, k: int, n: u64)
    requires
        all == all_len(fs, n),
        0 <= k <= fs.len(),
        strs_of(all_len(fs.take(k), n)) is None,
    ensures
        strs_of(all) is None,
{
    lemma_all_len_take(fs, k, n);
    lemma_dec_all_prefix_none(all, all_len(fs.take(k), n).len() as int, |b: Seq<u8>| str_of(b));
}

} // verus!
