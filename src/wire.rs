//! Protocol-buffer wire format: varints, fixed-width integers and
//! length-delimited fields, with a field-list parser proved to invert
//! the serialiser.
use vstd::prelude::*;

verus! {

/// A field value as it stands on the wire, by wire type.
pub enum WireVal {
    Varint(u64),
    Fixed64(u64),
    Len(Seq<u8>),
    Fixed32(u32),
}

/// A field: its number and its value.
pub struct FieldV {
    pub num: u64,
    pub val: WireVal,
}

/// Executable counterpart of `WireVal`.
pub enum Wire {
    Varint(u64),
    Fixed64(u64),
    Len(Vec<u8>),
    Fixed32(u32),
}

/// Executable counterpart of `FieldV`.
pub struct Field {
    pub num: u64,
    pub val: Wire,
}

impl View for Wire {
    type V = WireVal;

    open spec fn view(&self) -> WireVal {
        match self {
            Wire::Varint(v) => WireVal::Varint(*v),
            Wire::Fixed64(v) => WireVal::Fixed64(*v),
            Wire::Len(b) => WireVal::Len(b@),
            Wire::Fixed32(v) => WireVal::Fixed32(*v),
        }
    }
}

impl View for Field {
    type V = FieldV;

    open spec fn view(&self) -> FieldV {
        FieldV { num: self.num, val: self.val@ }
    }
}

/// Largest field number plus one.
pub const FIELD_NUM_LIMIT: u64 = 0x2000_0000;

pub open spec fn valid_num(n: u64) -> bool {
    1 <= n < FIELD_NUM_LIMIT
}

/// Base-128 little-endian encoding of a natural number.
pub open spec fn varint_bytes(v: nat) -> Seq<u8>
    decreases v,
{
    if v < 128 {
        seq![v as u8]
    } else {
        seq![(v % 128 + 128) as u8] + varint_bytes(v / 128)
    }
}

pub open spec fn le32(v: u32) -> Seq<u8> {
    seq![(v & 0xff) as u8, ((v >> 8u32) & 0xff) as u8, ((v >> 16u32) & 0xff) as u8, ((v >> 24u32) & 0xff) as u8]
}

pub open spec fn le64(v: u64) -> Seq<u8> {
    seq![
        (v & 0xff) as u8,
        ((v >> 8u64) & 0xff) as u8,
        ((v >> 16u64) & 0xff) as u8,
        ((v >> 24u64) & 0xff) as u8,
        ((v >> 32u64) & 0xff) as u8,
        ((v >> 40u64) & 0xff) as u8,
        ((v >> 48u64) & 0xff) as u8,
        ((v >> 56u64) & 0xff) as u8,
    ]
}

pub open spec fn wire_type(w: WireVal) -> nat {
    match w {
        WireVal::Varint(_) => 0,
        WireVal::Fixed64(_) => 1,
        WireVal::Len(_) => 2,
        WireVal::Fixed32(_) => 5,
    }
}

pub open spec fn payload_bytes(w: WireVal) -> Seq<u8> {
    match w {
        WireVal::Varint(v) => varint_bytes(v as nat),
        WireVal::Fixed64(v) => le64(v),
        WireVal::Len(b) => varint_bytes(b.len()) + b,
        WireVal::Fixed32(v) => le32(v),
    }
}

/// The bytes of one field: its tag, then its payload.
pub open spec fn field_bytes(f: FieldV) -> Seq<u8> {
    varint_bytes((f.num * 8 + wire_type(f.val)) as nat) + payload_bytes(f.val)
}

/// The bytes of a list of fields, in order.
pub open spec fn fields_bytes(fs: Seq<FieldV>) -> Seq<u8>
    decreases fs.len(),
{
    if fs.len() == 0 {
        seq![]
    } else {
        field_bytes(fs[0]) + fields_bytes(fs.drop_first())
    }
}

/// Reads a varint from position `i` on, with `acc` read so far at weight `scale`.
pub open spec fn varint_step(b: Seq<u8>, i: int, acc: nat, scale: nat) -> Option<(nat, int)>
    decreases b.len() - i,
{
    if i < 0 || i >= b.len() {
        None
    } else if b[i] < 128 {
        Some(((acc + b[i] * scale) as nat, i + 1))
    } else {
        varint_step(b, i + 1, acc + (b[i] - 128) as nat * scale, scale * 128)
    }
}

/// A varint at `pos` of at most ten bytes whose value fits in 64 bits,
/// and the position after it.
pub open spec fn varint_at(b: Seq<u8>, pos: int) -> Option<(u64, int)> {
    match varint_step(b, pos, 0, 1) {
        Some((v, end)) => if end - pos <= 10 && v < 0x1_0000_0000_0000_0000 {
            Some((v as u64, end))
        } else {
            None
        },
        None => None,
    }
}

pub open spec fn le32_at(b: Seq<u8>, p: int) -> u32 {
    (b[p] as u32) | ((b[p + 1] as u32) << 8u32) | ((b[p + 2] as u32) << 16u32) | ((b[p + 3] as u32) << 24u32)
}

pub open spec fn le64_at(b: Seq<u8>, p: int) -> u64 {
    (b[p] as u64) | ((b[p + 1] as u64) << 8u64) | ((b[p + 2] as u64) << 16u64) | ((b[p + 3] as u64) << 24u64)
        | ((b[p + 4] as u64) << 32u64) | ((b[p + 5] as u64) << 40u64) | ((b[p + 6] as u64) << 48u64)
        | ((b[p + 7] as u64) << 56u64)
}

/// The field that starts at `pos`, and the position after it.
pub open spec fn field_at(b: Seq<u8>, pos: int) -> Option<(FieldV, int)> {
    match varint_at(b, pos) {
        None => None,
        Some((tag, p)) => {
            let num = tag / 8;
            let wt = tag % 8;
            if !valid_num(num) {
                None
            } else if wt == 0 {
                match varint_at(b, p) {
                    Some((v, e)) => Some((FieldV { num, val: WireVal::Varint(v) }, e)),
                    None => None,
                }
            } else if wt == 1 {
                if p + 8 <= b.len() {
                    Some((FieldV { num, val: WireVal::Fixed64(le64_at(b, p)) }, p + 8))
                } else {
                    None
                }
            } else if wt == 2 {
                match varint_at(b, p) {
                    Some((n, q)) => if q + n <= b.len() {
                        Some((FieldV { num, val: WireVal::Len(b.subrange(q, q + n)) }, q + n))
                    } else {
                        None
                    },
                    None => None,
                }
            } else if wt == 5 {
                if p + 4 <= b.len() {
                    Some((FieldV { num, val: WireVal::Fixed32(le32_at(b, p)) }, p + 4))
                } else {
                    None
                }
            } else {
                None
            }
        },
    }
}

/// The fields from `pos` to the end of `b`, if they all parse.
pub open spec fn fields_from(b: Seq<u8>, pos: int) -> Option<Seq<FieldV>>
    decreases b.len() - pos,
{
    if pos < 0 || pos > b.len() {
        None
    } else if pos == b.len() {
        Some(seq![])
    } else {
        match field_at(b, pos) {
            Some((f, e)) => if pos < e <= b.len() {
                match fields_from(b, e) {
                    Some(rest) => Some(seq![f] + rest),
                    None => None,
                }
            } else {
                None
            },
            None => None,
        }
    }
}

pub open spec fn parse_fields(b: Seq<u8>) -> Option<Seq<FieldV>> {
    fields_from(b, 0)
}

/// A field that the serialiser can write: a valid number, and a payload
/// whose length fits in 64 bits.
pub open spec fn field_ok(f: FieldV) -> bool {
    &&& valid_num(f.num)
    &&& match f.val {
        WireVal::Len(d) => d.len() < 0x1_0000_0000_0000_0000,
        _ => true,
    }
}

pub open spec fn fields_ok(fs: Seq<FieldV>) -> bool {
    forall|i: int| 0 <= i < fs.len() ==> field_ok(#[trigger] fs[i])
}

// ---------------------------------------------------------------- encoding

/// Appends the varint encoding of `v`.
pub fn put_varint(out: &mut Vec<u8>, v: u64)
    ensures
        final(out)@ == old(out)@ + varint_bytes(v as nat),
{
    let mut x: u64 = v;
    while x >= 128
        invariant
            out@ + varint_bytes(x as nat) == old(out)@ + varint_bytes(v as nat),
        decreases x,
    {
        let ghost before = out@;
        out.push((x % 128 + 128) as u8);
        assert(varint_bytes(x as nat) == seq![(x % 128 + 128) as u8] + varint_bytes((x / 128) as nat));
        assert(out@ + varint_bytes((x / 128) as nat) =~= before + varint_bytes(x as nat));
        x = x / 128;
    }
    let ghost before = out@;
    out.push(x as u8);
    assert(out@ =~= before + varint_bytes(x as nat));
}

pub fn put_fixed32(out: &mut Vec<u8>, v: u32)
    ensures
        final(out)@ == old(out)@ + le32(v),
{
    let ghost before = out@;
    out.push((v & 0xff) as u8);
    out.push(((v >> 8u32) & 0xff) as u8);
    out.push(((v >> 16u32) & 0xff) as u8);
    out.push(((v >> 24u32) & 0xff) as u8);
    assert(out@ =~= before + le32(v));
}

pub fn put_fixed64(out: &mut Vec<u8>, v: u64)
    ensures
        final(out)@ == old(out)@ + le64(v),
{
    let ghost before = out@;
    out.push((v & 0xff) as u8);
    out.push(((v >> 8u64) & 0xff) as u8);
    out.push(((v >> 16u64) & 0xff) as u8);
    out.push(((v >> 24u64) & 0xff) as u8);
    out.push(((v >> 32u64) & 0xff) as u8);
    out.push(((v >> 40u64) & 0xff) as u8);
    out.push(((v >> 48u64) & 0xff) as u8);
    out.push(((v >> 56u64) & 0xff) as u8);
    assert(out@ =~= before + le64(v));
}

pub fn put_bytes(out: &mut Vec<u8>, b: &[u8])
    ensures
        final(out)@ == old(out)@ + b@,
{
    let mut i: usize = 0;
    while i < b.len()
        invariant
            i <= b@.len(),
            out@ == old(out)@ + b@.subrange(0, i as int),
        decreases b@.len() - i,
    {
        out.push(b[i]);
        i = i + 1;
        assert(out@ =~= old(out)@ + b@.subrange(0, i as int));
    }
    assert(b@.subrange(0, i as int) =~= b@);
}

/// Appends one field.
pub fn put_field(out: &mut Vec<u8>, f: &Field)
    requires
        valid_num(f.num),
    ensures
        final(out)@ == old(out)@ + field_bytes(f@),
{
    let tag: u64 = match &f.val {
        Wire::Varint(_) => f.num * 8,
        Wire::Fixed64(_) => f.num * 8 + 1,
        Wire::Len(_) => f.num * 8 + 2,
        Wire::Fixed32(_) => f.num * 8 + 5,
    };
    put_varint(out, tag);
    match &f.val {
        Wire::Varint(v) => put_varint(out, *v),
        Wire::Fixed64(v) => put_fixed64(out, *v),
        Wire::Len(b) => {
            put_varint(out, b.len() as u64);
            put_bytes(out, b.as_slice());
        },
        Wire::Fixed32(v) => put_fixed32(out, *v),
    }
    assert(out@ =~= old(out)@ + field_bytes(f@));
}

proof fn lemma_fields_bytes_push(fs: Seq<FieldV>, f: FieldV)
    ensures
        fields_bytes(fs.push(f)) == fields_bytes(fs) + field_bytes(f),
    decreases fs.len(),
{
    if fs.len() == 0 {
        assert(fs.push(f).drop_first() =~= seq![]);
        assert(fields_bytes(fs.push(f).drop_first()) == Seq::<u8>::empty());
        assert(fields_bytes(fs) == Seq::<u8>::empty());
        assert(fields_bytes(fs.push(f)) =~= field_bytes(f));
    } else {
        lemma_fields_bytes_push(fs.drop_first(), f);
        assert(fs.push(f).drop_first() =~= fs.drop_first().push(f));
        assert(fields_bytes(fs.push(f)) =~= fields_bytes(fs) + field_bytes(f));
    }
}

/// Serialises a list of fields.
pub fn serialize_fields(fs: &Vec<Field>) -> (r: Vec<u8>)
    requires
        forall|i: int| 0 <= i < fs@.len() ==> valid_num(#[trigger] fs@[i].num),
    ensures
        r@ == fields_bytes(fs@.map_values(|f: Field| f@)),
{
    let mut out: Vec<u8> = Vec::new();
    let mut i: usize = 0;
    while i < fs.len()
        invariant
            i <= fs@.len(),
            forall|j: int| 0 <= j < fs@.len() ==> valid_num(#[trigger] fs@[j].num),
            out@ == fields_bytes(fs@.map_values(|f: Field| f@).take(i as int)),
        decreases fs@.len() - i,
    {
        put_field(&mut out, &fs[i]);
        proof {
            let m = fs@.map_values(|f: Field| f@);
            lemma_fields_bytes_push(m.take(i as int), m[i as int]);
            assert(m.take(i as int).push(m[i as int]) =~= m.take(i + 1));
        }
        i = i + 1;
    }
    assert(fs@.map_values(|f: Field| f@).take(i as int) =~= fs@.map_values(|f: Field| f@));
    out
}


// ---------------------------------------------------------------- decoding

pub open spec fn pow128(k: nat) -> nat
    decreases k,
{
    if k == 0 {
        1
    } else {
        128 * pow128((k - 1) as nat)
    }
}

proof fn lemma_varint_step_end(b: Seq<u8>, i: int, acc: nat, scale: nat)
    ensures
        varint_step(b, i, acc, scale) matches Some((_v, e)) ==> i < e <= b.len(),
    decreases b.len() - i,
{
    if 0 <= i < b.len() && b[i] >= 128 {
        lemma_varint_step_end(b, i + 1, (acc + (b[i] - 128) as nat * scale) as nat, scale * 128);
    }
}

proof fn lemma_pow128_mono(j: nat, k: nat)
    requires
        j <= k,
    ensures
        pow128(j) <= pow128(k),
    decreases k,
{
    if j < k {
        lemma_pow128_mono(j, (k - 1) as nat);
    }
}

fn read_varint(b: &[u8], pos: usize) -> (r: Option<(u64, usize)>)
    requires
        pos <= b@.len(),
    ensures
        match varint_at(b@, pos as int) {
            Some((v, e)) => r matches Some((v2, e2)) && v2 == v && e2 as int == e,
            None => r is None,
        },
{
    let mut i: usize = pos;
    let mut k: usize = 0;
    let mut acc: u128 = 0;
    let mut scale: u128 = 1;
    while i < b.len() && k < 10
        invariant
            pos <= i <= b@.len(),
            i == pos + k,
            k <= 10,
            scale == pow128(k as nat),
            acc < scale,
            varint_step(b@, pos as int, 0, 1) == varint_step(b@, i as int, acc as nat, scale as nat),
        decreases 10 - k,
    {
        proof {
            lemma_pow128_mono(k as nat, 9);
            reveal_with_fuel(pow128, 10);
        }
        let byte = b[i];
        if byte < 128 {
            assert(acc + byte * scale < 128 * scale) by (nonlinear_arith)
                requires acc < scale, byte < 128;
            let v: u128 = acc + (byte as u128) * scale;
            if v < 0x1_0000_0000_0000_0000 {
                return Some((v as u64, i + 1));
            } else {
                return None;
            }
        }
        assert(acc + (byte - 128) * scale < 128 * scale) by (nonlinear_arith)
            requires acc < scale, byte < 256, byte >= 128;
        acc = acc + ((byte - 128) as u128) * scale;
        scale = scale * 128;
        i = i + 1;
        k = k + 1;
    }
    proof {
        lemma_varint_step_end(b@, i as int, acc as nat, scale as nat);
    }
    None
}

fn read_le32(b: &[u8], p: usize) -> (r: u32)
    requires
        p + 4 <= b@.len(),
    ensures
        r == le32_at(b@, p as int),
{
    (b[p] as u32) | ((b[p + 1] as u32) << 8u32) | ((b[p + 2] as u32) << 16u32) | ((b[p + 3] as u32) << 24u32)
}

fn read_le64(b: &[u8], p: usize) -> (r: u64)
    requires
        p + 8 <= b@.len(),
    ensures
        r == le64_at(b@, p as int),
{
    (b[p] as u64) | ((b[p + 1] as u64) << 8u64) | ((b[p + 2] as u64) << 16u64) | ((b[p + 3] as u64) << 24u64)
        | ((b[p + 4] as u64) << 32u64) | ((b[p + 5] as u64) << 40u64) | ((b[p + 6] as u64) << 48u64)
        | ((b[p + 7] as u64) << 56u64)
}

proof fn lemma_field_at_end(b: Seq<u8>, pos: int)
    ensures
        field_at(b, pos) matches Some((_f, e)) ==> pos < e <= b.len(),
{
    lemma_varint_step_end(b, pos, 0, 1);
    if let Some((tag, p)) = varint_at(b, pos) {
        lemma_varint_step_end(b, p, 0, 1);
    }
}

fn read_field(b: &[u8], pos: usize) -> (r: Option<(Field, usize)>)
    requires
        pos <= b@.len(),
    ensures
        match field_at(b@, pos as int) {
            Some((f, e)) => r matches Some((g, e2)) && g@ == f && e2 == e,
            None => r is None,
        },
{
    proof {
        lemma_field_at_end(b@, pos as int);
        lemma_varint_step_end(b@, pos as int, 0, 1);
    }
    let (tag, p) = match read_varint(b, pos) {
        Some(x) => x,
        None => return None,
    };
    let num = tag / 8;
    let wt = tag % 8;
    if num < 1 || num >= FIELD_NUM_LIMIT {
        return None;
    }
    proof {
        lemma_varint_step_end(b@, p as int, 0, 1);
    }
    if wt == 0 {
        match read_varint(b, p) {
            Some((v, e)) => Some((Field { num, val: Wire::Varint(v) }, e)),
            None => None,
        }
    } else if wt == 1 {
        if p <= b.len() && b.len() - p >= 8 {
            Some((Field { num, val: Wire::Fixed64(read_le64(b, p)) }, p + 8))
        } else {
            None
        }
    } else if wt == 2 {
        proof {
            lemma_varint_step_end(b@, p as int, 0, 1);
        }
        match read_varint(b, p) {
            Some((n, q)) => if n <= (b.len() - q) as u64 {
                let e = q + n as usize;
                let bytes = vstd::slice::slice_to_vec(vstd::slice::slice_subrange(b, q, e));
                Some((Field { num, val: Wire::Len(bytes) }, e))
            } else {
                None
            },
            None => None,
        }
    } else if wt == 5 {
        if p <= b.len() && b.len() - p >= 4 {
            Some((Field { num, val: Wire::Fixed32(read_le32(b, p)) }, p + 4))
        } else {
            None
        }
    } else {
        None
    }
}

/// Parses a whole buffer into its list of fields.
pub fn parse_fields_exec(b: &[u8]) -> (r: Option<Vec<Field>>)
    ensures
        match parse_fields(b@) {
            Some(fs) => r matches Some(v) && v@.map_values(|f: Field| f@) == fs,
            None => r is None,
        },
{
    let mut acc: Vec<Field> = Vec::new();
    let mut pos: usize = 0;
    while pos < b.len()
        invariant
            pos <= b@.len(),
            fields_from(b@, 0) == (match fields_from(b@, pos as int) {
                Some(rest) => Some(acc@.map_values(|f: Field| f@) + rest),
                None => None,
            }),
        decreases b@.len() - pos,
    {
        proof {
            lemma_field_at_end(b@, pos as int);
        }
        match read_field(b, pos) {
            Some((f, e)) => {
                let ghost fv = f@;
                let ghost old_acc = acc@.map_values(|f: Field| f@);
                acc.push(f);
                proof {
                    assert(acc@.map_values(|f: Field| f@) =~= old_acc.push(fv));
                    if let Some(rest) = fields_from(b@, e as int) {
                        assert(old_acc.push(fv) + rest =~= old_acc + (seq![fv] + rest));
                    }
                }
                pos = e;
            },
            None => {
                return None;
            },
        }
    }
    assert(acc@.map_values(|f: Field| f@) + Seq::<FieldV>::empty() =~= acc@.map_values(|f: Field| f@));
    Some(acc)
}


// ---------------------------------------------------------------- round trip

proof fn lemma_varint_step_bytes(b: Seq<u8>, i: int, v: nat, acc: nat, scale: nat)
    requires
        0 <= i,
        i + varint_bytes(v).len() <= b.len(),
        b.subrange(i, i + varint_bytes(v).len()) == varint_bytes(v),
    ensures
        varint_step(b, i, acc, scale) == Some(((acc + v * scale) as nat, i + varint_bytes(v).len())),
    decreases v,
{
    let n = varint_bytes(v).len() as int;
    assert(b[i] == b.subrange(i, i + n)[0]);
    if v >= 128 {
        let r = varint_bytes(v / 128);
        assert(varint_bytes(v) == seq![(v % 128 + 128) as u8] + r);
        assert(b.subrange(i + 1, i + 1 + r.len()) =~= b.subrange(i, i + n).subrange(1, n));
        assert(b.subrange(i, i + n).subrange(1, n) =~= r);
        let acc2 = (acc + (v % 128) * scale) as nat;
        lemma_varint_step_bytes(b, i + 1, v / 128, acc2, scale * 128);
        assert(acc2 + (v / 128) * (scale * 128) == acc + v * scale) by (nonlinear_arith)
            requires acc2 == acc + (v % 128) * scale, v == (v / 128) * 128 + v % 128;
    }
}

proof fn lemma_varint_len(v: nat, k: nat)
    requires
        k >= 1,
        v < pow128(k),
    ensures
        varint_bytes(v).len() <= k,
    decreases k,
{
    if v >= 128 {
        if k == 1 {
            assert(pow128(1) == 128 * pow128(0));
        } else {
            let p = pow128((k - 1) as nat);
            assert(v / 128 < p) by (nonlinear_arith)
                requires v < 128 * p;
            lemma_varint_len(v / 128, (k - 1) as nat);
        }
    }
}

proof fn lemma_varint_len_u64(v: u64)
    ensures
        1 <= varint_bytes(v as nat).len() <= 10,
{
    reveal_with_fuel(pow128, 11);
    assert(pow128(10) == 0x40_0000_0000_0000_0000nat);
    lemma_varint_len(v as nat, 10);
}

proof fn lemma_varint_at(b: Seq<u8>, i: int, v: u64)
    requires
        0 <= i,
        i + varint_bytes(v as nat).len() <= b.len(),
        b.subrange(i, i + varint_bytes(v as nat).len()) == varint_bytes(v as nat),
    ensures
        varint_at(b, i) == Some((v, i + varint_bytes(v as nat).len())),
{
    lemma_varint_step_bytes(b, i, v as nat, 0, 1);
    lemma_varint_len_u64(v);
}

proof fn lemma_le32(b: Seq<u8>, p: int, v: u32)
    requires
        0 <= p,
        p + 4 <= b.len(),
        b.subrange(p, p + 4) == le32(v),
    ensures
        le32_at(b, p) == v,
{
    let s = b.subrange(p, p + 4);
    assert(b[p] == s[0] && b[p + 1] == s[1] && b[p + 2] == s[2] && b[p + 3] == s[3]);
    let b0 = b[p];
    let b1 = b[p + 1];
    let b2 = b[p + 2];
    let b3 = b[p + 3];
    assert(b0 == (v & 0xff) as u8 && b1 == ((v >> 8u32) & 0xff) as u8 && b2 == ((v >> 16u32) & 0xff) as u8 && b3 == ((v >> 24u32) & 0xff) as u8);
    assert((b0 as u32) | ((b1 as u32) << 8u32) | ((b2 as u32) << 16u32) | ((b3 as u32) << 24u32) == v) by (bit_vector)
        requires
            b0 == (v & 0xff) as u8,
            b1 == ((v >> 8u32) & 0xff) as u8,
            b2 == ((v >> 16u32) & 0xff) as u8,
            b3 == ((v >> 24u32) & 0xff) as u8,
    ;
}

proof fn lemma_le64(b: Seq<u8>, p: int, v: u64)
    requires
        0 <= p,
        p + 8 <= b.len(),
        b.subrange(p, p + 8) == le64(v),
    ensures
        le64_at(b, p) == v,
{
    let s = b.subrange(p, p + 8);
    assert(b[p] == s[0] && b[p + 1] == s[1] && b[p + 2] == s[2] && b[p + 3] == s[3]);
    assert(b[p + 4] == s[4] && b[p + 5] == s[5] && b[p + 6] == s[6] && b[p + 7] == s[7]);
    let b0 = b[p];
    let b1 = b[p + 1];
    let b2 = b[p + 2];
    let b3 = b[p + 3];
    let b4 = b[p + 4];
    let b5 = b[p + 5];
    let b6 = b[p + 6];
    let b7 = b[p + 7];
    assert((b0 as u64) | ((b1 as u64) << 8u64) | ((b2 as u64) << 16u64) | ((b3 as u64) << 24u64)
        | ((b4 as u64) << 32u64) | ((b5 as u64) << 40u64) | ((b6 as u64) << 48u64)
        | ((b7 as u64) << 56u64) == v) by (bit_vector)
        requires
            b0 == (v & 0xff) as u8,
            b1 == ((v >> 8u64) & 0xff) as u8,
            b2 == ((v >> 16u64) & 0xff) as u8,
            b3 == ((v >> 24u64) & 0xff) as u8,
            b4 == ((v >> 32u64) & 0xff) as u8,
            b5 == ((v >> 40u64) & 0xff) as u8,
            b6 == ((v >> 48u64) & 0xff) as u8,
            b7 == ((v >> 56u64) & 0xff) as u8,
    ;
}

proof fn lemma_field_at(b: Seq<u8>, i: int, f: FieldV)
    requires
        field_ok(f),
        0 <= i,
        i + field_bytes(f).len() <= b.len(),
        b.subrange(i, i + field_bytes(f).len()) == field_bytes(f),
    ensures
        field_at(b, i) == Some((f, i + field_bytes(f).len())),
{
    let tag = (f.num * 8 + wire_type(f.val)) as u64;
    let t = varint_bytes(tag as nat);
    let pl = payload_bytes(f.val);
    let n = field_bytes(f).len() as int;
    let whole = b.subrange(i, i + n);
    assert(field_bytes(f) == t + pl);
    assert(b.subrange(i, i + t.len()) =~= whole.subrange(0, t.len() as int));
    assert(whole.subrange(0, t.len() as int) =~= t);
    lemma_varint_at(b, i, tag);
    let p = i + t.len();
    assert(tag / 8 == f.num && tag % 8 == wire_type(f.val));
    assert(b.subrange(p, p + pl.len()) =~= whole.subrange(t.len() as int, n));
    assert(whole.subrange(t.len() as int, n) =~= pl);
    match f.val {
        WireVal::Varint(v) => {
            lemma_varint_at(b, p, v);
        },
        WireVal::Fixed64(v) => {
            lemma_le64(b, p, v);
        },
        WireVal::Len(d) => {
            let lb = varint_bytes(d.len());
            assert(b.subrange(p, p + lb.len()) =~= pl.subrange(0, lb.len() as int));
            assert(pl.subrange(0, lb.len() as int) =~= lb);
            lemma_varint_at(b, p, d.len() as u64);
            let q = p + lb.len();
            assert(b.subrange(q, q + d.len()) =~= pl.subrange(lb.len() as int, pl.len() as int));
            assert(pl.subrange(lb.len() as int, pl.len() as int) =~= d);
            assert(varint_at(b, i) == Some((tag, p)));
            assert(varint_at(b, p) == Some((d.len() as u64, q)));
            assert((d.len() as u64) as int == d.len());
            assert(q + d.len() == i + n);
        },
        WireVal::Fixed32(v) => {
            lemma_le32(b, p, v);
        },
    }
}


proof fn lemma_fields_from(b: Seq<u8>, i: int, fs: Seq<FieldV>)
    requires
        fields_ok(fs),
        0 <= i <= b.len(),
        b.subrange(i, b.len() as int) == fields_bytes(fs),
    ensures
        fields_from(b, i) == Some(fs),
    decreases fs.len(),
{
    if fs.len() == 0 {
        assert(b.subrange(i, b.len() as int).len() == 0);
    } else {
        let f = fs[0];
        let fb = field_bytes(f);
        let rest = fs.drop_first();
        let whole = b.subrange(i, b.len() as int);
        assert(whole == fb + fields_bytes(rest));
        assert(b.subrange(i, i + fb.len()) =~= whole.subrange(0, fb.len() as int));
        assert(whole.subrange(0, fb.len() as int) =~= fb);
        assert(field_ok(fs[0]));
        lemma_field_at(b, i, f);
        lemma_varint_len_u64((f.num * 8 + wire_type(f.val)) as u64);
        let e = i + fb.len();
        assert(b.subrange(e, b.len() as int) =~= whole.subrange(fb.len() as int, whole.len() as int));
        assert(whole.subrange(fb.len() as int, whole.len() as int) =~= fields_bytes(rest));
        assert forall|k: int| 0 <= k < rest.len() implies field_ok(#[trigger] rest[k]) by {
            assert(rest[k] == fs[k + 1]);
        }
        lemma_fields_from(b, e, rest);
        assert(seq![f] + rest =~= fs);
    }
}

/// Parsing the serialisation of a list of well-formed fields gives the list back.
pub proof fn lemma_parse_serialize(fs: Seq<FieldV>)
    requires
        fields_ok(fs),
    ensures
        parse_fields(fields_bytes(fs)) == Some(fs),
{
    let b = fields_bytes(fs);
    assert(b.subrange(0, b.len() as int) =~= b);
    lemma_fields_from(b, 0, fs);
}


proof fn lemma_payload_le(fs: Seq<FieldV>, i: int)
    requires
        0 <= i < fs.len(),
    ensures
        fs[i].val matches WireVal::Len(d) ==> d.len() <= fields_bytes(fs).len(),
    decreases fs.len(),
{
    if i == 0 {
        assert(fields_bytes(fs) == field_bytes(fs[0]) + fields_bytes(fs.drop_first()));
    } else {
        lemma_payload_le(fs.drop_first(), i - 1);
        assert(fs.drop_first()[i - 1] == fs[i]);
    }
}

/// Fields with valid numbers whose serialisation fits in 64 bits are all
/// well-formed.
pub proof fn lemma_fields_ok(fs: Seq<FieldV>)
    requires
        forall|i: int| 0 <= i < fs.len() ==> valid_num(#[trigger] fs[i].num),
        fields_bytes(fs).len() < 0x1_0000_0000_0000_0000,
    ensures
        fields_ok(fs),
{
    assert forall|i: int| 0 <= i < fs.len() implies field_ok(#[trigger] fs[i]) by {
        lemma_payload_le(fs, i);
    }
}

/// A length-delimited payload of a field in a list is no longer than the
/// serialisation of the list.
pub proof fn lemma_payload_within(fs: Seq<FieldV>, i: int)
    requires
        0 <= i < fs.len(),
    ensures
        fs[i].val matches WireVal::Len(d) ==> d.len() <= fields_bytes(fs).len(),
{
    lemma_payload_le(fs, i);
}

} // verus!
