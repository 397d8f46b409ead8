//! The compact binary framing: a message is a sequence of fields, each a
//! key (`tag * 8 + wire type`) followed by either a varint (wire type 0) or a
//! length-prefixed byte string (wire type 2). Varints are LEB128: seven bits
//! per byte, least significant group first, the high bit set on every byte
//! but the last.
use vstd::prelude::*;

verus! {

/// The largest field tag.
pub const MAX_TAG: u32 = 0x1FFF_FFFF;

/// The value of a field.
#[derive(Clone, Debug, PartialEq, Eq)]
pub enum WireValue {
    Varint(u64),
    Bytes(Vec<u8>),
}

/// One field of a message.
#[derive(Clone, Debug, PartialEq, Eq)]
pub struct WireField {
    pub tag: u32,
    pub value: WireValue,
}

/// What a field's value stands for.
pub enum WireData {
    Varint(u64),
    Bytes(Seq<u8>),
}

impl View for WireField {
    type V = (u32, WireData);

    open spec fn view(&self) -> (u32, WireData) {
        (
            self.tag,
            match self.value {
                WireValue::Varint(v) => WireData::Varint(v),
                WireValue::Bytes(b) => WireData::Bytes(b@),
            },
        )
    }
}

/// The fields of a message, as values.
pub open spec fn fields_view(fs: Seq<WireField>) -> Seq<(u32, WireData)> {
    fs.map_values(|f: WireField| f@)
}

/// Why a byte string is not a message.
#[derive(Clone, Copy, PartialEq, Eq, Structural, Debug)]
pub enum WireError {
    /// A varint runs past the end, past ten bytes, or past 64 bits.
    BadVarint,
    /// A key with tag 0, a tag above `MAX_TAG`, or a wire type other than 0 and 2.
    BadKey,
    /// A byte string runs past the end of the input.
    Truncated,
}

// ---------------------------------------------------------------------------
// Encoding.
// ---------------------------------------------------------------------------

/// The LEB128 encoding of `v`.
pub open spec fn varint_bytes(v: u64) -> Seq<u8>
    decreases v,
{
    if v < 128 {
        seq![v as u8]
    } else {
        seq![(v % 128 + 128) as u8] + varint_bytes(v / 128)
    }
}

/// A field's key: its tag and its wire type.
pub open spec fn key_of(tag: u32, wire_type: u64) -> u64 {
    (tag * 8 + wire_type) as u64
}

/// A field's encoding.
pub open spec fn field_bytes(f: (u32, WireData)) -> Seq<u8> {
    match f.1 {
        WireData::Varint(v) => varint_bytes(key_of(f.0, 0)) + varint_bytes(v),
        WireData::Bytes(b) => varint_bytes(key_of(f.0, 2)) + varint_bytes(b.len() as u64) + b,
    }
}

/// A message's encoding: its fields' encodings in order.
pub open spec fn message_bytes(fs: Seq<(u32, WireData)>) -> Seq<u8>
    decreases fs.len(),
{
    if fs.len() == 0 {
        Seq::empty()
    } else {
        field_bytes(fs[0]) + message_bytes(fs.drop_first())
    }
}

/// A field can be encoded: a tag in `1..=MAX_TAG` and a byte string whose
/// length fits in a varint.
pub open spec fn field_ok(f: (u32, WireData)) -> bool {
    &&& 1 <= f.0 <= MAX_TAG
    &&& f.1 matches WireData::Bytes(b) ==> b.len() < 0x1_0000_0000_0000_0000
}

/// Every tag lies in `1..=MAX_TAG`.
pub open spec fn tags_ok(fs: Seq<(u32, WireData)>) -> bool {
    forall|i: int| 0 <= i < fs.len() ==> 1 <= (#[trigger] fs[i]).0 <= MAX_TAG
}

/// Every field of the message can be encoded.
pub open spec fn fields_ok(fs: Seq<(u32, WireData)>) -> bool {
    forall|i: int| 0 <= i < fs.len() ==> field_ok(#[trigger] fs[i])
}

/// Relies on prost::encoding::encode_varint: appends the LEB128 encoding of
/// `value` to the buffer.
#[verifier::external_body]
fn put_varint(value: u64, buf: &mut Vec<u8>)
    ensures
        final(buf)@ == old(buf)@ + varint_bytes(value),
{
    prost::encoding::encode_varint(value, buf)
}

fn put_bytes(b: &Vec<u8>, buf: &mut Vec<u8>)
    ensures
        final(buf)@ == old(buf)@ + b@,
{
    let ghost start = buf@;
    let mut i: usize = 0;
    while i < b.len()
        invariant
            i <= b@.len(),
            buf@ == start + b@.subrange(0, i as int),
        decreases b@.len() - i,
    {
        buf.push(b[i]);
        i += 1;
        assert(buf@ =~= start + b@.subrange(0, i as int));
    }
    assert(b@.subrange(0, b@.len() as int) =~= b@);
}

proof fn lemma_message_bytes_push(fs: Seq<(u32, WireData)>, f: (u32, WireData))
    ensures
        message_bytes(fs.push(f)) == message_bytes(fs) + field_bytes(f),
    decreases fs.len(),
{
    if fs.len() == 0 {
        assert(fs.push(f).drop_first() =~= Seq::<(u32, WireData)>::empty());
        assert(message_bytes(fs.push(f).drop_first()) == Seq::<u8>::empty());
        assert(message_bytes(fs.push(f)) =~= field_bytes(f));
    } else {
        lemma_message_bytes_push(fs.drop_first(), f);
        assert(fs.push(f).drop_first() =~= fs.drop_first().push(f));
        assert(message_bytes(fs.push(f)) =~= message_bytes(fs) + field_bytes(f));
    }
}

/// Encodes a message.
pub fn encode_message(fields: &Vec<WireField>) -> (r: Vec<u8>)
    requires
        tags_ok(fields_view(fields@)),
    ensures
        r@ == message_bytes(fields_view(fields@)),
{
    let mut buf: Vec<u8> = Vec::new();
    let mut i: usize = 0;
    while i < fields.len()
        invariant
            i <= fields@.len(),
            tags_ok(fields_view(fields@)),
            buf@ == message_bytes(fields_view(fields@.subrange(0, i as int))),
        decreases fields@.len() - i,
    {
        let f = &fields[i];
        assert(1 <= fields_view(fields@)[i as int].0 <= MAX_TAG);
        match &f.value {
            WireValue::Varint(v) => {
                put_varint(f.tag as u64 * 8, &mut buf);
                put_varint(*v, &mut buf);
            },
            WireValue::Bytes(b) => {
                put_varint(f.tag as u64 * 8 + 2, &mut buf);
                put_varint(b.len() as u64, &mut buf);
                put_bytes(b, &mut buf);
            },
        }
        proof {
            lemma_message_bytes_push(fields_view(fields@.subrange(0, i as int)), f@);
            assert(fields_view(fields@.subrange(0, i + 1)) =~= fields_view(
                fields@.subrange(0, i as int),
            ).push(f@));
        }
        i += 1;
    }
    assert(fields@.subrange(0, fields@.len() as int) =~= fields@);
    buf
}

// ---------------------------------------------------------------------------
// Decoding.
// ---------------------------------------------------------------------------

/// The position just past the varint that starts at `a`, scanning from `i`:
/// the first byte without its high bit, within ten bytes of `a` and within
/// the input.
pub open spec fn varint_end(s: Seq<u8>, a: int, i: int) -> Option<int>
    decreases a + 10 - i,
{
    if i < a || i >= s.len() || i >= a + 10 {
        None
    } else if s[i] < 128 {
        Some(i + 1)
    } else {
        varint_end(s, a, i + 1)
    }
}

/// The number that the seven-bit groups of `s[a..e]` spell.
pub open spec fn groups_value(s: Seq<u8>, a: int, e: int) -> nat
    decreases e - a,
{
    if a >= e {
        0
    } else {
        (s[a] % 128) as nat + 128 * groups_value(s, a + 1, e)
    }
}

/// The varint at `a`, with the position after it, if there is one there
/// and its value fits in 64 bits.
pub open spec fn parse_varint(s: Seq<u8>, a: int) -> Option<(u64, int)> {
    match varint_end(s, a, a) {
        Some(e) => if groups_value(s, a, e) < 0x1_0000_0000_0000_0000 {
            Some((groups_value(s, a, e) as u64, e))
        } else {
            None
        },
        None => None,
    }
}

/// The field at `a`, with the position after it.
pub open spec fn parse_field(s: Seq<u8>, a: int) -> Option<((u32, WireData), int)> {
    match parse_varint(s, a) {
        None => None,
        Some((key, e1)) => if key / 8 < 1 || key / 8 > MAX_TAG as u64 {
            None
        } else if key % 8 == 0 {
            match parse_varint(s, e1) {
                None => None,
                Some((v, e2)) => Some((((key / 8) as u32, WireData::Varint(v)), e2)),
            }
        } else if key % 8 == 2 {
            match parse_varint(s, e1) {
                None => None,
                Some((n, e2)) => if e2 + n > s.len() {
                    None
                } else {
                    Some((((key / 8) as u32, WireData::Bytes(s.subrange(e2, e2 + n))), e2 + n))
                },
            }
        } else {
            None
        },
    }
}

/// The fields from `a` to the end of the input.
pub open spec fn parse_message(s: Seq<u8>, a: int) -> Option<Seq<(u32, WireData)>>
    decreases s.len() - a,
{
    if a >= s.len() {
        Some(Seq::empty())
    } else {
        match parse_field(s, a) {
            None => None,
            Some((f, e)) => if e <= a || e > s.len() {
                None
            } else {
                match parse_message(s, e) {
                    None => None,
                    Some(rest) => Some(seq![f] + rest),
                }
            },
        }
    }
}

proof fn lemma_varint_end_after(s: Seq<u8>, a: int, i: int)
    requires
        varint_end(s, a, i) is Some,
    ensures
        i < varint_end(s, a, i)->Some_0 <= s.len(),
    decreases a + 10 - i,
{
    if s[i] >= 128 {
        lemma_varint_end_after(s, a, i + 1);
    }
}

proof fn lemma_groups_value_grows(s: Seq<u8>, a: int, b: int, e: int)
    requires
        a <= b <= e,
    ensures
        groups_value(s, a, e) >= groups_value(s, b, e),
    decreases b - a,
{
    if a < b {
        lemma_groups_value_grows(s, a + 1, b, e);
    }
}

/// Reads the varint at `pos`.
fn read_varint(s: &[u8], pos: usize) -> (r: Result<(u64, usize), WireError>)
    ensures
        match parse_varint(s@, pos as int) {
            Some((v, e)) => r == Ok::<(u64, usize), WireError>((v, e as usize)),
            None => r == Err::<(u64, usize), WireError>(WireError::BadVarint),
        },
{
    let mut i: usize = pos;
    loop
        invariant
            pos <= i,
            i <= pos + 10,
            varint_end(s@, pos as int, pos as int) == varint_end(s@, pos as int, i as int),
        ensures
            pos <= i < s@.len(),
            i < pos + 10,
            s@[i as int] < 128,
            varint_end(s@, pos as int, pos as int) == varint_end(s@, pos as int, i as int),
        decreases pos + 10 - i,
    {
        if i >= s.len() || i - pos >= 10 {
            return Err(WireError::BadVarint);
        }
        if s[i] < 128 {
            break;
        }
        i += 1;
    }
    let len = s.len();
    let end = i + 1;
    assert(varint_end(s@, pos as int, pos as int) == Some(end as int));
    let mut v: u64 = 0;
    let mut k: usize = end;
    while k > pos
        invariant
            pos <= k <= end,
            end <= s@.len(),
            varint_end(s@, pos as int, pos as int) == Some(end as int),
            v as nat == groups_value(s@, k as int, end as int),
        decreases k,
    {
        k -= 1;
        let low = (s[k] % 128) as u64;
        assert(groups_value(s@, k as int, end as int) == (s@[k as int] % 128) as nat + 128
            * groups_value(s@, k + 1, end as int));
        match v.checked_mul(128) {
            Some(shifted) => match shifted.checked_add(low) {
                Some(next) => {
                    v = next;
                },
                None => {
                    proof {
                        lemma_groups_value_grows(s@, pos as int, k as int, end as int);
                    }
                    return Err(WireError::BadVarint);
                },
            },
            None => {
                proof {
                    assert(v as int * 128 > u64::MAX);
                    assert(groups_value(s@, k as int, end as int) >= 0x1_0000_0000_0000_0000);
                    lemma_groups_value_grows(s@, pos as int, k as int, end as int);
                }
                return Err(WireError::BadVarint);
            },
        }
    }
    Ok((v, end))
}

/// Reads the field at `pos`.
fn read_field(s: &[u8], pos: usize) -> (r: Result<(WireField, usize), WireError>)
    ensures
        match parse_field(s@, pos as int) {
            Some((f, e)) => r is Ok && r->Ok_0.0@ == f && r->Ok_0.1 == e,
            None => r is Err,
        },
{
    let len = s.len();
    let (key, e1) = read_varint(s, pos)?;
    proof {
        lemma_varint_end_after(s@, pos as int, pos as int);
    }
    let tag = key / 8;
    if tag < 1 || tag > MAX_TAG as u64 {
        return Err(WireError::BadKey);
    }
    if key % 8 == 0 {
        let (v, e2) = read_varint(s, e1)?;
        proof {
            lemma_varint_end_after(s@, e1 as int, e1 as int);
        }
        Ok((WireField { tag: tag as u32, value: WireValue::Varint(v) }, e2))
    } else if key % 8 == 2 {
        let (n, e2) = read_varint(s, e1)?;
        proof {
            lemma_varint_end_after(s@, e1 as int, e1 as int);
        }
        if n > (s.len() - e2) as u64 {
            return Err(WireError::Truncated);
        }
        let stop = e2 + n as usize;
        let mut b: Vec<u8> = Vec::new();
        let mut i: usize = e2;
        while i < stop
            invariant
                e2 <= i <= stop,
                stop <= s@.len(),
                b@ == s@.subrange(e2 as int, i as int),
            decreases stop - i,
        {
            b.push(s[i]);
            i += 1;
            assert(b@ =~= s@.subrange(e2 as int, i as int));
        }
        Ok((WireField { tag: tag as u32, value: WireValue::Bytes(b) }, stop))
    } else {
        Err(WireError::BadKey)
    }
}

/// Decodes a message.
pub fn decode_message(s: &[u8]) -> (r: Result<Vec<WireField>, WireError>)
    ensures
        match parse_message(s@, 0) {
            Some(fs) => r is Ok && fields_view(r->Ok_0@) == fs,
            None => r is Err,
        },
{
    let mut fields: Vec<WireField> = Vec::new();
    let mut pos: usize = 0;
    while pos < s.len()
        invariant
            pos <= s@.len(),
            parse_message(s@, 0) == match parse_message(s@, pos as int) {
                Some(rest) => Some(fields_view(fields@) + rest),
                None => None,
            },
        decreases s@.len() - pos,
    {
        let ghost old_fields = fields@;
        let (f, e) = read_field(s, pos)?;
        proof {
            assert(parse_field(s@, pos as int) is Some);
            lemma_parse_field_advances(s@, pos as int);
            assert(parse_field(s@, pos as int)->Some_0.1 == e as int);
            assert(pos < e <= s@.len());
            assert(parse_message(s@, pos as int) == match parse_message(s@, e as int) {
                Some(rest) => Some(seq![f@] + rest),
                None => None,
            });
        }
        fields.push(f);
        proof {
            assert(fields_view(fields@) =~= fields_view(old_fields).push(f@));
            match parse_message(s@, e as int) {
                Some(rest) => {
                    assert(fields_view(old_fields) + (seq![f@] + rest) =~= fields_view(fields@)
                        + rest);
                },
                None => {},
            }
        }
        pos = e;
    }
    proof {
        assert(fields_view(fields@) + Seq::<(u32, WireData)>::empty() =~= fields_view(fields@));
    }
    Ok(fields)
}

proof fn lemma_parse_field_advances(s: Seq<u8>, a: int)
    requires
        parse_field(s, a) is Some,
    ensures
        a < parse_field(s, a)->Some_0.1 <= s.len(),
{
    let e1 = varint_end(s, a, a)->Some_0;
    lemma_varint_end_after(s, a, a);
    lemma_varint_end_after(s, e1, e1);
}

// ---------------------------------------------------------------------------
// Round trip.
// ---------------------------------------------------------------------------

proof fn lemma_varint_round_trip(v: u64, s: Seq<u8>, a: int)
    requires
        0 <= a,
        a + varint_bytes(v).len() <= s.len(),
        s.subrange(a, a + varint_bytes(v).len()) == varint_bytes(v),
    ensures
        varint_bytes(v).len() <= 10,
        varint_end(s, a, a) == Some(a + varint_bytes(v).len()),
        groups_value(s, a, a + varint_bytes(v).len()) == v,
        parse_varint(s, a) == Some((v, a + varint_bytes(v).len())),
{
    lemma_varint_scan(v, s, a, a);
}

proof fn lemma_varint_scan(v: u64, s: Seq<u8>, a: int, i: int)
    requires
        0 <= a <= i,
        i + varint_bytes(v).len() <= s.len(),
        s.subrange(i, i + varint_bytes(v).len()) == varint_bytes(v),
        v < pow2_64_shifted(i - a),
    ensures
        i + varint_bytes(v).len() <= a + 10,
        varint_end(s, a, i) == Some(i + varint_bytes(v).len()),
        groups_value(s, i, i + varint_bytes(v).len()) == v,
    decreases v,
{
    let bs = varint_bytes(v);
    assert(s[i] == bs[0]) by {
        assert(s.subrange(i, i + bs.len())[0] == s[i]);
    }
    if v < 128 {
        assert(groups_value(s, i + 1, i + 1) == 0);
        if i - a >= 10 {
            lemma_pow2_64_shifted_small(i - a);
        }
    } else {
        let rest = varint_bytes(v / 128);
        assert(bs =~= seq![(v % 128 + 128) as u8] + rest);
        assert(s.subrange(i + 1, i + 1 + rest.len()) =~= rest) by {
            assert forall|k: int| 0 <= k < rest.len() implies s.subrange(
                i + 1,
                i + 1 + rest.len(),
            )[k] == rest[k] by {
                assert(s.subrange(i, i + bs.len())[k + 1] == bs[k + 1]);
            }
        }
        lemma_pow2_64_shifted_step(v, i - a);
        lemma_varint_scan(v / 128, s, a, i + 1);
    }
}

proof fn lemma_varint_nonempty(v: u64)
    ensures
        1 <= varint_bytes(v).len() <= 10,
{
    let s = varint_bytes(v);
    lemma_varint_round_trip(v, s, 0);
    assert(s.subrange(0, s.len() as int) =~= s);
}

proof fn lemma_field_round_trip(f: (u32, WireData), s: Seq<u8>, a: int)
    requires
        field_ok(f),
        0 <= a,
        a + field_bytes(f).len() <= s.len(),
        s.subrange(a, a + field_bytes(f).len()) == field_bytes(f),
    ensures
        parse_field(s, a) == Some((f, a + field_bytes(f).len())),
{
    let fb = field_bytes(f);
    let wt: u64 = if f.1 is Varint { 0 } else { 2 };
    let key = key_of(f.0, wt);
    let kb = varint_bytes(key);
    let e1 = a + kb.len();
    assert(s.subrange(a, e1) =~= kb) by {
        assert forall|k: int| 0 <= k < kb.len() implies s.subrange(a, e1)[k] == kb[k] by {
            assert(s.subrange(a, a + fb.len())[k] == fb[k]);
        }
    }
    lemma_varint_round_trip(key, s, a);
    assert(key / 8 == f.0 && key % 8 == wt);
    match f.1 {
        WireData::Varint(v) => {
            let vb = varint_bytes(v);
            assert(s.subrange(e1, e1 + vb.len()) =~= vb) by {
                assert forall|k: int| 0 <= k < vb.len() implies s.subrange(e1, e1 + vb.len())[k]
                    == vb[k] by {
                    assert(s.subrange(a, a + fb.len())[kb.len() + k] == fb[kb.len() + k]);
                }
            }
            lemma_varint_round_trip(v, s, e1);
        },
        WireData::Bytes(b) => {
            let n = b.len() as u64;
            let nb = varint_bytes(n);
            let e2 = e1 + nb.len();
            assert(s.subrange(e1, e2) =~= nb) by {
                assert forall|k: int| 0 <= k < nb.len() implies s.subrange(e1, e2)[k] == nb[k] by {
                    assert(s.subrange(a, a + fb.len())[kb.len() + k] == fb[kb.len() + k]);
                }
            }
            lemma_varint_round_trip(n, s, e1);
            assert(s.subrange(e2, e2 + b.len()) =~= b) by {
                assert forall|k: int| 0 <= k < b.len() implies s.subrange(e2, e2 + b.len())[k]
                    == b[k] by {
                    assert(s.subrange(a, a + fb.len())[kb.len() + nb.len() + k] == fb[kb.len()
                        + nb.len() + k]);
                }
            }
        },
    }
}

proof fn lemma_parse_message_at(fs: Seq<(u32, WireData)>, s: Seq<u8>, a: int)
    requires
        fields_ok(fs),
        0 <= a <= s.len(),
        s.subrange(a, s.len() as int) == message_bytes(fs),
    ensures
        parse_message(s, a) == Some(fs),
    decreases fs.len(),
{
    if fs.len() == 0 {
        assert(s.subrange(a, s.len() as int).len() == 0);
        assert(fs =~= Seq::<(u32, WireData)>::empty());
    } else {
        let f = fs[0];
        let rest = fs.drop_first();
        let fb = field_bytes(f);
        let e = a + fb.len();
        assert(field_ok(fs[0]));
        assert(fb.len() >= 1) by {
            lemma_varint_nonempty(key_of(f.0, 0));
            lemma_varint_nonempty(key_of(f.0, 2));
        }
        assert(message_bytes(fs) == fb + message_bytes(rest));
        assert(s.subrange(a, e) =~= fb) by {
            assert forall|k: int| 0 <= k < fb.len() implies s.subrange(a, e)[k] == fb[k] by {
                assert(s.subrange(a, s.len() as int)[k] == message_bytes(fs)[k]);
            }
        }
        lemma_field_round_trip(f, s, a);
        assert(s.subrange(e, s.len() as int) =~= message_bytes(rest)) by {
            assert forall|k: int| 0 <= k < message_bytes(rest).len() implies s.subrange(
                e,
                s.len() as int,
            )[k] == message_bytes(rest)[k] by {
                assert(s.subrange(a, s.len() as int)[fb.len() + k] == message_bytes(fs)[fb.len()
                    + k]);
            }
        }
        assert(fields_ok(rest)) by {
            assert forall|i: int| 0 <= i < rest.len() implies field_ok(#[trigger] rest[i]) by {
                assert(field_ok(fs[i + 1]));
            }
        }
        lemma_parse_message_at(rest, s, e);
        assert(seq![f] + rest =~= fs);
    }
}

/// Decoding the encoding of a message gives the message back: for fields
/// with tags in `1..=MAX_TAG` (and byte strings shorter than 2^64), the
/// encoding parses, and it parses to exactly those fields.
pub proof fn lemma_wire_round_trip(fs: Seq<(u32, WireData)>)
    requires
        fields_ok(fs),
    ensures
        parse_message(message_bytes(fs), 0) == Some(fs),
{
    let s = message_bytes(fs);
    assert(s.subrange(0, s.len() as int) =~= s);
    lemma_parse_message_at(fs, s, 0);
}

/// `2^64 / 128^k`, the bound below which a value still fits after `k`
/// seven-bit groups have been taken off it.
pub open spec fn pow2_64_shifted(k: int) -> int
    decreases k,
{
    if k <= 0 {
        0x1_0000_0000_0000_0000
    } else {
        pow2_64_shifted(k - 1) / 128
    }
}

proof fn lemma_pow2_64_shifted_step(v: u64, k: int)
    requires
        0 <= k,
        128 <= v < pow2_64_shifted(k),
    ensures
        v / 128 < pow2_64_shifted(k + 1),
{
    assert(pow2_64_shifted(k + 1) == pow2_64_shifted(k) / 128);
    assert(pow2_64_shifted(0) == 0x1_0000_0000_0000_0000);
    assert(pow2_64_shifted(1) == 0x200_0000_0000_0000);
    assert(pow2_64_shifted(2) == 0x4_0000_0000_0000);
    assert(pow2_64_shifted(3) == 0x800_0000_0000);
    assert(pow2_64_shifted(4) == 0x10_0000_0000);
    assert(pow2_64_shifted(5) == 0x2000_0000);
    assert(pow2_64_shifted(6) == 0x40_0000);
    assert(pow2_64_shifted(7) == 0x8000);
    assert(pow2_64_shifted(8) == 0x100);
    assert(pow2_64_shifted(9) == 2);
    if k >= 9 {
        lemma_pow2_64_shifted_small(k);
    }
}

proof fn lemma_pow2_64_shifted_small(k: int)
    requires
        k >= 9,
    ensures
        0 <= pow2_64_shifted(k) <= 2,
        k >= 10 ==> pow2_64_shifted(k) == 0,
    decreases k,
{
    if k > 9 {
        lemma_pow2_64_shifted_small(k - 1);
    } else {
        assert(pow2_64_shifted(0) == 0x1_0000_0000_0000_0000);
        assert(pow2_64_shifted(1) == 0x200_0000_0000_0000);
        assert(pow2_64_shifted(2) == 0x4_0000_0000_0000);
        assert(pow2_64_shifted(3) == 0x800_0000_0000);
        assert(pow2_64_shifted(4) == 0x10_0000_0000);
        assert(pow2_64_shifted(5) == 0x2000_0000);
        assert(pow2_64_shifted(6) == 0x40_0000);
        assert(pow2_64_shifted(7) == 0x8000);
        assert(pow2_64_shifted(8) == 0x100);
        assert(pow2_64_shifted(9) == 2);
    }
}

} // verus!
