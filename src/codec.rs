//! The building blocks of the binary encoding of model values: how each kind
//! of value becomes a wire field, how a message's fields are looked up by tag,
//! and how a field becomes a value again.
//!
//! A message field that occurs more than once keeps its last occurrence; a
//! repeated field keeps all of them, in order.
use vstd::prelude::*;
use vstd::utf8::{decode_utf8, encode_utf8, valid_utf8};
use crate::wire::{
    WireData, WireError, WireField, WireValue, decode_message, encode_message, fields_ok, fields_view,
    lemma_wire_round_trip, message_bytes, parse_message, tags_ok,
};

verus! {

broadcast use vstd::utf8::group_utf8_lib;

/// Why a byte string or a field list is not a model value.
#[derive(Clone, Copy, PartialEq, Eq, Structural, Debug)]
pub enum CodecError {
    /// The bytes are not a sequence of fields.
    Wire(WireError),
    /// A field whose tag the message does not define.
    UnknownField(u32),
    /// A required field is absent.
    MissingField(u32),
    /// A field whose value does not fit its declared kind.
    BadValue(u32),
}

impl View for WireValue {
    type V = WireData;

    open spec fn view(&self) -> WireData {
        match self {
            WireValue::Varint(v) => WireData::Varint(*v),
            WireValue::Bytes(b) => WireData::Bytes(b@),
        }
    }
}

// ---------------------------------------------------------------------------
// Lookup by tag.
// ---------------------------------------------------------------------------

/// The value of the last field with tag `t`.
pub open spec fn tag_value(fs: Seq<(u32, WireData)>, t: u32) -> Option<WireData>
    decreases fs.len(),
{
    if fs.len() == 0 {
        None
    } else if fs.last().0 == t {
        Some(fs.last().1)
    } else {
        tag_value(fs.drop_last(), t)
    }
}

/// The values of all fields with tag `t`, in order.
pub open spec fn tag_values(fs: Seq<(u32, WireData)>, t: u32) -> Seq<WireData>
    decreases fs.len(),
{
    if fs.len() == 0 {
        Seq::empty()
    } else if fs.last().0 == t {
        tag_values(fs.drop_last(), t).push(fs.last().1)
    } else {
        tag_values(fs.drop_last(), t)
    }
}

/// Every tag lies in `1..=n`.
pub open spec fn tags_within(fs: Seq<(u32, WireData)>, n: u32) -> bool {
    forall|i: int| 0 <= i < fs.len() ==> 1 <= (#[trigger] fs[i]).0 <= n
}

/// A field with tag `t` if the value is there.
pub open spec fn opt_field(t: u32, o: Option<WireData>) -> Seq<(u32, WireData)> {
    match o {
        Some(d) => seq![(t, d)],
        None => Seq::empty(),
    }
}

/// One field with tag `t` per value, in order.
pub open spec fn rep_field(t: u32, ds: Seq<WireData>) -> Seq<(u32, WireData)> {
    ds.map_values(|d: WireData| (t, d))
}

pub broadcast proof fn lemma_tag_value_concat(a: Seq<(u32, WireData)>, b: Seq<(u32, WireData)>, t: u32)
    ensures
        #[trigger] tag_value(a + b, t) == if tag_value(b, t) is Some {
            tag_value(b, t)
        } else {
            tag_value(a, t)
        },
    decreases b.len(),
{
    if b.len() == 0 {
        assert(a + b =~= a);
    } else {
        assert((a + b).drop_last() =~= a + b.drop_last());
        lemma_tag_value_concat(a, b.drop_last(), t);
    }
}

pub broadcast proof fn lemma_tag_values_concat(a: Seq<(u32, WireData)>, b: Seq<(u32, WireData)>, t: u32)
    ensures
        #[trigger] tag_values(a + b, t) == tag_values(a, t) + tag_values(b, t),
    decreases b.len(),
{
    if b.len() == 0 {
        assert(a + b =~= a);
        assert(tag_values(a, t) + tag_values(b, t) =~= tag_values(a, t));
    } else {
        assert((a + b).drop_last() =~= a + b.drop_last());
        lemma_tag_values_concat(a, b.drop_last(), t);
        assert(tag_values(a, t) + tag_values(b.drop_last(), t).push(b.last().1) =~= (tag_values(
            a,
            t,
        ) + tag_values(b.drop_last(), t)).push(b.last().1));
    }
}

pub broadcast proof fn lemma_tags_within_concat(a: Seq<(u32, WireData)>, b: Seq<(u32, WireData)>, n: u32)
    requires
        tags_within(a, n),
        tags_within(b, n),
    ensures
        #[trigger] tags_within(a + b, n),
{
    assert forall|i: int| 0 <= i < (a + b).len() implies 1 <= (#[trigger] (a + b)[i]).0 <= n by {
        if i >= a.len() {
            assert((a + b)[i] == b[i - a.len()]);
        }
    }
}

pub broadcast proof fn lemma_opt_field_value(t: u32, o: Option<WireData>, u: u32)
    ensures
        #[trigger] tag_value(opt_field(t, o), u) == if t == u {
            o
        } else {
            None
        },
{
    if let Some(d) = o {
        let s = seq![(t, d)];
        assert(s.drop_last() =~= Seq::<(u32, WireData)>::empty());
        assert(tag_value(s.drop_last(), u) == None::<WireData>);
    }
}

pub broadcast proof fn lemma_opt_field_values(t: u32, o: Option<WireData>, u: u32)
    ensures
        #[trigger] tag_values(opt_field(t, o), u) == if t == u && o is Some {
            seq![o->Some_0]
        } else {
            Seq::empty()
        },
{
    if let Some(d) = o {
        let s = seq![(t, d)];
        assert(s.drop_last() =~= Seq::<(u32, WireData)>::empty());
        assert(tag_values(s.drop_last(), u) == Seq::<WireData>::empty());
        assert(Seq::<WireData>::empty().push(d) =~= seq![d]);
    }
}

pub broadcast proof fn lemma_opt_field_tags(t: u32, o: Option<WireData>)
    requires
        1 <= t,
    ensures
        #[trigger] tags_within(opt_field(t, o), t),
{
}

pub broadcast proof fn lemma_rep_field_value(t: u32, ds: Seq<WireData>, u: u32)
    ensures
        #[trigger] tag_value(rep_field(t, ds), u) == if t == u && ds.len() > 0 {
            Some(ds.last())
        } else {
            None
        },
    decreases ds.len(),
{
    if ds.len() > 0 {
        assert(rep_field(t, ds).drop_last() =~= rep_field(t, ds.drop_last()));
        lemma_rep_field_value(t, ds.drop_last(), u);
    } else {
        assert(rep_field(t, ds) =~= Seq::<(u32, WireData)>::empty());
    }
}

pub broadcast proof fn lemma_rep_field(t: u32, ds: Seq<WireData>, u: u32)
    ensures
        #[trigger] tag_values(rep_field(t, ds), u) == if t == u {
            ds
        } else {
            Seq::empty()
        },
    decreases ds.len(),
{
    if ds.len() > 0 {
        assert(rep_field(t, ds).drop_last() =~= rep_field(t, ds.drop_last()));
        lemma_rep_field(t, ds.drop_last(), u);
        assert(ds.drop_last().push(ds.last()) =~= ds);
    } else {
        assert(rep_field(t, ds) =~= Seq::<(u32, WireData)>::empty());
    }
}

pub broadcast proof fn lemma_rep_field_tags(t: u32, ds: Seq<WireData>)
    requires
        1 <= t,
    ensures
        #[trigger] tags_within(rep_field(t, ds), t),
{
}

pub broadcast proof fn lemma_str_round_trip(s: Seq<char>)
    ensures
        #[trigger] str_of(str_data(s)) == Some(s),
{
}

pub broadcast group group_codec_lemmas {
    lemma_str_round_trip,
    lemma_tag_value_concat,
    lemma_tag_values_concat,
    lemma_tags_within_concat,
    lemma_opt_field_value,
    lemma_opt_field_values,
    lemma_opt_field_tags,
    lemma_rep_field_value,
    lemma_rep_field,
    lemma_rep_field_tags,
}

/// The last field with tag `t`.
pub fn last_with_tag(fs: &Vec<WireField>, t: u32) -> (r: Option<&WireValue>)
    ensures
        match tag_value(fields_view(fs@), t) {
            Some(d) => r is Some && r->Some_0@ == d,
            None => r is None,
        },
{
    let mut i: usize = fs.len();
    assert(fs@.subrange(0, i as int) =~= fs@);
    while i > 0
        invariant
            i <= fs@.len(),
            tag_value(fields_view(fs@), t) == tag_value(fields_view(fs@.subrange(0, i as int)), t),
        decreases i,
    {
        let ghost pre = fields_view(fs@.subrange(0, i as int));
        assert(pre.drop_last() =~= fields_view(fs@.subrange(0, i - 1)));
        if fs[i - 1].tag == t {
            return Some(&fs[i - 1].value);
        }
        i -= 1;
    }
    None
}

/// The values of all fields with tag `t`, in order.
pub fn all_with_tag(fs: &Vec<WireField>, t: u32) -> (r: Vec<&WireValue>)
    ensures
        r@.len() == tag_values(fields_view(fs@), t).len(),
        forall|k: int| 0 <= k < r@.len() ==> (#[trigger] r@[k])@ == tag_values(fields_view(fs@), t)[k],
{
    let mut r: Vec<&WireValue> = Vec::new();
    let mut i: usize = 0;
    while i < fs.len()
        invariant
            i <= fs@.len(),
            r@.len() == tag_values(fields_view(fs@.subrange(0, i as int)), t).len(),
            forall|k: int| 0 <= k < r@.len() ==> (#[trigger] r@[k])@ == tag_values(
                fields_view(fs@.subrange(0, i as int)),
                t,
            )[k],
        decreases fs@.len() - i,
    {
        let ghost next = fields_view(fs@.subrange(0, i + 1));
        assert(next.drop_last() =~= fields_view(fs@.subrange(0, i as int)));
        if fs[i].tag == t {
            r.push(&fs[i].value);
        }
        i += 1;
    }
    assert(fs@.subrange(0, fs@.len() as int) =~= fs@);
    r
}

/// Checks that every tag lies in `1..=n`; the error names the first that
/// does not.
pub fn check_tags(fs: &Vec<WireField>, n: u32) -> (r: Result<(), CodecError>)
    ensures
        r is Ok <==> tags_within(fields_view(fs@), n),
        r matches Err(e) ==> e is UnknownField,
{
    let mut i: usize = 0;
    while i < fs.len()
        invariant
            i <= fs@.len(),
            forall|k: int| 0 <= k < i ==> 1 <= (#[trigger] fs@[k]).tag <= n,
        decreases fs@.len() - i,
    {
        if fs[i].tag < 1 || fs[i].tag > n {
            assert(fields_view(fs@)[i as int].0 == fs@[i as int].tag);
            return Err(CodecError::UnknownField(fs[i].tag));
        }
        i += 1;
    }
    assert forall|k: int| 0 <= k < fields_view(fs@).len() implies 1 <= (#[trigger] fields_view(
        fs@,
    )[k]).0 <= n by {
        assert(fs@[k].tag == fields_view(fs@)[k].0);
    }
    Ok(())
}

/// Every tag within `1..=m` lies within `1..=n` when `m <= n`.
pub proof fn lemma_tags_widen(fs: Seq<(u32, WireData)>, m: u32, n: u32)
    requires
        tags_within(fs, m),
        m <= n,
    ensures
        tags_within(fs, n),
{
}

// ---------------------------------------------------------------------------
// Lists of strings, and lists of fixed-point values.
// ---------------------------------------------------------------------------

/// Strings, each as a field.
pub open spec fn str_data_seq(xs: Seq<String>) -> Seq<WireData> {
    xs.map_values(|x: String| str_data(x@))
}

/// Appends one field with tag `t` per string.
pub fn push_all_str(xs: &Vec<String>, t: u32, fs: &mut Vec<WireField>)
    ensures
        fields_view(final(fs)@) == fields_view(old(fs)@) + rep_field(t, str_data_seq(xs@)),
{
    let ghost start = fields_view(fs@);
    let mut i: usize = 0;
    while i < xs.len()
        invariant
            i <= xs@.len(),
            fields_view(fs@) == start + rep_field(t, str_data_seq(xs@.subrange(0, i as int))),
        decreases xs@.len() - i,
    {
        let ghost pre = fields_view(fs@);
        let value = str_value(&xs[i]);
        fs.push(WireField { tag: t, value });
        proof {
            assert(str_data_seq(xs@.subrange(0, i + 1)) =~= str_data_seq(
                xs@.subrange(0, i as int),
            ).push(str_data(xs@[i as int]@)));
            assert(fields_view(fs@) =~= pre.push((t, str_data(xs@[i as int]@))));
            assert(rep_field(t, str_data_seq(xs@.subrange(0, i + 1))) =~= rep_field(
                t,
                str_data_seq(xs@.subrange(0, i as int)),
            ).push((t, str_data(xs@[i as int]@))));
        }
        i += 1;
    }
    assert(xs@.subrange(0, xs@.len() as int) =~= xs@);
}

/// The strings that the fields with tag `t` hold.
pub fn read_all_str(fs: &Vec<WireField>, t: u32) -> (r: Result<Vec<String>, CodecError>)
    ensures
        r is Ok <==> forall|i: int|
            0 <= i < tag_values(fields_view(fs@), t).len() ==> str_of(
                #[trigger] tag_values(fields_view(fs@), t)[i],
            ) is Some,
        r matches Ok(ws) ==> ws@.len() == tag_values(fields_view(fs@), t).len() && forall|i: int|
            0 <= i < ws@.len() ==> str_of(#[trigger] tag_values(fields_view(fs@), t)[i]) == Some(
                ws@[i]@,
            ),
{
    let vs = all_with_tag(fs, t);
    let ghost ds = tag_values(fields_view(fs@), t);
    let mut ws: Vec<String> = Vec::new();
    let mut i: usize = 0;
    while i < vs.len()
        invariant
            i <= vs@.len(),
            ds == tag_values(fields_view(fs@), t),
            vs@.len() == ds.len(),
            forall|k: int| 0 <= k < vs@.len() ==> (#[trigger] vs@[k])@ == ds[k],
            ws@.len() == i,
            forall|k: int| 0 <= k < i ==> str_of(#[trigger] ds[k]) == Some(ws@[k]@),
        decreases vs@.len() - i,
    {
        let w = match read_str(vs[i]) {
            Some(w) => w,
            None => {
                assert(str_of(ds[i as int]) is None);
                assert(!(forall|k: int| 0 <= k < ds.len() ==> str_of(#[trigger] ds[k]) is Some));
                return Err(CodecError::BadValue(t));
            },
        };
        ws.push(w);
        i += 1;
    }
    Ok(ws)
}

pub proof fn lemma_str_seq_round_trip(xs: Seq<String>)
    ensures
        forall|i: int| 0 <= i < xs.len() ==> str_of(#[trigger] str_data_seq(xs)[i]) == Some(xs[i]@),
{
}

/// Fixed-point values, each as a field with tag 1.
pub open spec fn fixed_list_fields(xs: Seq<i64>) -> Seq<(u32, WireData)> {
    rep_field(1, xs.map_values(|x: i64| fixed_data(x)))
}

/// A list of fixed-point values as a nested message.
pub open spec fn fixed_list_data(xs: Seq<i64>) -> WireData {
    WireData::Bytes(message_bytes(fixed_list_fields(xs)))
}

/// The list of fixed-point values that a nested message holds.
pub open spec fn fixed_list_of(d: WireData) -> Option<Seq<i64>> {
    match d {
        WireData::Bytes(b) => match parse_message(b, 0) {
            Some(fs) => if tags_within(fs, 1) && forall|i: int|
                0 <= i < tag_values(fs, 1).len() ==> fixed_of(#[trigger] tag_values(fs, 1)[i]) is Some {
                Some(tag_values(fs, 1).map_values(|d: WireData| fixed_of(d)->Some_0))
            } else {
                None
            },
            None => None,
        },
        _ => None,
    }
}

/// The list's encoding as a nested message can be decoded.
pub open spec fn fixed_list_fits(xs: Seq<i64>) -> bool {
    fields_ok(fixed_list_fields(xs))
}

/// A list of fixed-point values as a nested message.
pub fn fixed_list_value(xs: &Vec<i64>) -> (r: WireValue)
    ensures
        r@ == fixed_list_data(xs@),
{
    let mut fs: Vec<WireField> = Vec::new();
    let mut i: usize = 0;
    while i < xs.len()
        invariant
            i <= xs@.len(),
            fields_view(fs@) == fixed_list_fields(xs@.subrange(0, i as int)),
        decreases xs@.len() - i,
    {
        let ghost pre = fields_view(fs@);
        fs.push(WireField { tag: 1, value: fixed_value(xs[i]) });
        proof {
            assert(fields_view(fs@) =~= pre.push((1u32, fixed_data(xs@[i as int]))));
            assert(fixed_list_fields(xs@.subrange(0, i + 1)) =~= fixed_list_fields(
                xs@.subrange(0, i as int),
            ).push((1u32, fixed_data(xs@[i as int]))));
        }
        i += 1;
    }
    assert(xs@.subrange(0, xs@.len() as int) =~= xs@);
    assert(tags_ok(fields_view(fs@))) by {
        assert(tags_within(fixed_list_fields(xs@), 1));
    }
    WireValue::Bytes(encode_message(&fs))
}

/// The list of fixed-point values that the nested message `v` holds.
pub fn read_fixed_list(v: &WireValue) -> (r: Option<Vec<i64>>)
    ensures
        r is Some <==> fixed_list_of(v@) is Some,
        r matches Some(xs) ==> fixed_list_of(v@) == Some(xs@),
{
    let b = match v {
        WireValue::Bytes(b) => b,
        WireValue::Varint(_) => return None,
    };
    let fs = match decode_message(b.as_slice()) {
        Ok(fs) => fs,
        Err(_) => return None,
    };
    if check_tags(&fs, 1).is_err() {
        assert(!tags_within(fields_view(fs@), 1));
        assert(fixed_list_of(v@) is None);
        return None;
    }
    let vs = all_with_tag(&fs, 1);
    let ghost ds = tag_values(fields_view(fs@), 1);
    let mut xs: Vec<i64> = Vec::new();
    let mut i: usize = 0;
    while i < vs.len()
        invariant
            i <= vs@.len(),
            ds == tag_values(fields_view(fs@), 1),
            v@ == WireData::Bytes(b@),
            parse_message(b@, 0) == Some(fields_view(fs@)),
            tags_within(fields_view(fs@), 1),
            vs@.len() == ds.len(),
            forall|k: int| 0 <= k < vs@.len() ==> (#[trigger] vs@[k])@ == ds[k],
            xs@.len() == i,
            forall|k: int| 0 <= k < i ==> fixed_of(#[trigger] ds[k]) == Some(xs@[k]),
        decreases vs@.len() - i,
    {
        match read_fixed(vs[i]) {
            Some(x) => xs.push(x),
            None => {
                assert(fixed_of(ds[i as int]) is None);
                assert(!(forall|k: int| 0 <= k < ds.len() ==> fixed_of(#[trigger] ds[k]) is Some));
                return None;
            },
        }
        i += 1;
    }
    assert(xs@ =~= ds.map_values(|d: WireData| fixed_of(d)->Some_0));
    Some(xs)
}

pub proof fn lemma_fixed_list_round_trip(xs: Seq<i64>)
    requires
        fixed_list_fits(xs),
    ensures
        fixed_list_of(fixed_list_data(xs)) == Some(xs),
{
    let fs = fixed_list_fields(xs);
    lemma_wire_round_trip(fs);
    let ds = xs.map_values(|x: i64| fixed_data(x));
    lemma_rep_field(1, ds, 1);
    assert(tag_values(fs, 1) == ds);
    assert(ds.map_values(|d: WireData| fixed_of(d)->Some_0) =~= xs);
}

// ---------------------------------------------------------------------------
// Scalars.
// ---------------------------------------------------------------------------

/// The zigzag form of a signed integer: 0, -1, 1, -2, ... become 0, 1, 2, 3, ...
pub open spec fn zigzag(x: i64) -> u64 {
    if x >= 0 {
        (2 * x) as u64
    } else {
        (-2 * x - 1) as u64
    }
}

/// The signed integer whose zigzag form is `z`.
pub open spec fn unzigzag(z: u64) -> i64 {
    if z % 2 == 0 {
        (z / 2) as i64
    } else {
        (-(z / 2) - 1) as i64
    }
}

pub broadcast proof fn lemma_zigzag_round_trip(x: i64)
    ensures
        #[trigger] unzigzag(zigzag(x)) == x,
{
}

/// A fixed-point or signed value as a field.
pub open spec fn fixed_data(x: i64) -> WireData {
    WireData::Varint(zigzag(x))
}

/// An unsigned value as a field.
pub open spec fn uint_data(x: u64) -> WireData {
    WireData::Varint(x)
}

/// A flag as a field.
pub open spec fn bool_data(b: bool) -> WireData {
    WireData::Varint(if b { 1 } else { 0 })
}

/// A string as a field: its UTF-8 bytes.
pub open spec fn str_data(s: Seq<char>) -> WireData {
    WireData::Bytes(encode_utf8(s))
}

/// The fixed-point value a field holds.
pub open spec fn fixed_of(d: WireData) -> Option<i64> {
    match d {
        WireData::Varint(z) => Some(unzigzag(z)),
        _ => None,
    }
}

/// The unsigned value at most `max` that a field holds.
pub open spec fn uint_of(d: WireData, max: u64) -> Option<u64> {
    match d {
        WireData::Varint(v) => if v <= max {
            Some(v)
        } else {
            None
        },
        _ => None,
    }
}

/// The flag a field holds.
pub open spec fn bool_of(d: WireData) -> Option<bool> {
    match d {
        WireData::Varint(v) => if v <= 1 {
            Some(v == 1)
        } else {
            None
        },
        _ => None,
    }
}

/// The string a field holds.
pub open spec fn str_of(d: WireData) -> Option<Seq<char>> {
    match d {
        WireData::Bytes(b) => if valid_utf8(b) {
            Some(decode_utf8(b))
        } else {
            None
        },
        _ => None,
    }
}

/// The characters of an optional string.
pub open spec fn opt_str_view(o: Option<String>) -> Option<Seq<char>> {
    match o {
        Some(s) => Some(s@),
        None => None,
    }
}

pub fn fixed_value(x: i64) -> (r: WireValue)
    ensures
        r@ == fixed_data(x),
{
    if x >= 0 {
        WireValue::Varint(x as u64 * 2)
    } else {
        WireValue::Varint((-(x + 1)) as u64 * 2 + 1)
    }
}

pub fn uint_value(x: u64) -> (r: WireValue)
    ensures
        r@ == uint_data(x),
{
    WireValue::Varint(x)
}

pub fn bool_value(b: bool) -> (r: WireValue)
    ensures
        r@ == bool_data(b),
{
    WireValue::Varint(if b { 1 } else { 0 })
}

pub fn str_value(s: &String) -> (r: WireValue)
    ensures
        r@ == str_data(s@),
{
    let bytes = s.as_str().as_bytes();
    let mut b: Vec<u8> = Vec::new();
    let mut i: usize = 0;
    while i < bytes.len()
        invariant
            i <= bytes@.len(),
            b@ == bytes@.subrange(0, i as int),
        decreases bytes@.len() - i,
    {
        b.push(bytes[i]);
        i += 1;
        assert(b@ =~= bytes@.subrange(0, i as int));
    }
    assert(bytes@.subrange(0, bytes@.len() as int) =~= bytes@);
    WireValue::Bytes(b)
}

pub fn read_fixed(v: &WireValue) -> (r: Option<i64>)
    ensures
        r == fixed_of(v@),
{
    match v {
        WireValue::Varint(z) => if *z % 2 == 0 {
            Some((*z / 2) as i64)
        } else {
            Some(-((*z / 2) as i64) - 1)
        },
        WireValue::Bytes(_) => None,
    }
}

pub fn read_uint(v: &WireValue, max: u64) -> (r: Option<u64>)
    ensures
        r == uint_of(v@, max),
{
    match v {
        WireValue::Varint(x) => if *x <= max {
            Some(*x)
        } else {
            None
        },
        WireValue::Bytes(_) => None,
    }
}

pub fn read_bool(v: &WireValue) -> (r: Option<bool>)
    ensures
        r == bool_of(v@),
{
    match v {
        WireValue::Varint(x) => if *x <= 1 {
            Some(*x == 1)
        } else {
            None
        },
        WireValue::Bytes(_) => None,
    }
}

/// Relies on std's String::from_utf8: it accepts exactly the valid UTF-8
/// byte strings and returns the characters they encode.
#[verifier::external_body]
fn utf8_to_string(b: Vec<u8>) -> (r: Option<String>)
    ensures
        r is Some <==> valid_utf8(b@),
        r matches Some(s) ==> s@ == decode_utf8(b@),
{
    String::from_utf8(b).ok()
}

pub fn read_str(v: &WireValue) -> (r: Option<String>)
    ensures
        r is Some <==> str_of(v@) is Some,
        r matches Some(s) ==> str_of(v@) == Some(s@),
{
    match v {
        WireValue::Varint(_) => None,
        WireValue::Bytes(b) => utf8_to_string(b.clone()),
    }
}


/// An optional value as an optional field.
#[verifier::opaque]
pub open spec fn opt_fixed_data(o: Option<i64>) -> Option<WireData> {
    match o {
        Some(v) => Some(fixed_data(v)),
        None => None,
    }
}

/// The optional value an optional field holds; `None` inside when malformed.
pub open spec fn opt_fixed_of(o: Option<WireData>) -> Option<Option<i64>> {
    match o {
        Some(d) => match fixed_of(d) {
            Some(x) => Some(Some(x)),
            None => None,
        },
        None => Some(None),
    }
}

pub broadcast proof fn lemma_opt_fixed_round_trip(o: Option<i64>)
    ensures
        #[trigger] opt_fixed_of(opt_fixed_data(o)) == Some(o),
{
    reveal(opt_fixed_data);
}

/// Appends the optional value as a field with tag `t`, if it is there.
pub fn push_opt_fixed(fs: &mut Vec<WireField>, t: u32, o: Option<i64>)
    ensures
        fields_view(final(fs)@) == fields_view(old(fs)@) + opt_field(t, opt_fixed_data(o)),
{
    proof {
        reveal(opt_fixed_data);
    }
    let ghost before = fields_view(fs@);
    match o {
        Some(v) => fs.push(WireField { tag: t, value: fixed_value(v) }),
        None => {},
    }
    assert(fields_view(fs@) =~= before + opt_field(t, opt_fixed_data(o)));
}

/// Reads the optional value of the last field with tag `t`.
pub fn read_opt_fixed(fs: &Vec<WireField>, t: u32) -> (r: Result<Option<i64>, CodecError>)
    ensures
        match opt_fixed_of(tag_value(fields_view(fs@), t)) {
            Some(o) => r == Ok::<Option<i64>, CodecError>(o),
            None => r == Err::<Option<i64>, CodecError>(CodecError::BadValue(t)),
        },
{
    match last_with_tag(fs, t) {
        Some(v) => match read_fixed(v) {
            Some(x) => Ok(Some(x)),
            None => Err(CodecError::BadValue(t)),
        },
        None => Ok(None),
    }
}

/// An optional value as an optional field.
#[verifier::opaque]
pub open spec fn opt_u32_data(o: Option<u32>) -> Option<WireData> {
    match o {
        Some(v) => Some(uint_data(v as u64)),
        None => None,
    }
}

/// The optional value an optional field holds; `None` inside when malformed.
pub open spec fn opt_u32_of(o: Option<WireData>) -> Option<Option<u32>> {
    match o {
        Some(d) => match match uint_of(d, 0xFFFF_FFFF) { Some(x) => Some(x as u32), None => None } {
            Some(x) => Some(Some(x)),
            None => None,
        },
        None => Some(None),
    }
}

pub broadcast proof fn lemma_opt_u32_round_trip(o: Option<u32>)
    ensures
        #[trigger] opt_u32_of(opt_u32_data(o)) == Some(o),
{
    reveal(opt_u32_data);
}

/// Appends the optional value as a field with tag `t`, if it is there.
pub fn push_opt_u32(fs: &mut Vec<WireField>, t: u32, o: Option<u32>)
    ensures
        fields_view(final(fs)@) == fields_view(old(fs)@) + opt_field(t, opt_u32_data(o)),
{
    proof {
        reveal(opt_u32_data);
    }
    let ghost before = fields_view(fs@);
    match o {
        Some(v) => fs.push(WireField { tag: t, value: uint_value(v as u64) }),
        None => {},
    }
    assert(fields_view(fs@) =~= before + opt_field(t, opt_u32_data(o)));
}

/// Reads the optional value of the last field with tag `t`.
pub fn read_opt_u32(fs: &Vec<WireField>, t: u32) -> (r: Result<Option<u32>, CodecError>)
    ensures
        match opt_u32_of(tag_value(fields_view(fs@), t)) {
            Some(o) => r == Ok::<Option<u32>, CodecError>(o),
            None => r == Err::<Option<u32>, CodecError>(CodecError::BadValue(t)),
        },
{
    match last_with_tag(fs, t) {
        Some(v) => match match read_uint(v, 0xFFFF_FFFF) { Some(x) => Some(x as u32), None => None } {
            Some(x) => Ok(Some(x)),
            None => Err(CodecError::BadValue(t)),
        },
        None => Ok(None),
    }
}

/// An optional value as an optional field.
#[verifier::opaque]
pub open spec fn opt_u16_data(o: Option<u16>) -> Option<WireData> {
    match o {
        Some(v) => Some(uint_data(v as u64)),
        None => None,
    }
}

/// The optional value an optional field holds; `None` inside when malformed.
pub open spec fn opt_u16_of(o: Option<WireData>) -> Option<Option<u16>> {
    match o {
        Some(d) => match match uint_of(d, 0xFFFF) { Some(x) => Some(x as u16), None => None } {
            Some(x) => Some(Some(x)),
            None => None,
        },
        None => Some(None),
    }
}

pub broadcast proof fn lemma_opt_u16_round_trip(o: Option<u16>)
    ensures
        #[trigger] opt_u16_of(opt_u16_data(o)) == Some(o),
{
    reveal(opt_u16_data);
}

/// Appends the optional value as a field with tag `t`, if it is there.
pub fn push_opt_u16(fs: &mut Vec<WireField>, t: u32, o: Option<u16>)
    ensures
        fields_view(final(fs)@) == fields_view(old(fs)@) + opt_field(t, opt_u16_data(o)),
{
    proof {
        reveal(opt_u16_data);
    }
    let ghost before = fields_view(fs@);
    match o {
        Some(v) => fs.push(WireField { tag: t, value: uint_value(v as u64) }),
        None => {},
    }
    assert(fields_view(fs@) =~= before + opt_field(t, opt_u16_data(o)));
}

/// Reads the optional value of the last field with tag `t`.
pub fn read_opt_u16(fs: &Vec<WireField>, t: u32) -> (r: Result<Option<u16>, CodecError>)
    ensures
        match opt_u16_of(tag_value(fields_view(fs@), t)) {
            Some(o) => r == Ok::<Option<u16>, CodecError>(o),
            None => r == Err::<Option<u16>, CodecError>(CodecError::BadValue(t)),
        },
{
    match last_with_tag(fs, t) {
        Some(v) => match match read_uint(v, 0xFFFF) { Some(x) => Some(x as u16), None => None } {
            Some(x) => Ok(Some(x)),
            None => Err(CodecError::BadValue(t)),
        },
        None => Ok(None),
    }
}

/// An optional value as an optional field.
#[verifier::opaque]
pub open spec fn opt_u8_data(o: Option<u8>) -> Option<WireData> {
    match o {
        Some(v) => Some(uint_data(v as u64)),
        None => None,
    }
}

/// The optional value an optional field holds; `None` inside when malformed.
pub open spec fn opt_u8_of(o: Option<WireData>) -> Option<Option<u8>> {
    match o {
        Some(d) => match match uint_of(d, 0xFF) { Some(x) => Some(x as u8), None => None } {
            Some(x) => Some(Some(x)),
            None => None,
        },
        None => Some(None),
    }
}

pub broadcast proof fn lemma_opt_u8_round_trip(o: Option<u8>)
    ensures
        #[trigger] opt_u8_of(opt_u8_data(o)) == Some(o),
{
    reveal(opt_u8_data);
}

/// Appends the optional value as a field with tag `t`, if it is there.
pub fn push_opt_u8(fs: &mut Vec<WireField>, t: u32, o: Option<u8>)
    ensures
        fields_view(final(fs)@) == fields_view(old(fs)@) + opt_field(t, opt_u8_data(o)),
{
    proof {
        reveal(opt_u8_data);
    }
    let ghost before = fields_view(fs@);
    match o {
        Some(v) => fs.push(WireField { tag: t, value: uint_value(v as u64) }),
        None => {},
    }
    assert(fields_view(fs@) =~= before + opt_field(t, opt_u8_data(o)));
}

/// Reads the optional value of the last field with tag `t`.
pub fn read_opt_u8(fs: &Vec<WireField>, t: u32) -> (r: Result<Option<u8>, CodecError>)
    ensures
        match opt_u8_of(tag_value(fields_view(fs@), t)) {
            Some(o) => r == Ok::<Option<u8>, CodecError>(o),
            None => r == Err::<Option<u8>, CodecError>(CodecError::BadValue(t)),
        },
{
    match last_with_tag(fs, t) {
        Some(v) => match match read_uint(v, 0xFF) { Some(x) => Some(x as u8), None => None } {
            Some(x) => Ok(Some(x)),
            None => Err(CodecError::BadValue(t)),
        },
        None => Ok(None),
    }
}

/// An optional value as an optional field.
#[verifier::opaque]
pub open spec fn opt_bool_data(o: Option<bool>) -> Option<WireData> {
    match o {
        Some(v) => Some(bool_data(v)),
        None => None,
    }
}

/// The optional value an optional field holds; `None` inside when malformed.
pub open spec fn opt_bool_of(o: Option<WireData>) -> Option<Option<bool>> {
    match o {
        Some(d) => match bool_of(d) {
            Some(x) => Some(Some(x)),
            None => None,
        },
        None => Some(None),
    }
}

pub broadcast proof fn lemma_opt_bool_round_trip(o: Option<bool>)
    ensures
        #[trigger] opt_bool_of(opt_bool_data(o)) == Some(o),
{
    reveal(opt_bool_data);
}

/// Appends the optional value as a field with tag `t`, if it is there.
pub fn push_opt_bool(fs: &mut Vec<WireField>, t: u32, o: Option<bool>)
    ensures
        fields_view(final(fs)@) == fields_view(old(fs)@) + opt_field(t, opt_bool_data(o)),
{
    proof {
        reveal(opt_bool_data);
    }
    let ghost before = fields_view(fs@);
    match o {
        Some(v) => fs.push(WireField { tag: t, value: bool_value(v) }),
        None => {},
    }
    assert(fields_view(fs@) =~= before + opt_field(t, opt_bool_data(o)));
}

/// Reads the optional value of the last field with tag `t`.
pub fn read_opt_bool(fs: &Vec<WireField>, t: u32) -> (r: Result<Option<bool>, CodecError>)
    ensures
        match opt_bool_of(tag_value(fields_view(fs@), t)) {
            Some(o) => r == Ok::<Option<bool>, CodecError>(o),
            None => r == Err::<Option<bool>, CodecError>(CodecError::BadValue(t)),
        },
{
    match last_with_tag(fs, t) {
        Some(v) => match read_bool(v) {
            Some(x) => Ok(Some(x)),
            None => Err(CodecError::BadValue(t)),
        },
        None => Ok(None),
    }
}

/// An optional string as an optional field.
#[verifier::opaque]
pub open spec fn opt_str_data(o: Option<String>) -> Option<WireData> {
    match o {
        Some(v) => Some(str_data(v@)),
        None => None,
    }
}

/// The optional string an optional field holds; `None` inside when malformed.
pub open spec fn opt_str_of(o: Option<WireData>) -> Option<Option<Seq<char>>> {
    match o {
        Some(d) => match str_of(d) {
            Some(x) => Some(Some(x)),
            None => None,
        },
        None => Some(None),
    }
}

pub broadcast proof fn lemma_opt_str_round_trip(o: Option<String>)
    ensures
        #[trigger] opt_str_of(opt_str_data(o)) == Some(opt_str_view(o)),
{
    reveal(opt_str_data);
}

/// Appends the optional string as a field with tag `t`, if it is there.
pub fn push_opt_str(fs: &mut Vec<WireField>, t: u32, o: &Option<String>)
    ensures
        fields_view(final(fs)@) == fields_view(old(fs)@) + opt_field(t, opt_str_data(*o)),
{
    proof {
        reveal(opt_str_data);
    }
    let ghost before = fields_view(fs@);
    match o {
        Some(v) => fs.push(WireField { tag: t, value: str_value(v) }),
        None => {},
    }
    assert(fields_view(fs@) =~= before + opt_field(t, opt_str_data(*o)));
}

/// Reads the optional string of the last field with tag `t`.
pub fn read_opt_str(fs: &Vec<WireField>, t: u32) -> (r: Result<Option<String>, CodecError>)
    ensures
        match opt_str_of(tag_value(fields_view(fs@), t)) {
            Some(o) => r matches Ok(x) && opt_str_view(x) == o,
            None => r == Err::<Option<String>, CodecError>(CodecError::BadValue(t)),
        },
{
    match last_with_tag(fs, t) {
        Some(v) => match read_str(v) {
            Some(x) => Ok(Some(x)),
            None => Err(CodecError::BadValue(t)),
        },
        None => Ok(None),
    }
}

} // verus!
