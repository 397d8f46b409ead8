//! The binary encoding of each model type: the exact list of fields a value
//! becomes, its encoder, its decoder, and the proof that decoding an encoded
//! value gives back an equal value.
//!
//! Field tags are numbered from 1 in declaration order; optional fields that
//! are absent are left out; list fields repeat their tag once per element.
//! A list of lists, and an optional list, is carried as a nested message
//! whose field 1 repeats once per element.
use vstd::prelude::*;
use crate::codec::{
    CodecError, tag_value, tag_values, tags_within, opt_field, rep_field, opt_str_view,
    fixed_data, uint_data, bool_data, str_data, fixed_of, uint_of, bool_of, str_of, fixed_value,
    uint_value, bool_value, str_value, read_fixed, read_uint, read_bool, read_str,
    last_with_tag, all_with_tag, check_tags, group_codec_lemmas, lemma_zigzag_round_trip,
    str_data_seq, push_all_str, read_all_str, fixed_list_data, fixed_list_of, fixed_list_fits,
    fixed_list_value, read_fixed_list, lemma_fixed_list_round_trip, lemma_str_seq_round_trip,
    lemma_tags_widen, lemma_str_round_trip, push_opt_fixed, read_opt_fixed, push_opt_u32,
    read_opt_u32, push_opt_u16, read_opt_u16, push_opt_u8, read_opt_u8, push_opt_bool,
    read_opt_bool, push_opt_str, read_opt_str, opt_fixed_data, opt_u32_data, opt_u16_data,
    opt_u8_data, opt_bool_data, opt_str_data, opt_fixed_of, opt_u32_of, opt_u16_of, opt_u8_of,
    opt_bool_of, opt_str_of, lemma_opt_fixed_round_trip, lemma_opt_u32_round_trip,
    lemma_opt_u16_round_trip, lemma_opt_u8_round_trip, lemma_opt_bool_round_trip,
    lemma_opt_str_round_trip,
};
use crate::data::{
    DirectionsType, Units, LocationType, PreferredSide, CostingModels, BicyleType, ManeuverType,
    TravelMode, TravelType, Point, Summary, MatrixDistance, RangeHeight, Contour, Location,
    AutomobileOptions, BicycleOptions, VehicleOptions, CostingOptions, RequestOptions, Maneuver,
    Leg, Trip, RoutingOutput, MatrixInput, MatrixOutput, IsochroneInput, Geometry, Feature,
    IsochroneOutput, LocateEdge, LocatedPoint, LocateOutput, TraceEdge, MatchedPoint,
    TraceAttributesOutput, TransitAvailability, TransitAvailableOutput, ExpansionEdge,
    ExpansionOutput, HeightRequest, HeightResponse,
};
use crate::wire::{
    WireData, WireField, WireValue, decode_message, encode_message, fields_ok, fields_view,
    lemma_wire_round_trip, message_bytes, parse_message, MAX_TAG,
};

verus! {

/// The `DirectionsType` a field holds.
pub open spec fn directions_type_of(d: WireData) -> Option<DirectionsType> {
    match d {
        WireData::Varint(c) => DirectionsType::spec_from_code(c),
        _ => None,
    }
}

/// An optional `DirectionsType` as an optional field.
#[verifier::opaque]
pub open spec fn opt_directions_type_data(o: Option<DirectionsType>) -> Option<WireData> {
    match o {
        Some(v) => Some(uint_data(v.spec_code())),
        None => None,
    }
}

/// The optional `DirectionsType` an optional field holds; `None` inside when malformed.
pub open spec fn opt_directions_type_of(o: Option<WireData>) -> Option<Option<DirectionsType>> {
    match o {
        Some(d) => match directions_type_of(d) {
            Some(x) => Some(Some(x)),
            None => None,
        },
        None => Some(None),
    }
}

pub broadcast proof fn lemma_opt_directions_type_round_trip(o: Option<DirectionsType>)
    ensures
        #[trigger] opt_directions_type_of(opt_directions_type_data(o)) == Some(o),
{
    reveal(opt_directions_type_data);
    broadcast use DirectionsType::lemma_code_round_trip;
}

fn push_opt_directions_type(fs: &mut Vec<WireField>, t: u32, o: Option<DirectionsType>)
    ensures
        fields_view(final(fs)@) == fields_view(old(fs)@) + opt_field(t, opt_directions_type_data(o)),
{
    proof {
        reveal(opt_directions_type_data);
    }
    let ghost before = fields_view(fs@);
    match o {
        Some(v) => fs.push(WireField { tag: t, value: uint_value(v.code()) }),
        None => {},
    }
    assert(fields_view(fs@) =~= before + opt_field(t, opt_directions_type_data(o)));
}

fn read_opt_directions_type(fs: &Vec<WireField>, t: u32) -> (r: Result<Option<DirectionsType>, CodecError>)
    ensures
        match opt_directions_type_of(tag_value(fields_view(fs@), t)) {
            Some(o) => r == Ok::<Option<DirectionsType>, CodecError>(o),
            None => r == Err::<Option<DirectionsType>, CodecError>(CodecError::BadValue(t)),
        },
{
    match last_with_tag(fs, t) {
        Some(v) => match read_directions_type(v) {
            Some(x) => Ok(Some(x)),
            None => Err(CodecError::BadValue(t)),
        },
        None => Ok(None),
    }
}

fn read_directions_type(v: &WireValue) -> (r: Option<DirectionsType>)
    ensures
        r == directions_type_of(v@),
{
    match read_uint(v, 0xFFFF_FFFF_FFFF_FFFF) {
        Some(c) => DirectionsType::from_code(c),
        None => None,
    }
}

/// The `Units` a field holds.
pub open spec fn units_of(d: WireData) -> Option<Units> {
    match d {
        WireData::Varint(c) => Units::spec_from_code(c),
        _ => None,
    }
}

/// An optional `Units` as an optional field.
#[verifier::opaque]
pub open spec fn opt_units_data(o: Option<Units>) -> Option<WireData> {
    match o {
        Some(v) => Some(uint_data(v.spec_code())),
        None => None,
    }
}

/// The optional `Units` an optional field holds; `None` inside when malformed.
pub open spec fn opt_units_of(o: Option<WireData>) -> Option<Option<Units>> {
    match o {
        Some(d) => match units_of(d) {
            Some(x) => Some(Some(x)),
            None => None,
        },
        None => Some(None),
    }
}

pub broadcast proof fn lemma_opt_units_round_trip(o: Option<Units>)
    ensures
        #[trigger] opt_units_of(opt_units_data(o)) == Some(o),
{
    reveal(opt_units_data);
    broadcast use Units::lemma_code_round_trip;
}

fn push_opt_units(fs: &mut Vec<WireField>, t: u32, o: Option<Units>)
    ensures
        fields_view(final(fs)@) == fields_view(old(fs)@) + opt_field(t, opt_units_data(o)),
{
    proof {
        reveal(opt_units_data);
    }
    let ghost before = fields_view(fs@);
    match o {
        Some(v) => fs.push(WireField { tag: t, value: uint_value(v.code()) }),
        None => {},
    }
    assert(fields_view(fs@) =~= before + opt_field(t, opt_units_data(o)));
}

fn read_opt_units(fs: &Vec<WireField>, t: u32) -> (r: Result<Option<Units>, CodecError>)
    ensures
        match opt_units_of(tag_value(fields_view(fs@), t)) {
            Some(o) => r == Ok::<Option<Units>, CodecError>(o),
            None => r == Err::<Option<Units>, CodecError>(CodecError::BadValue(t)),
        },
{
    match last_with_tag(fs, t) {
        Some(v) => match read_units(v) {
            Some(x) => Ok(Some(x)),
            None => Err(CodecError::BadValue(t)),
        },
        None => Ok(None),
    }
}

fn read_units(v: &WireValue) -> (r: Option<Units>)
    ensures
        r == units_of(v@),
{
    match read_uint(v, 0xFFFF_FFFF_FFFF_FFFF) {
        Some(c) => Units::from_code(c),
        None => None,
    }
}

/// The `LocationType` a field holds.
pub open spec fn location_type_of(d: WireData) -> Option<LocationType> {
    match d {
        WireData::Varint(c) => LocationType::spec_from_code(c),
        _ => None,
    }
}

/// An optional `LocationType` as an optional field.
#[verifier::opaque]
pub open spec fn opt_location_type_data(o: Option<LocationType>) -> Option<WireData> {
    match o {
        Some(v) => Some(uint_data(v.spec_code())),
        None => None,
    }
}

/// The optional `LocationType` an optional field holds; `None` inside when malformed.
pub open spec fn opt_location_type_of(o: Option<WireData>) -> Option<Option<LocationType>> {
    match o {
        Some(d) => match location_type_of(d) {
            Some(x) => Some(Some(x)),
            None => None,
        },
        None => Some(None),
    }
}

pub broadcast proof fn lemma_opt_location_type_round_trip(o: Option<LocationType>)
    ensures
        #[trigger] opt_location_type_of(opt_location_type_data(o)) == Some(o),
{
    reveal(opt_location_type_data);
    broadcast use LocationType::lemma_code_round_trip;
}

fn push_opt_location_type(fs: &mut Vec<WireField>, t: u32, o: Option<LocationType>)
    ensures
        fields_view(final(fs)@) == fields_view(old(fs)@) + opt_field(t, opt_location_type_data(o)),
{
    proof {
        reveal(opt_location_type_data);
    }
    let ghost before = fields_view(fs@);
    match o {
        Some(v) => fs.push(WireField { tag: t, value: uint_value(v.code()) }),
        None => {},
    }
    assert(fields_view(fs@) =~= before + opt_field(t, opt_location_type_data(o)));
}

fn read_opt_location_type(fs: &Vec<WireField>, t: u32) -> (r: Result<Option<LocationType>, CodecError>)
    ensures
        match opt_location_type_of(tag_value(fields_view(fs@), t)) {
            Some(o) => r == Ok::<Option<LocationType>, CodecError>(o),
            None => r == Err::<Option<LocationType>, CodecError>(CodecError::BadValue(t)),
        },
{
    match last_with_tag(fs, t) {
        Some(v) => match read_location_type(v) {
            Some(x) => Ok(Some(x)),
            None => Err(CodecError::BadValue(t)),
        },
        None => Ok(None),
    }
}

fn read_location_type(v: &WireValue) -> (r: Option<LocationType>)
    ensures
        r == location_type_of(v@),
{
    match read_uint(v, 0xFFFF_FFFF_FFFF_FFFF) {
        Some(c) => LocationType::from_code(c),
        None => None,
    }
}

/// The `PreferredSide` a field holds.
pub open spec fn preferred_side_of(d: WireData) -> Option<PreferredSide> {
    match d {
        WireData::Varint(c) => PreferredSide::spec_from_code(c),
        _ => None,
    }
}

/// An optional `PreferredSide` as an optional field.
#[verifier::opaque]
pub open spec fn opt_preferred_side_data(o: Option<PreferredSide>) -> Option<WireData> {
    match o {
        Some(v) => Some(uint_data(v.spec_code())),
        None => None,
    }
}

/// The optional `PreferredSide` an optional field holds; `None` inside when malformed.
pub open spec fn opt_preferred_side_of(o: Option<WireData>) -> Option<Option<PreferredSide>> {
    match o {
        Some(d) => match preferred_side_of(d) {
            Some(x) => Some(Some(x)),
            None => None,
        },
        None => Some(None),
    }
}

pub broadcast proof fn lemma_opt_preferred_side_round_trip(o: Option<PreferredSide>)
    ensures
        #[trigger] opt_preferred_side_of(opt_preferred_side_data(o)) == Some(o),
{
    reveal(opt_preferred_side_data);
    broadcast use PreferredSide::lemma_code_round_trip;
}

fn push_opt_preferred_side(fs: &mut Vec<WireField>, t: u32, o: Option<PreferredSide>)
    ensures
        fields_view(final(fs)@) == fields_view(old(fs)@) + opt_field(t, opt_preferred_side_data(o)),
{
    proof {
        reveal(opt_preferred_side_data);
    }
    let ghost before = fields_view(fs@);
    match o {
        Some(v) => fs.push(WireField { tag: t, value: uint_value(v.code()) }),
        None => {},
    }
    assert(fields_view(fs@) =~= before + opt_field(t, opt_preferred_side_data(o)));
}

fn read_opt_preferred_side(fs: &Vec<WireField>, t: u32) -> (r: Result<Option<PreferredSide>, CodecError>)
    ensures
        match opt_preferred_side_of(tag_value(fields_view(fs@), t)) {
            Some(o) => r == Ok::<Option<PreferredSide>, CodecError>(o),
            None => r == Err::<Option<PreferredSide>, CodecError>(CodecError::BadValue(t)),
        },
{
    match last_with_tag(fs, t) {
        Some(v) => match read_preferred_side(v) {
            Some(x) => Ok(Some(x)),
            None => Err(CodecError::BadValue(t)),
        },
        None => Ok(None),
    }
}

fn read_preferred_side(v: &WireValue) -> (r: Option<PreferredSide>)
    ensures
        r == preferred_side_of(v@),
{
    match read_uint(v, 0xFFFF_FFFF_FFFF_FFFF) {
        Some(c) => PreferredSide::from_code(c),
        None => None,
    }
}

/// The `CostingModels` a field holds.
pub open spec fn costing_models_of(d: WireData) -> Option<CostingModels> {
    match d {
        WireData::Varint(c) => CostingModels::spec_from_code(c),
        _ => None,
    }
}

/// An optional `CostingModels` as an optional field.
#[verifier::opaque]
pub open spec fn opt_costing_models_data(o: Option<CostingModels>) -> Option<WireData> {
    match o {
        Some(v) => Some(uint_data(v.spec_code())),
        None => None,
    }
}

/// The optional `CostingModels` an optional field holds; `None` inside when malformed.
pub open spec fn opt_costing_models_of(o: Option<WireData>) -> Option<Option<CostingModels>> {
    match o {
        Some(d) => match costing_models_of(d) {
            Some(x) => Some(Some(x)),
            None => None,
        },
        None => Some(None),
    }
}

pub broadcast proof fn lemma_opt_costing_models_round_trip(o: Option<CostingModels>)
    ensures
        #[trigger] opt_costing_models_of(opt_costing_models_data(o)) == Some(o),
{
    reveal(opt_costing_models_data);
    broadcast use CostingModels::lemma_code_round_trip;
}

fn push_opt_costing_models(fs: &mut Vec<WireField>, t: u32, o: Option<CostingModels>)
    ensures
        fields_view(final(fs)@) == fields_view(old(fs)@) + opt_field(t, opt_costing_models_data(o)),
{
    proof {
        reveal(opt_costing_models_data);
    }
    let ghost before = fields_view(fs@);
    match o {
        Some(v) => fs.push(WireField { tag: t, value: uint_value(v.code()) }),
        None => {},
    }
    assert(fields_view(fs@) =~= before + opt_field(t, opt_costing_models_data(o)));
}

fn read_opt_costing_models(fs: &Vec<WireField>, t: u32) -> (r: Result<Option<CostingModels>, CodecError>)
    ensures
        match opt_costing_models_of(tag_value(fields_view(fs@), t)) {
            Some(o) => r == Ok::<Option<CostingModels>, CodecError>(o),
            None => r == Err::<Option<CostingModels>, CodecError>(CodecError::BadValue(t)),
        },
{
    match last_with_tag(fs, t) {
        Some(v) => match read_costing_models(v) {
            Some(x) => Ok(Some(x)),
            None => Err(CodecError::BadValue(t)),
        },
        None => Ok(None),
    }
}

fn read_costing_models(v: &WireValue) -> (r: Option<CostingModels>)
    ensures
        r == costing_models_of(v@),
{
    match read_uint(v, 0xFFFF_FFFF_FFFF_FFFF) {
        Some(c) => CostingModels::from_code(c),
        None => None,
    }
}

/// The `BicyleType` a field holds.
pub open spec fn bicyle_type_of(d: WireData) -> Option<BicyleType> {
    match d {
        WireData::Varint(c) => BicyleType::spec_from_code(c),
        _ => None,
    }
}

/// An optional `BicyleType` as an optional field.
#[verifier::opaque]
pub open spec fn opt_bicyle_type_data(o: Option<BicyleType>) -> Option<WireData> {
    match o {
        Some(v) => Some(uint_data(v.spec_code())),
        None => None,
    }
}

/// The optional `BicyleType` an optional field holds; `None` inside when malformed.
pub open spec fn opt_bicyle_type_of(o: Option<WireData>) -> Option<Option<BicyleType>> {
    match o {
        Some(d) => match bicyle_type_of(d) {
            Some(x) => Some(Some(x)),
            None => None,
        },
        None => Some(None),
    }
}

pub broadcast proof fn lemma_opt_bicyle_type_round_trip(o: Option<BicyleType>)
    ensures
        #[trigger] opt_bicyle_type_of(opt_bicyle_type_data(o)) == Some(o),
{
    reveal(opt_bicyle_type_data);
    broadcast use BicyleType::lemma_code_round_trip;
}

fn push_opt_bicyle_type(fs: &mut Vec<WireField>, t: u32, o: Option<BicyleType>)
    ensures
        fields_view(final(fs)@) == fields_view(old(fs)@) + opt_field(t, opt_bicyle_type_data(o)),
{
    proof {
        reveal(opt_bicyle_type_data);
    }
    let ghost before = fields_view(fs@);
    match o {
        Some(v) => fs.push(WireField { tag: t, value: uint_value(v.code()) }),
        None => {},
    }
    assert(fields_view(fs@) =~= before + opt_field(t, opt_bicyle_type_data(o)));
}

fn read_opt_bicyle_type(fs: &Vec<WireField>, t: u32) -> (r: Result<Option<BicyleType>, CodecError>)
    ensures
        match opt_bicyle_type_of(tag_value(fields_view(fs@), t)) {
            Some(o) => r == Ok::<Option<BicyleType>, CodecError>(o),
            None => r == Err::<Option<BicyleType>, CodecError>(CodecError::BadValue(t)),
        },
{
    match last_with_tag(fs, t) {
        Some(v) => match read_bicyle_type(v) {
            Some(x) => Ok(Some(x)),
            None => Err(CodecError::BadValue(t)),
        },
        None => Ok(None),
    }
}

fn read_bicyle_type(v: &WireValue) -> (r: Option<BicyleType>)
    ensures
        r == bicyle_type_of(v@),
{
    match read_uint(v, 0xFFFF_FFFF_FFFF_FFFF) {
        Some(c) => BicyleType::from_code(c),
        None => None,
    }
}

/// The `ManeuverType` a field holds.
pub open spec fn maneuver_type_of(d: WireData) -> Option<ManeuverType> {
    match d {
        WireData::Varint(c) => ManeuverType::spec_from_code(c),
        _ => None,
    }
}

/// An optional `ManeuverType` as an optional field.
#[verifier::opaque]
pub open spec fn opt_maneuver_type_data(o: Option<ManeuverType>) -> Option<WireData> {
    match o {
        Some(v) => Some(uint_data(v.spec_code())),
        None => None,
    }
}

/// The optional `ManeuverType` an optional field holds; `None` inside when malformed.
pub open spec fn opt_maneuver_type_of(o: Option<WireData>) -> Option<Option<ManeuverType>> {
    match o {
        Some(d) => match maneuver_type_of(d) {
            Some(x) => Some(Some(x)),
            None => None,
        },
        None => Some(None),
    }
}

pub broadcast proof fn lemma_opt_maneuver_type_round_trip(o: Option<ManeuverType>)
    ensures
        #[trigger] opt_maneuver_type_of(opt_maneuver_type_data(o)) == Some(o),
{
    reveal(opt_maneuver_type_data);
    broadcast use ManeuverType::lemma_code_round_trip;
}

fn push_opt_maneuver_type(fs: &mut Vec<WireField>, t: u32, o: Option<ManeuverType>)
    ensures
        fields_view(final(fs)@) == fields_view(old(fs)@) + opt_field(t, opt_maneuver_type_data(o)),
{
    proof {
        reveal(opt_maneuver_type_data);
    }
    let ghost before = fields_view(fs@);
    match o {
        Some(v) => fs.push(WireField { tag: t, value: uint_value(v.code()) }),
        None => {},
    }
    assert(fields_view(fs@) =~= before + opt_field(t, opt_maneuver_type_data(o)));
}

fn read_opt_maneuver_type(fs: &Vec<WireField>, t: u32) -> (r: Result<Option<ManeuverType>, CodecError>)
    ensures
        match opt_maneuver_type_of(tag_value(fields_view(fs@), t)) {
            Some(o) => r == Ok::<Option<ManeuverType>, CodecError>(o),
            None => r == Err::<Option<ManeuverType>, CodecError>(CodecError::BadValue(t)),
        },
{
    match last_with_tag(fs, t) {
        Some(v) => match read_maneuver_type(v) {
            Some(x) => Ok(Some(x)),
            None => Err(CodecError::BadValue(t)),
        },
        None => Ok(None),
    }
}

fn read_maneuver_type(v: &WireValue) -> (r: Option<ManeuverType>)
    ensures
        r == maneuver_type_of(v@),
{
    match read_uint(v, 0xFFFF_FFFF_FFFF_FFFF) {
        Some(c) => ManeuverType::from_code(c),
        None => None,
    }
}

/// The `TravelMode` a field holds.
pub open spec fn travel_mode_of(d: WireData) -> Option<TravelMode> {
    match d {
        WireData::Varint(c) => TravelMode::spec_from_code(c),
        _ => None,
    }
}

/// An optional `TravelMode` as an optional field.
#[verifier::opaque]
pub open spec fn opt_travel_mode_data(o: Option<TravelMode>) -> Option<WireData> {
    match o {
        Some(v) => Some(uint_data(v.spec_code())),
        None => None,
    }
}

/// The optional `TravelMode` an optional field holds; `None` inside when malformed.
pub open spec fn opt_travel_mode_of(o: Option<WireData>) -> Option<Option<TravelMode>> {
    match o {
        Some(d) => match travel_mode_of(d) {
            Some(x) => Some(Some(x)),
            None => None,
        },
        None => Some(None),
    }
}

pub broadcast proof fn lemma_opt_travel_mode_round_trip(o: Option<TravelMode>)
    ensures
        #[trigger] opt_travel_mode_of(opt_travel_mode_data(o)) == Some(o),
{
    reveal(opt_travel_mode_data);
    broadcast use TravelMode::lemma_code_round_trip;
}

fn push_opt_travel_mode(fs: &mut Vec<WireField>, t: u32, o: Option<TravelMode>)
    ensures
        fields_view(final(fs)@) == fields_view(old(fs)@) + opt_field(t, opt_travel_mode_data(o)),
{
    proof {
        reveal(opt_travel_mode_data);
    }
    let ghost before = fields_view(fs@);
    match o {
        Some(v) => fs.push(WireField { tag: t, value: uint_value(v.code()) }),
        None => {},
    }
    assert(fields_view(fs@) =~= before + opt_field(t, opt_travel_mode_data(o)));
}

fn read_opt_travel_mode(fs: &Vec<WireField>, t: u32) -> (r: Result<Option<TravelMode>, CodecError>)
    ensures
        match opt_travel_mode_of(tag_value(fields_view(fs@), t)) {
            Some(o) => r == Ok::<Option<TravelMode>, CodecError>(o),
            None => r == Err::<Option<TravelMode>, CodecError>(CodecError::BadValue(t)),
        },
{
    match last_with_tag(fs, t) {
        Some(v) => match read_travel_mode(v) {
            Some(x) => Ok(Some(x)),
            None => Err(CodecError::BadValue(t)),
        },
        None => Ok(None),
    }
}

fn read_travel_mode(v: &WireValue) -> (r: Option<TravelMode>)
    ensures
        r == travel_mode_of(v@),
{
    match read_uint(v, 0xFFFF_FFFF_FFFF_FFFF) {
        Some(c) => TravelMode::from_code(c),
        None => None,
    }
}

/// The `TravelType` a field holds.
pub open spec fn travel_type_of(d: WireData) -> Option<TravelType> {
    match d {
        WireData::Varint(c) => TravelType::spec_from_code(c),
        _ => None,
    }
}

/// An optional `TravelType` as an optional field.
#[verifier::opaque]
pub open spec fn opt_travel_type_data(o: Option<TravelType>) -> Option<WireData> {
    match o {
        Some(v) => Some(uint_data(v.spec_code())),
        None => None,
    }
}

/// The optional `TravelType` an optional field holds; `None` inside when malformed.
pub open spec fn opt_travel_type_of(o: Option<WireData>) -> Option<Option<TravelType>> {
    match o {
        Some(d) => match travel_type_of(d) {
            Some(x) => Some(Some(x)),
            None => None,
        },
        None => Some(None),
    }
}

pub broadcast proof fn lemma_opt_travel_type_round_trip(o: Option<TravelType>)
    ensures
        #[trigger] opt_travel_type_of(opt_travel_type_data(o)) == Some(o),
{
    reveal(opt_travel_type_data);
    broadcast use TravelType::lemma_code_round_trip;
}

fn push_opt_travel_type(fs: &mut Vec<WireField>, t: u32, o: Option<TravelType>)
    ensures
        fields_view(final(fs)@) == fields_view(old(fs)@) + opt_field(t, opt_travel_type_data(o)),
{
    proof {
        reveal(opt_travel_type_data);
    }
    let ghost before = fields_view(fs@);
    match o {
        Some(v) => fs.push(WireField { tag: t, value: uint_value(v.code()) }),
        None => {},
    }
    assert(fields_view(fs@) =~= before + opt_field(t, opt_travel_type_data(o)));
}

fn read_opt_travel_type(fs: &Vec<WireField>, t: u32) -> (r: Result<Option<TravelType>, CodecError>)
    ensures
        match opt_travel_type_of(tag_value(fields_view(fs@), t)) {
            Some(o) => r == Ok::<Option<TravelType>, CodecError>(o),
            None => r == Err::<Option<TravelType>, CodecError>(CodecError::BadValue(t)),
        },
{
    match last_with_tag(fs, t) {
        Some(v) => match read_travel_type(v) {
            Some(x) => Ok(Some(x)),
            None => Err(CodecError::BadValue(t)),
        },
        None => Ok(None),
    }
}

fn read_travel_type(v: &WireValue) -> (r: Option<TravelType>)
    ensures
        r == travel_type_of(v@),
{
    match read_uint(v, 0xFFFF_FFFF_FFFF_FFFF) {
        Some(c) => TravelType::from_code(c),
        None => None,
    }
}

impl Point {
    /// The fields this value is encoded as.
    pub open spec fn wire_fields(&self) -> Seq<(u32, WireData)> {
        Seq::empty()
            + opt_field(1, Some(fixed_data(self.lon)))
            + opt_field(2, Some(fixed_data(self.lat)))
    }

    /// This value as a nested message.
    pub open spec fn msg_data(&self) -> WireData {
        WireData::Bytes(message_bytes(self.wire_fields()))
    }

    /// The values as nested messages.
    pub open spec fn msg_data_seq(xs: Seq<Point>) -> Seq<WireData> {
        xs.map_values(|x: Point| x.msg_data())
    }

    /// `fs` holds a `Point`: known tags, every required field present, every field of its kind.
    pub open spec fn wire_decodable(fs: Seq<(u32, WireData)>) -> bool {
        &&& tags_within(fs, 2)
        &&& tag_value(fs, 1) matches Some(d) && fixed_of(d) is Some
        &&& tag_value(fs, 2) matches Some(d) && fixed_of(d) is Some
    }

    /// `w` is what `fs` holds.
    pub open spec fn decodes_from(fs: Seq<(u32, WireData)>, w: Point) -> bool {
        &&& tag_value(fs, 1) matches Some(d) && fixed_of(d) == Some(w.lon)
        &&& tag_value(fs, 2) matches Some(d) && fixed_of(d) == Some(w.lat)
    }

    /// `d` is a nested message that holds a `Point`.
    pub open spec fn msg_decodable(d: WireData) -> bool {
        &&& d is Bytes
        &&& parse_message(d->Bytes_0, 0) matches Some(fs) && Self::wire_decodable(fs)
    }

    /// `w` is what the nested message `d` holds.
    pub open spec fn msg_decodes(d: WireData, w: Point) -> bool {
        &&& d is Bytes
        &&& parse_message(d->Bytes_0, 0) matches Some(fs) && Self::decodes_from(fs, w)
    }

    /// The two values agree in every field.
    pub open spec fn same_as(self, o: Point) -> bool {
        &&& self.lon == o.lon
        &&& self.lat == o.lat
    }

    /// The two sequences agree element by element.
    pub open spec fn same_seq(a: Seq<Point>, b: Seq<Point>) -> bool {
        &&& a.len() == b.len()
        &&& forall|i: int| 0 <= i < a.len() ==> (#[trigger] a[i]).same_as(b[i])
    }

    /// Every nested message of this value fits a length prefix.
    pub open spec fn wire_fits(&self) -> bool {
        true
    }

    /// This value's encoding as a nested message can be decoded.
    pub open spec fn msg_fits(&self) -> bool {
        fields_ok(self.wire_fields()) && self.wire_fits()
    }

    /// Every value of the sequence fits.
    pub open spec fn seq_fits(xs: Seq<Point>) -> bool {
        forall|i: int| 0 <= i < xs.len() ==> (#[trigger] xs[i]).msg_fits()
    }

    pub proof fn lemma_wire_tags(&self)
        ensures
            tags_within(self.wire_fields(), 2),
    {
        broadcast use group_codec_lemmas;

        assert(tags_within(Seq::<(u32, WireData)>::empty(), 2));
        lemma_tags_widen(opt_field(1, Some(fixed_data(self.lon))), 1, 2);
        lemma_tags_widen(opt_field(2, Some(fixed_data(self.lat))), 2, 2);
    }

    /// The fields this value is encoded as.
    pub fn to_wire_fields(&self) -> (r: Vec<WireField>)
        ensures
            fields_view(r@) == self.wire_fields(),
    {
        let mut fs: Vec<WireField> = Vec::new();
        assert(fields_view(fs@) =~= Seq::<(u32, WireData)>::empty());
        let ghost before = fields_view(fs@);
        fs.push(WireField { tag: 1, value: fixed_value(self.lon) });
        assert(fields_view(fs@) =~= before + opt_field(1, Some(fixed_data(self.lon))));
        let ghost before = fields_view(fs@);
        fs.push(WireField { tag: 2, value: fixed_value(self.lat) });
        assert(fields_view(fs@) =~= before + opt_field(2, Some(fixed_data(self.lat))));
        fs
    }

    /// This value as a nested message.
    pub fn to_wire_value(&self) -> (r: WireValue)
        ensures
            r@ == self.msg_data(),
    {
        let fs = self.to_wire_fields();
        proof {
            self.lemma_wire_tags();
        }
        WireValue::Bytes(encode_message(&fs))
    }

    /// Appends one field with tag `t` per value.
    pub fn push_all(xs: &Vec<Point>, t: u32, fs: &mut Vec<WireField>)
        ensures
            fields_view(final(fs)@) == fields_view(old(fs)@) + rep_field(t, Self::msg_data_seq(xs@)),
    {
        let ghost start = fields_view(fs@);
        let mut i: usize = 0;
        while i < xs.len()
            invariant
                i <= xs@.len(),
                fields_view(fs@) == start + rep_field(t, Self::msg_data_seq(xs@.subrange(0, i as int))),
            decreases xs@.len() - i,
        {
            let ghost pre = fields_view(fs@);
            let value = xs[i].to_wire_value();
            fs.push(WireField { tag: t, value });
            proof {
                assert(Self::msg_data_seq(xs@.subrange(0, i + 1)) =~= Self::msg_data_seq(
                    xs@.subrange(0, i as int),
                ).push(xs@[i as int].msg_data()));
                assert(fields_view(fs@) =~= pre.push((t, xs@[i as int].msg_data())));
                assert(rep_field(t, Self::msg_data_seq(xs@.subrange(0, i + 1))) =~= rep_field(
                    t,
                    Self::msg_data_seq(xs@.subrange(0, i as int)),
                ).push((t, xs@[i as int].msg_data())));
            }
            i += 1;
        }
        assert(xs@.subrange(0, xs@.len() as int) =~= xs@);
    }

    /// The `Point` that `fs` holds.
    pub fn from_wire_fields(fs: &Vec<WireField>) -> (r: Result<Point, CodecError>)
        ensures
            r is Ok <==> Self::wire_decodable(fields_view(fs@)),
            r matches Ok(w) ==> Self::decodes_from(fields_view(fs@), w),
    {
        check_tags(fs, 2)?;
        let lon = match last_with_tag(fs, 1) {
            Some(v) => match read_fixed(v) {
                Some(x) => x,
                None => return Err(CodecError::BadValue(1)),
            },
            None => return Err(CodecError::MissingField(1)),
        };
        let lat = match last_with_tag(fs, 2) {
            Some(v) => match read_fixed(v) {
                Some(x) => x,
                None => return Err(CodecError::BadValue(2)),
            },
            None => return Err(CodecError::MissingField(2)),
        };
        Ok(Point { lon, lat })
    }

    /// The `Point` that the nested message `v` holds.
    pub fn from_wire_value(v: &WireValue, t: u32) -> (r: Result<Point, CodecError>)
        ensures
            r is Ok <==> Self::msg_decodable(v@),
            r matches Ok(w) ==> Self::msg_decodes(v@, w),
    {
        match v {
            WireValue::Bytes(b) => match decode_message(b.as_slice()) {
                Ok(fs) => Self::from_wire_fields(&fs),
                Err(e) => Err(CodecError::Wire(e)),
            },
            WireValue::Varint(_) => Err(CodecError::BadValue(t)),
        }
    }

    /// The values of all fields with tag `t`, each a nested `Point`.
    pub fn read_all(fs: &Vec<WireField>, t: u32) -> (r: Result<Vec<Point>, CodecError>)
        ensures
            r is Ok <==> forall|i: int| 0 <= i < tag_values(fields_view(fs@), t).len() ==> Self::msg_decodable(#[trigger] tag_values(fields_view(fs@), t)[i]),
            r matches Ok(ws) ==> ws@.len() == tag_values(fields_view(fs@), t).len() && forall|i: int| 0 <= i < ws@.len() ==> Self::msg_decodes(#[trigger] tag_values(fields_view(fs@), t)[i], ws@[i]),
    {
        let vs = all_with_tag(fs, t);
        let ghost ds = tag_values(fields_view(fs@), t);
        let mut ws: Vec<Point> = Vec::new();
        let mut i: usize = 0;
        while i < vs.len()
            invariant
                i <= vs@.len(),
                ds == tag_values(fields_view(fs@), t),
                vs@.len() == ds.len(),
                forall|k: int| 0 <= k < vs@.len() ==> (#[trigger] vs@[k])@ == ds[k],
                ws@.len() == i,
                forall|k: int| 0 <= k < i ==> Self::msg_decodable(#[trigger] ds[k]),
                forall|k: int| 0 <= k < i ==> Self::msg_decodes(#[trigger] ds[k], ws@[k]),
            decreases vs@.len() - i,
        {
            let w = match Self::from_wire_value(vs[i], t) {
                Ok(w) => w,
                Err(e) => {
                    assert(!Self::msg_decodable(ds[i as int]));
                    assert(!(forall|k: int| 0 <= k < ds.len() ==> Self::msg_decodable(#[trigger] ds[k])));
                    return Err(e);
                },
            };
            ws.push(w);
            i += 1;
        }
        Ok(ws)
    }

    /// Decoding the fields of a value gives back an equal value.
    #[verifier::rlimit(100)]
    #[verifier::spinoff_prover]
    pub proof fn lemma_round_trip(v: Point)
        requires
            v.wire_fits(),
        ensures
            Self::wire_decodable(v.wire_fields()),
            forall|w: Point| Self::decodes_from(v.wire_fields(), w) ==> w.same_as(v),
    {
        broadcast use lemma_zigzag_round_trip, lemma_str_round_trip, DirectionsType::lemma_code_round_trip, Units::lemma_code_round_trip, LocationType::lemma_code_round_trip, PreferredSide::lemma_code_round_trip, CostingModels::lemma_code_round_trip, BicyleType::lemma_code_round_trip, ManeuverType::lemma_code_round_trip, TravelMode::lemma_code_round_trip, TravelType::lemma_code_round_trip, lemma_opt_fixed_round_trip, lemma_opt_u32_round_trip, lemma_opt_u16_round_trip, lemma_opt_u8_round_trip, lemma_opt_bool_round_trip, lemma_opt_str_round_trip, lemma_opt_directions_type_round_trip, lemma_opt_units_round_trip, lemma_opt_location_type_round_trip, lemma_opt_preferred_side_round_trip, lemma_opt_costing_models_round_trip, lemma_opt_bicyle_type_round_trip, lemma_opt_maneuver_type_round_trip, lemma_opt_travel_mode_round_trip, lemma_opt_travel_type_round_trip;

        v.lemma_wire_tags();
        assert(tag_value(v.wire_fields(), 1) == Some(fixed_data(v.lon))) by {
            broadcast use group_codec_lemmas;
        }
        assert(tag_value(v.wire_fields(), 2) == Some(fixed_data(v.lat))) by {
            broadcast use group_codec_lemmas;
        }
    }

    /// Decoding a value's nested message gives back an equal value.
    pub proof fn lemma_msg_round_trip(v: Point)
        requires
            v.msg_fits(),
        ensures
            Self::msg_decodable(v.msg_data()),
            forall|w: Point| Self::msg_decodes(v.msg_data(), w) ==> w.same_as(v),
    {
        lemma_wire_round_trip(v.wire_fields());
        Self::lemma_round_trip(v);
    }

    pub proof fn lemma_seq_round_trip(xs: Seq<Point>)
        requires
            Self::seq_fits(xs),
        ensures
            forall|i: int| 0 <= i < xs.len() ==> Self::msg_decodable(#[trigger] Self::msg_data_seq(xs)[i]),
            forall|ws: Seq<Point>| ws.len() == xs.len() && (forall|i: int| 0 <= i < xs.len() ==> Self::msg_decodes(#[trigger] Self::msg_data_seq(xs)[i], ws[i])) ==> Self::same_seq(ws, xs),
    {
        assert forall|i: int| 0 <= i < xs.len() implies Self::msg_decodable(#[trigger] Self::msg_data_seq(xs)[i]) && (forall|w: Point| Self::msg_decodes(Self::msg_data_seq(xs)[i], w) ==> w.same_as(xs[i])) by {
            assert(xs[i].msg_fits());
            Self::lemma_msg_round_trip(xs[i]);
        }
        assert forall|ws: Seq<Point>| ws.len() == xs.len() && (forall|i: int| 0 <= i < xs.len() ==> Self::msg_decodes(#[trigger] Self::msg_data_seq(xs)[i], ws[i])) implies Self::same_seq(ws, xs) by {
            assert forall|i: int| 0 <= i < ws.len() implies (#[trigger] ws[i]).same_as(xs[i]) by {
                assert(Self::msg_decodes(Self::msg_data_seq(xs)[i], ws[i]));
            }
        }
    }

}

impl Summary {
    /// The fields this value is encoded as.
    pub open spec fn wire_fields(&self) -> Seq<(u32, WireData)> {
        Seq::empty()
            + opt_field(1, Some(fixed_data(self.min_lat)))
            + opt_field(2, Some(fixed_data(self.min_lon)))
            + opt_field(3, Some(fixed_data(self.max_lat)))
            + opt_field(4, Some(fixed_data(self.max_lon)))
            + opt_field(5, Some(fixed_data(self.time)))
            + opt_field(6, Some(fixed_data(self.length)))
    }

    /// This value as a nested message.
    pub open spec fn msg_data(&self) -> WireData {
        WireData::Bytes(message_bytes(self.wire_fields()))
    }

    /// The values as nested messages.
    pub open spec fn msg_data_seq(xs: Seq<Summary>) -> Seq<WireData> {
        xs.map_values(|x: Summary| x.msg_data())
    }

    /// `fs` holds a `Summary`: known tags, every required field present, every field of its kind.
    pub open spec fn wire_decodable(fs: Seq<(u32, WireData)>) -> bool {
        &&& tags_within(fs, 6)
        &&& tag_value(fs, 1) matches Some(d) && fixed_of(d) is Some
        &&& tag_value(fs, 2) matches Some(d) && fixed_of(d) is Some
        &&& tag_value(fs, 3) matches Some(d) && fixed_of(d) is Some
        &&& tag_value(fs, 4) matches Some(d) && fixed_of(d) is Some
        &&& tag_value(fs, 5) matches Some(d) && fixed_of(d) is Some
        &&& tag_value(fs, 6) matches Some(d) && fixed_of(d) is Some
    }

    /// `w` is what `fs` holds.
    pub open spec fn decodes_from(fs: Seq<(u32, WireData)>, w: Summary) -> bool {
        &&& tag_value(fs, 1) matches Some(d) && fixed_of(d) == Some(w.min_lat)
        &&& tag_value(fs, 2) matches Some(d) && fixed_of(d) == Some(w.min_lon)
        &&& tag_value(fs, 3) matches Some(d) && fixed_of(d) == Some(w.max_lat)
        &&& tag_value(fs, 4) matches Some(d) && fixed_of(d) == Some(w.max_lon)
        &&& tag_value(fs, 5) matches Some(d) && fixed_of(d) == Some(w.time)
        &&& tag_value(fs, 6) matches Some(d) && fixed_of(d) == Some(w.length)
    }

    /// `d` is a nested message that holds a `Summary`.
    pub open spec fn msg_decodable(d: WireData) -> bool {
        &&& d is Bytes
        &&& parse_message(d->Bytes_0, 0) matches Some(fs) && Self::wire_decodable(fs)
    }

    /// `w` is what the nested message `d` holds.
    pub open spec fn msg_decodes(d: WireData, w: Summary) -> bool {
        &&& d is Bytes
        &&& parse_message(d->Bytes_0, 0) matches Some(fs) && Self::decodes_from(fs, w)
    }

    /// The two values agree in every field.
    pub open spec fn same_as(self, o: Summary) -> bool {
        &&& self.min_lat == o.min_lat
        &&& self.min_lon == o.min_lon
        &&& self.max_lat == o.max_lat
        &&& self.max_lon == o.max_lon
        &&& self.time == o.time
        &&& self.length == o.length
    }

    /// The two sequences agree element by element.
    pub open spec fn same_seq(a: Seq<Summary>, b: Seq<Summary>) -> bool {
        &&& a.len() == b.len()
        &&& forall|i: int| 0 <= i < a.len() ==> (#[trigger] a[i]).same_as(b[i])
    }

    /// Every nested message of this value fits a length prefix.
    pub open spec fn wire_fits(&self) -> bool {
        true
    }

    /// This value's encoding as a nested message can be decoded.
    pub open spec fn msg_fits(&self) -> bool {
        fields_ok(self.wire_fields()) && self.wire_fits()
    }

    /// Every value of the sequence fits.
    pub open spec fn seq_fits(xs: Seq<Summary>) -> bool {
        forall|i: int| 0 <= i < xs.len() ==> (#[trigger] xs[i]).msg_fits()
    }

    pub proof fn lemma_wire_tags(&self)
        ensures
            tags_within(self.wire_fields(), 6),
    {
        broadcast use group_codec_lemmas;

        assert(tags_within(Seq::<(u32, WireData)>::empty(), 6));
        lemma_tags_widen(opt_field(1, Some(fixed_data(self.min_lat))), 1, 6);
        lemma_tags_widen(opt_field(2, Some(fixed_data(self.min_lon))), 2, 6);
        lemma_tags_widen(opt_field(3, Some(fixed_data(self.max_lat))), 3, 6);
        lemma_tags_widen(opt_field(4, Some(fixed_data(self.max_lon))), 4, 6);
        lemma_tags_widen(opt_field(5, Some(fixed_data(self.time))), 5, 6);
        lemma_tags_widen(opt_field(6, Some(fixed_data(self.length))), 6, 6);
    }

    /// The fields this value is encoded as.
    pub fn to_wire_fields(&self) -> (r: Vec<WireField>)
        ensures
            fields_view(r@) == self.wire_fields(),
    {
        let mut fs: Vec<WireField> = Vec::new();
        assert(fields_view(fs@) =~= Seq::<(u32, WireData)>::empty());
        let ghost before = fields_view(fs@);
        fs.push(WireField { tag: 1, value: fixed_value(self.min_lat) });
        assert(fields_view(fs@) =~= before + opt_field(1, Some(fixed_data(self.min_lat))));
        let ghost before = fields_view(fs@);
        fs.push(WireField { tag: 2, value: fixed_value(self.min_lon) });
        assert(fields_view(fs@) =~= before + opt_field(2, Some(fixed_data(self.min_lon))));
        let ghost before = fields_view(fs@);
        fs.push(WireField { tag: 3, value: fixed_value(self.max_lat) });
        assert(fields_view(fs@) =~= before + opt_field(3, Some(fixed_data(self.max_lat))));
        let ghost before = fields_view(fs@);
        fs.push(WireField { tag: 4, value: fixed_value(self.max_lon) });
        assert(fields_view(fs@) =~= before + opt_field(4, Some(fixed_data(self.max_lon))));
        let ghost before = fields_view(fs@);
        fs.push(WireField { tag: 5, value: fixed_value(self.time) });
        assert(fields_view(fs@) =~= before + opt_field(5, Some(fixed_data(self.time))));
        let ghost before = fields_view(fs@);
        fs.push(WireField { tag: 6, value: fixed_value(self.length) });
        assert(fields_view(fs@) =~= before + opt_field(6, Some(fixed_data(self.length))));
        fs
    }

    /// This value as a nested message.
    pub fn to_wire_value(&self) -> (r: WireValue)
        ensures
            r@ == self.msg_data(),
    {
        let fs = self.to_wire_fields();
        proof {
            self.lemma_wire_tags();
        }
        WireValue::Bytes(encode_message(&fs))
    }

    /// The `Summary` that `fs` holds.
    pub fn from_wire_fields(fs: &Vec<WireField>) -> (r: Result<Summary, CodecError>)
        ensures
            r is Ok <==> Self::wire_decodable(fields_view(fs@)),
            r matches Ok(w) ==> Self::decodes_from(fields_view(fs@), w),
    {
        check_tags(fs, 6)?;
        let min_lat = match last_with_tag(fs, 1) {
            Some(v) => match read_fixed(v) {
                Some(x) => x,
                None => return Err(CodecError::BadValue(1)),
            },
            None => return Err(CodecError::MissingField(1)),
        };
        let min_lon = match last_with_tag(fs, 2) {
            Some(v) => match read_fixed(v) {
                Some(x) => x,
                None => return Err(CodecError::BadValue(2)),
            },
            None => return Err(CodecError::MissingField(2)),
        };
        let max_lat = match last_with_tag(fs, 3) {
            Some(v) => match read_fixed(v) {
                Some(x) => x,
                None => return Err(CodecError::BadValue(3)),
            },
            None => return Err(CodecError::MissingField(3)),
        };
        let max_lon = match last_with_tag(fs, 4) {
            Some(v) => match read_fixed(v) {
                Some(x) => x,
                None => return Err(CodecError::BadValue(4)),
            },
            None => return Err(CodecError::MissingField(4)),
        };
        let time = match last_with_tag(fs, 5) {
            Some(v) => match read_fixed(v) {
                Some(x) => x,
                None => return Err(CodecError::BadValue(5)),
            },
            None => return Err(CodecError::MissingField(5)),
        };
        let length = match last_with_tag(fs, 6) {
            Some(v) => match read_fixed(v) {
                Some(x) => x,
                None => return Err(CodecError::BadValue(6)),
            },
            None => return Err(CodecError::MissingField(6)),
        };
        Ok(Summary { min_lat, min_lon, max_lat, max_lon, time, length })
    }

    /// The `Summary` that the nested message `v` holds.
    pub fn from_wire_value(v: &WireValue, t: u32) -> (r: Result<Summary, CodecError>)
        ensures
            r is Ok <==> Self::msg_decodable(v@),
            r matches Ok(w) ==> Self::msg_decodes(v@, w),
    {
        match v {
            WireValue::Bytes(b) => match decode_message(b.as_slice()) {
                Ok(fs) => Self::from_wire_fields(&fs),
                Err(e) => Err(CodecError::Wire(e)),
            },
            WireValue::Varint(_) => Err(CodecError::BadValue(t)),
        }
    }

    /// Decoding the fields of a value gives back an equal value.
    #[verifier::rlimit(100)]
    #[verifier::spinoff_prover]
    pub proof fn lemma_round_trip(v: Summary)
        requires
            v.wire_fits(),
        ensures
            Self::wire_decodable(v.wire_fields()),
            forall|w: Summary| Self::decodes_from(v.wire_fields(), w) ==> w.same_as(v),
    {
        broadcast use lemma_zigzag_round_trip, lemma_str_round_trip, DirectionsType::lemma_code_round_trip, Units::lemma_code_round_trip, LocationType::lemma_code_round_trip, PreferredSide::lemma_code_round_trip, CostingModels::lemma_code_round_trip, BicyleType::lemma_code_round_trip, ManeuverType::lemma_code_round_trip, TravelMode::lemma_code_round_trip, TravelType::lemma_code_round_trip, lemma_opt_fixed_round_trip, lemma_opt_u32_round_trip, lemma_opt_u16_round_trip, lemma_opt_u8_round_trip, lemma_opt_bool_round_trip, lemma_opt_str_round_trip, lemma_opt_directions_type_round_trip, lemma_opt_units_round_trip, lemma_opt_location_type_round_trip, lemma_opt_preferred_side_round_trip, lemma_opt_costing_models_round_trip, lemma_opt_bicyle_type_round_trip, lemma_opt_maneuver_type_round_trip, lemma_opt_travel_mode_round_trip, lemma_opt_travel_type_round_trip;

        v.lemma_wire_tags();
        assert(tag_value(v.wire_fields(), 1) == Some(fixed_data(v.min_lat))) by {
            broadcast use group_codec_lemmas;
        }
        assert(tag_value(v.wire_fields(), 2) == Some(fixed_data(v.min_lon))) by {
            broadcast use group_codec_lemmas;
        }
        assert(tag_value(v.wire_fields(), 3) == Some(fixed_data(v.max_lat))) by {
            broadcast use group_codec_lemmas;
        }
        assert(tag_value(v.wire_fields(), 4) == Some(fixed_data(v.max_lon))) by {
            broadcast use group_codec_lemmas;
        }
        assert(tag_value(v.wire_fields(), 5) == Some(fixed_data(v.time))) by {
            broadcast use group_codec_lemmas;
        }
        assert(tag_value(v.wire_fields(), 6) == Some(fixed_data(v.length))) by {
            broadcast use group_codec_lemmas;
        }
    }

    /// Decoding a value's nested message gives back an equal value.
    pub proof fn lemma_msg_round_trip(v: Summary)
        requires
            v.msg_fits(),
        ensures
            Self::msg_decodable(v.msg_data()),
            forall|w: Summary| Self::msg_decodes(v.msg_data(), w) ==> w.same_as(v),
    {
        lemma_wire_round_trip(v.wire_fields());
        Self::lemma_round_trip(v);
    }

}

impl MatrixDistance {
    /// The fields this value is encoded as.
    pub open spec fn wire_fields(&self) -> Seq<(u32, WireData)> {
        Seq::empty()
            + opt_field(1, Some(fixed_data(self.distance)))
            + opt_field(2, Some(fixed_data(self.time)))
            + opt_field(3, Some(uint_data(self.to_index as u64)))
            + opt_field(4, Some(uint_data(self.from_index as u64)))
    }

    /// This value as a nested message.
    pub open spec fn msg_data(&self) -> WireData {
        WireData::Bytes(message_bytes(self.wire_fields()))
    }

    /// The values as nested messages.
    pub open spec fn msg_data_seq(xs: Seq<MatrixDistance>) -> Seq<WireData> {
        xs.map_values(|x: MatrixDistance| x.msg_data())
    }

    /// `fs` holds a `MatrixDistance`: known tags, every required field present, every field of its kind.
    pub open spec fn wire_decodable(fs: Seq<(u32, WireData)>) -> bool {
        &&& tags_within(fs, 4)
        &&& tag_value(fs, 1) matches Some(d) && fixed_of(d) is Some
        &&& tag_value(fs, 2) matches Some(d) && fixed_of(d) is Some
        &&& tag_value(fs, 3) matches Some(d) && uint_of(d, usize::MAX as u64) is Some
        &&& tag_value(fs, 4) matches Some(d) && uint_of(d, usize::MAX as u64) is Some
    }

    /// `w` is what `fs` holds.
    pub open spec fn decodes_from(fs: Seq<(u32, WireData)>, w: MatrixDistance) -> bool {
        &&& tag_value(fs, 1) matches Some(d) && fixed_of(d) == Some(w.distance)
        &&& tag_value(fs, 2) matches Some(d) && fixed_of(d) == Some(w.time)
        &&& tag_value(fs, 3) matches Some(d) && uint_of(d, usize::MAX as u64) == Some(w.to_index as u64)
        &&& tag_value(fs, 4) matches Some(d) && uint_of(d, usize::MAX as u64) == Some(w.from_index as u64)
    }

    /// `d` is a nested message that holds a `MatrixDistance`.
    pub open spec fn msg_decodable(d: WireData) -> bool {
        &&& d is Bytes
        &&& parse_message(d->Bytes_0, 0) matches Some(fs) && Self::wire_decodable(fs)
    }

    /// `w` is what the nested message `d` holds.
    pub open spec fn msg_decodes(d: WireData, w: MatrixDistance) -> bool {
        &&& d is Bytes
        &&& parse_message(d->Bytes_0, 0) matches Some(fs) && Self::decodes_from(fs, w)
    }

    /// The two values agree in every field.
    pub open spec fn same_as(self, o: MatrixDistance) -> bool {
        &&& self.distance == o.distance
        &&& self.time == o.time
        &&& self.to_index == o.to_index
        &&& self.from_index == o.from_index
    }

    /// The two sequences agree element by element.
    pub open spec fn same_seq(a: Seq<MatrixDistance>, b: Seq<MatrixDistance>) -> bool {
        &&& a.len() == b.len()
        &&& forall|i: int| 0 <= i < a.len() ==> (#[trigger] a[i]).same_as(b[i])
    }

    /// Every nested message of this value fits a length prefix.
    pub open spec fn wire_fits(&self) -> bool {
        true
    }

    /// This value's encoding as a nested message can be decoded.
    pub open spec fn msg_fits(&self) -> bool {
        fields_ok(self.wire_fields()) && self.wire_fits()
    }

    /// Every value of the sequence fits.
    pub open spec fn seq_fits(xs: Seq<MatrixDistance>) -> bool {
        forall|i: int| 0 <= i < xs.len() ==> (#[trigger] xs[i]).msg_fits()
    }

    pub proof fn lemma_wire_tags(&self)
        ensures
            tags_within(self.wire_fields(), 4),
    {
        broadcast use group_codec_lemmas;

        assert(tags_within(Seq::<(u32, WireData)>::empty(), 4));
        lemma_tags_widen(opt_field(1, Some(fixed_data(self.distance))), 1, 4);
        lemma_tags_widen(opt_field(2, Some(fixed_data(self.time))), 2, 4);
        lemma_tags_widen(opt_field(3, Some(uint_data(self.to_index as u64))), 3, 4);
        lemma_tags_widen(opt_field(4, Some(uint_data(self.from_index as u64))), 4, 4);
    }

    /// The fields this value is encoded as.
    pub fn to_wire_fields(&self) -> (r: Vec<WireField>)
        ensures
            fields_view(r@) == self.wire_fields(),
    {
        let mut fs: Vec<WireField> = Vec::new();
        assert(fields_view(fs@) =~= Seq::<(u32, WireData)>::empty());
        let ghost before = fields_view(fs@);
        fs.push(WireField { tag: 1, value: fixed_value(self.distance) });
        assert(fields_view(fs@) =~= before + opt_field(1, Some(fixed_data(self.distance))));
        let ghost before = fields_view(fs@);
        fs.push(WireField { tag: 2, value: fixed_value(self.time) });
        assert(fields_view(fs@) =~= before + opt_field(2, Some(fixed_data(self.time))));
        let ghost before = fields_view(fs@);
        fs.push(WireField { tag: 3, value: uint_value(self.to_index as u64) });
        assert(fields_view(fs@) =~= before + opt_field(3, Some(uint_data(self.to_index as u64))));
        let ghost before = fields_view(fs@);
        fs.push(WireField { tag: 4, value: uint_value(self.from_index as u64) });
        assert(fields_view(fs@) =~= before + opt_field(4, Some(uint_data(self.from_index as u64))));
        fs
    }

    /// This value as a nested message.
    pub fn to_wire_value(&self) -> (r: WireValue)
        ensures
            r@ == self.msg_data(),
    {
        let fs = self.to_wire_fields();
        proof {
            self.lemma_wire_tags();
        }
        WireValue::Bytes(encode_message(&fs))
    }

    /// Appends one field with tag `t` per value.
    pub fn push_all(xs: &Vec<MatrixDistance>, t: u32, fs: &mut Vec<WireField>)
        ensures
            fields_view(final(fs)@) == fields_view(old(fs)@) + rep_field(t, Self::msg_data_seq(xs@)),
    {
        let ghost start = fields_view(fs@);
        let mut i: usize = 0;
        while i < xs.len()
            invariant
                i <= xs@.len(),
                fields_view(fs@) == start + rep_field(t, Self::msg_data_seq(xs@.subrange(0, i as int))),
            decreases xs@.len() - i,
        {
            let ghost pre = fields_view(fs@);
            let value = xs[i].to_wire_value();
            fs.push(WireField { tag: t, value });
            proof {
                assert(Self::msg_data_seq(xs@.subrange(0, i + 1)) =~= Self::msg_data_seq(
                    xs@.subrange(0, i as int),
                ).push(xs@[i as int].msg_data()));
                assert(fields_view(fs@) =~= pre.push((t, xs@[i as int].msg_data())));
                assert(rep_field(t, Self::msg_data_seq(xs@.subrange(0, i + 1))) =~= rep_field(
                    t,
                    Self::msg_data_seq(xs@.subrange(0, i as int)),
                ).push((t, xs@[i as int].msg_data())));
            }
            i += 1;
        }
        assert(xs@.subrange(0, xs@.len() as int) =~= xs@);
    }

    /// The `MatrixDistance` that `fs` holds.
    pub fn from_wire_fields(fs: &Vec<WireField>) -> (r: Result<MatrixDistance, CodecError>)
        ensures
            r is Ok <==> Self::wire_decodable(fields_view(fs@)),
            r matches Ok(w) ==> Self::decodes_from(fields_view(fs@), w),
    {
        check_tags(fs, 4)?;
        let distance = match last_with_tag(fs, 1) {
            Some(v) => match read_fixed(v) {
                Some(x) => x,
                None => return Err(CodecError::BadValue(1)),
            },
            None => return Err(CodecError::MissingField(1)),
        };
        let time = match last_with_tag(fs, 2) {
            Some(v) => match read_fixed(v) {
                Some(x) => x,
                None => return Err(CodecError::BadValue(2)),
            },
            None => return Err(CodecError::MissingField(2)),
        };
        let to_index = match last_with_tag(fs, 3) {
            Some(v) => match read_uint(v, usize::MAX as u64) {
                Some(x) => x as usize,
                None => return Err(CodecError::BadValue(3)),
            },
            None => return Err(CodecError::MissingField(3)),
        };
        let from_index = match last_with_tag(fs, 4) {
            Some(v) => match read_uint(v, usize::MAX as u64) {
                Some(x) => x as usize,
                None => return Err(CodecError::BadValue(4)),
            },
            None => return Err(CodecError::MissingField(4)),
        };
        Ok(MatrixDistance { distance, time, to_index, from_index })
    }

    /// The `MatrixDistance` that the nested message `v` holds.
    pub fn from_wire_value(v: &WireValue, t: u32) -> (r: Result<MatrixDistance, CodecError>)
        ensures
            r is Ok <==> Self::msg_decodable(v@),
            r matches Ok(w) ==> Self::msg_decodes(v@, w),
    {
        match v {
            WireValue::Bytes(b) => match decode_message(b.as_slice()) {
                Ok(fs) => Self::from_wire_fields(&fs),
                Err(e) => Err(CodecError::Wire(e)),
            },
            WireValue::Varint(_) => Err(CodecError::BadValue(t)),
        }
    }

    /// The values of all fields with tag `t`, each a nested `MatrixDistance`.
    pub fn read_all(fs: &Vec<WireField>, t: u32) -> (r: Result<Vec<MatrixDistance>, CodecError>)
        ensures
            r is Ok <==> forall|i: int| 0 <= i < tag_values(fields_view(fs@), t).len() ==> Self::msg_decodable(#[trigger] tag_values(fields_view(fs@), t)[i]),
            r matches Ok(ws) ==> ws@.len() == tag_values(fields_view(fs@), t).len() && forall|i: int| 0 <= i < ws@.len() ==> Self::msg_decodes(#[trigger] tag_values(fields_view(fs@), t)[i], ws@[i]),
    {
        let vs = all_with_tag(fs, t);
        let ghost ds = tag_values(fields_view(fs@), t);
        let mut ws: Vec<MatrixDistance> = Vec::new();
        let mut i: usize = 0;
        while i < vs.len()
            invariant
                i <= vs@.len(),
                ds == tag_values(fields_view(fs@), t),
                vs@.len() == ds.len(),
                forall|k: int| 0 <= k < vs@.len() ==> (#[trigger] vs@[k])@ == ds[k],
                ws@.len() == i,
                forall|k: int| 0 <= k < i ==> Self::msg_decodable(#[trigger] ds[k]),
                forall|k: int| 0 <= k < i ==> Self::msg_decodes(#[trigger] ds[k], ws@[k]),
            decreases vs@.len() - i,
        {
            let w = match Self::from_wire_value(vs[i], t) {
                Ok(w) => w,
                Err(e) => {
                    assert(!Self::msg_decodable(ds[i as int]));
                    assert(!(forall|k: int| 0 <= k < ds.len() ==> Self::msg_decodable(#[trigger] ds[k])));
                    return Err(e);
                },
            };
            ws.push(w);
            i += 1;
        }
        Ok(ws)
    }

    /// Decoding the fields of a value gives back an equal value.
    #[verifier::rlimit(100)]
    #[verifier::spinoff_prover]
    pub proof fn lemma_round_trip(v: MatrixDistance)
        requires
            v.wire_fits(),
        ensures
            Self::wire_decodable(v.wire_fields()),
            forall|w: MatrixDistance| Self::decodes_from(v.wire_fields(), w) ==> w.same_as(v),
    {
        broadcast use lemma_zigzag_round_trip, lemma_str_round_trip, DirectionsType::lemma_code_round_trip, Units::lemma_code_round_trip, LocationType::lemma_code_round_trip, PreferredSide::lemma_code_round_trip, CostingModels::lemma_code_round_trip, BicyleType::lemma_code_round_trip, ManeuverType::lemma_code_round_trip, TravelMode::lemma_code_round_trip, TravelType::lemma_code_round_trip, lemma_opt_fixed_round_trip, lemma_opt_u32_round_trip, lemma_opt_u16_round_trip, lemma_opt_u8_round_trip, lemma_opt_bool_round_trip, lemma_opt_str_round_trip, lemma_opt_directions_type_round_trip, lemma_opt_units_round_trip, lemma_opt_location_type_round_trip, lemma_opt_preferred_side_round_trip, lemma_opt_costing_models_round_trip, lemma_opt_bicyle_type_round_trip, lemma_opt_maneuver_type_round_trip, lemma_opt_travel_mode_round_trip, lemma_opt_travel_type_round_trip;

        v.lemma_wire_tags();
        assert(tag_value(v.wire_fields(), 1) == Some(fixed_data(v.distance))) by {
            broadcast use group_codec_lemmas;
        }
        assert(tag_value(v.wire_fields(), 2) == Some(fixed_data(v.time))) by {
            broadcast use group_codec_lemmas;
        }
        assert(tag_value(v.wire_fields(), 3) == Some(uint_data(v.to_index as u64))) by {
            broadcast use group_codec_lemmas;
        }
        assert(tag_value(v.wire_fields(), 4) == Some(uint_data(v.from_index as u64))) by {
            broadcast use group_codec_lemmas;
        }
    }

    /// Decoding a value's nested message gives back an equal value.
    pub proof fn lemma_msg_round_trip(v: MatrixDistance)
        requires
            v.msg_fits(),
        ensures
            Self::msg_decodable(v.msg_data()),
            forall|w: MatrixDistance| Self::msg_decodes(v.msg_data(), w) ==> w.same_as(v),
    {
        lemma_wire_round_trip(v.wire_fields());
        Self::lemma_round_trip(v);
    }

    pub proof fn lemma_seq_round_trip(xs: Seq<MatrixDistance>)
        requires
            Self::seq_fits(xs),
        ensures
            forall|i: int| 0 <= i < xs.len() ==> Self::msg_decodable(#[trigger] Self::msg_data_seq(xs)[i]),
            forall|ws: Seq<MatrixDistance>| ws.len() == xs.len() && (forall|i: int| 0 <= i < xs.len() ==> Self::msg_decodes(#[trigger] Self::msg_data_seq(xs)[i], ws[i])) ==> Self::same_seq(ws, xs),
    {
        assert forall|i: int| 0 <= i < xs.len() implies Self::msg_decodable(#[trigger] Self::msg_data_seq(xs)[i]) && (forall|w: MatrixDistance| Self::msg_decodes(Self::msg_data_seq(xs)[i], w) ==> w.same_as(xs[i])) by {
            assert(xs[i].msg_fits());
            Self::lemma_msg_round_trip(xs[i]);
        }
        assert forall|ws: Seq<MatrixDistance>| ws.len() == xs.len() && (forall|i: int| 0 <= i < xs.len() ==> Self::msg_decodes(#[trigger] Self::msg_data_seq(xs)[i], ws[i])) implies Self::same_seq(ws, xs) by {
            assert forall|i: int| 0 <= i < ws.len() implies (#[trigger] ws[i]).same_as(xs[i]) by {
                assert(Self::msg_decodes(Self::msg_data_seq(xs)[i], ws[i]));
            }
        }
    }

    /// A list of values as a nested message.
    pub open spec fn list_data(xs: Seq<MatrixDistance>) -> WireData {
        WireData::Bytes(message_bytes(rep_field(1, Self::msg_data_seq(xs))))
    }

    /// Lists of values, each as a nested message.
    pub open spec fn list_data_seq(xss: Seq<Vec<MatrixDistance>>) -> Seq<WireData> {
        xss.map_values(|xs: Vec<MatrixDistance>| Self::list_data(xs@))
    }

    /// `d` is a nested message that holds a list of values.
    pub open spec fn list_decodable(d: WireData) -> bool {
        &&& d is Bytes
        &&& parse_message(d->Bytes_0, 0) matches Some(fs) && tags_within(fs, 1) && forall|i: int| 0 <= i < tag_values(fs, 1).len() ==> Self::msg_decodable(#[trigger] tag_values(fs, 1)[i])
    }

    /// `ws` is the list that the nested message `d` holds.
    pub open spec fn list_decodes(d: WireData, ws: Seq<MatrixDistance>) -> bool {
        &&& d is Bytes
        &&& parse_message(d->Bytes_0, 0) matches Some(fs) && ws.len() == tag_values(fs, 1).len() && forall|i: int| 0 <= i < ws.len() ==> Self::msg_decodes(#[trigger] tag_values(fs, 1)[i], ws[i])
    }

    /// The list's encoding as a nested message can be decoded.
    pub open spec fn list_fits(xs: Seq<MatrixDistance>) -> bool {
        fields_ok(rep_field(1, Self::msg_data_seq(xs))) && Self::seq_fits(xs)
    }

    /// A list of values as a nested message.
    pub fn list_to_wire_value(xs: &Vec<MatrixDistance>) -> (r: WireValue)
        ensures
            r@ == Self::list_data(xs@),
    {
        let mut fs: Vec<WireField> = Vec::new();
        Self::push_all(xs, 1, &mut fs);
        assert(Seq::<(u32, WireData)>::empty() + rep_field(1, Self::msg_data_seq(xs@)) =~= rep_field(1, Self::msg_data_seq(xs@)));
        WireValue::Bytes(encode_message(&fs))
    }

    /// The list that the nested message `v` holds.
    pub fn list_from_wire_value(v: &WireValue, t: u32) -> (r: Result<Vec<MatrixDistance>, CodecError>)
        ensures
            r is Ok <==> Self::list_decodable(v@),
            r matches Ok(ws) ==> Self::list_decodes(v@, ws@),
    {
        match v {
            WireValue::Bytes(b) => match decode_message(b.as_slice()) {
                Ok(fs) => {
                    check_tags(&fs, 1)?;
                    Self::read_all(&fs, 1)
                },
                Err(e) => Err(CodecError::Wire(e)),
            },
            WireValue::Varint(_) => Err(CodecError::BadValue(t)),
        }
    }

    /// Appends one field with tag `t` per list.
    pub fn push_all_lists(xss: &Vec<Vec<MatrixDistance>>, t: u32, fs: &mut Vec<WireField>)
        ensures
            fields_view(final(fs)@) == fields_view(old(fs)@) + rep_field(t, Self::list_data_seq(xss@)),
    {
        let ghost start = fields_view(fs@);
        let mut i: usize = 0;
        while i < xss.len()
            invariant
                i <= xss@.len(),
                fields_view(fs@) == start + rep_field(t, Self::list_data_seq(xss@.subrange(0, i as int))),
            decreases xss@.len() - i,
        {
            let ghost pre = fields_view(fs@);
            let value = Self::list_to_wire_value(&xss[i]);
            fs.push(WireField { tag: t, value });
            proof {
                assert(Self::list_data_seq(xss@.subrange(0, i + 1)) =~= Self::list_data_seq(
                    xss@.subrange(0, i as int),
                ).push(Self::list_data(xss@[i as int]@)));
                assert(fields_view(fs@) =~= pre.push((t, Self::list_data(xss@[i as int]@))));
                assert(rep_field(t, Self::list_data_seq(xss@.subrange(0, i + 1))) =~= rep_field(
                    t,
                    Self::list_data_seq(xss@.subrange(0, i as int)),
                ).push((t, Self::list_data(xss@[i as int]@))));
            }
            i += 1;
        }
        assert(xss@.subrange(0, xss@.len() as int) =~= xss@);
    }

    /// The lists that the fields with tag `t` hold.
    pub fn read_all_lists(fs: &Vec<WireField>, t: u32) -> (r: Result<Vec<Vec<MatrixDistance>>, CodecError>)
        ensures
            r is Ok <==> forall|i: int| 0 <= i < tag_values(fields_view(fs@), t).len() ==> Self::list_decodable(#[trigger] tag_values(fields_view(fs@), t)[i]),
            r matches Ok(ws) ==> ws@.len() == tag_values(fields_view(fs@), t).len() && forall|i: int| 0 <= i < ws@.len() ==> Self::list_decodes(#[trigger] tag_values(fields_view(fs@), t)[i], ws@[i]@),
    {
        let vs = all_with_tag(fs, t);
        let ghost ds = tag_values(fields_view(fs@), t);
        let mut ws: Vec<Vec<MatrixDistance>> = Vec::new();
        let mut i: usize = 0;
        while i < vs.len()
            invariant
                i <= vs@.len(),
                ds == tag_values(fields_view(fs@), t),
                vs@.len() == ds.len(),
                forall|k: int| 0 <= k < vs@.len() ==> (#[trigger] vs@[k])@ == ds[k],
                ws@.len() == i,
                forall|k: int| 0 <= k < i ==> Self::list_decodable(#[trigger] ds[k]),
                forall|k: int| 0 <= k < i ==> Self::list_decodes(#[trigger] ds[k], ws@[k]@),
            decreases vs@.len() - i,
        {
            let w = match Self::list_from_wire_value(vs[i], t) {
                Ok(w) => w,
                Err(e) => {
                    assert(!Self::list_decodable(ds[i as int]));
                    assert(!(forall|k: int| 0 <= k < ds.len() ==> Self::list_decodable(#[trigger] ds[k])));
                    return Err(e);
                },
            };
            ws.push(w);
            i += 1;
        }
        Ok(ws)
    }

    pub proof fn lemma_list_round_trip(xs: Seq<MatrixDistance>)
        requires
            Self::list_fits(xs),
        ensures
            Self::list_decodable(Self::list_data(xs)),
            forall|ws: Seq<MatrixDistance>| Self::list_decodes(Self::list_data(xs), ws) ==> Self::same_seq(ws, xs),
    {
        broadcast use group_codec_lemmas;

        let fs = rep_field(1, Self::msg_data_seq(xs));
        lemma_wire_round_trip(fs);
        Self::lemma_seq_round_trip(xs);
        assert(tag_values(fs, 1) == Self::msg_data_seq(xs));
    }

    pub proof fn lemma_lists_round_trip(xss: Seq<Vec<MatrixDistance>>)
        requires
            forall|i: int| 0 <= i < xss.len() ==> Self::list_fits((#[trigger] xss[i])@),
        ensures
            forall|i: int| 0 <= i < xss.len() ==> Self::list_decodable(#[trigger] Self::list_data_seq(xss)[i]),
            forall|ws: Seq<Vec<MatrixDistance>>| ws.len() == xss.len() && (forall|i: int| 0 <= i < xss.len() ==> Self::list_decodes(#[trigger] Self::list_data_seq(xss)[i], ws[i]@)) ==> (forall|i: int| 0 <= i < xss.len() ==> Self::same_seq((#[trigger] ws[i])@, xss[i]@)),
    {
        assert forall|i: int| 0 <= i < xss.len() implies Self::list_decodable(#[trigger] Self::list_data_seq(xss)[i]) && (forall|ws: Seq<MatrixDistance>| Self::list_decodes(Self::list_data_seq(xss)[i], ws) ==> Self::same_seq(ws, xss[i]@)) by {
            Self::lemma_list_round_trip(xss[i]@);
        }
        assert forall|ws: Seq<Vec<MatrixDistance>>| ws.len() == xss.len() && (forall|i: int| 0 <= i < xss.len() ==> Self::list_decodes(#[trigger] Self::list_data_seq(xss)[i], ws[i]@)) implies (forall|i: int| 0 <= i < xss.len() ==> Self::same_seq((#[trigger] ws[i])@, xss[i]@)) by {
            assert forall|i: int| 0 <= i < xss.len() implies Self::same_seq((#[trigger] ws[i])@, xss[i]@) by {
                assert(Self::list_decodes(Self::list_data_seq(xss)[i], ws[i]@));
            }
        }
    }

}

impl RangeHeight {
    /// The fields this value is encoded as.
    pub open spec fn wire_fields(&self) -> Seq<(u32, WireData)> {
        Seq::empty()
            + opt_field(1, Some(fixed_data(self.range)))
            + opt_field(2, Some(fixed_data(self.height)))
    }

    /// This value as a nested message.
    pub open spec fn msg_data(&self) -> WireData {
        WireData::Bytes(message_bytes(self.wire_fields()))
    }

    /// The values as nested messages.
    pub open spec fn msg_data_seq(xs: Seq<RangeHeight>) -> Seq<WireData> {
        xs.map_values(|x: RangeHeight| x.msg_data())
    }

    /// `fs` holds a `RangeHeight`: known tags, every required field present, every field of its kind.
    pub open spec fn wire_decodable(fs: Seq<(u32, WireData)>) -> bool {
        &&& tags_within(fs, 2)
        &&& tag_value(fs, 1) matches Some(d) && fixed_of(d) is Some
        &&& tag_value(fs, 2) matches Some(d) && fixed_of(d) is Some
    }

    /// `w` is what `fs` holds.
    pub open spec fn decodes_from(fs: Seq<(u32, WireData)>, w: RangeHeight) -> bool {
        &&& tag_value(fs, 1) matches Some(d) && fixed_of(d) == Some(w.range)
        &&& tag_value(fs, 2) matches Some(d) && fixed_of(d) == Some(w.height)
    }

    /// `d` is a nested message that holds a `RangeHeight`.
    pub open spec fn msg_decodable(d: WireData) -> bool {
        &&& d is Bytes
        &&& parse_message(d->Bytes_0, 0) matches Some(fs) && Self::wire_decodable(fs)
    }

    /// `w` is what the nested message `d` holds.
    pub open spec fn msg_decodes(d: WireData, w: RangeHeight) -> bool {
        &&& d is Bytes
        &&& parse_message(d->Bytes_0, 0) matches Some(fs) && Self::decodes_from(fs, w)
    }

    /// The two values agree in every field.
    pub open spec fn same_as(self, o: RangeHeight) -> bool {
        &&& self.range == o.range
        &&& self.height == o.height
    }

    /// The two sequences agree element by element.
    pub open spec fn same_seq(a: Seq<RangeHeight>, b: Seq<RangeHeight>) -> bool {
        &&& a.len() == b.len()
        &&& forall|i: int| 0 <= i < a.len() ==> (#[trigger] a[i]).same_as(b[i])
    }

    /// Every nested message of this value fits a length prefix.
    pub open spec fn wire_fits(&self) -> bool {
        true
    }

    /// This value's encoding as a nested message can be decoded.
    pub open spec fn msg_fits(&self) -> bool {
        fields_ok(self.wire_fields()) && self.wire_fits()
    }

    /// Every value of the sequence fits.
    pub open spec fn seq_fits(xs: Seq<RangeHeight>) -> bool {
        forall|i: int| 0 <= i < xs.len() ==> (#[trigger] xs[i]).msg_fits()
    }

    pub proof fn lemma_wire_tags(&self)
        ensures
            tags_within(self.wire_fields(), 2),
    {
        broadcast use group_codec_lemmas;

        assert(tags_within(Seq::<(u32, WireData)>::empty(), 2));
        lemma_tags_widen(opt_field(1, Some(fixed_data(self.range))), 1, 2);
        lemma_tags_widen(opt_field(2, Some(fixed_data(self.height))), 2, 2);
    }

    /// The fields this value is encoded as.
    pub fn to_wire_fields(&self) -> (r: Vec<WireField>)
        ensures
            fields_view(r@) == self.wire_fields(),
    {
        let mut fs: Vec<WireField> = Vec::new();
        assert(fields_view(fs@) =~= Seq::<(u32, WireData)>::empty());
        let ghost before = fields_view(fs@);
        fs.push(WireField { tag: 1, value: fixed_value(self.range) });
        assert(fields_view(fs@) =~= before + opt_field(1, Some(fixed_data(self.range))));
        let ghost before = fields_view(fs@);
        fs.push(WireField { tag: 2, value: fixed_value(self.height) });
        assert(fields_view(fs@) =~= before + opt_field(2, Some(fixed_data(self.height))));
        fs
    }

    /// This value as a nested message.
    pub fn to_wire_value(&self) -> (r: WireValue)
        ensures
            r@ == self.msg_data(),
    {
        let fs = self.to_wire_fields();
        proof {
            self.lemma_wire_tags();
        }
        WireValue::Bytes(encode_message(&fs))
    }

    /// Appends one field with tag `t` per value.
    pub fn push_all(xs: &Vec<RangeHeight>, t: u32, fs: &mut Vec<WireField>)
        ensures
            fields_view(final(fs)@) == fields_view(old(fs)@) + rep_field(t, Self::msg_data_seq(xs@)),
    {
        let ghost start = fields_view(fs@);
        let mut i: usize = 0;
        while i < xs.len()
            invariant
                i <= xs@.len(),
                fields_view(fs@) == start + rep_field(t, Self::msg_data_seq(xs@.subrange(0, i as int))),
            decreases xs@.len() - i,
        {
            let ghost pre = fields_view(fs@);
            let value = xs[i].to_wire_value();
            fs.push(WireField { tag: t, value });
            proof {
                assert(Self::msg_data_seq(xs@.subrange(0, i + 1)) =~= Self::msg_data_seq(
                    xs@.subrange(0, i as int),
                ).push(xs@[i as int].msg_data()));
                assert(fields_view(fs@) =~= pre.push((t, xs@[i as int].msg_data())));
                assert(rep_field(t, Self::msg_data_seq(xs@.subrange(0, i + 1))) =~= rep_field(
                    t,
                    Self::msg_data_seq(xs@.subrange(0, i as int)),
                ).push((t, xs@[i as int].msg_data())));
            }
            i += 1;
        }
        assert(xs@.subrange(0, xs@.len() as int) =~= xs@);
    }

    /// The `RangeHeight` that `fs` holds.
    pub fn from_wire_fields(fs: &Vec<WireField>) -> (r: Result<RangeHeight, CodecError>)
        ensures
            r is Ok <==> Self::wire_decodable(fields_view(fs@)),
            r matches Ok(w) ==> Self::decodes_from(fields_view(fs@), w),
    {
        check_tags(fs, 2)?;
        let range = match last_with_tag(fs, 1) {
            Some(v) => match read_fixed(v) {
                Some(x) => x,
                None => return Err(CodecError::BadValue(1)),
            },
            None => return Err(CodecError::MissingField(1)),
        };
        let height = match last_with_tag(fs, 2) {
            Some(v) => match read_fixed(v) {
                Some(x) => x,
                None => return Err(CodecError::BadValue(2)),
            },
            None => return Err(CodecError::MissingField(2)),
        };
        Ok(RangeHeight { range, height })
    }

    /// The `RangeHeight` that the nested message `v` holds.
    pub fn from_wire_value(v: &WireValue, t: u32) -> (r: Result<RangeHeight, CodecError>)
        ensures
            r is Ok <==> Self::msg_decodable(v@),
            r matches Ok(w) ==> Self::msg_decodes(v@, w),
    {
        match v {
            WireValue::Bytes(b) => match decode_message(b.as_slice()) {
                Ok(fs) => Self::from_wire_fields(&fs),
                Err(e) => Err(CodecError::Wire(e)),
            },
            WireValue::Varint(_) => Err(CodecError::BadValue(t)),
        }
    }

    /// The values of all fields with tag `t`, each a nested `RangeHeight`.
    pub fn read_all(fs: &Vec<WireField>, t: u32) -> (r: Result<Vec<RangeHeight>, CodecError>)
        ensures
            r is Ok <==> forall|i: int| 0 <= i < tag_values(fields_view(fs@), t).len() ==> Self::msg_decodable(#[trigger] tag_values(fields_view(fs@), t)[i]),
            r matches Ok(ws) ==> ws@.len() == tag_values(fields_view(fs@), t).len() && forall|i: int| 0 <= i < ws@.len() ==> Self::msg_decodes(#[trigger] tag_values(fields_view(fs@), t)[i], ws@[i]),
    {
        let vs = all_with_tag(fs, t);
        let ghost ds = tag_values(fields_view(fs@), t);
        let mut ws: Vec<RangeHeight> = Vec::new();
        let mut i: usize = 0;
        while i < vs.len()
            invariant
                i <= vs@.len(),
                ds == tag_values(fields_view(fs@), t),
                vs@.len() == ds.len(),
                forall|k: int| 0 <= k < vs@.len() ==> (#[trigger] vs@[k])@ == ds[k],
                ws@.len() == i,
                forall|k: int| 0 <= k < i ==> Self::msg_decodable(#[trigger] ds[k]),
                forall|k: int| 0 <= k < i ==> Self::msg_decodes(#[trigger] ds[k], ws@[k]),
            decreases vs@.len() - i,
        {
            let w = match Self::from_wire_value(vs[i], t) {
                Ok(w) => w,
                Err(e) => {
                    assert(!Self::msg_decodable(ds[i as int]));
                    assert(!(forall|k: int| 0 <= k < ds.len() ==> Self::msg_decodable(#[trigger] ds[k])));
                    return Err(e);
                },
            };
            ws.push(w);
            i += 1;
        }
        Ok(ws)
    }

    /// Decoding the fields of a value gives back an equal value.
    #[verifier::rlimit(100)]
    #[verifier::spinoff_prover]
    pub proof fn lemma_round_trip(v: RangeHeight)
        requires
            v.wire_fits(),
        ensures
            Self::wire_decodable(v.wire_fields()),
            forall|w: RangeHeight| Self::decodes_from(v.wire_fields(), w) ==> w.same_as(v),
    {
        broadcast use lemma_zigzag_round_trip, lemma_str_round_trip, DirectionsType::lemma_code_round_trip, Units::lemma_code_round_trip, LocationType::lemma_code_round_trip, PreferredSide::lemma_code_round_trip, CostingModels::lemma_code_round_trip, BicyleType::lemma_code_round_trip, ManeuverType::lemma_code_round_trip, TravelMode::lemma_code_round_trip, TravelType::lemma_code_round_trip, lemma_opt_fixed_round_trip, lemma_opt_u32_round_trip, lemma_opt_u16_round_trip, lemma_opt_u8_round_trip, lemma_opt_bool_round_trip, lemma_opt_str_round_trip, lemma_opt_directions_type_round_trip, lemma_opt_units_round_trip, lemma_opt_location_type_round_trip, lemma_opt_preferred_side_round_trip, lemma_opt_costing_models_round_trip, lemma_opt_bicyle_type_round_trip, lemma_opt_maneuver_type_round_trip, lemma_opt_travel_mode_round_trip, lemma_opt_travel_type_round_trip;

        v.lemma_wire_tags();
        assert(tag_value(v.wire_fields(), 1) == Some(fixed_data(v.range))) by {
            broadcast use group_codec_lemmas;
        }
        assert(tag_value(v.wire_fields(), 2) == Some(fixed_data(v.height))) by {
            broadcast use group_codec_lemmas;
        }
    }

    /// Decoding a value's nested message gives back an equal value.
    pub proof fn lemma_msg_round_trip(v: RangeHeight)
        requires
            v.msg_fits(),
        ensures
            Self::msg_decodable(v.msg_data()),
            forall|w: RangeHeight| Self::msg_decodes(v.msg_data(), w) ==> w.same_as(v),
    {
        lemma_wire_round_trip(v.wire_fields());
        Self::lemma_round_trip(v);
    }

    pub proof fn lemma_seq_round_trip(xs: Seq<RangeHeight>)
        requires
            Self::seq_fits(xs),
        ensures
            forall|i: int| 0 <= i < xs.len() ==> Self::msg_decodable(#[trigger] Self::msg_data_seq(xs)[i]),
            forall|ws: Seq<RangeHeight>| ws.len() == xs.len() && (forall|i: int| 0 <= i < xs.len() ==> Self::msg_decodes(#[trigger] Self::msg_data_seq(xs)[i], ws[i])) ==> Self::same_seq(ws, xs),
    {
        assert forall|i: int| 0 <= i < xs.len() implies Self::msg_decodable(#[trigger] Self::msg_data_seq(xs)[i]) && (forall|w: RangeHeight| Self::msg_decodes(Self::msg_data_seq(xs)[i], w) ==> w.same_as(xs[i])) by {
            assert(xs[i].msg_fits());
            Self::lemma_msg_round_trip(xs[i]);
        }
        assert forall|ws: Seq<RangeHeight>| ws.len() == xs.len() && (forall|i: int| 0 <= i < xs.len() ==> Self::msg_decodes(#[trigger] Self::msg_data_seq(xs)[i], ws[i])) implies Self::same_seq(ws, xs) by {
            assert forall|i: int| 0 <= i < ws.len() implies (#[trigger] ws[i]).same_as(xs[i]) by {
                assert(Self::msg_decodes(Self::msg_data_seq(xs)[i], ws[i]));
            }
        }
    }

    /// A list of values as a nested message.
    pub open spec fn list_data(xs: Seq<RangeHeight>) -> WireData {
        WireData::Bytes(message_bytes(rep_field(1, Self::msg_data_seq(xs))))
    }

    /// Lists of values, each as a nested message.
    pub open spec fn list_data_seq(xss: Seq<Vec<RangeHeight>>) -> Seq<WireData> {
        xss.map_values(|xs: Vec<RangeHeight>| Self::list_data(xs@))
    }

    /// `d` is a nested message that holds a list of values.
    pub open spec fn list_decodable(d: WireData) -> bool {
        &&& d is Bytes
        &&& parse_message(d->Bytes_0, 0) matches Some(fs) && tags_within(fs, 1) && forall|i: int| 0 <= i < tag_values(fs, 1).len() ==> Self::msg_decodable(#[trigger] tag_values(fs, 1)[i])
    }

    /// `ws` is the list that the nested message `d` holds.
    pub open spec fn list_decodes(d: WireData, ws: Seq<RangeHeight>) -> bool {
        &&& d is Bytes
        &&& parse_message(d->Bytes_0, 0) matches Some(fs) && ws.len() == tag_values(fs, 1).len() && forall|i: int| 0 <= i < ws.len() ==> Self::msg_decodes(#[trigger] tag_values(fs, 1)[i], ws[i])
    }

    /// The list's encoding as a nested message can be decoded.
    pub open spec fn list_fits(xs: Seq<RangeHeight>) -> bool {
        fields_ok(rep_field(1, Self::msg_data_seq(xs))) && Self::seq_fits(xs)
    }

    /// A list of values as a nested message.
    pub fn list_to_wire_value(xs: &Vec<RangeHeight>) -> (r: WireValue)
        ensures
            r@ == Self::list_data(xs@),
    {
        let mut fs: Vec<WireField> = Vec::new();
        Self::push_all(xs, 1, &mut fs);
        assert(Seq::<(u32, WireData)>::empty() + rep_field(1, Self::msg_data_seq(xs@)) =~= rep_field(1, Self::msg_data_seq(xs@)));
        WireValue::Bytes(encode_message(&fs))
    }

    /// The list that the nested message `v` holds.
    pub fn list_from_wire_value(v: &WireValue, t: u32) -> (r: Result<Vec<RangeHeight>, CodecError>)
        ensures
            r is Ok <==> Self::list_decodable(v@),
            r matches Ok(ws) ==> Self::list_decodes(v@, ws@),
    {
        match v {
            WireValue::Bytes(b) => match decode_message(b.as_slice()) {
                Ok(fs) => {
                    check_tags(&fs, 1)?;
                    Self::read_all(&fs, 1)
                },
                Err(e) => Err(CodecError::Wire(e)),
            },
            WireValue::Varint(_) => Err(CodecError::BadValue(t)),
        }
    }

    /// Appends one field with tag `t` per list.
    pub fn push_all_lists(xss: &Vec<Vec<RangeHeight>>, t: u32, fs: &mut Vec<WireField>)
        ensures
            fields_view(final(fs)@) == fields_view(old(fs)@) + rep_field(t, Self::list_data_seq(xss@)),
    {
        let ghost start = fields_view(fs@);
        let mut i: usize = 0;
        while i < xss.len()
            invariant
                i <= xss@.len(),
                fields_view(fs@) == start + rep_field(t, Self::list_data_seq(xss@.subrange(0, i as int))),
            decreases xss@.len() - i,
        {
            let ghost pre = fields_view(fs@);
            let value = Self::list_to_wire_value(&xss[i]);
            fs.push(WireField { tag: t, value });
            proof {
                assert(Self::list_data_seq(xss@.subrange(0, i + 1)) =~= Self::list_data_seq(
                    xss@.subrange(0, i as int),
                ).push(Self::list_data(xss@[i as int]@)));
                assert(fields_view(fs@) =~= pre.push((t, Self::list_data(xss@[i as int]@))));
                assert(rep_field(t, Self::list_data_seq(xss@.subrange(0, i + 1))) =~= rep_field(
                    t,
                    Self::list_data_seq(xss@.subrange(0, i as int)),
                ).push((t, Self::list_data(xss@[i as int]@))));
            }
            i += 1;
        }
        assert(xss@.subrange(0, xss@.len() as int) =~= xss@);
    }

    /// The lists that the fields with tag `t` hold.
    pub fn read_all_lists(fs: &Vec<WireField>, t: u32) -> (r: Result<Vec<Vec<RangeHeight>>, CodecError>)
        ensures
            r is Ok <==> forall|i: int| 0 <= i < tag_values(fields_view(fs@), t).len() ==> Self::list_decodable(#[trigger] tag_values(fields_view(fs@), t)[i]),
            r matches Ok(ws) ==> ws@.len() == tag_values(fields_view(fs@), t).len() && forall|i: int| 0 <= i < ws@.len() ==> Self::list_decodes(#[trigger] tag_values(fields_view(fs@), t)[i], ws@[i]@),
    {
        let vs = all_with_tag(fs, t);
        let ghost ds = tag_values(fields_view(fs@), t);
        let mut ws: Vec<Vec<RangeHeight>> = Vec::new();
        let mut i: usize = 0;
        while i < vs.len()
            invariant
                i <= vs@.len(),
                ds == tag_values(fields_view(fs@), t),
                vs@.len() == ds.len(),
                forall|k: int| 0 <= k < vs@.len() ==> (#[trigger] vs@[k])@ == ds[k],
                ws@.len() == i,
                forall|k: int| 0 <= k < i ==> Self::list_decodable(#[trigger] ds[k]),
                forall|k: int| 0 <= k < i ==> Self::list_decodes(#[trigger] ds[k], ws@[k]@),
            decreases vs@.len() - i,
        {
            let w = match Self::list_from_wire_value(vs[i], t) {
                Ok(w) => w,
                Err(e) => {
                    assert(!Self::list_decodable(ds[i as int]));
                    assert(!(forall|k: int| 0 <= k < ds.len() ==> Self::list_decodable(#[trigger] ds[k])));
                    return Err(e);
                },
            };
            ws.push(w);
            i += 1;
        }
        Ok(ws)
    }

    pub proof fn lemma_list_round_trip(xs: Seq<RangeHeight>)
        requires
            Self::list_fits(xs),
        ensures
            Self::list_decodable(Self::list_data(xs)),
            forall|ws: Seq<RangeHeight>| Self::list_decodes(Self::list_data(xs), ws) ==> Self::same_seq(ws, xs),
    {
        broadcast use group_codec_lemmas;

        let fs = rep_field(1, Self::msg_data_seq(xs));
        lemma_wire_round_trip(fs);
        Self::lemma_seq_round_trip(xs);
        assert(tag_values(fs, 1) == Self::msg_data_seq(xs));
    }

    pub proof fn lemma_lists_round_trip(xss: Seq<Vec<RangeHeight>>)
        requires
            forall|i: int| 0 <= i < xss.len() ==> Self::list_fits((#[trigger] xss[i])@),
        ensures
            forall|i: int| 0 <= i < xss.len() ==> Self::list_decodable(#[trigger] Self::list_data_seq(xss)[i]),
            forall|ws: Seq<Vec<RangeHeight>>| ws.len() == xss.len() && (forall|i: int| 0 <= i < xss.len() ==> Self::list_decodes(#[trigger] Self::list_data_seq(xss)[i], ws[i]@)) ==> (forall|i: int| 0 <= i < xss.len() ==> Self::same_seq((#[trigger] ws[i])@, xss[i]@)),
    {
        assert forall|i: int| 0 <= i < xss.len() implies Self::list_decodable(#[trigger] Self::list_data_seq(xss)[i]) && (forall|ws: Seq<RangeHeight>| Self::list_decodes(Self::list_data_seq(xss)[i], ws) ==> Self::same_seq(ws, xss[i]@)) by {
            Self::lemma_list_round_trip(xss[i]@);
        }
        assert forall|ws: Seq<Vec<RangeHeight>>| ws.len() == xss.len() && (forall|i: int| 0 <= i < xss.len() ==> Self::list_decodes(#[trigger] Self::list_data_seq(xss)[i], ws[i]@)) implies (forall|i: int| 0 <= i < xss.len() ==> Self::same_seq((#[trigger] ws[i])@, xss[i]@)) by {
            assert forall|i: int| 0 <= i < xss.len() implies Self::same_seq((#[trigger] ws[i])@, xss[i]@) by {
                assert(Self::list_decodes(Self::list_data_seq(xss)[i], ws[i]@));
            }
        }
    }

}

impl Contour {
    /// The fields this value is encoded as.
    pub open spec fn wire_fields(&self) -> Seq<(u32, WireData)> {
        Seq::empty()
            + opt_field(1, Some(fixed_data(self.time)))
            + opt_field(2, opt_str_data(self.color))
    }

    /// This value as a nested message.
    pub open spec fn msg_data(&self) -> WireData {
        WireData::Bytes(message_bytes(self.wire_fields()))
    }

    /// The values as nested messages.
    pub open spec fn msg_data_seq(xs: Seq<Contour>) -> Seq<WireData> {
        xs.map_values(|x: Contour| x.msg_data())
    }

    /// `fs` holds a `Contour`: known tags, every required field present, every field of its kind.
    pub open spec fn wire_decodable(fs: Seq<(u32, WireData)>) -> bool {
        &&& tags_within(fs, 2)
        &&& tag_value(fs, 1) matches Some(d) && fixed_of(d) is Some
        &&& opt_str_of(tag_value(fs, 2)) is Some
    }

    /// `w` is what `fs` holds.
    pub open spec fn decodes_from(fs: Seq<(u32, WireData)>, w: Contour) -> bool {
        &&& tag_value(fs, 1) matches Some(d) && fixed_of(d) == Some(w.time)
        &&& opt_str_of(tag_value(fs, 2)) == Some(opt_str_view(w.color))
    }

    /// `d` is a nested message that holds a `Contour`.
    pub open spec fn msg_decodable(d: WireData) -> bool {
        &&& d is Bytes
        &&& parse_message(d->Bytes_0, 0) matches Some(fs) && Self::wire_decodable(fs)
    }

    /// `w` is what the nested message `d` holds.
    pub open spec fn msg_decodes(d: WireData, w: Contour) -> bool {
        &&& d is Bytes
        &&& parse_message(d->Bytes_0, 0) matches Some(fs) && Self::decodes_from(fs, w)
    }

    /// The two values agree in every field.
    pub open spec fn same_as(self, o: Contour) -> bool {
        &&& self.time == o.time
        &&& opt_str_view(self.color) == opt_str_view(o.color)
    }

    /// The two sequences agree element by element.
    pub open spec fn same_seq(a: Seq<Contour>, b: Seq<Contour>) -> bool {
        &&& a.len() == b.len()
        &&& forall|i: int| 0 <= i < a.len() ==> (#[trigger] a[i]).same_as(b[i])
    }

    /// Every nested message of this value fits a length prefix.
    pub open spec fn wire_fits(&self) -> bool {
        true
    }

    /// This value's encoding as a nested message can be decoded.
    pub open spec fn msg_fits(&self) -> bool {
        fields_ok(self.wire_fields()) && self.wire_fits()
    }

    /// Every value of the sequence fits.
    pub open spec fn seq_fits(xs: Seq<Contour>) -> bool {
        forall|i: int| 0 <= i < xs.len() ==> (#[trigger] xs[i]).msg_fits()
    }

    pub proof fn lemma_wire_tags(&self)
        ensures
            tags_within(self.wire_fields(), 2),
    {
        broadcast use group_codec_lemmas;

        assert(tags_within(Seq::<(u32, WireData)>::empty(), 2));
        lemma_tags_widen(opt_field(1, Some(fixed_data(self.time))), 1, 2);
        lemma_tags_widen(opt_field(2, opt_str_data(self.color)), 2, 2);
    }

    /// The fields this value is encoded as.
    pub fn to_wire_fields(&self) -> (r: Vec<WireField>)
        ensures
            fields_view(r@) == self.wire_fields(),
    {
        let mut fs: Vec<WireField> = Vec::new();
        assert(fields_view(fs@) =~= Seq::<(u32, WireData)>::empty());
        let ghost before = fields_view(fs@);
        fs.push(WireField { tag: 1, value: fixed_value(self.time) });
        assert(fields_view(fs@) =~= before + opt_field(1, Some(fixed_data(self.time))));
        let ghost before = fields_view(fs@);
        push_opt_str(&mut fs, 2, &self.color);
        assert(fields_view(fs@) =~= before + opt_field(2, opt_str_data(self.color)));
        fs
    }

    /// This value as a nested message.
    pub fn to_wire_value(&self) -> (r: WireValue)
        ensures
            r@ == self.msg_data(),
    {
        let fs = self.to_wire_fields();
        proof {
            self.lemma_wire_tags();
        }
        WireValue::Bytes(encode_message(&fs))
    }

    /// Appends one field with tag `t` per value.
    pub fn push_all(xs: &Vec<Contour>, t: u32, fs: &mut Vec<WireField>)
        ensures
            fields_view(final(fs)@) == fields_view(old(fs)@) + rep_field(t, Self::msg_data_seq(xs@)),
    {
        let ghost start = fields_view(fs@);
        let mut i: usize = 0;
        while i < xs.len()
            invariant
                i <= xs@.len(),
                fields_view(fs@) == start + rep_field(t, Self::msg_data_seq(xs@.subrange(0, i as int))),
            decreases xs@.len() - i,
        {
            let ghost pre = fields_view(fs@);
            let value = xs[i].to_wire_value();
            fs.push(WireField { tag: t, value });
            proof {
                assert(Self::msg_data_seq(xs@.subrange(0, i + 1)) =~= Self::msg_data_seq(
                    xs@.subrange(0, i as int),
                ).push(xs@[i as int].msg_data()));
                assert(fields_view(fs@) =~= pre.push((t, xs@[i as int].msg_data())));
                assert(rep_field(t, Self::msg_data_seq(xs@.subrange(0, i + 1))) =~= rep_field(
                    t,
                    Self::msg_data_seq(xs@.subrange(0, i as int)),
                ).push((t, xs@[i as int].msg_data())));
            }
            i += 1;
        }
        assert(xs@.subrange(0, xs@.len() as int) =~= xs@);
    }

    /// The `Contour` that `fs` holds.
    pub fn from_wire_fields(fs: &Vec<WireField>) -> (r: Result<Contour, CodecError>)
        ensures
            r is Ok <==> Self::wire_decodable(fields_view(fs@)),
            r matches Ok(w) ==> Self::decodes_from(fields_view(fs@), w),
    {
        check_tags(fs, 2)?;
        let time = match last_with_tag(fs, 1) {
            Some(v) => match read_fixed(v) {
                Some(x) => x,
                None => return Err(CodecError::BadValue(1)),
            },
            None => return Err(CodecError::MissingField(1)),
        };
        let color = read_opt_str(fs, 2)?;
        Ok(Contour { time, color })
    }

    /// The `Contour` that the nested message `v` holds.
    pub fn from_wire_value(v: &WireValue, t: u32) -> (r: Result<Contour, CodecError>)
        ensures
            r is Ok <==> Self::msg_decodable(v@),
            r matches Ok(w) ==> Self::msg_decodes(v@, w),
    {
        match v {
            WireValue::Bytes(b) => match decode_message(b.as_slice()) {
                Ok(fs) => Self::from_wire_fields(&fs),
                Err(e) => Err(CodecError::Wire(e)),
            },
            WireValue::Varint(_) => Err(CodecError::BadValue(t)),
        }
    }

    /// The values of all fields with tag `t`, each a nested `Contour`.
    pub fn read_all(fs: &Vec<WireField>, t: u32) -> (r: Result<Vec<Contour>, CodecError>)
        ensures
            r is Ok <==> forall|i: int| 0 <= i < tag_values(fields_view(fs@), t).len() ==> Self::msg_decodable(#[trigger] tag_values(fields_view(fs@), t)[i]),
            r matches Ok(ws) ==> ws@.len() == tag_values(fields_view(fs@), t).len() && forall|i: int| 0 <= i < ws@.len() ==> Self::msg_decodes(#[trigger] tag_values(fields_view(fs@), t)[i], ws@[i]),
    {
        let vs = all_with_tag(fs, t);
        let ghost ds = tag_values(fields_view(fs@), t);
        let mut ws: Vec<Contour> = Vec::new();
        let mut i: usize = 0;
        while i < vs.len()
            invariant
                i <= vs@.len(),
                ds == tag_values(fields_view(fs@), t),
                vs@.len() == ds.len(),
                forall|k: int| 0 <= k < vs@.len() ==> (#[trigger] vs@[k])@ == ds[k],
                ws@.len() == i,
                forall|k: int| 0 <= k < i ==> Self::msg_decodable(#[trigger] ds[k]),
                forall|k: int| 0 <= k < i ==> Self::msg_decodes(#[trigger] ds[k], ws@[k]),
            decreases vs@.len() - i,
        {
            let w = match Self::from_wire_value(vs[i], t) {
                Ok(w) => w,
                Err(e) => {
                    assert(!Self::msg_decodable(ds[i as int]));
                    assert(!(forall|k: int| 0 <= k < ds.len() ==> Self::msg_decodable(#[trigger] ds[k])));
                    return Err(e);
                },
            };
            ws.push(w);
            i += 1;
        }
        Ok(ws)
    }

    /// Decoding the fields of a value gives back an equal value.
    #[verifier::rlimit(100)]
    #[verifier::spinoff_prover]
    pub proof fn lemma_round_trip(v: Contour)
        requires
            v.wire_fits(),
        ensures
            Self::wire_decodable(v.wire_fields()),
            forall|w: Contour| Self::decodes_from(v.wire_fields(), w) ==> w.same_as(v),
    {
        broadcast use lemma_zigzag_round_trip, lemma_str_round_trip, DirectionsType::lemma_code_round_trip, Units::lemma_code_round_trip, LocationType::lemma_code_round_trip, PreferredSide::lemma_code_round_trip, CostingModels::lemma_code_round_trip, BicyleType::lemma_code_round_trip, ManeuverType::lemma_code_round_trip, TravelMode::lemma_code_round_trip, TravelType::lemma_code_round_trip, lemma_opt_fixed_round_trip, lemma_opt_u32_round_trip, lemma_opt_u16_round_trip, lemma_opt_u8_round_trip, lemma_opt_bool_round_trip, lemma_opt_str_round_trip, lemma_opt_directions_type_round_trip, lemma_opt_units_round_trip, lemma_opt_location_type_round_trip, lemma_opt_preferred_side_round_trip, lemma_opt_costing_models_round_trip, lemma_opt_bicyle_type_round_trip, lemma_opt_maneuver_type_round_trip, lemma_opt_travel_mode_round_trip, lemma_opt_travel_type_round_trip;

        v.lemma_wire_tags();
        assert(tag_value(v.wire_fields(), 1) == Some(fixed_data(v.time))) by {
            broadcast use group_codec_lemmas;
        }
        assert(tag_value(v.wire_fields(), 2) == opt_str_data(v.color)) by {
            broadcast use group_codec_lemmas;
        }
    }

    /// Decoding a value's nested message gives back an equal value.
    pub proof fn lemma_msg_round_trip(v: Contour)
        requires
            v.msg_fits(),
        ensures
            Self::msg_decodable(v.msg_data()),
            forall|w: Contour| Self::msg_decodes(v.msg_data(), w) ==> w.same_as(v),
    {
        lemma_wire_round_trip(v.wire_fields());
        Self::lemma_round_trip(v);
    }

    pub proof fn lemma_seq_round_trip(xs: Seq<Contour>)
        requires
            Self::seq_fits(xs),
        ensures
            forall|i: int| 0 <= i < xs.len() ==> Self::msg_decodable(#[trigger] Self::msg_data_seq(xs)[i]),
            forall|ws: Seq<Contour>| ws.len() == xs.len() && (forall|i: int| 0 <= i < xs.len() ==> Self::msg_decodes(#[trigger] Self::msg_data_seq(xs)[i], ws[i])) ==> Self::same_seq(ws, xs),
    {
        assert forall|i: int| 0 <= i < xs.len() implies Self::msg_decodable(#[trigger] Self::msg_data_seq(xs)[i]) && (forall|w: Contour| Self::msg_decodes(Self::msg_data_seq(xs)[i], w) ==> w.same_as(xs[i])) by {
            assert(xs[i].msg_fits());
            Self::lemma_msg_round_trip(xs[i]);
        }
        assert forall|ws: Seq<Contour>| ws.len() == xs.len() && (forall|i: int| 0 <= i < xs.len() ==> Self::msg_decodes(#[trigger] Self::msg_data_seq(xs)[i], ws[i])) implies Self::same_seq(ws, xs) by {
            assert forall|i: int| 0 <= i < ws.len() implies (#[trigger] ws[i]).same_as(xs[i]) by {
                assert(Self::msg_decodes(Self::msg_data_seq(xs)[i], ws[i]));
            }
        }
    }

}

impl Location {
    /// The fields this value is encoded as.
    pub open spec fn wire_fields(&self) -> Seq<(u32, WireData)> {
        Seq::empty()
            + opt_field(1, opt_fixed_data(self.lat))
            + opt_field(2, opt_fixed_data(self.lon))
            + opt_field(3, opt_location_type_data(self.location_type))
            + opt_field(4, opt_fixed_data(self.heading))
            + opt_field(5, opt_fixed_data(self.heading_tolerance))
            + opt_field(6, opt_str_data(self.street))
            + opt_field(7, opt_str_data(self.way_id))
            + opt_field(8, opt_u32_data(self.minimum_reachability))
            + opt_field(9, opt_fixed_data(self.radius))
            + opt_field(10, opt_bool_data(self.rank_candidates))
            + opt_field(11, opt_preferred_side_data(self.preferred_side))
            + opt_field(12, opt_fixed_data(self.display_lat))
            + opt_field(13, opt_fixed_data(self.display_lon))
            + opt_field(14, opt_str_data(self.search_cutoff))
            + opt_field(15, opt_fixed_data(self.node_snap_tolerance))
            + opt_field(16, opt_fixed_data(self.street_side_tolerance))
            + opt_field(17, opt_fixed_data(self.street_side_max_distance))
            + opt_field(18, opt_str_data(self.search_filter))
            + opt_field(19, opt_str_data(self.name))
            + opt_field(20, opt_str_data(self.city))
            + opt_field(21, opt_str_data(self.state))
            + opt_field(22, opt_str_data(self.postal_code))
            + opt_field(23, opt_str_data(self.country))
            + opt_field(24, opt_str_data(self.phone))
            + opt_field(25, opt_str_data(self.url))
            + opt_field(26, opt_str_data(self.side_of_street))
            + opt_field(27, opt_str_data(self.date_time))
    }

    /// This value as a nested message.
    pub open spec fn msg_data(&self) -> WireData {
        WireData::Bytes(message_bytes(self.wire_fields()))
    }

    /// The values as nested messages.
    pub open spec fn msg_data_seq(xs: Seq<Location>) -> Seq<WireData> {
        xs.map_values(|x: Location| x.msg_data())
    }

    /// `fs` holds a `Location`: known tags, every required field present, every field of its kind.
    pub open spec fn wire_decodable(fs: Seq<(u32, WireData)>) -> bool {
        &&& tags_within(fs, 27)
        &&& opt_fixed_of(tag_value(fs, 1)) is Some
        &&& opt_fixed_of(tag_value(fs, 2)) is Some
        &&& opt_location_type_of(tag_value(fs, 3)) is Some
        &&& opt_fixed_of(tag_value(fs, 4)) is Some
        &&& opt_fixed_of(tag_value(fs, 5)) is Some
        &&& opt_str_of(tag_value(fs, 6)) is Some
        &&& opt_str_of(tag_value(fs, 7)) is Some
        &&& opt_u32_of(tag_value(fs, 8)) is Some
        &&& opt_fixed_of(tag_value(fs, 9)) is Some
        &&& opt_bool_of(tag_value(fs, 10)) is Some
        &&& opt_preferred_side_of(tag_value(fs, 11)) is Some
        &&& opt_fixed_of(tag_value(fs, 12)) is Some
        &&& opt_fixed_of(tag_value(fs, 13)) is Some
        &&& opt_str_of(tag_value(fs, 14)) is Some
        &&& opt_fixed_of(tag_value(fs, 15)) is Some
        &&& opt_fixed_of(tag_value(fs, 16)) is Some
        &&& opt_fixed_of(tag_value(fs, 17)) is Some
        &&& opt_str_of(tag_value(fs, 18)) is Some
        &&& opt_str_of(tag_value(fs, 19)) is Some
        &&& opt_str_of(tag_value(fs, 20)) is Some
        &&& opt_str_of(tag_value(fs, 21)) is Some
        &&& opt_str_of(tag_value(fs, 22)) is Some
        &&& opt_str_of(tag_value(fs, 23)) is Some
        &&& opt_str_of(tag_value(fs, 24)) is Some
        &&& opt_str_of(tag_value(fs, 25)) is Some
        &&& opt_str_of(tag_value(fs, 26)) is Some
        &&& opt_str_of(tag_value(fs, 27)) is Some
    }

    /// `w` is what `fs` holds.
    pub open spec fn decodes_from(fs: Seq<(u32, WireData)>, w: Location) -> bool {
        &&& opt_fixed_of(tag_value(fs, 1)) == Some(w.lat)
        &&& opt_fixed_of(tag_value(fs, 2)) == Some(w.lon)
        &&& opt_location_type_of(tag_value(fs, 3)) == Some(w.location_type)
        &&& opt_fixed_of(tag_value(fs, 4)) == Some(w.heading)
        &&& opt_fixed_of(tag_value(fs, 5)) == Some(w.heading_tolerance)
        &&& opt_str_of(tag_value(fs, 6)) == Some(opt_str_view(w.street))
        &&& opt_str_of(tag_value(fs, 7)) == Some(opt_str_view(w.way_id))
        &&& opt_u32_of(tag_value(fs, 8)) == Some(w.minimum_reachability)
        &&& opt_fixed_of(tag_value(fs, 9)) == Some(w.radius)
        &&& opt_bool_of(tag_value(fs, 10)) == Some(w.rank_candidates)
        &&& opt_preferred_side_of(tag_value(fs, 11)) == Some(w.preferred_side)
        &&& opt_fixed_of(tag_value(fs, 12)) == Some(w.display_lat)
        &&& opt_fixed_of(tag_value(fs, 13)) == Some(w.display_lon)
        &&& opt_str_of(tag_value(fs, 14)) == Some(opt_str_view(w.search_cutoff))
        &&& opt_fixed_of(tag_value(fs, 15)) == Some(w.node_snap_tolerance)
        &&& opt_fixed_of(tag_value(fs, 16)) == Some(w.street_side_tolerance)
        &&& opt_fixed_of(tag_value(fs, 17)) == Some(w.street_side_max_distance)
        &&& opt_str_of(tag_value(fs, 18)) == Some(opt_str_view(w.search_filter))
        &&& opt_str_of(tag_value(fs, 19)) == Some(opt_str_view(w.name))
        &&& opt_str_of(tag_value(fs, 20)) == Some(opt_str_view(w.city))
        &&& opt_str_of(tag_value(fs, 21)) == Some(opt_str_view(w.state))
        &&& opt_str_of(tag_value(fs, 22)) == Some(opt_str_view(w.postal_code))
        &&& opt_str_of(tag_value(fs, 23)) == Some(opt_str_view(w.country))
        &&& opt_str_of(tag_value(fs, 24)) == Some(opt_str_view(w.phone))
        &&& opt_str_of(tag_value(fs, 25)) == Some(opt_str_view(w.url))
        &&& opt_str_of(tag_value(fs, 26)) == Some(opt_str_view(w.side_of_street))
        &&& opt_str_of(tag_value(fs, 27)) == Some(opt_str_view(w.date_time))
    }

    /// `d` is a nested message that holds a `Location`.
    pub open spec fn msg_decodable(d: WireData) -> bool {
        &&& d is Bytes
        &&& parse_message(d->Bytes_0, 0) matches Some(fs) && Self::wire_decodable(fs)
    }

    /// `w` is what the nested message `d` holds.
    pub open spec fn msg_decodes(d: WireData, w: Location) -> bool {
        &&& d is Bytes
        &&& parse_message(d->Bytes_0, 0) matches Some(fs) && Self::decodes_from(fs, w)
    }

    /// The two values agree in every field.
    pub open spec fn same_as(self, o: Location) -> bool {
        &&& self.lat == o.lat
        &&& self.lon == o.lon
        &&& self.location_type == o.location_type
        &&& self.heading == o.heading
        &&& self.heading_tolerance == o.heading_tolerance
        &&& opt_str_view(self.street) == opt_str_view(o.street)
        &&& opt_str_view(self.way_id) == opt_str_view(o.way_id)
        &&& self.minimum_reachability == o.minimum_reachability
        &&& self.radius == o.radius
        &&& self.rank_candidates == o.rank_candidates
        &&& self.preferred_side == o.preferred_side
        &&& self.display_lat == o.display_lat
        &&& self.display_lon == o.display_lon
        &&& opt_str_view(self.search_cutoff) == opt_str_view(o.search_cutoff)
        &&& self.node_snap_tolerance == o.node_snap_tolerance
        &&& self.street_side_tolerance == o.street_side_tolerance
        &&& self.street_side_max_distance == o.street_side_max_distance
        &&& opt_str_view(self.search_filter) == opt_str_view(o.search_filter)
        &&& opt_str_view(self.name) == opt_str_view(o.name)
        &&& opt_str_view(self.city) == opt_str_view(o.city)
        &&& opt_str_view(self.state) == opt_str_view(o.state)
        &&& opt_str_view(self.postal_code) == opt_str_view(o.postal_code)
        &&& opt_str_view(self.country) == opt_str_view(o.country)
        &&& opt_str_view(self.phone) == opt_str_view(o.phone)
        &&& opt_str_view(self.url) == opt_str_view(o.url)
        &&& opt_str_view(self.side_of_street) == opt_str_view(o.side_of_street)
        &&& opt_str_view(self.date_time) == opt_str_view(o.date_time)
    }

    /// The two sequences agree element by element.
    pub open spec fn same_seq(a: Seq<Location>, b: Seq<Location>) -> bool {
        &&& a.len() == b.len()
        &&& forall|i: int| 0 <= i < a.len() ==> (#[trigger] a[i]).same_as(b[i])
    }

    /// Every nested message of this value fits a length prefix.
    pub open spec fn wire_fits(&self) -> bool {
        true
    }

    /// This value's encoding as a nested message can be decoded.
    pub open spec fn msg_fits(&self) -> bool {
        fields_ok(self.wire_fields()) && self.wire_fits()
    }

    /// Every value of the sequence fits.
    pub open spec fn seq_fits(xs: Seq<Location>) -> bool {
        forall|i: int| 0 <= i < xs.len() ==> (#[trigger] xs[i]).msg_fits()
    }

    #[verifier::rlimit(100)]
    pub proof fn lemma_wire_tags(&self)
        ensures
            tags_within(self.wire_fields(), 27),
    {
        broadcast use group_codec_lemmas;

        assert(tags_within(Seq::<(u32, WireData)>::empty(), 27));
        lemma_tags_widen(opt_field(1, opt_fixed_data(self.lat)), 1, 27);
        lemma_tags_widen(opt_field(2, opt_fixed_data(self.lon)), 2, 27);
        lemma_tags_widen(opt_field(3, opt_location_type_data(self.location_type)), 3, 27);
        lemma_tags_widen(opt_field(4, opt_fixed_data(self.heading)), 4, 27);
        lemma_tags_widen(opt_field(5, opt_fixed_data(self.heading_tolerance)), 5, 27);
        lemma_tags_widen(opt_field(6, opt_str_data(self.street)), 6, 27);
        lemma_tags_widen(opt_field(7, opt_str_data(self.way_id)), 7, 27);
        lemma_tags_widen(opt_field(8, opt_u32_data(self.minimum_reachability)), 8, 27);
        lemma_tags_widen(opt_field(9, opt_fixed_data(self.radius)), 9, 27);
        lemma_tags_widen(opt_field(10, opt_bool_data(self.rank_candidates)), 10, 27);
        lemma_tags_widen(opt_field(11, opt_preferred_side_data(self.preferred_side)), 11, 27);
        lemma_tags_widen(opt_field(12, opt_fixed_data(self.display_lat)), 12, 27);
        lemma_tags_widen(opt_field(13, opt_fixed_data(self.display_lon)), 13, 27);
        lemma_tags_widen(opt_field(14, opt_str_data(self.search_cutoff)), 14, 27);
        lemma_tags_widen(opt_field(15, opt_fixed_data(self.node_snap_tolerance)), 15, 27);
        lemma_tags_widen(opt_field(16, opt_fixed_data(self.street_side_tolerance)), 16, 27);
        lemma_tags_widen(opt_field(17, opt_fixed_data(self.street_side_max_distance)), 17, 27);
        lemma_tags_widen(opt_field(18, opt_str_data(self.search_filter)), 18, 27);
        lemma_tags_widen(opt_field(19, opt_str_data(self.name)), 19, 27);
        lemma_tags_widen(opt_field(20, opt_str_data(self.city)), 20, 27);
        lemma_tags_widen(opt_field(21, opt_str_data(self.state)), 21, 27);
        lemma_tags_widen(opt_field(22, opt_str_data(self.postal_code)), 22, 27);
        lemma_tags_widen(opt_field(23, opt_str_data(self.country)), 23, 27);
        lemma_tags_widen(opt_field(24, opt_str_data(self.phone)), 24, 27);
        lemma_tags_widen(opt_field(25, opt_str_data(self.url)), 25, 27);
        lemma_tags_widen(opt_field(26, opt_str_data(self.side_of_street)), 26, 27);
        lemma_tags_widen(opt_field(27, opt_str_data(self.date_time)), 27, 27);
    }

    /// The fields this value is encoded as.
    #[verifier::rlimit(100)]
    pub fn to_wire_fields(&self) -> (r: Vec<WireField>)
        ensures
            fields_view(r@) == self.wire_fields(),
    {
        let mut fs: Vec<WireField> = Vec::new();
        assert(fields_view(fs@) =~= Seq::<(u32, WireData)>::empty());
        let ghost before = fields_view(fs@);
        push_opt_fixed(&mut fs, 1, self.lat);
        assert(fields_view(fs@) =~= before + opt_field(1, opt_fixed_data(self.lat)));
        let ghost before = fields_view(fs@);
        push_opt_fixed(&mut fs, 2, self.lon);
        assert(fields_view(fs@) =~= before + opt_field(2, opt_fixed_data(self.lon)));
        let ghost before = fields_view(fs@);
        push_opt_location_type(&mut fs, 3, self.location_type);
        assert(fields_view(fs@) =~= before + opt_field(3, opt_location_type_data(self.location_type)));
        let ghost before = fields_view(fs@);
        push_opt_fixed(&mut fs, 4, self.heading);
        assert(fields_view(fs@) =~= before + opt_field(4, opt_fixed_data(self.heading)));
        let ghost before = fields_view(fs@);
        push_opt_fixed(&mut fs, 5, self.heading_tolerance);
        assert(fields_view(fs@) =~= before + opt_field(5, opt_fixed_data(self.heading_tolerance)));
        let ghost before = fields_view(fs@);
        push_opt_str(&mut fs, 6, &self.street);
        assert(fields_view(fs@) =~= before + opt_field(6, opt_str_data(self.street)));
        let ghost before = fields_view(fs@);
        push_opt_str(&mut fs, 7, &self.way_id);
        assert(fields_view(fs@) =~= before + opt_field(7, opt_str_data(self.way_id)));
        let ghost before = fields_view(fs@);
        push_opt_u32(&mut fs, 8, self.minimum_reachability);
        assert(fields_view(fs@) =~= before + opt_field(8, opt_u32_data(self.minimum_reachability)));
        let ghost before = fields_view(fs@);
        push_opt_fixed(&mut fs, 9, self.radius);
        assert(fields_view(fs@) =~= before + opt_field(9, opt_fixed_data(self.radius)));
        let ghost before = fields_view(fs@);
        push_opt_bool(&mut fs, 10, self.rank_candidates);
        assert(fields_view(fs@) =~= before + opt_field(10, opt_bool_data(self.rank_candidates)));
        let ghost before = fields_view(fs@);
        push_opt_preferred_side(&mut fs, 11, self.preferred_side);
        assert(fields_view(fs@) =~= before + opt_field(11, opt_preferred_side_data(self.preferred_side)));
        let ghost before = fields_view(fs@);
        push_opt_fixed(&mut fs, 12, self.display_lat);
        assert(fields_view(fs@) =~= before + opt_field(12, opt_fixed_data(self.display_lat)));
        let ghost before = fields_view(fs@);
        push_opt_fixed(&mut fs, 13, self.display_lon);
        assert(fields_view(fs@) =~= before + opt_field(13, opt_fixed_data(self.display_lon)));
        let ghost before = fields_view(fs@);
        push_opt_str(&mut fs, 14, &self.search_cutoff);
        assert(fields_view(fs@) =~= before + opt_field(14, opt_str_data(self.search_cutoff)));
        let ghost before = fields_view(fs@);
        push_opt_fixed(&mut fs, 15, self.node_snap_tolerance);
        assert(fields_view(fs@) =~= before + opt_field(15, opt_fixed_data(self.node_snap_tolerance)));
        let ghost before = fields_view(fs@);
        push_opt_fixed(&mut fs, 16, self.street_side_tolerance);
        assert(fields_view(fs@) =~= before + opt_field(16, opt_fixed_data(self.street_side_tolerance)));
        let ghost before = fields_view(fs@);
        push_opt_fixed(&mut fs, 17, self.street_side_max_distance);
        assert(fields_view(fs@) =~= before + opt_field(17, opt_fixed_data(self.street_side_max_distance)));
        let ghost before = fields_view(fs@);
        push_opt_str(&mut fs, 18, &self.search_filter);
        assert(fields_view(fs@) =~= before + opt_field(18, opt_str_data(self.search_filter)));
        let ghost before = fields_view(fs@);
        push_opt_str(&mut fs, 19, &self.name);
        assert(fields_view(fs@) =~= before + opt_field(19, opt_str_data(self.name)));
        let ghost before = fields_view(fs@);
        push_opt_str(&mut fs, 20, &self.city);
        assert(fields_view(fs@) =~= before + opt_field(20, opt_str_data(self.city)));
        let ghost before = fields_view(fs@);
        push_opt_str(&mut fs, 21, &self.state);
        assert(fields_view(fs@) =~= before + opt_field(21, opt_str_data(self.state)));
        let ghost before = fields_view(fs@);
        push_opt_str(&mut fs, 22, &self.postal_code);
        assert(fields_view(fs@) =~= before + opt_field(22, opt_str_data(self.postal_code)));
        let ghost before = fields_view(fs@);
        push_opt_str(&mut fs, 23, &self.country);
        assert(fields_view(fs@) =~= before + opt_field(23, opt_str_data(self.country)));
        let ghost before = fields_view(fs@);
        push_opt_str(&mut fs, 24, &self.phone);
        assert(fields_view(fs@) =~= before + opt_field(24, opt_str_data(self.phone)));
        let ghost before = fields_view(fs@);
        push_opt_str(&mut fs, 25, &self.url);
        assert(fields_view(fs@) =~= before + opt_field(25, opt_str_data(self.url)));
        let ghost before = fields_view(fs@);
        push_opt_str(&mut fs, 26, &self.side_of_street);
        assert(fields_view(fs@) =~= before + opt_field(26, opt_str_data(self.side_of_street)));
        let ghost before = fields_view(fs@);
        push_opt_str(&mut fs, 27, &self.date_time);
        assert(fields_view(fs@) =~= before + opt_field(27, opt_str_data(self.date_time)));
        fs
    }

    /// This value as a nested message.
    pub fn to_wire_value(&self) -> (r: WireValue)
        ensures
            r@ == self.msg_data(),
    {
        let fs = self.to_wire_fields();
        proof {
            self.lemma_wire_tags();
        }
        WireValue::Bytes(encode_message(&fs))
    }

    /// Appends one field with tag `t` per value.
    pub fn push_all(xs: &Vec<Location>, t: u32, fs: &mut Vec<WireField>)
        ensures
            fields_view(final(fs)@) == fields_view(old(fs)@) + rep_field(t, Self::msg_data_seq(xs@)),
    {
        let ghost start = fields_view(fs@);
        let mut i: usize = 0;
        while i < xs.len()
            invariant
                i <= xs@.len(),
                fields_view(fs@) == start + rep_field(t, Self::msg_data_seq(xs@.subrange(0, i as int))),
            decreases xs@.len() - i,
        {
            let ghost pre = fields_view(fs@);
            let value = xs[i].to_wire_value();
            fs.push(WireField { tag: t, value });
            proof {
                assert(Self::msg_data_seq(xs@.subrange(0, i + 1)) =~= Self::msg_data_seq(
                    xs@.subrange(0, i as int),
                ).push(xs@[i as int].msg_data()));
                assert(fields_view(fs@) =~= pre.push((t, xs@[i as int].msg_data())));
                assert(rep_field(t, Self::msg_data_seq(xs@.subrange(0, i + 1))) =~= rep_field(
                    t,
                    Self::msg_data_seq(xs@.subrange(0, i as int)),
                ).push((t, xs@[i as int].msg_data())));
            }
            i += 1;
        }
        assert(xs@.subrange(0, xs@.len() as int) =~= xs@);
    }

    /// The `Location` that `fs` holds.
    #[verifier::rlimit(100)]
    pub fn from_wire_fields(fs: &Vec<WireField>) -> (r: Result<Location, CodecError>)
        ensures
            r is Ok <==> Self::wire_decodable(fields_view(fs@)),
            r matches Ok(w) ==> Self::decodes_from(fields_view(fs@), w),
    {
        check_tags(fs, 27)?;
        let lat = read_opt_fixed(fs, 1)?;
        let lon = read_opt_fixed(fs, 2)?;
        let location_type = read_opt_location_type(fs, 3)?;
        let heading = read_opt_fixed(fs, 4)?;
        let heading_tolerance = read_opt_fixed(fs, 5)?;
        let street = read_opt_str(fs, 6)?;
        let way_id = read_opt_str(fs, 7)?;
        let minimum_reachability = read_opt_u32(fs, 8)?;
        let radius = read_opt_fixed(fs, 9)?;
        let rank_candidates = read_opt_bool(fs, 10)?;
        let preferred_side = read_opt_preferred_side(fs, 11)?;
        let display_lat = read_opt_fixed(fs, 12)?;
        let display_lon = read_opt_fixed(fs, 13)?;
        let search_cutoff = read_opt_str(fs, 14)?;
        let node_snap_tolerance = read_opt_fixed(fs, 15)?;
        let street_side_tolerance = read_opt_fixed(fs, 16)?;
        let street_side_max_distance = read_opt_fixed(fs, 17)?;
        let search_filter = read_opt_str(fs, 18)?;
        let name = read_opt_str(fs, 19)?;
        let city = read_opt_str(fs, 20)?;
        let state = read_opt_str(fs, 21)?;
        let postal_code = read_opt_str(fs, 22)?;
        let country = read_opt_str(fs, 23)?;
        let phone = read_opt_str(fs, 24)?;
        let url = read_opt_str(fs, 25)?;
        let side_of_street = read_opt_str(fs, 26)?;
        let date_time = read_opt_str(fs, 27)?;
        Ok(Location { lat, lon, location_type, heading, heading_tolerance, street, way_id, minimum_reachability, radius, rank_candidates, preferred_side, display_lat, display_lon, search_cutoff, node_snap_tolerance, street_side_tolerance, street_side_max_distance, search_filter, name, city, state, postal_code, country, phone, url, side_of_street, date_time })
    }

    /// The `Location` that the nested message `v` holds.
    pub fn from_wire_value(v: &WireValue, t: u32) -> (r: Result<Location, CodecError>)
        ensures
            r is Ok <==> Self::msg_decodable(v@),
            r matches Ok(w) ==> Self::msg_decodes(v@, w),
    {
        match v {
            WireValue::Bytes(b) => match decode_message(b.as_slice()) {
                Ok(fs) => Self::from_wire_fields(&fs),
                Err(e) => Err(CodecError::Wire(e)),
            },
            WireValue::Varint(_) => Err(CodecError::BadValue(t)),
        }
    }

    /// The values of all fields with tag `t`, each a nested `Location`.
    pub fn read_all(fs: &Vec<WireField>, t: u32) -> (r: Result<Vec<Location>, CodecError>)
        ensures
            r is Ok <==> forall|i: int| 0 <= i < tag_values(fields_view(fs@), t).len() ==> Self::msg_decodable(#[trigger] tag_values(fields_view(fs@), t)[i]),
            r matches Ok(ws) ==> ws@.len() == tag_values(fields_view(fs@), t).len() && forall|i: int| 0 <= i < ws@.len() ==> Self::msg_decodes(#[trigger] tag_values(fields_view(fs@), t)[i], ws@[i]),
    {
        let vs = all_with_tag(fs, t);
        let ghost ds = tag_values(fields_view(fs@), t);
        let mut ws: Vec<Location> = Vec::new();
        let mut i: usize = 0;
        while i < vs.len()
            invariant
                i <= vs@.len(),
                ds == tag_values(fields_view(fs@), t),
                vs@.len() == ds.len(),
                forall|k: int| 0 <= k < vs@.len() ==> (#[trigger] vs@[k])@ == ds[k],
                ws@.len() == i,
                forall|k: int| 0 <= k < i ==> Self::msg_decodable(#[trigger] ds[k]),
                forall|k: int| 0 <= k < i ==> Self::msg_decodes(#[trigger] ds[k], ws@[k]),
            decreases vs@.len() - i,
        {
            let w = match Self::from_wire_value(vs[i], t) {
                Ok(w) => w,
                Err(e) => {
                    assert(!Self::msg_decodable(ds[i as int]));
                    assert(!(forall|k: int| 0 <= k < ds.len() ==> Self::msg_decodable(#[trigger] ds[k])));
                    return Err(e);
                },
            };
            ws.push(w);
            i += 1;
        }
        Ok(ws)
    }

    /// Decoding the fields of a value gives back an equal value.
    #[verifier::rlimit(100)]
    #[verifier::spinoff_prover]
    pub proof fn lemma_round_trip(v: Location)
        requires
            v.wire_fits(),
        ensures
            Self::wire_decodable(v.wire_fields()),
            forall|w: Location| Self::decodes_from(v.wire_fields(), w) ==> w.same_as(v),
    {
        broadcast use lemma_zigzag_round_trip, lemma_str_round_trip, DirectionsType::lemma_code_round_trip, Units::lemma_code_round_trip, LocationType::lemma_code_round_trip, PreferredSide::lemma_code_round_trip, CostingModels::lemma_code_round_trip, BicyleType::lemma_code_round_trip, ManeuverType::lemma_code_round_trip, TravelMode::lemma_code_round_trip, TravelType::lemma_code_round_trip, lemma_opt_fixed_round_trip, lemma_opt_u32_round_trip, lemma_opt_u16_round_trip, lemma_opt_u8_round_trip, lemma_opt_bool_round_trip, lemma_opt_str_round_trip, lemma_opt_directions_type_round_trip, lemma_opt_units_round_trip, lemma_opt_location_type_round_trip, lemma_opt_preferred_side_round_trip, lemma_opt_costing_models_round_trip, lemma_opt_bicyle_type_round_trip, lemma_opt_maneuver_type_round_trip, lemma_opt_travel_mode_round_trip, lemma_opt_travel_type_round_trip;

        v.lemma_wire_tags();
        assert(tag_value(v.wire_fields(), 1) == opt_fixed_data(v.lat)) by {
            broadcast use group_codec_lemmas;
        }
        assert(tag_value(v.wire_fields(), 2) == opt_fixed_data(v.lon)) by {
            broadcast use group_codec_lemmas;
        }
        assert(tag_value(v.wire_fields(), 3) == opt_location_type_data(v.location_type)) by {
            broadcast use group_codec_lemmas;
        }
        assert(tag_value(v.wire_fields(), 4) == opt_fixed_data(v.heading)) by {
            broadcast use group_codec_lemmas;
        }
        assert(tag_value(v.wire_fields(), 5) == opt_fixed_data(v.heading_tolerance)) by {
            broadcast use group_codec_lemmas;
        }
        assert(tag_value(v.wire_fields(), 6) == opt_str_data(v.street)) by {
            broadcast use group_codec_lemmas;
        }
        assert(tag_value(v.wire_fields(), 7) == opt_str_data(v.way_id)) by {
            broadcast use group_codec_lemmas;
        }
        assert(tag_value(v.wire_fields(), 8) == opt_u32_data(v.minimum_reachability)) by {
            broadcast use group_codec_lemmas;
        }
        assert(tag_value(v.wire_fields(), 9) == opt_fixed_data(v.radius)) by {
            broadcast use group_codec_lemmas;
        }
        assert(tag_value(v.wire_fields(), 10) == opt_bool_data(v.rank_candidates)) by {
            broadcast use group_codec_lemmas;
        }
        assert(tag_value(v.wire_fields(), 11) == opt_preferred_side_data(v.preferred_side)) by {
            broadcast use group_codec_lemmas;
        }
        assert(tag_value(v.wire_fields(), 12) == opt_fixed_data(v.display_lat)) by {
            broadcast use group_codec_lemmas;
        }
        assert(tag_value(v.wire_fields(), 13) == opt_fixed_data(v.display_lon)) by {
            broadcast use group_codec_lemmas;
        }
        assert(tag_value(v.wire_fields(), 14) == opt_str_data(v.search_cutoff)) by {
            broadcast use group_codec_lemmas;
        }
        assert(tag_value(v.wire_fields(), 15) == opt_fixed_data(v.node_snap_tolerance)) by {
            broadcast use group_codec_lemmas;
        }
        assert(tag_value(v.wire_fields(), 16) == opt_fixed_data(v.street_side_tolerance)) by {
            broadcast use group_codec_lemmas;
        }
        assert(tag_value(v.wire_fields(), 17) == opt_fixed_data(v.street_side_max_distance)) by {
            broadcast use group_codec_lemmas;
        }
        assert(tag_value(v.wire_fields(), 18) == opt_str_data(v.search_filter)) by {
            broadcast use group_codec_lemmas;
        }
        assert(tag_value(v.wire_fields(), 19) == opt_str_data(v.name)) by {
            broadcast use group_codec_lemmas;
        }
        assert(tag_value(v.wire_fields(), 20) == opt_str_data(v.city)) by {
            broadcast use group_codec_lemmas;
        }
        assert(tag_value(v.wire_fields(), 21) == opt_str_data(v.state)) by {
            broadcast use group_codec_lemmas;
        }
        assert(tag_value(v.wire_fields(), 22) == opt_str_data(v.postal_code)) by {
            broadcast use group_codec_lemmas;
        }
        assert(tag_value(v.wire_fields(), 23) == opt_str_data(v.country)) by {
            broadcast use group_codec_lemmas;
        }
        assert(tag_value(v.wire_fields(), 24) == opt_str_data(v.phone)) by {
            broadcast use group_codec_lemmas;
        }
        assert(tag_value(v.wire_fields(), 25) == opt_str_data(v.url)) by {
            broadcast use group_codec_lemmas;
        }
        assert(tag_value(v.wire_fields(), 26) == opt_str_data(v.side_of_street)) by {
            broadcast use group_codec_lemmas;
        }
        assert(tag_value(v.wire_fields(), 27) == opt_str_data(v.date_time)) by {
            broadcast use group_codec_lemmas;
        }
    }

    /// Decoding a value's nested message gives back an equal value.
    pub proof fn lemma_msg_round_trip(v: Location)
        requires
            v.msg_fits(),
        ensures
            Self::msg_decodable(v.msg_data()),
            forall|w: Location| Self::msg_decodes(v.msg_data(), w) ==> w.same_as(v),
    {
        lemma_wire_round_trip(v.wire_fields());
        Self::lemma_round_trip(v);
    }

    pub proof fn lemma_seq_round_trip(xs: Seq<Location>)
        requires
            Self::seq_fits(xs),
        ensures
            forall|i: int| 0 <= i < xs.len() ==> Self::msg_decodable(#[trigger] Self::msg_data_seq(xs)[i]),
            forall|ws: Seq<Location>| ws.len() == xs.len() && (forall|i: int| 0 <= i < xs.len() ==> Self::msg_decodes(#[trigger] Self::msg_data_seq(xs)[i], ws[i])) ==> Self::same_seq(ws, xs),
    {
        assert forall|i: int| 0 <= i < xs.len() implies Self::msg_decodable(#[trigger] Self::msg_data_seq(xs)[i]) && (forall|w: Location| Self::msg_decodes(Self::msg_data_seq(xs)[i], w) ==> w.same_as(xs[i])) by {
            assert(xs[i].msg_fits());
            Self::lemma_msg_round_trip(xs[i]);
        }
        assert forall|ws: Seq<Location>| ws.len() == xs.len() && (forall|i: int| 0 <= i < xs.len() ==> Self::msg_decodes(#[trigger] Self::msg_data_seq(xs)[i], ws[i])) implies Self::same_seq(ws, xs) by {
            assert forall|i: int| 0 <= i < ws.len() implies (#[trigger] ws[i]).same_as(xs[i]) by {
                assert(Self::msg_decodes(Self::msg_data_seq(xs)[i], ws[i]));
            }
        }
    }

    /// A list of values as a nested message.
    pub open spec fn list_data(xs: Seq<Location>) -> WireData {
        WireData::Bytes(message_bytes(rep_field(1, Self::msg_data_seq(xs))))
    }

    /// Lists of values, each as a nested message.
    pub open spec fn list_data_seq(xss: Seq<Vec<Location>>) -> Seq<WireData> {
        xss.map_values(|xs: Vec<Location>| Self::list_data(xs@))
    }

    /// `d` is a nested message that holds a list of values.
    pub open spec fn list_decodable(d: WireData) -> bool {
        &&& d is Bytes
        &&& parse_message(d->Bytes_0, 0) matches Some(fs) && tags_within(fs, 1) && forall|i: int| 0 <= i < tag_values(fs, 1).len() ==> Self::msg_decodable(#[trigger] tag_values(fs, 1)[i])
    }

    /// `ws` is the list that the nested message `d` holds.
    pub open spec fn list_decodes(d: WireData, ws: Seq<Location>) -> bool {
        &&& d is Bytes
        &&& parse_message(d->Bytes_0, 0) matches Some(fs) && ws.len() == tag_values(fs, 1).len() && forall|i: int| 0 <= i < ws.len() ==> Self::msg_decodes(#[trigger] tag_values(fs, 1)[i], ws[i])
    }

    /// The list's encoding as a nested message can be decoded.
    pub open spec fn list_fits(xs: Seq<Location>) -> bool {
        fields_ok(rep_field(1, Self::msg_data_seq(xs))) && Self::seq_fits(xs)
    }

    /// A list of values as a nested message.
    pub fn list_to_wire_value(xs: &Vec<Location>) -> (r: WireValue)
        ensures
            r@ == Self::list_data(xs@),
    {
        let mut fs: Vec<WireField> = Vec::new();
        Self::push_all(xs, 1, &mut fs);
        assert(Seq::<(u32, WireData)>::empty() + rep_field(1, Self::msg_data_seq(xs@)) =~= rep_field(1, Self::msg_data_seq(xs@)));
        WireValue::Bytes(encode_message(&fs))
    }

    /// The list that the nested message `v` holds.
    pub fn list_from_wire_value(v: &WireValue, t: u32) -> (r: Result<Vec<Location>, CodecError>)
        ensures
            r is Ok <==> Self::list_decodable(v@),
            r matches Ok(ws) ==> Self::list_decodes(v@, ws@),
    {
        match v {
            WireValue::Bytes(b) => match decode_message(b.as_slice()) {
                Ok(fs) => {
                    check_tags(&fs, 1)?;
                    Self::read_all(&fs, 1)
                },
                Err(e) => Err(CodecError::Wire(e)),
            },
            WireValue::Varint(_) => Err(CodecError::BadValue(t)),
        }
    }

    /// Appends one field with tag `t` per list.
    pub fn push_all_lists(xss: &Vec<Vec<Location>>, t: u32, fs: &mut Vec<WireField>)
        ensures
            fields_view(final(fs)@) == fields_view(old(fs)@) + rep_field(t, Self::list_data_seq(xss@)),
    {
        let ghost start = fields_view(fs@);
        let mut i: usize = 0;
        while i < xss.len()
            invariant
                i <= xss@.len(),
                fields_view(fs@) == start + rep_field(t, Self::list_data_seq(xss@.subrange(0, i as int))),
            decreases xss@.len() - i,
        {
            let ghost pre = fields_view(fs@);
            let value = Self::list_to_wire_value(&xss[i]);
            fs.push(WireField { tag: t, value });
            proof {
                assert(Self::list_data_seq(xss@.subrange(0, i + 1)) =~= Self::list_data_seq(
                    xss@.subrange(0, i as int),
                ).push(Self::list_data(xss@[i as int]@)));
                assert(fields_view(fs@) =~= pre.push((t, Self::list_data(xss@[i as int]@))));
                assert(rep_field(t, Self::list_data_seq(xss@.subrange(0, i + 1))) =~= rep_field(
                    t,
                    Self::list_data_seq(xss@.subrange(0, i as int)),
                ).push((t, Self::list_data(xss@[i as int]@))));
            }
            i += 1;
        }
        assert(xss@.subrange(0, xss@.len() as int) =~= xss@);
    }

    /// The lists that the fields with tag `t` hold.
    pub fn read_all_lists(fs: &Vec<WireField>, t: u32) -> (r: Result<Vec<Vec<Location>>, CodecError>)
        ensures
            r is Ok <==> forall|i: int| 0 <= i < tag_values(fields_view(fs@), t).len() ==> Self::list_decodable(#[trigger] tag_values(fields_view(fs@), t)[i]),
            r matches Ok(ws) ==> ws@.len() == tag_values(fields_view(fs@), t).len() && forall|i: int| 0 <= i < ws@.len() ==> Self::list_decodes(#[trigger] tag_values(fields_view(fs@), t)[i], ws@[i]@),
    {
        let vs = all_with_tag(fs, t);
        let ghost ds = tag_values(fields_view(fs@), t);
        let mut ws: Vec<Vec<Location>> = Vec::new();
        let mut i: usize = 0;
        while i < vs.len()
            invariant
                i <= vs@.len(),
                ds == tag_values(fields_view(fs@), t),
                vs@.len() == ds.len(),
                forall|k: int| 0 <= k < vs@.len() ==> (#[trigger] vs@[k])@ == ds[k],
                ws@.len() == i,
                forall|k: int| 0 <= k < i ==> Self::list_decodable(#[trigger] ds[k]),
                forall|k: int| 0 <= k < i ==> Self::list_decodes(#[trigger] ds[k], ws@[k]@),
            decreases vs@.len() - i,
        {
            let w = match Self::list_from_wire_value(vs[i], t) {
                Ok(w) => w,
                Err(e) => {
                    assert(!Self::list_decodable(ds[i as int]));
                    assert(!(forall|k: int| 0 <= k < ds.len() ==> Self::list_decodable(#[trigger] ds[k])));
                    return Err(e);
                },
            };
            ws.push(w);
            i += 1;
        }
        Ok(ws)
    }

    pub proof fn lemma_list_round_trip(xs: Seq<Location>)
        requires
            Self::list_fits(xs),
        ensures
            Self::list_decodable(Self::list_data(xs)),
            forall|ws: Seq<Location>| Self::list_decodes(Self::list_data(xs), ws) ==> Self::same_seq(ws, xs),
    {
        broadcast use group_codec_lemmas;

        let fs = rep_field(1, Self::msg_data_seq(xs));
        lemma_wire_round_trip(fs);
        Self::lemma_seq_round_trip(xs);
        assert(tag_values(fs, 1) == Self::msg_data_seq(xs));
    }

    pub proof fn lemma_lists_round_trip(xss: Seq<Vec<Location>>)
        requires
            forall|i: int| 0 <= i < xss.len() ==> Self::list_fits((#[trigger] xss[i])@),
        ensures
            forall|i: int| 0 <= i < xss.len() ==> Self::list_decodable(#[trigger] Self::list_data_seq(xss)[i]),
            forall|ws: Seq<Vec<Location>>| ws.len() == xss.len() && (forall|i: int| 0 <= i < xss.len() ==> Self::list_decodes(#[trigger] Self::list_data_seq(xss)[i], ws[i]@)) ==> (forall|i: int| 0 <= i < xss.len() ==> Self::same_seq((#[trigger] ws[i])@, xss[i]@)),
    {
        assert forall|i: int| 0 <= i < xss.len() implies Self::list_decodable(#[trigger] Self::list_data_seq(xss)[i]) && (forall|ws: Seq<Location>| Self::list_decodes(Self::list_data_seq(xss)[i], ws) ==> Self::same_seq(ws, xss[i]@)) by {
            Self::lemma_list_round_trip(xss[i]@);
        }
        assert forall|ws: Seq<Vec<Location>>| ws.len() == xss.len() && (forall|i: int| 0 <= i < xss.len() ==> Self::list_decodes(#[trigger] Self::list_data_seq(xss)[i], ws[i]@)) implies (forall|i: int| 0 <= i < xss.len() ==> Self::same_seq((#[trigger] ws[i])@, xss[i]@)) by {
            assert forall|i: int| 0 <= i < xss.len() implies Self::same_seq((#[trigger] ws[i])@, xss[i]@) by {
                assert(Self::list_decodes(Self::list_data_seq(xss)[i], ws[i]@));
            }
        }
    }

}

impl AutomobileOptions {
    /// The fields this value is encoded as.
    pub open spec fn wire_fields(&self) -> Seq<(u32, WireData)> {
        Seq::empty()
            + opt_field(1, opt_u32_data(self.maneuver_penalty))
            + opt_field(2, opt_u32_data(self.gate_cost))
            + opt_field(3, opt_u32_data(self.gate_penalty))
            + opt_field(4, opt_u32_data(self.private_access_penalty))
            + opt_field(5, opt_u32_data(self.toll_booth_cost))
            + opt_field(6, opt_u32_data(self.toll_booth_penalty))
            + opt_field(7, opt_fixed_data(self.ferry_cost))
            + opt_field(8, opt_fixed_data(self.use_highways))
            + opt_field(9, opt_fixed_data(self.use_tolls))
            + opt_field(10, opt_fixed_data(self.use_living_streets))
            + opt_field(11, opt_fixed_data(self.use_tracks))
            + opt_field(12, opt_u8_data(self.service_penalty))
            + opt_field(13, opt_fixed_data(self.service_factor))
            + opt_field(14, opt_fixed_data(self.country_crossing_cost))
            + opt_field(15, opt_fixed_data(self.country_crossing_penalty))
            + opt_field(16, opt_bool_data(self.shortest))
            + opt_field(17, opt_u8_data(self.top_speed))
            + opt_field(18, opt_bool_data(self.ignore_closures))
            + opt_field(19, opt_fixed_data(self.closure_factor))
    }

    /// This value as a nested message.
    pub open spec fn msg_data(&self) -> WireData {
        WireData::Bytes(message_bytes(self.wire_fields()))
    }

    /// The values as nested messages.
    pub open spec fn msg_data_seq(xs: Seq<AutomobileOptions>) -> Seq<WireData> {
        xs.map_values(|x: AutomobileOptions| x.msg_data())
    }

    /// `fs` holds a `AutomobileOptions`: known tags, every required field present, every field of its kind.
    pub open spec fn wire_decodable(fs: Seq<(u32, WireData)>) -> bool {
        &&& tags_within(fs, 19)
        &&& opt_u32_of(tag_value(fs, 1)) is Some
        &&& opt_u32_of(tag_value(fs, 2)) is Some
        &&& opt_u32_of(tag_value(fs, 3)) is Some
        &&& opt_u32_of(tag_value(fs, 4)) is Some
        &&& opt_u32_of(tag_value(fs, 5)) is Some
        &&& opt_u32_of(tag_value(fs, 6)) is Some
        &&& opt_fixed_of(tag_value(fs, 7)) is Some
        &&& opt_fixed_of(tag_value(fs, 8)) is Some
        &&& opt_fixed_of(tag_value(fs, 9)) is Some
        &&& opt_fixed_of(tag_value(fs, 10)) is Some
        &&& opt_fixed_of(tag_value(fs, 11)) is Some
        &&& opt_u8_of(tag_value(fs, 12)) is Some
        &&& opt_fixed_of(tag_value(fs, 13)) is Some
        &&& opt_fixed_of(tag_value(fs, 14)) is Some
        &&& opt_fixed_of(tag_value(fs, 15)) is Some
        &&& opt_bool_of(tag_value(fs, 16)) is Some
        &&& opt_u8_of(tag_value(fs, 17)) is Some
        &&& opt_bool_of(tag_value(fs, 18)) is Some
        &&& opt_fixed_of(tag_value(fs, 19)) is Some
    }

    /// `w` is what `fs` holds.
    pub open spec fn decodes_from(fs: Seq<(u32, WireData)>, w: AutomobileOptions) -> bool {
        &&& opt_u32_of(tag_value(fs, 1)) == Some(w.maneuver_penalty)
        &&& opt_u32_of(tag_value(fs, 2)) == Some(w.gate_cost)
        &&& opt_u32_of(tag_value(fs, 3)) == Some(w.gate_penalty)
        &&& opt_u32_of(tag_value(fs, 4)) == Some(w.private_access_penalty)
        &&& opt_u32_of(tag_value(fs, 5)) == Some(w.toll_booth_cost)
        &&& opt_u32_of(tag_value(fs, 6)) == Some(w.toll_booth_penalty)
        &&& opt_fixed_of(tag_value(fs, 7)) == Some(w.ferry_cost)
        &&& opt_fixed_of(tag_value(fs, 8)) == Some(w.use_highways)
        &&& opt_fixed_of(tag_value(fs, 9)) == Some(w.use_tolls)
        &&& opt_fixed_of(tag_value(fs, 10)) == Some(w.use_living_streets)
        &&& opt_fixed_of(tag_value(fs, 11)) == Some(w.use_tracks)
        &&& opt_u8_of(tag_value(fs, 12)) == Some(w.service_penalty)
        &&& opt_fixed_of(tag_value(fs, 13)) == Some(w.service_factor)
        &&& opt_fixed_of(tag_value(fs, 14)) == Some(w.country_crossing_cost)
        &&& opt_fixed_of(tag_value(fs, 15)) == Some(w.country_crossing_penalty)
        &&& opt_bool_of(tag_value(fs, 16)) == Some(w.shortest)
        &&& opt_u8_of(tag_value(fs, 17)) == Some(w.top_speed)
        &&& opt_bool_of(tag_value(fs, 18)) == Some(w.ignore_closures)
        &&& opt_fixed_of(tag_value(fs, 19)) == Some(w.closure_factor)
    }

    /// `d` is a nested message that holds a `AutomobileOptions`.
    pub open spec fn msg_decodable(d: WireData) -> bool {
        &&& d is Bytes
        &&& parse_message(d->Bytes_0, 0) matches Some(fs) && Self::wire_decodable(fs)
    }

    /// `w` is what the nested message `d` holds.
    pub open spec fn msg_decodes(d: WireData, w: AutomobileOptions) -> bool {
        &&& d is Bytes
        &&& parse_message(d->Bytes_0, 0) matches Some(fs) && Self::decodes_from(fs, w)
    }

    /// The two values agree in every field.
    pub open spec fn same_as(self, o: AutomobileOptions) -> bool {
        &&& self.maneuver_penalty == o.maneuver_penalty
        &&& self.gate_cost == o.gate_cost
        &&& self.gate_penalty == o.gate_penalty
        &&& self.private_access_penalty == o.private_access_penalty
        &&& self.toll_booth_cost == o.toll_booth_cost
        &&& self.toll_booth_penalty == o.toll_booth_penalty
        &&& self.ferry_cost == o.ferry_cost
        &&& self.use_highways == o.use_highways
        &&& self.use_tolls == o.use_tolls
        &&& self.use_living_streets == o.use_living_streets
        &&& self.use_tracks == o.use_tracks
        &&& self.service_penalty == o.service_penalty
        &&& self.service_factor == o.service_factor
        &&& self.country_crossing_cost == o.country_crossing_cost
        &&& self.country_crossing_penalty == o.country_crossing_penalty
        &&& self.shortest == o.shortest
        &&& self.top_speed == o.top_speed
        &&& self.ignore_closures == o.ignore_closures
        &&& self.closure_factor == o.closure_factor
    }

    /// The two sequences agree element by element.
    pub open spec fn same_seq(a: Seq<AutomobileOptions>, b: Seq<AutomobileOptions>) -> bool {
        &&& a.len() == b.len()
        &&& forall|i: int| 0 <= i < a.len() ==> (#[trigger] a[i]).same_as(b[i])
    }

    /// Every nested message of this value fits a length prefix.
    pub open spec fn wire_fits(&self) -> bool {
        true
    }

    /// This value's encoding as a nested message can be decoded.
    pub open spec fn msg_fits(&self) -> bool {
        fields_ok(self.wire_fields()) && self.wire_fits()
    }

    /// Every value of the sequence fits.
    pub open spec fn seq_fits(xs: Seq<AutomobileOptions>) -> bool {
        forall|i: int| 0 <= i < xs.len() ==> (#[trigger] xs[i]).msg_fits()
    }

    #[verifier::rlimit(100)]
    pub proof fn lemma_wire_tags(&self)
        ensures
            tags_within(self.wire_fields(), 19),
    {
        broadcast use group_codec_lemmas;

        assert(tags_within(Seq::<(u32, WireData)>::empty(), 19));
        lemma_tags_widen(opt_field(1, opt_u32_data(self.maneuver_penalty)), 1, 19);
        lemma_tags_widen(opt_field(2, opt_u32_data(self.gate_cost)), 2, 19);
        lemma_tags_widen(opt_field(3, opt_u32_data(self.gate_penalty)), 3, 19);
        lemma_tags_widen(opt_field(4, opt_u32_data(self.private_access_penalty)), 4, 19);
        lemma_tags_widen(opt_field(5, opt_u32_data(self.toll_booth_cost)), 5, 19);
        lemma_tags_widen(opt_field(6, opt_u32_data(self.toll_booth_penalty)), 6, 19);
        lemma_tags_widen(opt_field(7, opt_fixed_data(self.ferry_cost)), 7, 19);
        lemma_tags_widen(opt_field(8, opt_fixed_data(self.use_highways)), 8, 19);
        lemma_tags_widen(opt_field(9, opt_fixed_data(self.use_tolls)), 9, 19);
        lemma_tags_widen(opt_field(10, opt_fixed_data(self.use_living_streets)), 10, 19);
        lemma_tags_widen(opt_field(11, opt_fixed_data(self.use_tracks)), 11, 19);
        lemma_tags_widen(opt_field(12, opt_u8_data(self.service_penalty)), 12, 19);
        lemma_tags_widen(opt_field(13, opt_fixed_data(self.service_factor)), 13, 19);
        lemma_tags_widen(opt_field(14, opt_fixed_data(self.country_crossing_cost)), 14, 19);
        lemma_tags_widen(opt_field(15, opt_fixed_data(self.country_crossing_penalty)), 15, 19);
        lemma_tags_widen(opt_field(16, opt_bool_data(self.shortest)), 16, 19);
        lemma_tags_widen(opt_field(17, opt_u8_data(self.top_speed)), 17, 19);
        lemma_tags_widen(opt_field(18, opt_bool_data(self.ignore_closures)), 18, 19);
        lemma_tags_widen(opt_field(19, opt_fixed_data(self.closure_factor)), 19, 19);
    }

    /// The fields this value is encoded as.
    #[verifier::rlimit(100)]
    pub fn to_wire_fields(&self) -> (r: Vec<WireField>)
        ensures
            fields_view(r@) == self.wire_fields(),
    {
        let mut fs: Vec<WireField> = Vec::new();
        assert(fields_view(fs@) =~= Seq::<(u32, WireData)>::empty());
        let ghost before = fields_view(fs@);
        push_opt_u32(&mut fs, 1, self.maneuver_penalty);
        assert(fields_view(fs@) =~= before + opt_field(1, opt_u32_data(self.maneuver_penalty)));
        let ghost before = fields_view(fs@);
        push_opt_u32(&mut fs, 2, self.gate_cost);
        assert(fields_view(fs@) =~= before + opt_field(2, opt_u32_data(self.gate_cost)));
        let ghost before = fields_view(fs@);
        push_opt_u32(&mut fs, 3, self.gate_penalty);
        assert(fields_view(fs@) =~= before + opt_field(3, opt_u32_data(self.gate_penalty)));
        let ghost before = fields_view(fs@);
        push_opt_u32(&mut fs, 4, self.private_access_penalty);
        assert(fields_view(fs@) =~= before + opt_field(4, opt_u32_data(self.private_access_penalty)));
        let ghost before = fields_view(fs@);
        push_opt_u32(&mut fs, 5, self.toll_booth_cost);
        assert(fields_view(fs@) =~= before + opt_field(5, opt_u32_data(self.toll_booth_cost)));
        let ghost before = fields_view(fs@);
        push_opt_u32(&mut fs, 6, self.toll_booth_penalty);
        assert(fields_view(fs@) =~= before + opt_field(6, opt_u32_data(self.toll_booth_penalty)));
        let ghost before = fields_view(fs@);
        push_opt_fixed(&mut fs, 7, self.ferry_cost);
        assert(fields_view(fs@) =~= before + opt_field(7, opt_fixed_data(self.ferry_cost)));
        let ghost before = fields_view(fs@);
        push_opt_fixed(&mut fs, 8, self.use_highways);
        assert(fields_view(fs@) =~= before + opt_field(8, opt_fixed_data(self.use_highways)));
        let ghost before = fields_view(fs@);
        push_opt_fixed(&mut fs, 9, self.use_tolls);
        assert(fields_view(fs@) =~= before + opt_field(9, opt_fixed_data(self.use_tolls)));
        let ghost before = fields_view(fs@);
        push_opt_fixed(&mut fs, 10, self.use_living_streets);
        assert(fields_view(fs@) =~= before + opt_field(10, opt_fixed_data(self.use_living_streets)));
        let ghost before = fields_view(fs@);
        push_opt_fixed(&mut fs, 11, self.use_tracks);
        assert(fields_view(fs@) =~= before + opt_field(11, opt_fixed_data(self.use_tracks)));
        let ghost before = fields_view(fs@);
        push_opt_u8(&mut fs, 12, self.service_penalty);
        assert(fields_view(fs@) =~= before + opt_field(12, opt_u8_data(self.service_penalty)));
        let ghost before = fields_view(fs@);
        push_opt_fixed(&mut fs, 13, self.service_factor);
        assert(fields_view(fs@) =~= before + opt_field(13, opt_fixed_data(self.service_factor)));
        let ghost before = fields_view(fs@);
        push_opt_fixed(&mut fs, 14, self.country_crossing_cost);
        assert(fields_view(fs@) =~= before + opt_field(14, opt_fixed_data(self.country_crossing_cost)));
        let ghost before = fields_view(fs@);
        push_opt_fixed(&mut fs, 15, self.country_crossing_penalty);
        assert(fields_view(fs@) =~= before + opt_field(15, opt_fixed_data(self.country_crossing_penalty)));
        let ghost before = fields_view(fs@);
        push_opt_bool(&mut fs, 16, self.shortest);
        assert(fields_view(fs@) =~= before + opt_field(16, opt_bool_data(self.shortest)));
        let ghost before = fields_view(fs@);
        push_opt_u8(&mut fs, 17, self.top_speed);
        assert(fields_view(fs@) =~= before + opt_field(17, opt_u8_data(self.top_speed)));
        let ghost before = fields_view(fs@);
        push_opt_bool(&mut fs, 18, self.ignore_closures);
        assert(fields_view(fs@) =~= before + opt_field(18, opt_bool_data(self.ignore_closures)));
        let ghost before = fields_view(fs@);
        push_opt_fixed(&mut fs, 19, self.closure_factor);
        assert(fields_view(fs@) =~= before + opt_field(19, opt_fixed_data(self.closure_factor)));
        fs
    }

    /// This value as a nested message.
    pub fn to_wire_value(&self) -> (r: WireValue)
        ensures
            r@ == self.msg_data(),
    {
        let fs = self.to_wire_fields();
        proof {
            self.lemma_wire_tags();
        }
        WireValue::Bytes(encode_message(&fs))
    }

    /// The `AutomobileOptions` that `fs` holds.
    #[verifier::rlimit(100)]
    pub fn from_wire_fields(fs: &Vec<WireField>) -> (r: Result<AutomobileOptions, CodecError>)
        ensures
            r is Ok <==> Self::wire_decodable(fields_view(fs@)),
            r matches Ok(w) ==> Self::decodes_from(fields_view(fs@), w),
    {
        check_tags(fs, 19)?;
        let maneuver_penalty = read_opt_u32(fs, 1)?;
        let gate_cost = read_opt_u32(fs, 2)?;
        let gate_penalty = read_opt_u32(fs, 3)?;
        let private_access_penalty = read_opt_u32(fs, 4)?;
        let toll_booth_cost = read_opt_u32(fs, 5)?;
        let toll_booth_penalty = read_opt_u32(fs, 6)?;
        let ferry_cost = read_opt_fixed(fs, 7)?;
        let use_highways = read_opt_fixed(fs, 8)?;
        let use_tolls = read_opt_fixed(fs, 9)?;
        let use_living_streets = read_opt_fixed(fs, 10)?;
        let use_tracks = read_opt_fixed(fs, 11)?;
        let service_penalty = read_opt_u8(fs, 12)?;
        let service_factor = read_opt_fixed(fs, 13)?;
        let country_crossing_cost = read_opt_fixed(fs, 14)?;
        let country_crossing_penalty = read_opt_fixed(fs, 15)?;
        let shortest = read_opt_bool(fs, 16)?;
        let top_speed = read_opt_u8(fs, 17)?;
        let ignore_closures = read_opt_bool(fs, 18)?;
        let closure_factor = read_opt_fixed(fs, 19)?;
        Ok(AutomobileOptions { maneuver_penalty, gate_cost, gate_penalty, private_access_penalty, toll_booth_cost, toll_booth_penalty, ferry_cost, use_highways, use_tolls, use_living_streets, use_tracks, service_penalty, service_factor, country_crossing_cost, country_crossing_penalty, shortest, top_speed, ignore_closures, closure_factor })
    }

    /// The `AutomobileOptions` that the nested message `v` holds.
    pub fn from_wire_value(v: &WireValue, t: u32) -> (r: Result<AutomobileOptions, CodecError>)
        ensures
            r is Ok <==> Self::msg_decodable(v@),
            r matches Ok(w) ==> Self::msg_decodes(v@, w),
    {
        match v {
            WireValue::Bytes(b) => match decode_message(b.as_slice()) {
                Ok(fs) => Self::from_wire_fields(&fs),
                Err(e) => Err(CodecError::Wire(e)),
            },
            WireValue::Varint(_) => Err(CodecError::BadValue(t)),
        }
    }

    /// Decoding the fields of a value gives back an equal value.
    #[verifier::rlimit(100)]
    #[verifier::spinoff_prover]
    pub proof fn lemma_round_trip(v: AutomobileOptions)
        requires
            v.wire_fits(),
        ensures
            Self::wire_decodable(v.wire_fields()),
            forall|w: AutomobileOptions| Self::decodes_from(v.wire_fields(), w) ==> w.same_as(v),
    {
        broadcast use lemma_zigzag_round_trip, lemma_str_round_trip, DirectionsType::lemma_code_round_trip, Units::lemma_code_round_trip, LocationType::lemma_code_round_trip, PreferredSide::lemma_code_round_trip, CostingModels::lemma_code_round_trip, BicyleType::lemma_code_round_trip, ManeuverType::lemma_code_round_trip, TravelMode::lemma_code_round_trip, TravelType::lemma_code_round_trip, lemma_opt_fixed_round_trip, lemma_opt_u32_round_trip, lemma_opt_u16_round_trip, lemma_opt_u8_round_trip, lemma_opt_bool_round_trip, lemma_opt_str_round_trip, lemma_opt_directions_type_round_trip, lemma_opt_units_round_trip, lemma_opt_location_type_round_trip, lemma_opt_preferred_side_round_trip, lemma_opt_costing_models_round_trip, lemma_opt_bicyle_type_round_trip, lemma_opt_maneuver_type_round_trip, lemma_opt_travel_mode_round_trip, lemma_opt_travel_type_round_trip;

        v.lemma_wire_tags();
        assert(tag_value(v.wire_fields(), 1) == opt_u32_data(v.maneuver_penalty)) by {
            broadcast use group_codec_lemmas;
        }
        assert(tag_value(v.wire_fields(), 2) == opt_u32_data(v.gate_cost)) by {
            broadcast use group_codec_lemmas;
        }
        assert(tag_value(v.wire_fields(), 3) == opt_u32_data(v.gate_penalty)) by {
            broadcast use group_codec_lemmas;
        }
        assert(tag_value(v.wire_fields(), 4) == opt_u32_data(v.private_access_penalty)) by {
            broadcast use group_codec_lemmas;
        }
        assert(tag_value(v.wire_fields(), 5) == opt_u32_data(v.toll_booth_cost)) by {
            broadcast use group_codec_lemmas;
        }
        assert(tag_value(v.wire_fields(), 6) == opt_u32_data(v.toll_booth_penalty)) by {
            broadcast use group_codec_lemmas;
        }
        assert(tag_value(v.wire_fields(), 7) == opt_fixed_data(v.ferry_cost)) by {
            broadcast use group_codec_lemmas;
        }
        assert(tag_value(v.wire_fields(), 8) == opt_fixed_data(v.use_highways)) by {
            broadcast use group_codec_lemmas;
        }
        assert(tag_value(v.wire_fields(), 9) == opt_fixed_data(v.use_tolls)) by {
            broadcast use group_codec_lemmas;
        }
        assert(tag_value(v.wire_fields(), 10) == opt_fixed_data(v.use_living_streets)) by {
            broadcast use group_codec_lemmas;
        }
        assert(tag_value(v.wire_fields(), 11) == opt_fixed_data(v.use_tracks)) by {
            broadcast use group_codec_lemmas;
        }
        assert(tag_value(v.wire_fields(), 12) == opt_u8_data(v.service_penalty)) by {
            broadcast use group_codec_lemmas;
        }
        assert(tag_value(v.wire_fields(), 13) == opt_fixed_data(v.service_factor)) by {
            broadcast use group_codec_lemmas;
        }
        assert(tag_value(v.wire_fields(), 14) == opt_fixed_data(v.country_crossing_cost)) by {
            broadcast use group_codec_lemmas;
        }
        assert(tag_value(v.wire_fields(), 15) == opt_fixed_data(v.country_crossing_penalty)) by {
            broadcast use group_codec_lemmas;
        }
        assert(tag_value(v.wire_fields(), 16) == opt_bool_data(v.shortest)) by {
            broadcast use group_codec_lemmas;
        }
        assert(tag_value(v.wire_fields(), 17) == opt_u8_data(v.top_speed)) by {
            broadcast use group_codec_lemmas;
        }
        assert(tag_value(v.wire_fields(), 18) == opt_bool_data(v.ignore_closures)) by {
            broadcast use group_codec_lemmas;
        }
        assert(tag_value(v.wire_fields(), 19) == opt_fixed_data(v.closure_factor)) by {
            broadcast use group_codec_lemmas;
        }
    }

    /// Decoding a value's nested message gives back an equal value.
    pub proof fn lemma_msg_round_trip(v: AutomobileOptions)
        requires
            v.msg_fits(),
        ensures
            Self::msg_decodable(v.msg_data()),
            forall|w: AutomobileOptions| Self::msg_decodes(v.msg_data(), w) ==> w.same_as(v),
    {
        lemma_wire_round_trip(v.wire_fields());
        Self::lemma_round_trip(v);
    }

}

impl BicycleOptions {
    /// The fields this value is encoded as.
    pub open spec fn wire_fields(&self) -> Seq<(u32, WireData)> {
        Seq::empty()
            + opt_field(1, opt_bicyle_type_data(self.bicycle_type))
            + opt_field(2, opt_fixed_data(self.cycling_speed))
            + opt_field(3, opt_fixed_data(self.use_roads))
            + opt_field(4, opt_fixed_data(self.use_hills))
            + opt_field(5, opt_fixed_data(self.use_ferry))
            + opt_field(6, opt_fixed_data(self.use_living_streets))
            + opt_field(7, opt_fixed_data(self.avoid_bad_surfaces))
            + opt_field(8, opt_u16_data(self.bss_return_cost))
            + opt_field(9, opt_fixed_data(self.bss_return_penalty))
            + opt_field(10, opt_bool_data(self.shortest))
    }

    /// This value as a nested message.
    pub open spec fn msg_data(&self) -> WireData {
        WireData::Bytes(message_bytes(self.wire_fields()))
    }

    /// The values as nested messages.
    pub open spec fn msg_data_seq(xs: Seq<BicycleOptions>) -> Seq<WireData> {
        xs.map_values(|x: BicycleOptions| x.msg_data())
    }

    /// `fs` holds a `BicycleOptions`: known tags, every required field present, every field of its kind.
    pub open spec fn wire_decodable(fs: Seq<(u32, WireData)>) -> bool {
        &&& tags_within(fs, 10)
        &&& opt_bicyle_type_of(tag_value(fs, 1)) is Some
        &&& opt_fixed_of(tag_value(fs, 2)) is Some
        &&& opt_fixed_of(tag_value(fs, 3)) is Some
        &&& opt_fixed_of(tag_value(fs, 4)) is Some
        &&& opt_fixed_of(tag_value(fs, 5)) is Some
        &&& opt_fixed_of(tag_value(fs, 6)) is Some
        &&& opt_fixed_of(tag_value(fs, 7)) is Some
        &&& opt_u16_of(tag_value(fs, 8)) is Some
        &&& opt_fixed_of(tag_value(fs, 9)) is Some
        &&& opt_bool_of(tag_value(fs, 10)) is Some
    }

    /// `w` is what `fs` holds.
    pub open spec fn decodes_from(fs: Seq<(u32, WireData)>, w: BicycleOptions) -> bool {
        &&& opt_bicyle_type_of(tag_value(fs, 1)) == Some(w.bicycle_type)
        &&& opt_fixed_of(tag_value(fs, 2)) == Some(w.cycling_speed)
        &&& opt_fixed_of(tag_value(fs, 3)) == Some(w.use_roads)
        &&& opt_fixed_of(tag_value(fs, 4)) == Some(w.use_hills)
        &&& opt_fixed_of(tag_value(fs, 5)) == Some(w.use_ferry)
        &&& opt_fixed_of(tag_value(fs, 6)) == Some(w.use_living_streets)
        &&& opt_fixed_of(tag_value(fs, 7)) == Some(w.avoid_bad_surfaces)
        &&& opt_u16_of(tag_value(fs, 8)) == Some(w.bss_return_cost)
        &&& opt_fixed_of(tag_value(fs, 9)) == Some(w.bss_return_penalty)
        &&& opt_bool_of(tag_value(fs, 10)) == Some(w.shortest)
    }

    /// `d` is a nested message that holds a `BicycleOptions`.
    pub open spec fn msg_decodable(d: WireData) -> bool {
        &&& d is Bytes
        &&& parse_message(d->Bytes_0, 0) matches Some(fs) && Self::wire_decodable(fs)
    }

    /// `w` is what the nested message `d` holds.
    pub open spec fn msg_decodes(d: WireData, w: BicycleOptions) -> bool {
        &&& d is Bytes
        &&& parse_message(d->Bytes_0, 0) matches Some(fs) && Self::decodes_from(fs, w)
    }

    /// The two values agree in every field.
    pub open spec fn same_as(self, o: BicycleOptions) -> bool {
        &&& self.bicycle_type == o.bicycle_type
        &&& self.cycling_speed == o.cycling_speed
        &&& self.use_roads == o.use_roads
        &&& self.use_hills == o.use_hills
        &&& self.use_ferry == o.use_ferry
        &&& self.use_living_streets == o.use_living_streets
        &&& self.avoid_bad_surfaces == o.avoid_bad_surfaces
        &&& self.bss_return_cost == o.bss_return_cost
        &&& self.bss_return_penalty == o.bss_return_penalty
        &&& self.shortest == o.shortest
    }

    /// The two sequences agree element by element.
    pub open spec fn same_seq(a: Seq<BicycleOptions>, b: Seq<BicycleOptions>) -> bool {
        &&& a.len() == b.len()
        &&& forall|i: int| 0 <= i < a.len() ==> (#[trigger] a[i]).same_as(b[i])
    }

    /// Every nested message of this value fits a length prefix.
    pub open spec fn wire_fits(&self) -> bool {
        true
    }

    /// This value's encoding as a nested message can be decoded.
    pub open spec fn msg_fits(&self) -> bool {
        fields_ok(self.wire_fields()) && self.wire_fits()
    }

    /// Every value of the sequence fits.
    pub open spec fn seq_fits(xs: Seq<BicycleOptions>) -> bool {
        forall|i: int| 0 <= i < xs.len() ==> (#[trigger] xs[i]).msg_fits()
    }

    #[verifier::rlimit(100)]
    pub proof fn lemma_wire_tags(&self)
        ensures
            tags_within(self.wire_fields(), 10),
    {
        broadcast use group_codec_lemmas;

        assert(tags_within(Seq::<(u32, WireData)>::empty(), 10));
        lemma_tags_widen(opt_field(1, opt_bicyle_type_data(self.bicycle_type)), 1, 10);
        lemma_tags_widen(opt_field(2, opt_fixed_data(self.cycling_speed)), 2, 10);
        lemma_tags_widen(opt_field(3, opt_fixed_data(self.use_roads)), 3, 10);
        lemma_tags_widen(opt_field(4, opt_fixed_data(self.use_hills)), 4, 10);
        lemma_tags_widen(opt_field(5, opt_fixed_data(self.use_ferry)), 5, 10);
        lemma_tags_widen(opt_field(6, opt_fixed_data(self.use_living_streets)), 6, 10);
        lemma_tags_widen(opt_field(7, opt_fixed_data(self.avoid_bad_surfaces)), 7, 10);
        lemma_tags_widen(opt_field(8, opt_u16_data(self.bss_return_cost)), 8, 10);
        lemma_tags_widen(opt_field(9, opt_fixed_data(self.bss_return_penalty)), 9, 10);
        lemma_tags_widen(opt_field(10, opt_bool_data(self.shortest)), 10, 10);
    }

    /// The fields this value is encoded as.
    #[verifier::rlimit(100)]
    pub fn to_wire_fields(&self) -> (r: Vec<WireField>)
        ensures
            fields_view(r@) == self.wire_fields(),
    {
        let mut fs: Vec<WireField> = Vec::new();
        assert(fields_view(fs@) =~= Seq::<(u32, WireData)>::empty());
        let ghost before = fields_view(fs@);
        push_opt_bicyle_type(&mut fs, 1, self.bicycle_type);
        assert(fields_view(fs@) =~= before + opt_field(1, opt_bicyle_type_data(self.bicycle_type)));
        let ghost before = fields_view(fs@);
        push_opt_fixed(&mut fs, 2, self.cycling_speed);
        assert(fields_view(fs@) =~= before + opt_field(2, opt_fixed_data(self.cycling_speed)));
        let ghost before = fields_view(fs@);
        push_opt_fixed(&mut fs, 3, self.use_roads);
        assert(fields_view(fs@) =~= before + opt_field(3, opt_fixed_data(self.use_roads)));
        let ghost before = fields_view(fs@);
        push_opt_fixed(&mut fs, 4, self.use_hills);
        assert(fields_view(fs@) =~= before + opt_field(4, opt_fixed_data(self.use_hills)));
        let ghost before = fields_view(fs@);
        push_opt_fixed(&mut fs, 5, self.use_ferry);
        assert(fields_view(fs@) =~= before + opt_field(5, opt_fixed_data(self.use_ferry)));
        let ghost before = fields_view(fs@);
        push_opt_fixed(&mut fs, 6, self.use_living_streets);
        assert(fields_view(fs@) =~= before + opt_field(6, opt_fixed_data(self.use_living_streets)));
        let ghost before = fields_view(fs@);
        push_opt_fixed(&mut fs, 7, self.avoid_bad_surfaces);
        assert(fields_view(fs@) =~= before + opt_field(7, opt_fixed_data(self.avoid_bad_surfaces)));
        let ghost before = fields_view(fs@);
        push_opt_u16(&mut fs, 8, self.bss_return_cost);
        assert(fields_view(fs@) =~= before + opt_field(8, opt_u16_data(self.bss_return_cost)));
        let ghost before = fields_view(fs@);
        push_opt_fixed(&mut fs, 9, self.bss_return_penalty);
        assert(fields_view(fs@) =~= before + opt_field(9, opt_fixed_data(self.bss_return_penalty)));
        let ghost before = fields_view(fs@);
        push_opt_bool(&mut fs, 10, self.shortest);
        assert(fields_view(fs@) =~= before + opt_field(10, opt_bool_data(self.shortest)));
        fs
    }

    /// This value as a nested message.
    pub fn to_wire_value(&self) -> (r: WireValue)
        ensures
            r@ == self.msg_data(),
    {
        let fs = self.to_wire_fields();
        proof {
            self.lemma_wire_tags();
        }
        WireValue::Bytes(encode_message(&fs))
    }

    /// The `BicycleOptions` that `fs` holds.
    #[verifier::rlimit(100)]
    pub fn from_wire_fields(fs: &Vec<WireField>) -> (r: Result<BicycleOptions, CodecError>)
        ensures
            r is Ok <==> Self::wire_decodable(fields_view(fs@)),
            r matches Ok(w) ==> Self::decodes_from(fields_view(fs@), w),
    {
        check_tags(fs, 10)?;
        let bicycle_type = read_opt_bicyle_type(fs, 1)?;
        let cycling_speed = read_opt_fixed(fs, 2)?;
        let use_roads = read_opt_fixed(fs, 3)?;
        let use_hills = read_opt_fixed(fs, 4)?;
        let use_ferry = read_opt_fixed(fs, 5)?;
        let use_living_streets = read_opt_fixed(fs, 6)?;
        let avoid_bad_surfaces = read_opt_fixed(fs, 7)?;
        let bss_return_cost = read_opt_u16(fs, 8)?;
        let bss_return_penalty = read_opt_fixed(fs, 9)?;
        let shortest = read_opt_bool(fs, 10)?;
        Ok(BicycleOptions { bicycle_type, cycling_speed, use_roads, use_hills, use_ferry, use_living_streets, avoid_bad_surfaces, bss_return_cost, bss_return_penalty, shortest })
    }

    /// The `BicycleOptions` that the nested message `v` holds.
    pub fn from_wire_value(v: &WireValue, t: u32) -> (r: Result<BicycleOptions, CodecError>)
        ensures
            r is Ok <==> Self::msg_decodable(v@),
            r matches Ok(w) ==> Self::msg_decodes(v@, w),
    {
        match v {
            WireValue::Bytes(b) => match decode_message(b.as_slice()) {
                Ok(fs) => Self::from_wire_fields(&fs),
                Err(e) => Err(CodecError::Wire(e)),
            },
            WireValue::Varint(_) => Err(CodecError::BadValue(t)),
        }
    }

    /// Decoding the fields of a value gives back an equal value.
    #[verifier::rlimit(100)]
    #[verifier::spinoff_prover]
    pub proof fn lemma_round_trip(v: BicycleOptions)
        requires
            v.wire_fits(),
        ensures
            Self::wire_decodable(v.wire_fields()),
            forall|w: BicycleOptions| Self::decodes_from(v.wire_fields(), w) ==> w.same_as(v),
    {
        broadcast use lemma_zigzag_round_trip, lemma_str_round_trip, DirectionsType::lemma_code_round_trip, Units::lemma_code_round_trip, LocationType::lemma_code_round_trip, PreferredSide::lemma_code_round_trip, CostingModels::lemma_code_round_trip, BicyleType::lemma_code_round_trip, ManeuverType::lemma_code_round_trip, TravelMode::lemma_code_round_trip, TravelType::lemma_code_round_trip, lemma_opt_fixed_round_trip, lemma_opt_u32_round_trip, lemma_opt_u16_round_trip, lemma_opt_u8_round_trip, lemma_opt_bool_round_trip, lemma_opt_str_round_trip, lemma_opt_directions_type_round_trip, lemma_opt_units_round_trip, lemma_opt_location_type_round_trip, lemma_opt_preferred_side_round_trip, lemma_opt_costing_models_round_trip, lemma_opt_bicyle_type_round_trip, lemma_opt_maneuver_type_round_trip, lemma_opt_travel_mode_round_trip, lemma_opt_travel_type_round_trip;

        v.lemma_wire_tags();
        assert(tag_value(v.wire_fields(), 1) == opt_bicyle_type_data(v.bicycle_type)) by {
            broadcast use group_codec_lemmas;
        }
        assert(tag_value(v.wire_fields(), 2) == opt_fixed_data(v.cycling_speed)) by {
            broadcast use group_codec_lemmas;
        }
        assert(tag_value(v.wire_fields(), 3) == opt_fixed_data(v.use_roads)) by {
            broadcast use group_codec_lemmas;
        }
        assert(tag_value(v.wire_fields(), 4) == opt_fixed_data(v.use_hills)) by {
            broadcast use group_codec_lemmas;
        }
        assert(tag_value(v.wire_fields(), 5) == opt_fixed_data(v.use_ferry)) by {
            broadcast use group_codec_lemmas;
        }
        assert(tag_value(v.wire_fields(), 6) == opt_fixed_data(v.use_living_streets)) by {
            broadcast use group_codec_lemmas;
        }
        assert(tag_value(v.wire_fields(), 7) == opt_fixed_data(v.avoid_bad_surfaces)) by {
            broadcast use group_codec_lemmas;
        }
        assert(tag_value(v.wire_fields(), 8) == opt_u16_data(v.bss_return_cost)) by {
            broadcast use group_codec_lemmas;
        }
        assert(tag_value(v.wire_fields(), 9) == opt_fixed_data(v.bss_return_penalty)) by {
            broadcast use group_codec_lemmas;
        }
        assert(tag_value(v.wire_fields(), 10) == opt_bool_data(v.shortest)) by {
            broadcast use group_codec_lemmas;
        }
    }

    /// Decoding a value's nested message gives back an equal value.
    pub proof fn lemma_msg_round_trip(v: BicycleOptions)
        requires
            v.msg_fits(),
        ensures
            Self::msg_decodable(v.msg_data()),
            forall|w: BicycleOptions| Self::msg_decodes(v.msg_data(), w) ==> w.same_as(v),
    {
        lemma_wire_round_trip(v.wire_fields());
        Self::lemma_round_trip(v);
    }

}

impl VehicleOptions {
    /// The fields this value is encoded as.
    pub open spec fn wire_fields(&self) -> Seq<(u32, WireData)> {
        Seq::empty()
            + opt_field(1, opt_fixed_data(self.height))
            + opt_field(2, opt_fixed_data(self.width))
            + opt_field(3, opt_u8_data(self.exclude_unpaved))
            + opt_field(4, opt_bool_data(self.exclude_cash_only_tolls))
            + opt_field(5, opt_bool_data(self.include_hov2))
            + opt_field(6, opt_bool_data(self.include_hov3))
            + opt_field(7, opt_bool_data(self.include_hot))
    }

    /// This value as a nested message.
    pub open spec fn msg_data(&self) -> WireData {
        WireData::Bytes(message_bytes(self.wire_fields()))
    }

    /// The values as nested messages.
    pub open spec fn msg_data_seq(xs: Seq<VehicleOptions>) -> Seq<WireData> {
        xs.map_values(|x: VehicleOptions| x.msg_data())
    }

    /// `fs` holds a `VehicleOptions`: known tags, every required field present, every field of its kind.
    pub open spec fn wire_decodable(fs: Seq<(u32, WireData)>) -> bool {
        &&& tags_within(fs, 7)
        &&& opt_fixed_of(tag_value(fs, 1)) is Some
        &&& opt_fixed_of(tag_value(fs, 2)) is Some
        &&& opt_u8_of(tag_value(fs, 3)) is Some
        &&& opt_bool_of(tag_value(fs, 4)) is Some
        &&& opt_bool_of(tag_value(fs, 5)) is Some
        &&& opt_bool_of(tag_value(fs, 6)) is Some
        &&& opt_bool_of(tag_value(fs, 7)) is Some
    }

    /// `w` is what `fs` holds.
    pub open spec fn decodes_from(fs: Seq<(u32, WireData)>, w: VehicleOptions) -> bool {
        &&& opt_fixed_of(tag_value(fs, 1)) == Some(w.height)
        &&& opt_fixed_of(tag_value(fs, 2)) == Some(w.width)
        &&& opt_u8_of(tag_value(fs, 3)) == Some(w.exclude_unpaved)
        &&& opt_bool_of(tag_value(fs, 4)) == Some(w.exclude_cash_only_tolls)
        &&& opt_bool_of(tag_value(fs, 5)) == Some(w.include_hov2)
        &&& opt_bool_of(tag_value(fs, 6)) == Some(w.include_hov3)
        &&& opt_bool_of(tag_value(fs, 7)) == Some(w.include_hot)
    }

    /// `d` is a nested message that holds a `VehicleOptions`.
    pub open spec fn msg_decodable(d: WireData) -> bool {
        &&& d is Bytes
        &&& parse_message(d->Bytes_0, 0) matches Some(fs) && Self::wire_decodable(fs)
    }

    /// `w` is what the nested message `d` holds.
    pub open spec fn msg_decodes(d: WireData, w: VehicleOptions) -> bool {
        &&& d is Bytes
        &&& parse_message(d->Bytes_0, 0) matches Some(fs) && Self::decodes_from(fs, w)
    }

    /// The two values agree in every field.
    pub open spec fn same_as(self, o: VehicleOptions) -> bool {
        &&& self.height == o.height
        &&& self.width == o.width
        &&& self.exclude_unpaved == o.exclude_unpaved
        &&& self.exclude_cash_only_tolls == o.exclude_cash_only_tolls
        &&& self.include_hov2 == o.include_hov2
        &&& self.include_hov3 == o.include_hov3
        &&& self.include_hot == o.include_hot
    }

    /// The two sequences agree element by element.
    pub open spec fn same_seq(a: Seq<VehicleOptions>, b: Seq<VehicleOptions>) -> bool {
        &&& a.len() == b.len()
        &&& forall|i: int| 0 <= i < a.len() ==> (#[trigger] a[i]).same_as(b[i])
    }

    /// Every nested message of this value fits a length prefix.
    pub open spec fn wire_fits(&self) -> bool {
        true
    }

    /// This value's encoding as a nested message can be decoded.
    pub open spec fn msg_fits(&self) -> bool {
        fields_ok(self.wire_fields()) && self.wire_fits()
    }

    /// Every value of the sequence fits.
    pub open spec fn seq_fits(xs: Seq<VehicleOptions>) -> bool {
        forall|i: int| 0 <= i < xs.len() ==> (#[trigger] xs[i]).msg_fits()
    }

    pub proof fn lemma_wire_tags(&self)
        ensures
            tags_within(self.wire_fields(), 7),
    {
        broadcast use group_codec_lemmas;

        assert(tags_within(Seq::<(u32, WireData)>::empty(), 7));
        lemma_tags_widen(opt_field(1, opt_fixed_data(self.height)), 1, 7);
        lemma_tags_widen(opt_field(2, opt_fixed_data(self.width)), 2, 7);
        lemma_tags_widen(opt_field(3, opt_u8_data(self.exclude_unpaved)), 3, 7);
        lemma_tags_widen(opt_field(4, opt_bool_data(self.exclude_cash_only_tolls)), 4, 7);
        lemma_tags_widen(opt_field(5, opt_bool_data(self.include_hov2)), 5, 7);
        lemma_tags_widen(opt_field(6, opt_bool_data(self.include_hov3)), 6, 7);
        lemma_tags_widen(opt_field(7, opt_bool_data(self.include_hot)), 7, 7);
    }

    /// The fields this value is encoded as.
    pub fn to_wire_fields(&self) -> (r: Vec<WireField>)
        ensures
            fields_view(r@) == self.wire_fields(),
    {
        let mut fs: Vec<WireField> = Vec::new();
        assert(fields_view(fs@) =~= Seq::<(u32, WireData)>::empty());
        let ghost before = fields_view(fs@);
        push_opt_fixed(&mut fs, 1, self.height);
        assert(fields_view(fs@) =~= before + opt_field(1, opt_fixed_data(self.height)));
        let ghost before = fields_view(fs@);
        push_opt_fixed(&mut fs, 2, self.width);
        assert(fields_view(fs@) =~= before + opt_field(2, opt_fixed_data(self.width)));
        let ghost before = fields_view(fs@);
        push_opt_u8(&mut fs, 3, self.exclude_unpaved);
        assert(fields_view(fs@) =~= before + opt_field(3, opt_u8_data(self.exclude_unpaved)));
        let ghost before = fields_view(fs@);
        push_opt_bool(&mut fs, 4, self.exclude_cash_only_tolls);
        assert(fields_view(fs@) =~= before + opt_field(4, opt_bool_data(self.exclude_cash_only_tolls)));
        let ghost before = fields_view(fs@);
        push_opt_bool(&mut fs, 5, self.include_hov2);
        assert(fields_view(fs@) =~= before + opt_field(5, opt_bool_data(self.include_hov2)));
        let ghost before = fields_view(fs@);
        push_opt_bool(&mut fs, 6, self.include_hov3);
        assert(fields_view(fs@) =~= before + opt_field(6, opt_bool_data(self.include_hov3)));
        let ghost before = fields_view(fs@);
        push_opt_bool(&mut fs, 7, self.include_hot);
        assert(fields_view(fs@) =~= before + opt_field(7, opt_bool_data(self.include_hot)));
        fs
    }

    /// This value as a nested message.
    pub fn to_wire_value(&self) -> (r: WireValue)
        ensures
            r@ == self.msg_data(),
    {
        let fs = self.to_wire_fields();
        proof {
            self.lemma_wire_tags();
        }
        WireValue::Bytes(encode_message(&fs))
    }

    /// The `VehicleOptions` that `fs` holds.
    pub fn from_wire_fields(fs: &Vec<WireField>) -> (r: Result<VehicleOptions, CodecError>)
        ensures
            r is Ok <==> Self::wire_decodable(fields_view(fs@)),
            r matches Ok(w) ==> Self::decodes_from(fields_view(fs@), w),
    {
        check_tags(fs, 7)?;
        let height = read_opt_fixed(fs, 1)?;
        let width = read_opt_fixed(fs, 2)?;
        let exclude_unpaved = read_opt_u8(fs, 3)?;
        let exclude_cash_only_tolls = read_opt_bool(fs, 4)?;
        let include_hov2 = read_opt_bool(fs, 5)?;
        let include_hov3 = read_opt_bool(fs, 6)?;
        let include_hot = read_opt_bool(fs, 7)?;
        Ok(VehicleOptions { height, width, exclude_unpaved, exclude_cash_only_tolls, include_hov2, include_hov3, include_hot })
    }

    /// The `VehicleOptions` that the nested message `v` holds.
    pub fn from_wire_value(v: &WireValue, t: u32) -> (r: Result<VehicleOptions, CodecError>)
        ensures
            r is Ok <==> Self::msg_decodable(v@),
            r matches Ok(w) ==> Self::msg_decodes(v@, w),
    {
        match v {
            WireValue::Bytes(b) => match decode_message(b.as_slice()) {
                Ok(fs) => Self::from_wire_fields(&fs),
                Err(e) => Err(CodecError::Wire(e)),
            },
            WireValue::Varint(_) => Err(CodecError::BadValue(t)),
        }
    }

    /// Decoding the fields of a value gives back an equal value.
    #[verifier::rlimit(100)]
    #[verifier::spinoff_prover]
    pub proof fn lemma_round_trip(v: VehicleOptions)
        requires
            v.wire_fits(),
        ensures
            Self::wire_decodable(v.wire_fields()),
            forall|w: VehicleOptions| Self::decodes_from(v.wire_fields(), w) ==> w.same_as(v),
    {
        broadcast use lemma_zigzag_round_trip, lemma_str_round_trip, DirectionsType::lemma_code_round_trip, Units::lemma_code_round_trip, LocationType::lemma_code_round_trip, PreferredSide::lemma_code_round_trip, CostingModels::lemma_code_round_trip, BicyleType::lemma_code_round_trip, ManeuverType::lemma_code_round_trip, TravelMode::lemma_code_round_trip, TravelType::lemma_code_round_trip, lemma_opt_fixed_round_trip, lemma_opt_u32_round_trip, lemma_opt_u16_round_trip, lemma_opt_u8_round_trip, lemma_opt_bool_round_trip, lemma_opt_str_round_trip, lemma_opt_directions_type_round_trip, lemma_opt_units_round_trip, lemma_opt_location_type_round_trip, lemma_opt_preferred_side_round_trip, lemma_opt_costing_models_round_trip, lemma_opt_bicyle_type_round_trip, lemma_opt_maneuver_type_round_trip, lemma_opt_travel_mode_round_trip, lemma_opt_travel_type_round_trip;

        v.lemma_wire_tags();
        assert(tag_value(v.wire_fields(), 1) == opt_fixed_data(v.height)) by {
            broadcast use group_codec_lemmas;
        }
        assert(tag_value(v.wire_fields(), 2) == opt_fixed_data(v.width)) by {
            broadcast use group_codec_lemmas;
        }
        assert(tag_value(v.wire_fields(), 3) == opt_u8_data(v.exclude_unpaved)) by {
            broadcast use group_codec_lemmas;
        }
        assert(tag_value(v.wire_fields(), 4) == opt_bool_data(v.exclude_cash_only_tolls)) by {
            broadcast use group_codec_lemmas;
        }
        assert(tag_value(v.wire_fields(), 5) == opt_bool_data(v.include_hov2)) by {
            broadcast use group_codec_lemmas;
        }
        assert(tag_value(v.wire_fields(), 6) == opt_bool_data(v.include_hov3)) by {
            broadcast use group_codec_lemmas;
        }
        assert(tag_value(v.wire_fields(), 7) == opt_bool_data(v.include_hot)) by {
            broadcast use group_codec_lemmas;
        }
    }

    /// Decoding a value's nested message gives back an equal value.
    pub proof fn lemma_msg_round_trip(v: VehicleOptions)
        requires
            v.msg_fits(),
        ensures
            Self::msg_decodable(v.msg_data()),
            forall|w: VehicleOptions| Self::msg_decodes(v.msg_data(), w) ==> w.same_as(v),
    {
        lemma_wire_round_trip(v.wire_fields());
        Self::lemma_round_trip(v);
    }

}

impl CostingOptions {
    /// The fields this value is encoded as.
    pub open spec fn wire_fields(&self) -> Seq<(u32, WireData)> {
        Seq::empty()
            + opt_field(1, match self.auto { Some(v) => Some(v.msg_data()), None => None })
            + opt_field(2, match self.bicycle { Some(v) => Some(v.msg_data()), None => None })
            + opt_field(3, match self.bus { Some(v) => Some(v.msg_data()), None => None })
    }

    /// This value as a nested message.
    pub open spec fn msg_data(&self) -> WireData {
        WireData::Bytes(message_bytes(self.wire_fields()))
    }

    /// The values as nested messages.
    pub open spec fn msg_data_seq(xs: Seq<CostingOptions>) -> Seq<WireData> {
        xs.map_values(|x: CostingOptions| x.msg_data())
    }

    /// `fs` holds a `CostingOptions`: known tags, every required field present, every field of its kind.
    pub open spec fn wire_decodable(fs: Seq<(u32, WireData)>) -> bool {
        &&& tags_within(fs, 3)
        &&& tag_value(fs, 1) matches Some(d) ==> AutomobileOptions::msg_decodable(d)
        &&& tag_value(fs, 2) matches Some(d) ==> BicycleOptions::msg_decodable(d)
        &&& tag_value(fs, 3) matches Some(d) ==> AutomobileOptions::msg_decodable(d)
    }

    /// `w` is what `fs` holds.
    pub open spec fn decodes_from(fs: Seq<(u32, WireData)>, w: CostingOptions) -> bool {
        &&& match tag_value(fs, 1) { Some(d) => w.auto matches Some(v) && AutomobileOptions::msg_decodes(d, v), None => w.auto is None }
        &&& match tag_value(fs, 2) { Some(d) => w.bicycle matches Some(v) && BicycleOptions::msg_decodes(d, v), None => w.bicycle is None }
        &&& match tag_value(fs, 3) { Some(d) => w.bus matches Some(v) && AutomobileOptions::msg_decodes(d, v), None => w.bus is None }
    }

    /// `d` is a nested message that holds a `CostingOptions`.
    pub open spec fn msg_decodable(d: WireData) -> bool {
        &&& d is Bytes
        &&& parse_message(d->Bytes_0, 0) matches Some(fs) && Self::wire_decodable(fs)
    }

    /// `w` is what the nested message `d` holds.
    pub open spec fn msg_decodes(d: WireData, w: CostingOptions) -> bool {
        &&& d is Bytes
        &&& parse_message(d->Bytes_0, 0) matches Some(fs) && Self::decodes_from(fs, w)
    }

    /// The two values agree in every field.
    pub open spec fn same_as(self, o: CostingOptions) -> bool {
        &&& match (self.auto, o.auto) { (Some(x), Some(y)) => x.same_as(y), (None, None) => true, _ => false }
        &&& match (self.bicycle, o.bicycle) { (Some(x), Some(y)) => x.same_as(y), (None, None) => true, _ => false }
        &&& match (self.bus, o.bus) { (Some(x), Some(y)) => x.same_as(y), (None, None) => true, _ => false }
    }

    /// The two sequences agree element by element.
    pub open spec fn same_seq(a: Seq<CostingOptions>, b: Seq<CostingOptions>) -> bool {
        &&& a.len() == b.len()
        &&& forall|i: int| 0 <= i < a.len() ==> (#[trigger] a[i]).same_as(b[i])
    }

    /// Every nested message of this value fits a length prefix.
    pub open spec fn wire_fits(&self) -> bool {
        &&& self.auto matches Some(v) ==> v.msg_fits()
        &&& self.bicycle matches Some(v) ==> v.msg_fits()
        &&& self.bus matches Some(v) ==> v.msg_fits()
    }

    /// This value's encoding as a nested message can be decoded.
    pub open spec fn msg_fits(&self) -> bool {
        fields_ok(self.wire_fields()) && self.wire_fits()
    }

    /// Every value of the sequence fits.
    pub open spec fn seq_fits(xs: Seq<CostingOptions>) -> bool {
        forall|i: int| 0 <= i < xs.len() ==> (#[trigger] xs[i]).msg_fits()
    }

    pub proof fn lemma_wire_tags(&self)
        ensures
            tags_within(self.wire_fields(), 3),
    {
        broadcast use group_codec_lemmas;

        assert(tags_within(Seq::<(u32, WireData)>::empty(), 3));
        lemma_tags_widen(opt_field(1, match self.auto { Some(v) => Some(v.msg_data()), None => None }), 1, 3);
        lemma_tags_widen(opt_field(2, match self.bicycle { Some(v) => Some(v.msg_data()), None => None }), 2, 3);
        lemma_tags_widen(opt_field(3, match self.bus { Some(v) => Some(v.msg_data()), None => None }), 3, 3);
    }

    /// The fields this value is encoded as.
    pub fn to_wire_fields(&self) -> (r: Vec<WireField>)
        ensures
            fields_view(r@) == self.wire_fields(),
    {
        let mut fs: Vec<WireField> = Vec::new();
        assert(fields_view(fs@) =~= Seq::<(u32, WireData)>::empty());
        let ghost before = fields_view(fs@);
        match &self.auto {
            Some(v) => fs.push(WireField { tag: 1, value: v.to_wire_value() }),
            None => {},
        }
        assert(fields_view(fs@) =~= before + opt_field(1, match self.auto { Some(v) => Some(v.msg_data()), None => None }));
        let ghost before = fields_view(fs@);
        match &self.bicycle {
            Some(v) => fs.push(WireField { tag: 2, value: v.to_wire_value() }),
            None => {},
        }
        assert(fields_view(fs@) =~= before + opt_field(2, match self.bicycle { Some(v) => Some(v.msg_data()), None => None }));
        let ghost before = fields_view(fs@);
        match &self.bus {
            Some(v) => fs.push(WireField { tag: 3, value: v.to_wire_value() }),
            None => {},
        }
        assert(fields_view(fs@) =~= before + opt_field(3, match self.bus { Some(v) => Some(v.msg_data()), None => None }));
        fs
    }

    /// This value as a nested message.
    pub fn to_wire_value(&self) -> (r: WireValue)
        ensures
            r@ == self.msg_data(),
    {
        let fs = self.to_wire_fields();
        proof {
            self.lemma_wire_tags();
        }
        WireValue::Bytes(encode_message(&fs))
    }

    /// The `CostingOptions` that `fs` holds.
    pub fn from_wire_fields(fs: &Vec<WireField>) -> (r: Result<CostingOptions, CodecError>)
        ensures
            r is Ok <==> Self::wire_decodable(fields_view(fs@)),
            r matches Ok(w) ==> Self::decodes_from(fields_view(fs@), w),
    {
        check_tags(fs, 3)?;
        let auto = match last_with_tag(fs, 1) {
            Some(v) => Some(AutomobileOptions::from_wire_value(v, 1)?),
            None => None,
        };
        let bicycle = match last_with_tag(fs, 2) {
            Some(v) => Some(BicycleOptions::from_wire_value(v, 2)?),
            None => None,
        };
        let bus = match last_with_tag(fs, 3) {
            Some(v) => Some(AutomobileOptions::from_wire_value(v, 3)?),
            None => None,
        };
        Ok(CostingOptions { auto, bicycle, bus })
    }

    /// The `CostingOptions` that the nested message `v` holds.
    pub fn from_wire_value(v: &WireValue, t: u32) -> (r: Result<CostingOptions, CodecError>)
        ensures
            r is Ok <==> Self::msg_decodable(v@),
            r matches Ok(w) ==> Self::msg_decodes(v@, w),
    {
        match v {
            WireValue::Bytes(b) => match decode_message(b.as_slice()) {
                Ok(fs) => Self::from_wire_fields(&fs),
                Err(e) => Err(CodecError::Wire(e)),
            },
            WireValue::Varint(_) => Err(CodecError::BadValue(t)),
        }
    }

    /// Decoding the fields of a value gives back an equal value.
    #[verifier::rlimit(100)]
    #[verifier::spinoff_prover]
    pub proof fn lemma_round_trip(v: CostingOptions)
        requires
            v.wire_fits(),
        ensures
            Self::wire_decodable(v.wire_fields()),
            forall|w: CostingOptions| Self::decodes_from(v.wire_fields(), w) ==> w.same_as(v),
    {
        broadcast use lemma_zigzag_round_trip, lemma_str_round_trip, DirectionsType::lemma_code_round_trip, Units::lemma_code_round_trip, LocationType::lemma_code_round_trip, PreferredSide::lemma_code_round_trip, CostingModels::lemma_code_round_trip, BicyleType::lemma_code_round_trip, ManeuverType::lemma_code_round_trip, TravelMode::lemma_code_round_trip, TravelType::lemma_code_round_trip, lemma_opt_fixed_round_trip, lemma_opt_u32_round_trip, lemma_opt_u16_round_trip, lemma_opt_u8_round_trip, lemma_opt_bool_round_trip, lemma_opt_str_round_trip, lemma_opt_directions_type_round_trip, lemma_opt_units_round_trip, lemma_opt_location_type_round_trip, lemma_opt_preferred_side_round_trip, lemma_opt_costing_models_round_trip, lemma_opt_bicyle_type_round_trip, lemma_opt_maneuver_type_round_trip, lemma_opt_travel_mode_round_trip, lemma_opt_travel_type_round_trip;

        v.lemma_wire_tags();
        assert(tag_value(v.wire_fields(), 1) == match v.auto { Some(v) => Some(v.msg_data()), None => None }) by {
            broadcast use group_codec_lemmas;
        }
        assert(tag_value(v.wire_fields(), 2) == match v.bicycle { Some(v) => Some(v.msg_data()), None => None }) by {
            broadcast use group_codec_lemmas;
        }
        assert(tag_value(v.wire_fields(), 3) == match v.bus { Some(v) => Some(v.msg_data()), None => None }) by {
            broadcast use group_codec_lemmas;
        }
        if let Some(s) = v.auto {
            AutomobileOptions::lemma_msg_round_trip(s);
        }
        if let Some(s) = v.bicycle {
            BicycleOptions::lemma_msg_round_trip(s);
        }
        if let Some(s) = v.bus {
            AutomobileOptions::lemma_msg_round_trip(s);
        }
    }

    /// Decoding a value's nested message gives back an equal value.
    pub proof fn lemma_msg_round_trip(v: CostingOptions)
        requires
            v.msg_fits(),
        ensures
            Self::msg_decodable(v.msg_data()),
            forall|w: CostingOptions| Self::msg_decodes(v.msg_data(), w) ==> w.same_as(v),
    {
        lemma_wire_round_trip(v.wire_fields());
        Self::lemma_round_trip(v);
    }

}

impl RequestOptions {
    /// The fields this value is encoded as.
    pub open spec fn wire_fields(&self) -> Seq<(u32, WireData)> {
        Seq::empty()
            + rep_field(1, Location::msg_data_seq(self.locations@))
            + opt_field(2, opt_costing_models_data(self.costing))
            + opt_field(3, match self.costing_options { Some(v) => Some(v.msg_data()), None => None })
            + opt_field(4, opt_units_data(self.units))
            + opt_field(5, opt_str_data(self.language))
            + opt_field(6, Some(uint_data(self.directions_type.spec_code())))
            + opt_field(7, opt_str_data(self.narrative))
            + opt_field(8, opt_str_data(self.date_time))
            + opt_field(9, opt_str_data(self.out_format))
            + opt_field(10, opt_str_data(self.id))
            + opt_field(11, opt_str_data(self.linear_references))
    }

    /// This value as a nested message.
    pub open spec fn msg_data(&self) -> WireData {
        WireData::Bytes(message_bytes(self.wire_fields()))
    }

    /// The values as nested messages.
    pub open spec fn msg_data_seq(xs: Seq<RequestOptions>) -> Seq<WireData> {
        xs.map_values(|x: RequestOptions| x.msg_data())
    }

    /// `fs` holds a `RequestOptions`: known tags, every required field present, every field of its kind.
    pub open spec fn wire_decodable(fs: Seq<(u32, WireData)>) -> bool {
        &&& tags_within(fs, 11)
        &&& forall|i: int| 0 <= i < tag_values(fs, 1).len() ==> Location::msg_decodable(#[trigger] tag_values(fs, 1)[i])
        &&& opt_costing_models_of(tag_value(fs, 2)) is Some
        &&& tag_value(fs, 3) matches Some(d) ==> CostingOptions::msg_decodable(d)
        &&& opt_units_of(tag_value(fs, 4)) is Some
        &&& opt_str_of(tag_value(fs, 5)) is Some
        &&& tag_value(fs, 6) matches Some(d) && directions_type_of(d) is Some
        &&& opt_str_of(tag_value(fs, 7)) is Some
        &&& opt_str_of(tag_value(fs, 8)) is Some
        &&& opt_str_of(tag_value(fs, 9)) is Some
        &&& opt_str_of(tag_value(fs, 10)) is Some
        &&& opt_str_of(tag_value(fs, 11)) is Some
    }

    /// `w` is what `fs` holds.
    pub open spec fn decodes_from(fs: Seq<(u32, WireData)>, w: RequestOptions) -> bool {
        &&& w.locations@.len() == tag_values(fs, 1).len() && forall|i: int| 0 <= i < tag_values(fs, 1).len() ==> Location::msg_decodes(#[trigger] tag_values(fs, 1)[i], w.locations@[i])
        &&& opt_costing_models_of(tag_value(fs, 2)) == Some(w.costing)
        &&& match tag_value(fs, 3) { Some(d) => w.costing_options matches Some(v) && CostingOptions::msg_decodes(d, v), None => w.costing_options is None }
        &&& opt_units_of(tag_value(fs, 4)) == Some(w.units)
        &&& opt_str_of(tag_value(fs, 5)) == Some(opt_str_view(w.language))
        &&& tag_value(fs, 6) matches Some(d) && directions_type_of(d) == Some(w.directions_type)
        &&& opt_str_of(tag_value(fs, 7)) == Some(opt_str_view(w.narrative))
        &&& opt_str_of(tag_value(fs, 8)) == Some(opt_str_view(w.date_time))
        &&& opt_str_of(tag_value(fs, 9)) == Some(opt_str_view(w.out_format))
        &&& opt_str_of(tag_value(fs, 10)) == Some(opt_str_view(w.id))
        &&& opt_str_of(tag_value(fs, 11)) == Some(opt_str_view(w.linear_references))
    }

    /// `d` is a nested message that holds a `RequestOptions`.
    pub open spec fn msg_decodable(d: WireData) -> bool {
        &&& d is Bytes
        &&& parse_message(d->Bytes_0, 0) matches Some(fs) && Self::wire_decodable(fs)
    }

    /// `w` is what the nested message `d` holds.
    pub open spec fn msg_decodes(d: WireData, w: RequestOptions) -> bool {
        &&& d is Bytes
        &&& parse_message(d->Bytes_0, 0) matches Some(fs) && Self::decodes_from(fs, w)
    }

    /// The two values agree in every field.
    pub open spec fn same_as(self, o: RequestOptions) -> bool {
        &&& Location::same_seq(self.locations@, o.locations@)
        &&& self.costing == o.costing
        &&& match (self.costing_options, o.costing_options) { (Some(x), Some(y)) => x.same_as(y), (None, None) => true, _ => false }
        &&& self.units == o.units
        &&& opt_str_view(self.language) == opt_str_view(o.language)
        &&& self.directions_type == o.directions_type
        &&& opt_str_view(self.narrative) == opt_str_view(o.narrative)
        &&& opt_str_view(self.date_time) == opt_str_view(o.date_time)
        &&& opt_str_view(self.out_format) == opt_str_view(o.out_format)
        &&& opt_str_view(self.id) == opt_str_view(o.id)
        &&& opt_str_view(self.linear_references) == opt_str_view(o.linear_references)
    }

    /// The two sequences agree element by element.
    pub open spec fn same_seq(a: Seq<RequestOptions>, b: Seq<RequestOptions>) -> bool {
        &&& a.len() == b.len()
        &&& forall|i: int| 0 <= i < a.len() ==> (#[trigger] a[i]).same_as(b[i])
    }

    /// Every nested message of this value fits a length prefix.
    pub open spec fn wire_fits(&self) -> bool {
        &&& Location::seq_fits(self.locations@)
        &&& self.costing_options matches Some(v) ==> v.msg_fits()
    }

    /// This value's encoding as a nested message can be decoded.
    pub open spec fn msg_fits(&self) -> bool {
        fields_ok(self.wire_fields()) && self.wire_fits()
    }

    /// Every value of the sequence fits.
    pub open spec fn seq_fits(xs: Seq<RequestOptions>) -> bool {
        forall|i: int| 0 <= i < xs.len() ==> (#[trigger] xs[i]).msg_fits()
    }

    #[verifier::rlimit(100)]
    pub proof fn lemma_wire_tags(&self)
        ensures
            tags_within(self.wire_fields(), 11),
    {
        broadcast use group_codec_lemmas;

        assert(tags_within(Seq::<(u32, WireData)>::empty(), 11));
        lemma_tags_widen(rep_field(1, Location::msg_data_seq(self.locations@)), 1, 11);
        lemma_tags_widen(opt_field(2, opt_costing_models_data(self.costing)), 2, 11);
        lemma_tags_widen(opt_field(3, match self.costing_options { Some(v) => Some(v.msg_data()), None => None }), 3, 11);
        lemma_tags_widen(opt_field(4, opt_units_data(self.units)), 4, 11);
        lemma_tags_widen(opt_field(5, opt_str_data(self.language)), 5, 11);
        lemma_tags_widen(opt_field(6, Some(uint_data(self.directions_type.spec_code()))), 6, 11);
        lemma_tags_widen(opt_field(7, opt_str_data(self.narrative)), 7, 11);
        lemma_tags_widen(opt_field(8, opt_str_data(self.date_time)), 8, 11);
        lemma_tags_widen(opt_field(9, opt_str_data(self.out_format)), 9, 11);
        lemma_tags_widen(opt_field(10, opt_str_data(self.id)), 10, 11);
        lemma_tags_widen(opt_field(11, opt_str_data(self.linear_references)), 11, 11);
    }

    /// The fields this value is encoded as.
    #[verifier::rlimit(100)]
    pub fn to_wire_fields(&self) -> (r: Vec<WireField>)
        ensures
            fields_view(r@) == self.wire_fields(),
    {
        let mut fs: Vec<WireField> = Vec::new();
        assert(fields_view(fs@) =~= Seq::<(u32, WireData)>::empty());
        let ghost before = fields_view(fs@);
        Location::push_all(&self.locations, 1, &mut fs);
        assert(fields_view(fs@) =~= before + rep_field(1, Location::msg_data_seq(self.locations@)));
        let ghost before = fields_view(fs@);
        push_opt_costing_models(&mut fs, 2, self.costing);
        assert(fields_view(fs@) =~= before + opt_field(2, opt_costing_models_data(self.costing)));
        let ghost before = fields_view(fs@);
        match &self.costing_options {
            Some(v) => fs.push(WireField { tag: 3, value: v.to_wire_value() }),
            None => {},
        }
        assert(fields_view(fs@) =~= before + opt_field(3, match self.costing_options { Some(v) => Some(v.msg_data()), None => None }));
        let ghost before = fields_view(fs@);
        push_opt_units(&mut fs, 4, self.units);
        assert(fields_view(fs@) =~= before + opt_field(4, opt_units_data(self.units)));
        let ghost before = fields_view(fs@);
        push_opt_str(&mut fs, 5, &self.language);
        assert(fields_view(fs@) =~= before + opt_field(5, opt_str_data(self.language)));
        let ghost before = fields_view(fs@);
        fs.push(WireField { tag: 6, value: uint_value(self.directions_type.code()) });
        assert(fields_view(fs@) =~= before + opt_field(6, Some(uint_data(self.directions_type.spec_code()))));
        let ghost before = fields_view(fs@);
        push_opt_str(&mut fs, 7, &self.narrative);
        assert(fields_view(fs@) =~= before + opt_field(7, opt_str_data(self.narrative)));
        let ghost before = fields_view(fs@);
        push_opt_str(&mut fs, 8, &self.date_time);
        assert(fields_view(fs@) =~= before + opt_field(8, opt_str_data(self.date_time)));
        let ghost before = fields_view(fs@);
        push_opt_str(&mut fs, 9, &self.out_format);
        assert(fields_view(fs@) =~= before + opt_field(9, opt_str_data(self.out_format)));
        let ghost before = fields_view(fs@);
        push_opt_str(&mut fs, 10, &self.id);
        assert(fields_view(fs@) =~= before + opt_field(10, opt_str_data(self.id)));
        let ghost before = fields_view(fs@);
        push_opt_str(&mut fs, 11, &self.linear_references);
        assert(fields_view(fs@) =~= before + opt_field(11, opt_str_data(self.linear_references)));
        fs
    }

    /// This value as a nested message.
    pub fn to_wire_value(&self) -> (r: WireValue)
        ensures
            r@ == self.msg_data(),
    {
        let fs = self.to_wire_fields();
        proof {
            self.lemma_wire_tags();
        }
        WireValue::Bytes(encode_message(&fs))
    }

    /// The `RequestOptions` that `fs` holds.
    #[verifier::rlimit(100)]
    pub fn from_wire_fields(fs: &Vec<WireField>) -> (r: Result<RequestOptions, CodecError>)
        ensures
            r is Ok <==> Self::wire_decodable(fields_view(fs@)),
            r matches Ok(w) ==> Self::decodes_from(fields_view(fs@), w),
    {
        check_tags(fs, 11)?;
        let locations = Location::read_all(fs, 1)?;
        let costing = read_opt_costing_models(fs, 2)?;
        let costing_options = match last_with_tag(fs, 3) {
            Some(v) => Some(CostingOptions::from_wire_value(v, 3)?),
            None => None,
        };
        let units = read_opt_units(fs, 4)?;
        let language = read_opt_str(fs, 5)?;
        let directions_type = match last_with_tag(fs, 6) {
            Some(v) => match read_directions_type(v) {
                Some(x) => x,
                None => return Err(CodecError::BadValue(6)),
            },
            None => return Err(CodecError::MissingField(6)),
        };
        let narrative = read_opt_str(fs, 7)?;
        let date_time = read_opt_str(fs, 8)?;
        let out_format = read_opt_str(fs, 9)?;
        let id = read_opt_str(fs, 10)?;
        let linear_references = read_opt_str(fs, 11)?;
        Ok(RequestOptions { locations, costing, costing_options, units, language, directions_type, narrative, date_time, out_format, id, linear_references })
    }

    /// The `RequestOptions` that the nested message `v` holds.
    pub fn from_wire_value(v: &WireValue, t: u32) -> (r: Result<RequestOptions, CodecError>)
        ensures
            r is Ok <==> Self::msg_decodable(v@),
            r matches Ok(w) ==> Self::msg_decodes(v@, w),
    {
        match v {
            WireValue::Bytes(b) => match decode_message(b.as_slice()) {
                Ok(fs) => Self::from_wire_fields(&fs),
                Err(e) => Err(CodecError::Wire(e)),
            },
            WireValue::Varint(_) => Err(CodecError::BadValue(t)),
        }
    }

    /// Decoding the fields of a value gives back an equal value.
    #[verifier::rlimit(100)]
    #[verifier::spinoff_prover]
    pub proof fn lemma_round_trip(v: RequestOptions)
        requires
            v.wire_fits(),
        ensures
            Self::wire_decodable(v.wire_fields()),
            forall|w: RequestOptions| Self::decodes_from(v.wire_fields(), w) ==> w.same_as(v),
    {
        broadcast use lemma_zigzag_round_trip, lemma_str_round_trip, DirectionsType::lemma_code_round_trip, Units::lemma_code_round_trip, LocationType::lemma_code_round_trip, PreferredSide::lemma_code_round_trip, CostingModels::lemma_code_round_trip, BicyleType::lemma_code_round_trip, ManeuverType::lemma_code_round_trip, TravelMode::lemma_code_round_trip, TravelType::lemma_code_round_trip, lemma_opt_fixed_round_trip, lemma_opt_u32_round_trip, lemma_opt_u16_round_trip, lemma_opt_u8_round_trip, lemma_opt_bool_round_trip, lemma_opt_str_round_trip, lemma_opt_directions_type_round_trip, lemma_opt_units_round_trip, lemma_opt_location_type_round_trip, lemma_opt_preferred_side_round_trip, lemma_opt_costing_models_round_trip, lemma_opt_bicyle_type_round_trip, lemma_opt_maneuver_type_round_trip, lemma_opt_travel_mode_round_trip, lemma_opt_travel_type_round_trip;

        v.lemma_wire_tags();
        assert(tag_values(v.wire_fields(), 1) == Location::msg_data_seq(v.locations@)) by {
            broadcast use group_codec_lemmas;
        }
        assert(tag_value(v.wire_fields(), 2) == opt_costing_models_data(v.costing)) by {
            broadcast use group_codec_lemmas;
        }
        assert(tag_value(v.wire_fields(), 3) == match v.costing_options { Some(v) => Some(v.msg_data()), None => None }) by {
            broadcast use group_codec_lemmas;
        }
        assert(tag_value(v.wire_fields(), 4) == opt_units_data(v.units)) by {
            broadcast use group_codec_lemmas;
        }
        assert(tag_value(v.wire_fields(), 5) == opt_str_data(v.language)) by {
            broadcast use group_codec_lemmas;
        }
        assert(tag_value(v.wire_fields(), 6) == Some(uint_data(v.directions_type.spec_code()))) by {
            broadcast use group_codec_lemmas;
        }
        assert(tag_value(v.wire_fields(), 7) == opt_str_data(v.narrative)) by {
            broadcast use group_codec_lemmas;
        }
        assert(tag_value(v.wire_fields(), 8) == opt_str_data(v.date_time)) by {
            broadcast use group_codec_lemmas;
        }
        assert(tag_value(v.wire_fields(), 9) == opt_str_data(v.out_format)) by {
            broadcast use group_codec_lemmas;
        }
        assert(tag_value(v.wire_fields(), 10) == opt_str_data(v.id)) by {
            broadcast use group_codec_lemmas;
        }
        assert(tag_value(v.wire_fields(), 11) == opt_str_data(v.linear_references)) by {
            broadcast use group_codec_lemmas;
        }
        Location::lemma_seq_round_trip(v.locations@);
        if let Some(s) = v.costing_options {
            CostingOptions::lemma_msg_round_trip(s);
        }
    }

    /// Decoding a value's nested message gives back an equal value.
    pub proof fn lemma_msg_round_trip(v: RequestOptions)
        requires
            v.msg_fits(),
        ensures
            Self::msg_decodable(v.msg_data()),
            forall|w: RequestOptions| Self::msg_decodes(v.msg_data(), w) ==> w.same_as(v),
    {
        lemma_wire_round_trip(v.wire_fields());
        Self::lemma_round_trip(v);
    }

}

impl Maneuver {
    /// The fields this value is encoded as.
    pub open spec fn wire_fields(&self) -> Seq<(u32, WireData)> {
        Seq::empty()
            + opt_field(1, Some(uint_data(self.maneuver_type.spec_code())))
            + opt_field(2, Some(str_data(self.instruction@)))
            + opt_field(3, opt_str_data(self.verbal_transition_alert_instruction))
            + opt_field(4, opt_str_data(self.verbal_pre_transition_instruction))
            + opt_field(5, opt_str_data(self.verbal_post_transition_instruction))
            + rep_field(6, str_data_seq(self.street_names@))
            + opt_field(7, Some(fixed_data(self.time)))
            + opt_field(8, Some(fixed_data(self.length)))
            + opt_field(9, Some(uint_data(self.begin_shape_index as u64)))
            + opt_field(10, Some(uint_data(self.end_shape_index as u64)))
            + opt_field(11, Some(uint_data(self.travel_mode.spec_code())))
            + opt_field(12, Some(uint_data(self.travel_type.spec_code())))
    }

    /// This value as a nested message.
    pub open spec fn msg_data(&self) -> WireData {
        WireData::Bytes(message_bytes(self.wire_fields()))
    }

    /// The values as nested messages.
    pub open spec fn msg_data_seq(xs: Seq<Maneuver>) -> Seq<WireData> {
        xs.map_values(|x: Maneuver| x.msg_data())
    }

    /// `fs` holds a `Maneuver`: known tags, every required field present, every field of its kind.
    pub open spec fn wire_decodable(fs: Seq<(u32, WireData)>) -> bool {
        &&& tags_within(fs, 12)
        &&& tag_value(fs, 1) matches Some(d) && maneuver_type_of(d) is Some
        &&& tag_value(fs, 2) matches Some(d) && str_of(d) is Some
        &&& opt_str_of(tag_value(fs, 3)) is Some
        &&& opt_str_of(tag_value(fs, 4)) is Some
        &&& opt_str_of(tag_value(fs, 5)) is Some
        &&& forall|i: int| 0 <= i < tag_values(fs, 6).len() ==> str_of(#[trigger] tag_values(fs, 6)[i]) is Some
        &&& tag_value(fs, 7) matches Some(d) && fixed_of(d) is Some
        &&& tag_value(fs, 8) matches Some(d) && fixed_of(d) is Some
        &&& tag_value(fs, 9) matches Some(d) && uint_of(d, 0xFFFF_FFFF) is Some
        &&& tag_value(fs, 10) matches Some(d) && uint_of(d, 0xFFFF_FFFF) is Some
        &&& tag_value(fs, 11) matches Some(d) && travel_mode_of(d) is Some
        &&& tag_value(fs, 12) matches Some(d) && travel_type_of(d) is Some
    }

    /// `w` is what `fs` holds.
    pub open spec fn decodes_from(fs: Seq<(u32, WireData)>, w: Maneuver) -> bool {
        &&& tag_value(fs, 1) matches Some(d) && maneuver_type_of(d) == Some(w.maneuver_type)
        &&& tag_value(fs, 2) matches Some(d) && str_of(d) == Some(w.instruction@)
        &&& opt_str_of(tag_value(fs, 3)) == Some(opt_str_view(w.verbal_transition_alert_instruction))
        &&& opt_str_of(tag_value(fs, 4)) == Some(opt_str_view(w.verbal_pre_transition_instruction))
        &&& opt_str_of(tag_value(fs, 5)) == Some(opt_str_view(w.verbal_post_transition_instruction))
        &&& w.street_names@.len() == tag_values(fs, 6).len() && forall|i: int| 0 <= i < tag_values(fs, 6).len() ==> str_of(#[trigger] tag_values(fs, 6)[i]) == Some(w.street_names@[i]@)
        &&& tag_value(fs, 7) matches Some(d) && fixed_of(d) == Some(w.time)
        &&& tag_value(fs, 8) matches Some(d) && fixed_of(d) == Some(w.length)
        &&& tag_value(fs, 9) matches Some(d) && uint_of(d, 0xFFFF_FFFF) == Some(w.begin_shape_index as u64)
        &&& tag_value(fs, 10) matches Some(d) && uint_of(d, 0xFFFF_FFFF) == Some(w.end_shape_index as u64)
        &&& tag_value(fs, 11) matches Some(d) && travel_mode_of(d) == Some(w.travel_mode)
        &&& tag_value(fs, 12) matches Some(d) && travel_type_of(d) == Some(w.travel_type)
    }

    /// `d` is a nested message that holds a `Maneuver`.
    pub open spec fn msg_decodable(d: WireData) -> bool {
        &&& d is Bytes
        &&& parse_message(d->Bytes_0, 0) matches Some(fs) && Self::wire_decodable(fs)
    }

    /// `w` is what the nested message `d` holds.
    pub open spec fn msg_decodes(d: WireData, w: Maneuver) -> bool {
        &&& d is Bytes
        &&& parse_message(d->Bytes_0, 0) matches Some(fs) && Self::decodes_from(fs, w)
    }

    /// The two values agree in every field.
    pub open spec fn same_as(self, o: Maneuver) -> bool {
        &&& self.maneuver_type == o.maneuver_type
        &&& self.instruction@ == o.instruction@
        &&& opt_str_view(self.verbal_transition_alert_instruction) == opt_str_view(o.verbal_transition_alert_instruction)
        &&& opt_str_view(self.verbal_pre_transition_instruction) == opt_str_view(o.verbal_pre_transition_instruction)
        &&& opt_str_view(self.verbal_post_transition_instruction) == opt_str_view(o.verbal_post_transition_instruction)
        &&& self.street_names@.len() == o.street_names@.len() && forall|i: int| 0 <= i < self.street_names@.len() ==> (#[trigger] self.street_names@[i])@ == o.street_names@[i]@
        &&& self.time == o.time
        &&& self.length == o.length
        &&& self.begin_shape_index == o.begin_shape_index
        &&& self.end_shape_index == o.end_shape_index
        &&& self.travel_mode == o.travel_mode
        &&& self.travel_type == o.travel_type
    }

    /// The two sequences agree element by element.
    pub open spec fn same_seq(a: Seq<Maneuver>, b: Seq<Maneuver>) -> bool {
        &&& a.len() == b.len()
        &&& forall|i: int| 0 <= i < a.len() ==> (#[trigger] a[i]).same_as(b[i])
    }

    /// Every nested message of this value fits a length prefix.
    pub open spec fn wire_fits(&self) -> bool {
        true
    }

    /// This value's encoding as a nested message can be decoded.
    pub open spec fn msg_fits(&self) -> bool {
        fields_ok(self.wire_fields()) && self.wire_fits()
    }

    /// Every value of the sequence fits.
    pub open spec fn seq_fits(xs: Seq<Maneuver>) -> bool {
        forall|i: int| 0 <= i < xs.len() ==> (#[trigger] xs[i]).msg_fits()
    }

    #[verifier::rlimit(100)]
    pub proof fn lemma_wire_tags(&self)
        ensures
            tags_within(self.wire_fields(), 12),
    {
        broadcast use group_codec_lemmas;

        assert(tags_within(Seq::<(u32, WireData)>::empty(), 12));
        lemma_tags_widen(opt_field(1, Some(uint_data(self.maneuver_type.spec_code()))), 1, 12);
        lemma_tags_widen(opt_field(2, Some(str_data(self.instruction@))), 2, 12);
        lemma_tags_widen(opt_field(3, opt_str_data(self.verbal_transition_alert_instruction)), 3, 12);
        lemma_tags_widen(opt_field(4, opt_str_data(self.verbal_pre_transition_instruction)), 4, 12);
        lemma_tags_widen(opt_field(5, opt_str_data(self.verbal_post_transition_instruction)), 5, 12);
        lemma_tags_widen(rep_field(6, str_data_seq(self.street_names@)), 6, 12);
        lemma_tags_widen(opt_field(7, Some(fixed_data(self.time))), 7, 12);
        lemma_tags_widen(opt_field(8, Some(fixed_data(self.length))), 8, 12);
        lemma_tags_widen(opt_field(9, Some(uint_data(self.begin_shape_index as u64))), 9, 12);
        lemma_tags_widen(opt_field(10, Some(uint_data(self.end_shape_index as u64))), 10, 12);
        lemma_tags_widen(opt_field(11, Some(uint_data(self.travel_mode.spec_code()))), 11, 12);
        lemma_tags_widen(opt_field(12, Some(uint_data(self.travel_type.spec_code()))), 12, 12);
    }

    /// The fields this value is encoded as.
    #[verifier::rlimit(100)]
    pub fn to_wire_fields(&self) -> (r: Vec<WireField>)
        ensures
            fields_view(r@) == self.wire_fields(),
    {
        let mut fs: Vec<WireField> = Vec::new();
        assert(fields_view(fs@) =~= Seq::<(u32, WireData)>::empty());
        let ghost before = fields_view(fs@);
        fs.push(WireField { tag: 1, value: uint_value(self.maneuver_type.code()) });
        assert(fields_view(fs@) =~= before + opt_field(1, Some(uint_data(self.maneuver_type.spec_code()))));
        let ghost before = fields_view(fs@);
        fs.push(WireField { tag: 2, value: str_value(&self.instruction) });
        assert(fields_view(fs@) =~= before + opt_field(2, Some(str_data(self.instruction@))));
        let ghost before = fields_view(fs@);
        push_opt_str(&mut fs, 3, &self.verbal_transition_alert_instruction);
        assert(fields_view(fs@) =~= before + opt_field(3, opt_str_data(self.verbal_transition_alert_instruction)));
        let ghost before = fields_view(fs@);
        push_opt_str(&mut fs, 4, &self.verbal_pre_transition_instruction);
        assert(fields_view(fs@) =~= before + opt_field(4, opt_str_data(self.verbal_pre_transition_instruction)));
        let ghost before = fields_view(fs@);
        push_opt_str(&mut fs, 5, &self.verbal_post_transition_instruction);
        assert(fields_view(fs@) =~= before + opt_field(5, opt_str_data(self.verbal_post_transition_instruction)));
        let ghost before = fields_view(fs@);
        push_all_str(&self.street_names, 6, &mut fs);
        assert(fields_view(fs@) =~= before + rep_field(6, str_data_seq(self.street_names@)));
        let ghost before = fields_view(fs@);
        fs.push(WireField { tag: 7, value: fixed_value(self.time) });
        assert(fields_view(fs@) =~= before + opt_field(7, Some(fixed_data(self.time))));
        let ghost before = fields_view(fs@);
        fs.push(WireField { tag: 8, value: fixed_value(self.length) });
        assert(fields_view(fs@) =~= before + opt_field(8, Some(fixed_data(self.length))));
        let ghost before = fields_view(fs@);
        fs.push(WireField { tag: 9, value: uint_value(self.begin_shape_index as u64) });
        assert(fields_view(fs@) =~= before + opt_field(9, Some(uint_data(self.begin_shape_index as u64))));
        let ghost before = fields_view(fs@);
        fs.push(WireField { tag: 10, value: uint_value(self.end_shape_index as u64) });
        assert(fields_view(fs@) =~= before + opt_field(10, Some(uint_data(self.end_shape_index as u64))));
        let ghost before = fields_view(fs@);
        fs.push(WireField { tag: 11, value: uint_value(self.travel_mode.code()) });
        assert(fields_view(fs@) =~= before + opt_field(11, Some(uint_data(self.travel_mode.spec_code()))));
        let ghost before = fields_view(fs@);
        fs.push(WireField { tag: 12, value: uint_value(self.travel_type.code()) });
        assert(fields_view(fs@) =~= before + opt_field(12, Some(uint_data(self.travel_type.spec_code()))));
        fs
    }

    /// This value as a nested message.
    pub fn to_wire_value(&self) -> (r: WireValue)
        ensures
            r@ == self.msg_data(),
    {
        let fs = self.to_wire_fields();
        proof {
            self.lemma_wire_tags();
        }
        WireValue::Bytes(encode_message(&fs))
    }

    /// Appends one field with tag `t` per value.
    pub fn push_all(xs: &Vec<Maneuver>, t: u32, fs: &mut Vec<WireField>)
        ensures
            fields_view(final(fs)@) == fields_view(old(fs)@) + rep_field(t, Self::msg_data_seq(xs@)),
    {
        let ghost start = fields_view(fs@);
        let mut i: usize = 0;
        while i < xs.len()
            invariant
                i <= xs@.len(),
                fields_view(fs@) == start + rep_field(t, Self::msg_data_seq(xs@.subrange(0, i as int))),
            decreases xs@.len() - i,
        {
            let ghost pre = fields_view(fs@);
            let value = xs[i].to_wire_value();
            fs.push(WireField { tag: t, value });
            proof {
                assert(Self::msg_data_seq(xs@.subrange(0, i + 1)) =~= Self::msg_data_seq(
                    xs@.subrange(0, i as int),
                ).push(xs@[i as int].msg_data()));
                assert(fields_view(fs@) =~= pre.push((t, xs@[i as int].msg_data())));
                assert(rep_field(t, Self::msg_data_seq(xs@.subrange(0, i + 1))) =~= rep_field(
                    t,
                    Self::msg_data_seq(xs@.subrange(0, i as int)),
                ).push((t, xs@[i as int].msg_data())));
            }
            i += 1;
        }
        assert(xs@.subrange(0, xs@.len() as int) =~= xs@);
    }

    /// The `Maneuver` that `fs` holds.
    #[verifier::rlimit(100)]
    pub fn from_wire_fields(fs: &Vec<WireField>) -> (r: Result<Maneuver, CodecError>)
        ensures
            r is Ok <==> Self::wire_decodable(fields_view(fs@)),
            r matches Ok(w) ==> Self::decodes_from(fields_view(fs@), w),
    {
        check_tags(fs, 12)?;
        let maneuver_type = match last_with_tag(fs, 1) {
            Some(v) => match read_maneuver_type(v) {
                Some(x) => x,
                None => return Err(CodecError::BadValue(1)),
            },
            None => return Err(CodecError::MissingField(1)),
        };
        let instruction = match last_with_tag(fs, 2) {
            Some(v) => match read_str(v) {
                Some(x) => x,
                None => return Err(CodecError::BadValue(2)),
            },
            None => return Err(CodecError::MissingField(2)),
        };
        let verbal_transition_alert_instruction = read_opt_str(fs, 3)?;
        let verbal_pre_transition_instruction = read_opt_str(fs, 4)?;
        let verbal_post_transition_instruction = read_opt_str(fs, 5)?;
        let street_names = read_all_str(fs, 6)?;
        let time = match last_with_tag(fs, 7) {
            Some(v) => match read_fixed(v) {
                Some(x) => x,
                None => return Err(CodecError::BadValue(7)),
            },
            None => return Err(CodecError::MissingField(7)),
        };
        let length = match last_with_tag(fs, 8) {
            Some(v) => match read_fixed(v) {
                Some(x) => x,
                None => return Err(CodecError::BadValue(8)),
            },
            None => return Err(CodecError::MissingField(8)),
        };
        let begin_shape_index = match last_with_tag(fs, 9) {
            Some(v) => match read_uint(v, 0xFFFF_FFFF) {
                Some(x) => x as u32,
                None => return Err(CodecError::BadValue(9)),
            },
            None => return Err(CodecError::MissingField(9)),
        };
        let end_shape_index = match last_with_tag(fs, 10) {
            Some(v) => match read_uint(v, 0xFFFF_FFFF) {
                Some(x) => x as u32,
                None => return Err(CodecError::BadValue(10)),
            },
            None => return Err(CodecError::MissingField(10)),
        };
        let travel_mode = match last_with_tag(fs, 11) {
            Some(v) => match read_travel_mode(v) {
                Some(x) => x,
                None => return Err(CodecError::BadValue(11)),
            },
            None => return Err(CodecError::MissingField(11)),
        };
        let travel_type = match last_with_tag(fs, 12) {
            Some(v) => match read_travel_type(v) {
                Some(x) => x,
                None => return Err(CodecError::BadValue(12)),
            },
            None => return Err(CodecError::MissingField(12)),
        };
        Ok(Maneuver { maneuver_type, instruction, verbal_transition_alert_instruction, verbal_pre_transition_instruction, verbal_post_transition_instruction, street_names, time, length, begin_shape_index, end_shape_index, travel_mode, travel_type })
    }

    /// The `Maneuver` that the nested message `v` holds.
    pub fn from_wire_value(v: &WireValue, t: u32) -> (r: Result<Maneuver, CodecError>)
        ensures
            r is Ok <==> Self::msg_decodable(v@),
            r matches Ok(w) ==> Self::msg_decodes(v@, w),
    {
        match v {
            WireValue::Bytes(b) => match decode_message(b.as_slice()) {
                Ok(fs) => Self::from_wire_fields(&fs),
                Err(e) => Err(CodecError::Wire(e)),
            },
            WireValue::Varint(_) => Err(CodecError::BadValue(t)),
        }
    }

    /// The values of all fields with tag `t`, each a nested `Maneuver`.
    pub fn read_all(fs: &Vec<WireField>, t: u32) -> (r: Result<Vec<Maneuver>, CodecError>)
        ensures
            r is Ok <==> forall|i: int| 0 <= i < tag_values(fields_view(fs@), t).len() ==> Self::msg_decodable(#[trigger] tag_values(fields_view(fs@), t)[i]),
            r matches Ok(ws) ==> ws@.len() == tag_values(fields_view(fs@), t).len() && forall|i: int| 0 <= i < ws@.len() ==> Self::msg_decodes(#[trigger] tag_values(fields_view(fs@), t)[i], ws@[i]),
    {
        let vs = all_with_tag(fs, t);
        let ghost ds = tag_values(fields_view(fs@), t);
        let mut ws: Vec<Maneuver> = Vec::new();
        let mut i: usize = 0;
        while i < vs.len()
            invariant
                i <= vs@.len(),
                ds == tag_values(fields_view(fs@), t),
                vs@.len() == ds.len(),
                forall|k: int| 0 <= k < vs@.len() ==> (#[trigger] vs@[k])@ == ds[k],
                ws@.len() == i,
                forall|k: int| 0 <= k < i ==> Self::msg_decodable(#[trigger] ds[k]),
                forall|k: int| 0 <= k < i ==> Self::msg_decodes(#[trigger] ds[k], ws@[k]),
            decreases vs@.len() - i,
        {
            let w = match Self::from_wire_value(vs[i], t) {
                Ok(w) => w,
                Err(e) => {
                    assert(!Self::msg_decodable(ds[i as int]));
                    assert(!(forall|k: int| 0 <= k < ds.len() ==> Self::msg_decodable(#[trigger] ds[k])));
                    return Err(e);
                },
            };
            ws.push(w);
            i += 1;
        }
        Ok(ws)
    }

    /// Decoding the fields of a value gives back an equal value.
    #[verifier::rlimit(100)]
    #[verifier::spinoff_prover]
    pub proof fn lemma_round_trip(v: Maneuver)
        requires
            v.wire_fits(),
        ensures
            Self::wire_decodable(v.wire_fields()),
            forall|w: Maneuver| Self::decodes_from(v.wire_fields(), w) ==> w.same_as(v),
    {
        broadcast use lemma_zigzag_round_trip, lemma_str_round_trip, DirectionsType::lemma_code_round_trip, Units::lemma_code_round_trip, LocationType::lemma_code_round_trip, PreferredSide::lemma_code_round_trip, CostingModels::lemma_code_round_trip, BicyleType::lemma_code_round_trip, ManeuverType::lemma_code_round_trip, TravelMode::lemma_code_round_trip, TravelType::lemma_code_round_trip, lemma_opt_fixed_round_trip, lemma_opt_u32_round_trip, lemma_opt_u16_round_trip, lemma_opt_u8_round_trip, lemma_opt_bool_round_trip, lemma_opt_str_round_trip, lemma_opt_directions_type_round_trip, lemma_opt_units_round_trip, lemma_opt_location_type_round_trip, lemma_opt_preferred_side_round_trip, lemma_opt_costing_models_round_trip, lemma_opt_bicyle_type_round_trip, lemma_opt_maneuver_type_round_trip, lemma_opt_travel_mode_round_trip, lemma_opt_travel_type_round_trip;

        v.lemma_wire_tags();
        assert(tag_value(v.wire_fields(), 1) == Some(uint_data(v.maneuver_type.spec_code()))) by {
            broadcast use group_codec_lemmas;
        }
        assert(tag_value(v.wire_fields(), 2) == Some(str_data(v.instruction@))) by {
            broadcast use group_codec_lemmas;
        }
        assert(tag_value(v.wire_fields(), 3) == opt_str_data(v.verbal_transition_alert_instruction)) by {
            broadcast use group_codec_lemmas;
        }
        assert(tag_value(v.wire_fields(), 4) == opt_str_data(v.verbal_pre_transition_instruction)) by {
            broadcast use group_codec_lemmas;
        }
        assert(tag_value(v.wire_fields(), 5) == opt_str_data(v.verbal_post_transition_instruction)) by {
            broadcast use group_codec_lemmas;
        }
        assert(tag_values(v.wire_fields(), 6) == str_data_seq(v.street_names@)) by {
            broadcast use group_codec_lemmas;
        }
        assert(tag_value(v.wire_fields(), 7) == Some(fixed_data(v.time))) by {
            broadcast use group_codec_lemmas;
        }
        assert(tag_value(v.wire_fields(), 8) == Some(fixed_data(v.length))) by {
            broadcast use group_codec_lemmas;
        }
        assert(tag_value(v.wire_fields(), 9) == Some(uint_data(v.begin_shape_index as u64))) by {
            broadcast use group_codec_lemmas;
        }
        assert(tag_value(v.wire_fields(), 10) == Some(uint_data(v.end_shape_index as u64))) by {
            broadcast use group_codec_lemmas;
        }
        assert(tag_value(v.wire_fields(), 11) == Some(uint_data(v.travel_mode.spec_code()))) by {
            broadcast use group_codec_lemmas;
        }
        assert(tag_value(v.wire_fields(), 12) == Some(uint_data(v.travel_type.spec_code()))) by {
            broadcast use group_codec_lemmas;
        }
        lemma_str_seq_round_trip(v.street_names@);
        assert(tag_values(v.wire_fields(), 6) == str_data_seq(v.street_names@));
        assert forall|w: Self| Self::decodes_from(v.wire_fields(), w) implies w.street_names@.len() == v.street_names@.len() && forall|i: int| 0 <= i < w.street_names@.len() ==> (#[trigger] w.street_names@[i])@ == v.street_names@[i]@ by {
            assert forall|i: int| 0 <= i < w.street_names@.len() implies (#[trigger] w.street_names@[i])@ == v.street_names@[i]@ by {
                assert(str_of(tag_values(v.wire_fields(), 6)[i]) == Some(w.street_names@[i]@));
            }
        }
    }

    /// Decoding a value's nested message gives back an equal value.
    pub proof fn lemma_msg_round_trip(v: Maneuver)
        requires
            v.msg_fits(),
        ensures
            Self::msg_decodable(v.msg_data()),
            forall|w: Maneuver| Self::msg_decodes(v.msg_data(), w) ==> w.same_as(v),
    {
        lemma_wire_round_trip(v.wire_fields());
        Self::lemma_round_trip(v);
    }

    pub proof fn lemma_seq_round_trip(xs: Seq<Maneuver>)
        requires
            Self::seq_fits(xs),
        ensures
            forall|i: int| 0 <= i < xs.len() ==> Self::msg_decodable(#[trigger] Self::msg_data_seq(xs)[i]),
            forall|ws: Seq<Maneuver>| ws.len() == xs.len() && (forall|i: int| 0 <= i < xs.len() ==> Self::msg_decodes(#[trigger] Self::msg_data_seq(xs)[i], ws[i])) ==> Self::same_seq(ws, xs),
    {
        assert forall|i: int| 0 <= i < xs.len() implies Self::msg_decodable(#[trigger] Self::msg_data_seq(xs)[i]) && (forall|w: Maneuver| Self::msg_decodes(Self::msg_data_seq(xs)[i], w) ==> w.same_as(xs[i])) by {
            assert(xs[i].msg_fits());
            Self::lemma_msg_round_trip(xs[i]);
        }
        assert forall|ws: Seq<Maneuver>| ws.len() == xs.len() && (forall|i: int| 0 <= i < xs.len() ==> Self::msg_decodes(#[trigger] Self::msg_data_seq(xs)[i], ws[i])) implies Self::same_seq(ws, xs) by {
            assert forall|i: int| 0 <= i < ws.len() implies (#[trigger] ws[i]).same_as(xs[i]) by {
                assert(Self::msg_decodes(Self::msg_data_seq(xs)[i], ws[i]));
            }
        }
    }

}

impl Leg {
    /// The fields this value is encoded as.
    pub open spec fn wire_fields(&self) -> Seq<(u32, WireData)> {
        Seq::empty()
            + rep_field(1, Maneuver::msg_data_seq(self.maneuvers@))
            + opt_field(2, Some(self.summary.msg_data()))
    }

    /// This value as a nested message.
    pub open spec fn msg_data(&self) -> WireData {
        WireData::Bytes(message_bytes(self.wire_fields()))
    }

    /// The values as nested messages.
    pub open spec fn msg_data_seq(xs: Seq<Leg>) -> Seq<WireData> {
        xs.map_values(|x: Leg| x.msg_data())
    }

    /// `fs` holds a `Leg`: known tags, every required field present, every field of its kind.
    pub open spec fn wire_decodable(fs: Seq<(u32, WireData)>) -> bool {
        &&& tags_within(fs, 2)
        &&& forall|i: int| 0 <= i < tag_values(fs, 1).len() ==> Maneuver::msg_decodable(#[trigger] tag_values(fs, 1)[i])
        &&& tag_value(fs, 2) matches Some(d) && Summary::msg_decodable(d)
    }

    /// `w` is what `fs` holds.
    pub open spec fn decodes_from(fs: Seq<(u32, WireData)>, w: Leg) -> bool {
        &&& w.maneuvers@.len() == tag_values(fs, 1).len() && forall|i: int| 0 <= i < tag_values(fs, 1).len() ==> Maneuver::msg_decodes(#[trigger] tag_values(fs, 1)[i], w.maneuvers@[i])
        &&& tag_value(fs, 2) matches Some(d) && Summary::msg_decodes(d, w.summary)
    }

    /// `d` is a nested message that holds a `Leg`.
    pub open spec fn msg_decodable(d: WireData) -> bool {
        &&& d is Bytes
        &&& parse_message(d->Bytes_0, 0) matches Some(fs) && Self::wire_decodable(fs)
    }

    /// `w` is what the nested message `d` holds.
    pub open spec fn msg_decodes(d: WireData, w: Leg) -> bool {
        &&& d is Bytes
        &&& parse_message(d->Bytes_0, 0) matches Some(fs) && Self::decodes_from(fs, w)
    }

    /// The two values agree in every field.
    pub open spec fn same_as(self, o: Leg) -> bool {
        &&& Maneuver::same_seq(self.maneuvers@, o.maneuvers@)
        &&& self.summary.same_as(o.summary)
    }

    /// The two sequences agree element by element.
    pub open spec fn same_seq(a: Seq<Leg>, b: Seq<Leg>) -> bool {
        &&& a.len() == b.len()
        &&& forall|i: int| 0 <= i < a.len() ==> (#[trigger] a[i]).same_as(b[i])
    }

    /// Every nested message of this value fits a length prefix.
    pub open spec fn wire_fits(&self) -> bool {
        &&& Maneuver::seq_fits(self.maneuvers@)
        &&& self.summary.msg_fits()
    }

    /// This value's encoding as a nested message can be decoded.
    pub open spec fn msg_fits(&self) -> bool {
        fields_ok(self.wire_fields()) && self.wire_fits()
    }

    /// Every value of the sequence fits.
    pub open spec fn seq_fits(xs: Seq<Leg>) -> bool {
        forall|i: int| 0 <= i < xs.len() ==> (#[trigger] xs[i]).msg_fits()
    }

    pub proof fn lemma_wire_tags(&self)
        ensures
            tags_within(self.wire_fields(), 2),
    {
        broadcast use group_codec_lemmas;

        assert(tags_within(Seq::<(u32, WireData)>::empty(), 2));
        lemma_tags_widen(rep_field(1, Maneuver::msg_data_seq(self.maneuvers@)), 1, 2);
        lemma_tags_widen(opt_field(2, Some(self.summary.msg_data())), 2, 2);
    }

    /// The fields this value is encoded as.
    pub fn to_wire_fields(&self) -> (r: Vec<WireField>)
        ensures
            fields_view(r@) == self.wire_fields(),
    {
        let mut fs: Vec<WireField> = Vec::new();
        assert(fields_view(fs@) =~= Seq::<(u32, WireData)>::empty());
        let ghost before = fields_view(fs@);
        Maneuver::push_all(&self.maneuvers, 1, &mut fs);
        assert(fields_view(fs@) =~= before + rep_field(1, Maneuver::msg_data_seq(self.maneuvers@)));
        let ghost before = fields_view(fs@);
        fs.push(WireField { tag: 2, value: self.summary.to_wire_value() });
        assert(fields_view(fs@) =~= before + opt_field(2, Some(self.summary.msg_data())));
        fs
    }

    /// This value as a nested message.
    pub fn to_wire_value(&self) -> (r: WireValue)
        ensures
            r@ == self.msg_data(),
    {
        let fs = self.to_wire_fields();
        proof {
            self.lemma_wire_tags();
        }
        WireValue::Bytes(encode_message(&fs))
    }

    /// Appends one field with tag `t` per value.
    pub fn push_all(xs: &Vec<Leg>, t: u32, fs: &mut Vec<WireField>)
        ensures
            fields_view(final(fs)@) == fields_view(old(fs)@) + rep_field(t, Self::msg_data_seq(xs@)),
    {
        let ghost start = fields_view(fs@);
        let mut i: usize = 0;
        while i < xs.len()
            invariant
                i <= xs@.len(),
                fields_view(fs@) == start + rep_field(t, Self::msg_data_seq(xs@.subrange(0, i as int))),
            decreases xs@.len() - i,
        {
            let ghost pre = fields_view(fs@);
            let value = xs[i].to_wire_value();
            fs.push(WireField { tag: t, value });
            proof {
                assert(Self::msg_data_seq(xs@.subrange(0, i + 1)) =~= Self::msg_data_seq(
                    xs@.subrange(0, i as int),
                ).push(xs@[i as int].msg_data()));
                assert(fields_view(fs@) =~= pre.push((t, xs@[i as int].msg_data())));
                assert(rep_field(t, Self::msg_data_seq(xs@.subrange(0, i + 1))) =~= rep_field(
                    t,
                    Self::msg_data_seq(xs@.subrange(0, i as int)),
                ).push((t, xs@[i as int].msg_data())));
            }
            i += 1;
        }
        assert(xs@.subrange(0, xs@.len() as int) =~= xs@);
    }

    /// The `Leg` that `fs` holds.
    pub fn from_wire_fields(fs: &Vec<WireField>) -> (r: Result<Leg, CodecError>)
        ensures
            r is Ok <==> Self::wire_decodable(fields_view(fs@)),
            r matches Ok(w) ==> Self::decodes_from(fields_view(fs@), w),
    {
        check_tags(fs, 2)?;
        let maneuvers = Maneuver::read_all(fs, 1)?;
        let summary = match last_with_tag(fs, 2) {
            Some(v) => Summary::from_wire_value(v, 2)?,
            None => return Err(CodecError::MissingField(2)),
        };
        Ok(Leg { maneuvers, summary })
    }

    /// The `Leg` that the nested message `v` holds.
    pub fn from_wire_value(v: &WireValue, t: u32) -> (r: Result<Leg, CodecError>)
        ensures
            r is Ok <==> Self::msg_decodable(v@),
            r matches Ok(w) ==> Self::msg_decodes(v@, w),
    {
        match v {
            WireValue::Bytes(b) => match decode_message(b.as_slice()) {
                Ok(fs) => Self::from_wire_fields(&fs),
                Err(e) => Err(CodecError::Wire(e)),
            },
            WireValue::Varint(_) => Err(CodecError::BadValue(t)),
        }
    }

    /// The values of all fields with tag `t`, each a nested `Leg`.
    pub fn read_all(fs: &Vec<WireField>, t: u32) -> (r: Result<Vec<Leg>, CodecError>)
        ensures
            r is Ok <==> forall|i: int| 0 <= i < tag_values(fields_view(fs@), t).len() ==> Self::msg_decodable(#[trigger] tag_values(fields_view(fs@), t)[i]),
            r matches Ok(ws) ==> ws@.len() == tag_values(fields_view(fs@), t).len() && forall|i: int| 0 <= i < ws@.len() ==> Self::msg_decodes(#[trigger] tag_values(fields_view(fs@), t)[i], ws@[i]),
    {
        let vs = all_with_tag(fs, t);
        let ghost ds = tag_values(fields_view(fs@), t);
        let mut ws: Vec<Leg> = Vec::new();
        let mut i: usize = 0;
        while i < vs.len()
            invariant
                i <= vs@.len(),
                ds == tag_values(fields_view(fs@), t),
                vs@.len() == ds.len(),
                forall|k: int| 0 <= k < vs@.len() ==> (#[trigger] vs@[k])@ == ds[k],
                ws@.len() == i,
                forall|k: int| 0 <= k < i ==> Self::msg_decodable(#[trigger] ds[k]),
                forall|k: int| 0 <= k < i ==> Self::msg_decodes(#[trigger] ds[k], ws@[k]),
            decreases vs@.len() - i,
        {
            let w = match Self::from_wire_value(vs[i], t) {
                Ok(w) => w,
                Err(e) => {
                    assert(!Self::msg_decodable(ds[i as int]));
                    assert(!(forall|k: int| 0 <= k < ds.len() ==> Self::msg_decodable(#[trigger] ds[k])));
                    return Err(e);
                },
            };
            ws.push(w);
            i += 1;
        }
        Ok(ws)
    }

    /// Decoding the fields of a value gives back an equal value.
    #[verifier::rlimit(100)]
    #[verifier::spinoff_prover]
    pub proof fn lemma_round_trip(v: Leg)
        requires
            v.wire_fits(),
        ensures
            Self::wire_decodable(v.wire_fields()),
            forall|w: Leg| Self::decodes_from(v.wire_fields(), w) ==> w.same_as(v),
    {
        broadcast use lemma_zigzag_round_trip, lemma_str_round_trip, DirectionsType::lemma_code_round_trip, Units::lemma_code_round_trip, LocationType::lemma_code_round_trip, PreferredSide::lemma_code_round_trip, CostingModels::lemma_code_round_trip, BicyleType::lemma_code_round_trip, ManeuverType::lemma_code_round_trip, TravelMode::lemma_code_round_trip, TravelType::lemma_code_round_trip, lemma_opt_fixed_round_trip, lemma_opt_u32_round_trip, lemma_opt_u16_round_trip, lemma_opt_u8_round_trip, lemma_opt_bool_round_trip, lemma_opt_str_round_trip, lemma_opt_directions_type_round_trip, lemma_opt_units_round_trip, lemma_opt_location_type_round_trip, lemma_opt_preferred_side_round_trip, lemma_opt_costing_models_round_trip, lemma_opt_bicyle_type_round_trip, lemma_opt_maneuver_type_round_trip, lemma_opt_travel_mode_round_trip, lemma_opt_travel_type_round_trip;

        v.lemma_wire_tags();
        assert(tag_values(v.wire_fields(), 1) == Maneuver::msg_data_seq(v.maneuvers@)) by {
            broadcast use group_codec_lemmas;
        }
        assert(tag_value(v.wire_fields(), 2) == Some(v.summary.msg_data())) by {
            broadcast use group_codec_lemmas;
        }
        Maneuver::lemma_seq_round_trip(v.maneuvers@);
        Summary::lemma_msg_round_trip(v.summary);
    }

    /// Decoding a value's nested message gives back an equal value.
    pub proof fn lemma_msg_round_trip(v: Leg)
        requires
            v.msg_fits(),
        ensures
            Self::msg_decodable(v.msg_data()),
            forall|w: Leg| Self::msg_decodes(v.msg_data(), w) ==> w.same_as(v),
    {
        lemma_wire_round_trip(v.wire_fields());
        Self::lemma_round_trip(v);
    }

    pub proof fn lemma_seq_round_trip(xs: Seq<Leg>)
        requires
            Self::seq_fits(xs),
        ensures
            forall|i: int| 0 <= i < xs.len() ==> Self::msg_decodable(#[trigger] Self::msg_data_seq(xs)[i]),
            forall|ws: Seq<Leg>| ws.len() == xs.len() && (forall|i: int| 0 <= i < xs.len() ==> Self::msg_decodes(#[trigger] Self::msg_data_seq(xs)[i], ws[i])) ==> Self::same_seq(ws, xs),
    {
        assert forall|i: int| 0 <= i < xs.len() implies Self::msg_decodable(#[trigger] Self::msg_data_seq(xs)[i]) && (forall|w: Leg| Self::msg_decodes(Self::msg_data_seq(xs)[i], w) ==> w.same_as(xs[i])) by {
            assert(xs[i].msg_fits());
            Self::lemma_msg_round_trip(xs[i]);
        }
        assert forall|ws: Seq<Leg>| ws.len() == xs.len() && (forall|i: int| 0 <= i < xs.len() ==> Self::msg_decodes(#[trigger] Self::msg_data_seq(xs)[i], ws[i])) implies Self::same_seq(ws, xs) by {
            assert forall|i: int| 0 <= i < ws.len() implies (#[trigger] ws[i]).same_as(xs[i]) by {
                assert(Self::msg_decodes(Self::msg_data_seq(xs)[i], ws[i]));
            }
        }
    }

}

impl Trip {
    /// The fields this value is encoded as.
    pub open spec fn wire_fields(&self) -> Seq<(u32, WireData)> {
        Seq::empty()
            + rep_field(1, Location::msg_data_seq(self.locations@))
            + rep_field(2, Leg::msg_data_seq(self.legs@))
            + opt_field(3, Some(self.summary.msg_data()))
            + opt_field(4, Some(str_data(self.status_message@)))
            + opt_field(5, Some(uint_data(self.status as u64)))
            + opt_field(6, Some(uint_data(self.units.spec_code())))
            + opt_field(7, Some(str_data(self.language@)))
    }

    /// This value as a nested message.
    pub open spec fn msg_data(&self) -> WireData {
        WireData::Bytes(message_bytes(self.wire_fields()))
    }

    /// The values as nested messages.
    pub open spec fn msg_data_seq(xs: Seq<Trip>) -> Seq<WireData> {
        xs.map_values(|x: Trip| x.msg_data())
    }

    /// `fs` holds a `Trip`: known tags, every required field present, every field of its kind.
    pub open spec fn wire_decodable(fs: Seq<(u32, WireData)>) -> bool {
        &&& tags_within(fs, 7)
        &&& forall|i: int| 0 <= i < tag_values(fs, 1).len() ==> Location::msg_decodable(#[trigger] tag_values(fs, 1)[i])
        &&& forall|i: int| 0 <= i < tag_values(fs, 2).len() ==> Leg::msg_decodable(#[trigger] tag_values(fs, 2)[i])
        &&& tag_value(fs, 3) matches Some(d) && Summary::msg_decodable(d)
        &&& tag_value(fs, 4) matches Some(d) && str_of(d) is Some
        &&& tag_value(fs, 5) matches Some(d) && uint_of(d, 0xFFFF_FFFF) is Some
        &&& tag_value(fs, 6) matches Some(d) && units_of(d) is Some
        &&& tag_value(fs, 7) matches Some(d) && str_of(d) is Some
    }

    /// `w` is what `fs` holds.
    pub open spec fn decodes_from(fs: Seq<(u32, WireData)>, w: Trip) -> bool {
        &&& w.locations@.len() == tag_values(fs, 1).len() && forall|i: int| 0 <= i < tag_values(fs, 1).len() ==> Location::msg_decodes(#[trigger] tag_values(fs, 1)[i], w.locations@[i])
        &&& w.legs@.len() == tag_values(fs, 2).len() && forall|i: int| 0 <= i < tag_values(fs, 2).len() ==> Leg::msg_decodes(#[trigger] tag_values(fs, 2)[i], w.legs@[i])
        &&& tag_value(fs, 3) matches Some(d) && Summary::msg_decodes(d, w.summary)
        &&& tag_value(fs, 4) matches Some(d) && str_of(d) == Some(w.status_message@)
        &&& tag_value(fs, 5) matches Some(d) && uint_of(d, 0xFFFF_FFFF) == Some(w.status as u64)
        &&& tag_value(fs, 6) matches Some(d) && units_of(d) == Some(w.units)
        &&& tag_value(fs, 7) matches Some(d) && str_of(d) == Some(w.language@)
    }

    /// `d` is a nested message that holds a `Trip`.
    pub open spec fn msg_decodable(d: WireData) -> bool {
        &&& d is Bytes
        &&& parse_message(d->Bytes_0, 0) matches Some(fs) && Self::wire_decodable(fs)
    }

    /// `w` is what the nested message `d` holds.
    pub open spec fn msg_decodes(d: WireData, w: Trip) -> bool {
        &&& d is Bytes
        &&& parse_message(d->Bytes_0, 0) matches Some(fs) && Self::decodes_from(fs, w)
    }

    /// The two values agree in every field.
    pub open spec fn same_as(self, o: Trip) -> bool {
        &&& Location::same_seq(self.locations@, o.locations@)
        &&& Leg::same_seq(self.legs@, o.legs@)
        &&& self.summary.same_as(o.summary)
        &&& self.status_message@ == o.status_message@
        &&& self.status == o.status
        &&& self.units == o.units
        &&& self.language@ == o.language@
    }

    /// The two sequences agree element by element.
    pub open spec fn same_seq(a: Seq<Trip>, b: Seq<Trip>) -> bool {
        &&& a.len() == b.len()
        &&& forall|i: int| 0 <= i < a.len() ==> (#[trigger] a[i]).same_as(b[i])
    }

    /// Every nested message of this value fits a length prefix.
    pub open spec fn wire_fits(&self) -> bool {
        &&& Location::seq_fits(self.locations@)
        &&& Leg::seq_fits(self.legs@)
        &&& self.summary.msg_fits()
    }

    /// This value's encoding as a nested message can be decoded.
    pub open spec fn msg_fits(&self) -> bool {
        fields_ok(self.wire_fields()) && self.wire_fits()
    }

    /// Every value of the sequence fits.
    pub open spec fn seq_fits(xs: Seq<Trip>) -> bool {
        forall|i: int| 0 <= i < xs.len() ==> (#[trigger] xs[i]).msg_fits()
    }

    pub proof fn lemma_wire_tags(&self)
        ensures
            tags_within(self.wire_fields(), 7),
    {
        broadcast use group_codec_lemmas;

        assert(tags_within(Seq::<(u32, WireData)>::empty(), 7));
        lemma_tags_widen(rep_field(1, Location::msg_data_seq(self.locations@)), 1, 7);
        lemma_tags_widen(rep_field(2, Leg::msg_data_seq(self.legs@)), 2, 7);
        lemma_tags_widen(opt_field(3, Some(self.summary.msg_data())), 3, 7);
        lemma_tags_widen(opt_field(4, Some(str_data(self.status_message@))), 4, 7);
        lemma_tags_widen(opt_field(5, Some(uint_data(self.status as u64))), 5, 7);
        lemma_tags_widen(opt_field(6, Some(uint_data(self.units.spec_code()))), 6, 7);
        lemma_tags_widen(opt_field(7, Some(str_data(self.language@))), 7, 7);
    }

    /// The fields this value is encoded as.
    pub fn to_wire_fields(&self) -> (r: Vec<WireField>)
        ensures
            fields_view(r@) == self.wire_fields(),
    {
        let mut fs: Vec<WireField> = Vec::new();
        assert(fields_view(fs@) =~= Seq::<(u32, WireData)>::empty());
        let ghost before = fields_view(fs@);
        Location::push_all(&self.locations, 1, &mut fs);
        assert(fields_view(fs@) =~= before + rep_field(1, Location::msg_data_seq(self.locations@)));
        let ghost before = fields_view(fs@);
        Leg::push_all(&self.legs, 2, &mut fs);
        assert(fields_view(fs@) =~= before + rep_field(2, Leg::msg_data_seq(self.legs@)));
        let ghost before = fields_view(fs@);
        fs.push(WireField { tag: 3, value: self.summary.to_wire_value() });
        assert(fields_view(fs@) =~= before + opt_field(3, Some(self.summary.msg_data())));
        let ghost before = fields_view(fs@);
        fs.push(WireField { tag: 4, value: str_value(&self.status_message) });
        assert(fields_view(fs@) =~= before + opt_field(4, Some(str_data(self.status_message@))));
        let ghost before = fields_view(fs@);
        fs.push(WireField { tag: 5, value: uint_value(self.status as u64) });
        assert(fields_view(fs@) =~= before + opt_field(5, Some(uint_data(self.status as u64))));
        let ghost before = fields_view(fs@);
        fs.push(WireField { tag: 6, value: uint_value(self.units.code()) });
        assert(fields_view(fs@) =~= before + opt_field(6, Some(uint_data(self.units.spec_code()))));
        let ghost before = fields_view(fs@);
        fs.push(WireField { tag: 7, value: str_value(&self.language) });
        assert(fields_view(fs@) =~= before + opt_field(7, Some(str_data(self.language@))));
        fs
    }

    /// This value as a nested message.
    pub fn to_wire_value(&self) -> (r: WireValue)
        ensures
            r@ == self.msg_data(),
    {
        let fs = self.to_wire_fields();
        proof {
            self.lemma_wire_tags();
        }
        WireValue::Bytes(encode_message(&fs))
    }

    /// The `Trip` that `fs` holds.
    pub fn from_wire_fields(fs: &Vec<WireField>) -> (r: Result<Trip, CodecError>)
        ensures
            r is Ok <==> Self::wire_decodable(fields_view(fs@)),
            r matches Ok(w) ==> Self::decodes_from(fields_view(fs@), w),
    {
        check_tags(fs, 7)?;
        let locations = Location::read_all(fs, 1)?;
        let legs = Leg::read_all(fs, 2)?;
        let summary = match last_with_tag(fs, 3) {
            Some(v) => Summary::from_wire_value(v, 3)?,
            None => return Err(CodecError::MissingField(3)),
        };
        let status_message = match last_with_tag(fs, 4) {
            Some(v) => match read_str(v) {
                Some(x) => x,
                None => return Err(CodecError::BadValue(4)),
            },
            None => return Err(CodecError::MissingField(4)),
        };
        let status = match last_with_tag(fs, 5) {
            Some(v) => match read_uint(v, 0xFFFF_FFFF) {
                Some(x) => x as u32,
                None => return Err(CodecError::BadValue(5)),
            },
            None => return Err(CodecError::MissingField(5)),
        };
        let units = match last_with_tag(fs, 6) {
            Some(v) => match read_units(v) {
                Some(x) => x,
                None => return Err(CodecError::BadValue(6)),
            },
            None => return Err(CodecError::MissingField(6)),
        };
        let language = match last_with_tag(fs, 7) {
            Some(v) => match read_str(v) {
                Some(x) => x,
                None => return Err(CodecError::BadValue(7)),
            },
            None => return Err(CodecError::MissingField(7)),
        };
        Ok(Trip { locations, legs, summary, status_message, status, units, language })
    }

    /// The `Trip` that the nested message `v` holds.
    pub fn from_wire_value(v: &WireValue, t: u32) -> (r: Result<Trip, CodecError>)
        ensures
            r is Ok <==> Self::msg_decodable(v@),
            r matches Ok(w) ==> Self::msg_decodes(v@, w),
    {
        match v {
            WireValue::Bytes(b) => match decode_message(b.as_slice()) {
                Ok(fs) => Self::from_wire_fields(&fs),
                Err(e) => Err(CodecError::Wire(e)),
            },
            WireValue::Varint(_) => Err(CodecError::BadValue(t)),
        }
    }

    /// Decoding the fields of a value gives back an equal value.
    #[verifier::rlimit(100)]
    #[verifier::spinoff_prover]
    pub proof fn lemma_round_trip(v: Trip)
        requires
            v.wire_fits(),
        ensures
            Self::wire_decodable(v.wire_fields()),
            forall|w: Trip| Self::decodes_from(v.wire_fields(), w) ==> w.same_as(v),
    {
        broadcast use lemma_zigzag_round_trip, lemma_str_round_trip, DirectionsType::lemma_code_round_trip, Units::lemma_code_round_trip, LocationType::lemma_code_round_trip, PreferredSide::lemma_code_round_trip, CostingModels::lemma_code_round_trip, BicyleType::lemma_code_round_trip, ManeuverType::lemma_code_round_trip, TravelMode::lemma_code_round_trip, TravelType::lemma_code_round_trip, lemma_opt_fixed_round_trip, lemma_opt_u32_round_trip, lemma_opt_u16_round_trip, lemma_opt_u8_round_trip, lemma_opt_bool_round_trip, lemma_opt_str_round_trip, lemma_opt_directions_type_round_trip, lemma_opt_units_round_trip, lemma_opt_location_type_round_trip, lemma_opt_preferred_side_round_trip, lemma_opt_costing_models_round_trip, lemma_opt_bicyle_type_round_trip, lemma_opt_maneuver_type_round_trip, lemma_opt_travel_mode_round_trip, lemma_opt_travel_type_round_trip;

        v.lemma_wire_tags();
        assert(tag_values(v.wire_fields(), 1) == Location::msg_data_seq(v.locations@)) by {
            broadcast use group_codec_lemmas;
        }
        assert(tag_values(v.wire_fields(), 2) == Leg::msg_data_seq(v.legs@)) by {
            broadcast use group_codec_lemmas;
        }
        assert(tag_value(v.wire_fields(), 3) == Some(v.summary.msg_data())) by {
            broadcast use group_codec_lemmas;
        }
        assert(tag_value(v.wire_fields(), 4) == Some(str_data(v.status_message@))) by {
            broadcast use group_codec_lemmas;
        }
        assert(tag_value(v.wire_fields(), 5) == Some(uint_data(v.status as u64))) by {
            broadcast use group_codec_lemmas;
        }
        assert(tag_value(v.wire_fields(), 6) == Some(uint_data(v.units.spec_code()))) by {
            broadcast use group_codec_lemmas;
        }
        assert(tag_value(v.wire_fields(), 7) == Some(str_data(v.language@))) by {
            broadcast use group_codec_lemmas;
        }
        Location::lemma_seq_round_trip(v.locations@);
        Leg::lemma_seq_round_trip(v.legs@);
        Summary::lemma_msg_round_trip(v.summary);
    }

    /// Decoding a value's nested message gives back an equal value.
    pub proof fn lemma_msg_round_trip(v: Trip)
        requires
            v.msg_fits(),
        ensures
            Self::msg_decodable(v.msg_data()),
            forall|w: Trip| Self::msg_decodes(v.msg_data(), w) ==> w.same_as(v),
    {
        lemma_wire_round_trip(v.wire_fields());
        Self::lemma_round_trip(v);
    }

}

impl RoutingOutput {
    /// The fields this value is encoded as.
    pub open spec fn wire_fields(&self) -> Seq<(u32, WireData)> {
        Seq::empty()
            + opt_field(1, Some(self.trip.msg_data()))
            + opt_field(2, Some(str_data(self.id@)))
    }

    /// This value as a nested message.
    pub open spec fn msg_data(&self) -> WireData {
        WireData::Bytes(message_bytes(self.wire_fields()))
    }

    /// The values as nested messages.
    pub open spec fn msg_data_seq(xs: Seq<RoutingOutput>) -> Seq<WireData> {
        xs.map_values(|x: RoutingOutput| x.msg_data())
    }

    /// `fs` holds a `RoutingOutput`: known tags, every required field present, every field of its kind.
    pub open spec fn wire_decodable(fs: Seq<(u32, WireData)>) -> bool {
        &&& tags_within(fs, 2)
        &&& tag_value(fs, 1) matches Some(d) && Trip::msg_decodable(d)
        &&& tag_value(fs, 2) matches Some(d) && str_of(d) is Some
    }

    /// `w` is what `fs` holds.
    pub open spec fn decodes_from(fs: Seq<(u32, WireData)>, w: RoutingOutput) -> bool {
        &&& tag_value(fs, 1) matches Some(d) && Trip::msg_decodes(d, w.trip)
        &&& tag_value(fs, 2) matches Some(d) && str_of(d) == Some(w.id@)
    }

    /// `d` is a nested message that holds a `RoutingOutput`.
    pub open spec fn msg_decodable(d: WireData) -> bool {
        &&& d is Bytes
        &&& parse_message(d->Bytes_0, 0) matches Some(fs) && Self::wire_decodable(fs)
    }

    /// `w` is what the nested message `d` holds.
    pub open spec fn msg_decodes(d: WireData, w: RoutingOutput) -> bool {
        &&& d is Bytes
        &&& parse_message(d->Bytes_0, 0) matches Some(fs) && Self::decodes_from(fs, w)
    }

    /// The two values agree in every field.
    pub open spec fn same_as(self, o: RoutingOutput) -> bool {
        &&& self.trip.same_as(o.trip)
        &&& self.id@ == o.id@
    }

    /// The two sequences agree element by element.
    pub open spec fn same_seq(a: Seq<RoutingOutput>, b: Seq<RoutingOutput>) -> bool {
        &&& a.len() == b.len()
        &&& forall|i: int| 0 <= i < a.len() ==> (#[trigger] a[i]).same_as(b[i])
    }

    /// Every nested message of this value fits a length prefix.
    pub open spec fn wire_fits(&self) -> bool {
        &&& self.trip.msg_fits()
    }

    /// This value's encoding as a nested message can be decoded.
    pub open spec fn msg_fits(&self) -> bool {
        fields_ok(self.wire_fields()) && self.wire_fits()
    }

    /// Every value of the sequence fits.
    pub open spec fn seq_fits(xs: Seq<RoutingOutput>) -> bool {
        forall|i: int| 0 <= i < xs.len() ==> (#[trigger] xs[i]).msg_fits()
    }

    pub proof fn lemma_wire_tags(&self)
        ensures
            tags_within(self.wire_fields(), 2),
    {
        broadcast use group_codec_lemmas;

        assert(tags_within(Seq::<(u32, WireData)>::empty(), 2));
        lemma_tags_widen(opt_field(1, Some(self.trip.msg_data())), 1, 2);
        lemma_tags_widen(opt_field(2, Some(str_data(self.id@))), 2, 2);
    }

    /// The fields this value is encoded as.
    pub fn to_wire_fields(&self) -> (r: Vec<WireField>)
        ensures
            fields_view(r@) == self.wire_fields(),
    {
        let mut fs: Vec<WireField> = Vec::new();
        assert(fields_view(fs@) =~= Seq::<(u32, WireData)>::empty());
        let ghost before = fields_view(fs@);
        fs.push(WireField { tag: 1, value: self.trip.to_wire_value() });
        assert(fields_view(fs@) =~= before + opt_field(1, Some(self.trip.msg_data())));
        let ghost before = fields_view(fs@);
        fs.push(WireField { tag: 2, value: str_value(&self.id) });
        assert(fields_view(fs@) =~= before + opt_field(2, Some(str_data(self.id@))));
        fs
    }

    /// This value as a nested message.
    pub fn to_wire_value(&self) -> (r: WireValue)
        ensures
            r@ == self.msg_data(),
    {
        let fs = self.to_wire_fields();
        proof {
            self.lemma_wire_tags();
        }
        WireValue::Bytes(encode_message(&fs))
    }

    /// The `RoutingOutput` that `fs` holds.
    pub fn from_wire_fields(fs: &Vec<WireField>) -> (r: Result<RoutingOutput, CodecError>)
        ensures
            r is Ok <==> Self::wire_decodable(fields_view(fs@)),
            r matches Ok(w) ==> Self::decodes_from(fields_view(fs@), w),
    {
        check_tags(fs, 2)?;
        let trip = match last_with_tag(fs, 1) {
            Some(v) => Trip::from_wire_value(v, 1)?,
            None => return Err(CodecError::MissingField(1)),
        };
        let id = match last_with_tag(fs, 2) {
            Some(v) => match read_str(v) {
                Some(x) => x,
                None => return Err(CodecError::BadValue(2)),
            },
            None => return Err(CodecError::MissingField(2)),
        };
        Ok(RoutingOutput { trip, id })
    }

    /// The `RoutingOutput` that the nested message `v` holds.
    pub fn from_wire_value(v: &WireValue, t: u32) -> (r: Result<RoutingOutput, CodecError>)
        ensures
            r is Ok <==> Self::msg_decodable(v@),
            r matches Ok(w) ==> Self::msg_decodes(v@, w),
    {
        match v {
            WireValue::Bytes(b) => match decode_message(b.as_slice()) {
                Ok(fs) => Self::from_wire_fields(&fs),
                Err(e) => Err(CodecError::Wire(e)),
            },
            WireValue::Varint(_) => Err(CodecError::BadValue(t)),
        }
    }

    /// Decoding the fields of a value gives back an equal value.
    #[verifier::rlimit(100)]
    #[verifier::spinoff_prover]
    pub proof fn lemma_round_trip(v: RoutingOutput)
        requires
            v.wire_fits(),
        ensures
            Self::wire_decodable(v.wire_fields()),
            forall|w: RoutingOutput| Self::decodes_from(v.wire_fields(), w) ==> w.same_as(v),
    {
        broadcast use lemma_zigzag_round_trip, lemma_str_round_trip, DirectionsType::lemma_code_round_trip, Units::lemma_code_round_trip, LocationType::lemma_code_round_trip, PreferredSide::lemma_code_round_trip, CostingModels::lemma_code_round_trip, BicyleType::lemma_code_round_trip, ManeuverType::lemma_code_round_trip, TravelMode::lemma_code_round_trip, TravelType::lemma_code_round_trip, lemma_opt_fixed_round_trip, lemma_opt_u32_round_trip, lemma_opt_u16_round_trip, lemma_opt_u8_round_trip, lemma_opt_bool_round_trip, lemma_opt_str_round_trip, lemma_opt_directions_type_round_trip, lemma_opt_units_round_trip, lemma_opt_location_type_round_trip, lemma_opt_preferred_side_round_trip, lemma_opt_costing_models_round_trip, lemma_opt_bicyle_type_round_trip, lemma_opt_maneuver_type_round_trip, lemma_opt_travel_mode_round_trip, lemma_opt_travel_type_round_trip;

        v.lemma_wire_tags();
        assert(tag_value(v.wire_fields(), 1) == Some(v.trip.msg_data())) by {
            broadcast use group_codec_lemmas;
        }
        assert(tag_value(v.wire_fields(), 2) == Some(str_data(v.id@))) by {
            broadcast use group_codec_lemmas;
        }
        Trip::lemma_msg_round_trip(v.trip);
    }

    /// Decoding a value's nested message gives back an equal value.
    pub proof fn lemma_msg_round_trip(v: RoutingOutput)
        requires
            v.msg_fits(),
        ensures
            Self::msg_decodable(v.msg_data()),
            forall|w: RoutingOutput| Self::msg_decodes(v.msg_data(), w) ==> w.same_as(v),
    {
        lemma_wire_round_trip(v.wire_fields());
        Self::lemma_round_trip(v);
    }

}

impl MatrixInput {
    /// The fields this value is encoded as.
    pub open spec fn wire_fields(&self) -> Seq<(u32, WireData)> {
        Seq::empty()
            + rep_field(1, Location::msg_data_seq(self.sources@))
            + rep_field(2, Location::msg_data_seq(self.targets@))
            + opt_field(3, opt_costing_models_data(self.costing))
            + opt_field(4, opt_str_data(self.id))
            + opt_field(5, opt_units_data(self.units))
    }

    /// This value as a nested message.
    pub open spec fn msg_data(&self) -> WireData {
        WireData::Bytes(message_bytes(self.wire_fields()))
    }

    /// The values as nested messages.
    pub open spec fn msg_data_seq(xs: Seq<MatrixInput>) -> Seq<WireData> {
        xs.map_values(|x: MatrixInput| x.msg_data())
    }

    /// `fs` holds a `MatrixInput`: known tags, every required field present, every field of its kind.
    pub open spec fn wire_decodable(fs: Seq<(u32, WireData)>) -> bool {
        &&& tags_within(fs, 5)
        &&& forall|i: int| 0 <= i < tag_values(fs, 1).len() ==> Location::msg_decodable(#[trigger] tag_values(fs, 1)[i])
        &&& forall|i: int| 0 <= i < tag_values(fs, 2).len() ==> Location::msg_decodable(#[trigger] tag_values(fs, 2)[i])
        &&& opt_costing_models_of(tag_value(fs, 3)) is Some
        &&& opt_str_of(tag_value(fs, 4)) is Some
        &&& opt_units_of(tag_value(fs, 5)) is Some
    }

    /// `w` is what `fs` holds.
    pub open spec fn decodes_from(fs: Seq<(u32, WireData)>, w: MatrixInput) -> bool {
        &&& w.sources@.len() == tag_values(fs, 1).len() && forall|i: int| 0 <= i < tag_values(fs, 1).len() ==> Location::msg_decodes(#[trigger] tag_values(fs, 1)[i], w.sources@[i])
        &&& w.targets@.len() == tag_values(fs, 2).len() && forall|i: int| 0 <= i < tag_values(fs, 2).len() ==> Location::msg_decodes(#[trigger] tag_values(fs, 2)[i], w.targets@[i])
        &&& opt_costing_models_of(tag_value(fs, 3)) == Some(w.costing)
        &&& opt_str_of(tag_value(fs, 4)) == Some(opt_str_view(w.id))
        &&& opt_units_of(tag_value(fs, 5)) == Some(w.units)
    }

    /// `d` is a nested message that holds a `MatrixInput`.
    pub open spec fn msg_decodable(d: WireData) -> bool {
        &&& d is Bytes
        &&& parse_message(d->Bytes_0, 0) matches Some(fs) && Self::wire_decodable(fs)
    }

    /// `w` is what the nested message `d` holds.
    pub open spec fn msg_decodes(d: WireData, w: MatrixInput) -> bool {
        &&& d is Bytes
        &&& parse_message(d->Bytes_0, 0) matches Some(fs) && Self::decodes_from(fs, w)
    }

    /// The two values agree in every field.
    pub open spec fn same_as(self, o: MatrixInput) -> bool {
        &&& Location::same_seq(self.sources@, o.sources@)
        &&& Location::same_seq(self.targets@, o.targets@)
        &&& self.costing == o.costing
        &&& opt_str_view(self.id) == opt_str_view(o.id)
        &&& self.units == o.units
    }

    /// The two sequences agree element by element.
    pub open spec fn same_seq(a: Seq<MatrixInput>, b: Seq<MatrixInput>) -> bool {
        &&& a.len() == b.len()
        &&& forall|i: int| 0 <= i < a.len() ==> (#[trigger] a[i]).same_as(b[i])
    }

    /// Every nested message of this value fits a length prefix.
    pub open spec fn wire_fits(&self) -> bool {
        &&& Location::seq_fits(self.sources@)
        &&& Location::seq_fits(self.targets@)
    }

    /// This value's encoding as a nested message can be decoded.
    pub open spec fn msg_fits(&self) -> bool {
        fields_ok(self.wire_fields()) && self.wire_fits()
    }

    /// Every value of the sequence fits.
    pub open spec fn seq_fits(xs: Seq<MatrixInput>) -> bool {
        forall|i: int| 0 <= i < xs.len() ==> (#[trigger] xs[i]).msg_fits()
    }

    pub proof fn lemma_wire_tags(&self)
        ensures
            tags_within(self.wire_fields(), 5),
    {
        broadcast use group_codec_lemmas;

        assert(tags_within(Seq::<(u32, WireData)>::empty(), 5));
        lemma_tags_widen(rep_field(1, Location::msg_data_seq(self.sources@)), 1, 5);
        lemma_tags_widen(rep_field(2, Location::msg_data_seq(self.targets@)), 2, 5);
        lemma_tags_widen(opt_field(3, opt_costing_models_data(self.costing)), 3, 5);
        lemma_tags_widen(opt_field(4, opt_str_data(self.id)), 4, 5);
        lemma_tags_widen(opt_field(5, opt_units_data(self.units)), 5, 5);
    }

    /// The fields this value is encoded as.
    pub fn to_wire_fields(&self) -> (r: Vec<WireField>)
        ensures
            fields_view(r@) == self.wire_fields(),
    {
        let mut fs: Vec<WireField> = Vec::new();
        assert(fields_view(fs@) =~= Seq::<(u32, WireData)>::empty());
        let ghost before = fields_view(fs@);
        Location::push_all(&self.sources, 1, &mut fs);
        assert(fields_view(fs@) =~= before + rep_field(1, Location::msg_data_seq(self.sources@)));
        let ghost before = fields_view(fs@);
        Location::push_all(&self.targets, 2, &mut fs);
        assert(fields_view(fs@) =~= before + rep_field(2, Location::msg_data_seq(self.targets@)));
        let ghost before = fields_view(fs@);
        push_opt_costing_models(&mut fs, 3, self.costing);
        assert(fields_view(fs@) =~= before + opt_field(3, opt_costing_models_data(self.costing)));
        let ghost before = fields_view(fs@);
        push_opt_str(&mut fs, 4, &self.id);
        assert(fields_view(fs@) =~= before + opt_field(4, opt_str_data(self.id)));
        let ghost before = fields_view(fs@);
        push_opt_units(&mut fs, 5, self.units);
        assert(fields_view(fs@) =~= before + opt_field(5, opt_units_data(self.units)));
        fs
    }

    /// This value as a nested message.
    pub fn to_wire_value(&self) -> (r: WireValue)
        ensures
            r@ == self.msg_data(),
    {
        let fs = self.to_wire_fields();
        proof {
            self.lemma_wire_tags();
        }
        WireValue::Bytes(encode_message(&fs))
    }

    /// The `MatrixInput` that `fs` holds.
    pub fn from_wire_fields(fs: &Vec<WireField>) -> (r: Result<MatrixInput, CodecError>)
        ensures
            r is Ok <==> Self::wire_decodable(fields_view(fs@)),
            r matches Ok(w) ==> Self::decodes_from(fields_view(fs@), w),
    {
        check_tags(fs, 5)?;
        let sources = Location::read_all(fs, 1)?;
        let targets = Location::read_all(fs, 2)?;
        let costing = read_opt_costing_models(fs, 3)?;
        let id = read_opt_str(fs, 4)?;
        let units = read_opt_units(fs, 5)?;
        Ok(MatrixInput { sources, targets, costing, id, units })
    }

    /// The `MatrixInput` that the nested message `v` holds.
    pub fn from_wire_value(v: &WireValue, t: u32) -> (r: Result<MatrixInput, CodecError>)
        ensures
            r is Ok <==> Self::msg_decodable(v@),
            r matches Ok(w) ==> Self::msg_decodes(v@, w),
    {
        match v {
            WireValue::Bytes(b) => match decode_message(b.as_slice()) {
                Ok(fs) => Self::from_wire_fields(&fs),
                Err(e) => Err(CodecError::Wire(e)),
            },
            WireValue::Varint(_) => Err(CodecError::BadValue(t)),
        }
    }

    /// Decoding the fields of a value gives back an equal value.
    #[verifier::rlimit(100)]
    #[verifier::spinoff_prover]
    pub proof fn lemma_round_trip(v: MatrixInput)
        requires
            v.wire_fits(),
        ensures
            Self::wire_decodable(v.wire_fields()),
            forall|w: MatrixInput| Self::decodes_from(v.wire_fields(), w) ==> w.same_as(v),
    {
        broadcast use lemma_zigzag_round_trip, lemma_str_round_trip, DirectionsType::lemma_code_round_trip, Units::lemma_code_round_trip, LocationType::lemma_code_round_trip, PreferredSide::lemma_code_round_trip, CostingModels::lemma_code_round_trip, BicyleType::lemma_code_round_trip, ManeuverType::lemma_code_round_trip, TravelMode::lemma_code_round_trip, TravelType::lemma_code_round_trip, lemma_opt_fixed_round_trip, lemma_opt_u32_round_trip, lemma_opt_u16_round_trip, lemma_opt_u8_round_trip, lemma_opt_bool_round_trip, lemma_opt_str_round_trip, lemma_opt_directions_type_round_trip, lemma_opt_units_round_trip, lemma_opt_location_type_round_trip, lemma_opt_preferred_side_round_trip, lemma_opt_costing_models_round_trip, lemma_opt_bicyle_type_round_trip, lemma_opt_maneuver_type_round_trip, lemma_opt_travel_mode_round_trip, lemma_opt_travel_type_round_trip;

        v.lemma_wire_tags();
        assert(tag_values(v.wire_fields(), 1) == Location::msg_data_seq(v.sources@)) by {
            broadcast use group_codec_lemmas;
        }
        assert(tag_values(v.wire_fields(), 2) == Location::msg_data_seq(v.targets@)) by {
            broadcast use group_codec_lemmas;
        }
        assert(tag_value(v.wire_fields(), 3) == opt_costing_models_data(v.costing)) by {
            broadcast use group_codec_lemmas;
        }
        assert(tag_value(v.wire_fields(), 4) == opt_str_data(v.id)) by {
            broadcast use group_codec_lemmas;
        }
        assert(tag_value(v.wire_fields(), 5) == opt_units_data(v.units)) by {
            broadcast use group_codec_lemmas;
        }
        Location::lemma_seq_round_trip(v.sources@);
        Location::lemma_seq_round_trip(v.targets@);
    }

    /// Decoding a value's nested message gives back an equal value.
    pub proof fn lemma_msg_round_trip(v: MatrixInput)
        requires
            v.msg_fits(),
        ensures
            Self::msg_decodable(v.msg_data()),
            forall|w: MatrixInput| Self::msg_decodes(v.msg_data(), w) ==> w.same_as(v),
    {
        lemma_wire_round_trip(v.wire_fields());
        Self::lemma_round_trip(v);
    }

}

impl MatrixOutput {
    /// The fields this value is encoded as.
    pub open spec fn wire_fields(&self) -> Seq<(u32, WireData)> {
        Seq::empty()
            + rep_field(1, Location::list_data_seq(self.sources@))
            + rep_field(2, Location::list_data_seq(self.targets@))
            + rep_field(3, MatrixDistance::list_data_seq(self.sources_to_targets@))
            + opt_field(4, opt_units_data(self.units))
    }

    /// This value as a nested message.
    pub open spec fn msg_data(&self) -> WireData {
        WireData::Bytes(message_bytes(self.wire_fields()))
    }

    /// The values as nested messages.
    pub open spec fn msg_data_seq(xs: Seq<MatrixOutput>) -> Seq<WireData> {
        xs.map_values(|x: MatrixOutput| x.msg_data())
    }

    /// `fs` holds a `MatrixOutput`: known tags, every required field present, every field of its kind.
    pub open spec fn wire_decodable(fs: Seq<(u32, WireData)>) -> bool {
        &&& tags_within(fs, 4)
        &&& forall|i: int| 0 <= i < tag_values(fs, 1).len() ==> Location::list_decodable(#[trigger] tag_values(fs, 1)[i])
        &&& forall|i: int| 0 <= i < tag_values(fs, 2).len() ==> Location::list_decodable(#[trigger] tag_values(fs, 2)[i])
        &&& forall|i: int| 0 <= i < tag_values(fs, 3).len() ==> MatrixDistance::list_decodable(#[trigger] tag_values(fs, 3)[i])
        &&& opt_units_of(tag_value(fs, 4)) is Some
    }

    /// `w` is what `fs` holds.
    pub open spec fn decodes_from(fs: Seq<(u32, WireData)>, w: MatrixOutput) -> bool {
        &&& w.sources@.len() == tag_values(fs, 1).len() && forall|i: int| 0 <= i < tag_values(fs, 1).len() ==> Location::list_decodes(#[trigger] tag_values(fs, 1)[i], w.sources@[i]@)
        &&& w.targets@.len() == tag_values(fs, 2).len() && forall|i: int| 0 <= i < tag_values(fs, 2).len() ==> Location::list_decodes(#[trigger] tag_values(fs, 2)[i], w.targets@[i]@)
        &&& w.sources_to_targets@.len() == tag_values(fs, 3).len() && forall|i: int| 0 <= i < tag_values(fs, 3).len() ==> MatrixDistance::list_decodes(#[trigger] tag_values(fs, 3)[i], w.sources_to_targets@[i]@)
        &&& opt_units_of(tag_value(fs, 4)) == Some(w.units)
    }

    /// `d` is a nested message that holds a `MatrixOutput`.
    pub open spec fn msg_decodable(d: WireData) -> bool {
        &&& d is Bytes
        &&& parse_message(d->Bytes_0, 0) matches Some(fs) && Self::wire_decodable(fs)
    }

    /// `w` is what the nested message `d` holds.
    pub open spec fn msg_decodes(d: WireData, w: MatrixOutput) -> bool {
        &&& d is Bytes
        &&& parse_message(d->Bytes_0, 0) matches Some(fs) && Self::decodes_from(fs, w)
    }

    /// The two values agree in every field.
    pub open spec fn same_as(self, o: MatrixOutput) -> bool {
        &&& self.sources@.len() == o.sources@.len() && forall|i: int| 0 <= i < self.sources@.len() ==> Location::same_seq((#[trigger] self.sources@[i])@, o.sources@[i]@)
        &&& self.targets@.len() == o.targets@.len() && forall|i: int| 0 <= i < self.targets@.len() ==> Location::same_seq((#[trigger] self.targets@[i])@, o.targets@[i]@)
        &&& self.sources_to_targets@.len() == o.sources_to_targets@.len() && forall|i: int| 0 <= i < self.sources_to_targets@.len() ==> MatrixDistance::same_seq((#[trigger] self.sources_to_targets@[i])@, o.sources_to_targets@[i]@)
        &&& self.units == o.units
    }

    /// The two sequences agree element by element.
    pub open spec fn same_seq(a: Seq<MatrixOutput>, b: Seq<MatrixOutput>) -> bool {
        &&& a.len() == b.len()
        &&& forall|i: int| 0 <= i < a.len() ==> (#[trigger] a[i]).same_as(b[i])
    }

    /// Every nested message of this value fits a length prefix.
    pub open spec fn wire_fits(&self) -> bool {
        &&& forall|i: int| 0 <= i < self.sources@.len() ==> Location::list_fits((#[trigger] self.sources@[i])@)
        &&& forall|i: int| 0 <= i < self.targets@.len() ==> Location::list_fits((#[trigger] self.targets@[i])@)
        &&& forall|i: int| 0 <= i < self.sources_to_targets@.len() ==> MatrixDistance::list_fits((#[trigger] self.sources_to_targets@[i])@)
    }

    /// This value's encoding as a nested message can be decoded.
    pub open spec fn msg_fits(&self) -> bool {
        fields_ok(self.wire_fields()) && self.wire_fits()
    }

    /// Every value of the sequence fits.
    pub open spec fn seq_fits(xs: Seq<MatrixOutput>) -> bool {
        forall|i: int| 0 <= i < xs.len() ==> (#[trigger] xs[i]).msg_fits()
    }

    pub proof fn lemma_wire_tags(&self)
        ensures
            tags_within(self.wire_fields(), 4),
    {
        broadcast use group_codec_lemmas;

        assert(tags_within(Seq::<(u32, WireData)>::empty(), 4));
        lemma_tags_widen(rep_field(1, Location::list_data_seq(self.sources@)), 1, 4);
        lemma_tags_widen(rep_field(2, Location::list_data_seq(self.targets@)), 2, 4);
        lemma_tags_widen(rep_field(3, MatrixDistance::list_data_seq(self.sources_to_targets@)), 3, 4);
        lemma_tags_widen(opt_field(4, opt_units_data(self.units)), 4, 4);
    }

    /// The fields this value is encoded as.
    pub fn to_wire_fields(&self) -> (r: Vec<WireField>)
        ensures
            fields_view(r@) == self.wire_fields(),
    {
        let mut fs: Vec<WireField> = Vec::new();
        assert(fields_view(fs@) =~= Seq::<(u32, WireData)>::empty());
        let ghost before = fields_view(fs@);
        Location::push_all_lists(&self.sources, 1, &mut fs);
        assert(fields_view(fs@) =~= before + rep_field(1, Location::list_data_seq(self.sources@)));
        let ghost before = fields_view(fs@);
        Location::push_all_lists(&self.targets, 2, &mut fs);
        assert(fields_view(fs@) =~= before + rep_field(2, Location::list_data_seq(self.targets@)));
        let ghost before = fields_view(fs@);
        MatrixDistance::push_all_lists(&self.sources_to_targets, 3, &mut fs);
        assert(fields_view(fs@) =~= before + rep_field(3, MatrixDistance::list_data_seq(self.sources_to_targets@)));
        let ghost before = fields_view(fs@);
        push_opt_units(&mut fs, 4, self.units);
        assert(fields_view(fs@) =~= before + opt_field(4, opt_units_data(self.units)));
        fs
    }

    /// This value as a nested message.
    pub fn to_wire_value(&self) -> (r: WireValue)
        ensures
            r@ == self.msg_data(),
    {
        let fs = self.to_wire_fields();
        proof {
            self.lemma_wire_tags();
        }
        WireValue::Bytes(encode_message(&fs))
    }

    /// The `MatrixOutput` that `fs` holds.
    pub fn from_wire_fields(fs: &Vec<WireField>) -> (r: Result<MatrixOutput, CodecError>)
        ensures
            r is Ok <==> Self::wire_decodable(fields_view(fs@)),
            r matches Ok(w) ==> Self::decodes_from(fields_view(fs@), w),
    {
        check_tags(fs, 4)?;
        let sources = Location::read_all_lists(fs, 1)?;
        let targets = Location::read_all_lists(fs, 2)?;
        let sources_to_targets = MatrixDistance::read_all_lists(fs, 3)?;
        let units = read_opt_units(fs, 4)?;
        Ok(MatrixOutput { sources, targets, sources_to_targets, units })
    }

    /// The `MatrixOutput` that the nested message `v` holds.
    pub fn from_wire_value(v: &WireValue, t: u32) -> (r: Result<MatrixOutput, CodecError>)
        ensures
            r is Ok <==> Self::msg_decodable(v@),
            r matches Ok(w) ==> Self::msg_decodes(v@, w),
    {
        match v {
            WireValue::Bytes(b) => match decode_message(b.as_slice()) {
                Ok(fs) => Self::from_wire_fields(&fs),
                Err(e) => Err(CodecError::Wire(e)),
            },
            WireValue::Varint(_) => Err(CodecError::BadValue(t)),
        }
    }

    /// Decoding the fields of a value gives back an equal value.
    #[verifier::rlimit(100)]
    #[verifier::spinoff_prover]
    pub proof fn lemma_round_trip(v: MatrixOutput)
        requires
            v.wire_fits(),
        ensures
            Self::wire_decodable(v.wire_fields()),
            forall|w: MatrixOutput| Self::decodes_from(v.wire_fields(), w) ==> w.same_as(v),
    {
        broadcast use lemma_zigzag_round_trip, lemma_str_round_trip, DirectionsType::lemma_code_round_trip, Units::lemma_code_round_trip, LocationType::lemma_code_round_trip, PreferredSide::lemma_code_round_trip, CostingModels::lemma_code_round_trip, BicyleType::lemma_code_round_trip, ManeuverType::lemma_code_round_trip, TravelMode::lemma_code_round_trip, TravelType::lemma_code_round_trip, lemma_opt_fixed_round_trip, lemma_opt_u32_round_trip, lemma_opt_u16_round_trip, lemma_opt_u8_round_trip, lemma_opt_bool_round_trip, lemma_opt_str_round_trip, lemma_opt_directions_type_round_trip, lemma_opt_units_round_trip, lemma_opt_location_type_round_trip, lemma_opt_preferred_side_round_trip, lemma_opt_costing_models_round_trip, lemma_opt_bicyle_type_round_trip, lemma_opt_maneuver_type_round_trip, lemma_opt_travel_mode_round_trip, lemma_opt_travel_type_round_trip;

        v.lemma_wire_tags();
        assert(tag_values(v.wire_fields(), 1) == Location::list_data_seq(v.sources@)) by {
            broadcast use group_codec_lemmas;
        }
        assert(tag_values(v.wire_fields(), 2) == Location::list_data_seq(v.targets@)) by {
            broadcast use group_codec_lemmas;
        }
        assert(tag_values(v.wire_fields(), 3) == MatrixDistance::list_data_seq(v.sources_to_targets@)) by {
            broadcast use group_codec_lemmas;
        }
        assert(tag_value(v.wire_fields(), 4) == opt_units_data(v.units)) by {
            broadcast use group_codec_lemmas;
        }
        Location::lemma_lists_round_trip(v.sources@);
        Location::lemma_lists_round_trip(v.targets@);
        MatrixDistance::lemma_lists_round_trip(v.sources_to_targets@);
    }

    /// Decoding a value's nested message gives back an equal value.
    pub proof fn lemma_msg_round_trip(v: MatrixOutput)
        requires
            v.msg_fits(),
        ensures
            Self::msg_decodable(v.msg_data()),
            forall|w: MatrixOutput| Self::msg_decodes(v.msg_data(), w) ==> w.same_as(v),
    {
        lemma_wire_round_trip(v.wire_fields());
        Self::lemma_round_trip(v);
    }

}

impl IsochroneInput {
    /// The fields this value is encoded as.
    pub open spec fn wire_fields(&self) -> Seq<(u32, WireData)> {
        Seq::empty()
            + rep_field(1, Location::msg_data_seq(self.locations@))
            + opt_field(2, opt_costing_models_data(self.costing))
            + rep_field(3, Contour::msg_data_seq(self.contours@))
            + opt_field(4, opt_str_data(self.id))
    }

    /// This value as a nested message.
    pub open spec fn msg_data(&self) -> WireData {
        WireData::Bytes(message_bytes(self.wire_fields()))
    }

    /// The values as nested messages.
    pub open spec fn msg_data_seq(xs: Seq<IsochroneInput>) -> Seq<WireData> {
        xs.map_values(|x: IsochroneInput| x.msg_data())
    }

    /// `fs` holds a `IsochroneInput`: known tags, every required field present, every field of its kind.
    pub open spec fn wire_decodable(fs: Seq<(u32, WireData)>) -> bool {
        &&& tags_within(fs, 4)
        &&& forall|i: int| 0 <= i < tag_values(fs, 1).len() ==> Location::msg_decodable(#[trigger] tag_values(fs, 1)[i])
        &&& opt_costing_models_of(tag_value(fs, 2)) is Some
        &&& forall|i: int| 0 <= i < tag_values(fs, 3).len() ==> Contour::msg_decodable(#[trigger] tag_values(fs, 3)[i])
        &&& opt_str_of(tag_value(fs, 4)) is Some
    }

    /// `w` is what `fs` holds.
    pub open spec fn decodes_from(fs: Seq<(u32, WireData)>, w: IsochroneInput) -> bool {
        &&& w.locations@.len() == tag_values(fs, 1).len() && forall|i: int| 0 <= i < tag_values(fs, 1).len() ==> Location::msg_decodes(#[trigger] tag_values(fs, 1)[i], w.locations@[i])
        &&& opt_costing_models_of(tag_value(fs, 2)) == Some(w.costing)
        &&& w.contours@.len() == tag_values(fs, 3).len() && forall|i: int| 0 <= i < tag_values(fs, 3).len() ==> Contour::msg_decodes(#[trigger] tag_values(fs, 3)[i], w.contours@[i])
        &&& opt_str_of(tag_value(fs, 4)) == Some(opt_str_view(w.id))
    }

    /// `d` is a nested message that holds a `IsochroneInput`.
    pub open spec fn msg_decodable(d: WireData) -> bool {
        &&& d is Bytes
        &&& parse_message(d->Bytes_0, 0) matches Some(fs) && Self::wire_decodable(fs)
    }

    /// `w` is what the nested message `d` holds.
    pub open spec fn msg_decodes(d: WireData, w: IsochroneInput) -> bool {
        &&& d is Bytes
        &&& parse_message(d->Bytes_0, 0) matches Some(fs) && Self::decodes_from(fs, w)
    }

    /// The two values agree in every field.
    pub open spec fn same_as(self, o: IsochroneInput) -> bool {
        &&& Location::same_seq(self.locations@, o.locations@)
        &&& self.costing == o.costing
        &&& Contour::same_seq(self.contours@, o.contours@)
        &&& opt_str_view(self.id) == opt_str_view(o.id)
    }

    /// The two sequences agree element by element.
    pub open spec fn same_seq(a: Seq<IsochroneInput>, b: Seq<IsochroneInput>) -> bool {
        &&& a.len() == b.len()
        &&& forall|i: int| 0 <= i < a.len() ==> (#[trigger] a[i]).same_as(b[i])
    }

    /// Every nested message of this value fits a length prefix.
    pub open spec fn wire_fits(&self) -> bool {
        &&& Location::seq_fits(self.locations@)
        &&& Contour::seq_fits(self.contours@)
    }

    /// This value's encoding as a nested message can be decoded.
    pub open spec fn msg_fits(&self) -> bool {
        fields_ok(self.wire_fields()) && self.wire_fits()
    }

    /// Every value of the sequence fits.
    pub open spec fn seq_fits(xs: Seq<IsochroneInput>) -> bool {
        forall|i: int| 0 <= i < xs.len() ==> (#[trigger] xs[i]).msg_fits()
    }

    pub proof fn lemma_wire_tags(&self)
        ensures
            tags_within(self.wire_fields(), 4),
    {
        broadcast use group_codec_lemmas;

        assert(tags_within(Seq::<(u32, WireData)>::empty(), 4));
        lemma_tags_widen(rep_field(1, Location::msg_data_seq(self.locations@)), 1, 4);
        lemma_tags_widen(opt_field(2, opt_costing_models_data(self.costing)), 2, 4);
        lemma_tags_widen(rep_field(3, Contour::msg_data_seq(self.contours@)), 3, 4);
        lemma_tags_widen(opt_field(4, opt_str_data(self.id)), 4, 4);
    }

    /// The fields this value is encoded as.
    pub fn to_wire_fields(&self) -> (r: Vec<WireField>)
        ensures
            fields_view(r@) == self.wire_fields(),
    {
        let mut fs: Vec<WireField> = Vec::new();
        assert(fields_view(fs@) =~= Seq::<(u32, WireData)>::empty());
        let ghost before = fields_view(fs@);
        Location::push_all(&self.locations, 1, &mut fs);
        assert(fields_view(fs@) =~= before + rep_field(1, Location::msg_data_seq(self.locations@)));
        let ghost before = fields_view(fs@);
        push_opt_costing_models(&mut fs, 2, self.costing);
        assert(fields_view(fs@) =~= before + opt_field(2, opt_costing_models_data(self.costing)));
        let ghost before = fields_view(fs@);
        Contour::push_all(&self.contours, 3, &mut fs);
        assert(fields_view(fs@) =~= before + rep_field(3, Contour::msg_data_seq(self.contours@)));
        let ghost before = fields_view(fs@);
        push_opt_str(&mut fs, 4, &self.id);
        assert(fields_view(fs@) =~= before + opt_field(4, opt_str_data(self.id)));
        fs
    }

    /// This value as a nested message.
    pub fn to_wire_value(&self) -> (r: WireValue)
        ensures
            r@ == self.msg_data(),
    {
        let fs = self.to_wire_fields();
        proof {
            self.lemma_wire_tags();
        }
        WireValue::Bytes(encode_message(&fs))
    }

    /// The `IsochroneInput` that `fs` holds.
    pub fn from_wire_fields(fs: &Vec<WireField>) -> (r: Result<IsochroneInput, CodecError>)
        ensures
            r is Ok <==> Self::wire_decodable(fields_view(fs@)),
            r matches Ok(w) ==> Self::decodes_from(fields_view(fs@), w),
    {
        check_tags(fs, 4)?;
        let locations = Location::read_all(fs, 1)?;
        let costing = read_opt_costing_models(fs, 2)?;
        let contours = Contour::read_all(fs, 3)?;
        let id = read_opt_str(fs, 4)?;
        Ok(IsochroneInput { locations, costing, contours, id })
    }

    /// The `IsochroneInput` that the nested message `v` holds.
    pub fn from_wire_value(v: &WireValue, t: u32) -> (r: Result<IsochroneInput, CodecError>)
        ensures
            r is Ok <==> Self::msg_decodable(v@),
            r matches Ok(w) ==> Self::msg_decodes(v@, w),
    {
        match v {
            WireValue::Bytes(b) => match decode_message(b.as_slice()) {
                Ok(fs) => Self::from_wire_fields(&fs),
                Err(e) => Err(CodecError::Wire(e)),
            },
            WireValue::Varint(_) => Err(CodecError::BadValue(t)),
        }
    }

    /// Decoding the fields of a value gives back an equal value.
    #[verifier::rlimit(100)]
    #[verifier::spinoff_prover]
    pub proof fn lemma_round_trip(v: IsochroneInput)
        requires
            v.wire_fits(),
        ensures
            Self::wire_decodable(v.wire_fields()),
            forall|w: IsochroneInput| Self::decodes_from(v.wire_fields(), w) ==> w.same_as(v),
    {
        broadcast use lemma_zigzag_round_trip, lemma_str_round_trip, DirectionsType::lemma_code_round_trip, Units::lemma_code_round_trip, LocationType::lemma_code_round_trip, PreferredSide::lemma_code_round_trip, CostingModels::lemma_code_round_trip, BicyleType::lemma_code_round_trip, ManeuverType::lemma_code_round_trip, TravelMode::lemma_code_round_trip, TravelType::lemma_code_round_trip, lemma_opt_fixed_round_trip, lemma_opt_u32_round_trip, lemma_opt_u16_round_trip, lemma_opt_u8_round_trip, lemma_opt_bool_round_trip, lemma_opt_str_round_trip, lemma_opt_directions_type_round_trip, lemma_opt_units_round_trip, lemma_opt_location_type_round_trip, lemma_opt_preferred_side_round_trip, lemma_opt_costing_models_round_trip, lemma_opt_bicyle_type_round_trip, lemma_opt_maneuver_type_round_trip, lemma_opt_travel_mode_round_trip, lemma_opt_travel_type_round_trip;

        v.lemma_wire_tags();
        assert(tag_values(v.wire_fields(), 1) == Location::msg_data_seq(v.locations@)) by {
            broadcast use group_codec_lemmas;
        }
        assert(tag_value(v.wire_fields(), 2) == opt_costing_models_data(v.costing)) by {
            broadcast use group_codec_lemmas;
        }
        assert(tag_values(v.wire_fields(), 3) == Contour::msg_data_seq(v.contours@)) by {
            broadcast use group_codec_lemmas;
        }
        assert(tag_value(v.wire_fields(), 4) == opt_str_data(v.id)) by {
            broadcast use group_codec_lemmas;
        }
        Location::lemma_seq_round_trip(v.locations@);
        Contour::lemma_seq_round_trip(v.contours@);
    }

    /// Decoding a value's nested message gives back an equal value.
    pub proof fn lemma_msg_round_trip(v: IsochroneInput)
        requires
            v.msg_fits(),
        ensures
            Self::msg_decodable(v.msg_data()),
            forall|w: IsochroneInput| Self::msg_decodes(v.msg_data(), w) ==> w.same_as(v),
    {
        lemma_wire_round_trip(v.wire_fields());
        Self::lemma_round_trip(v);
    }

}

impl Geometry {
    /// The fields this value is encoded as.
    pub open spec fn wire_fields(&self) -> Seq<(u32, WireData)> {
        Seq::empty()
            + rep_field(1, Point::msg_data_seq(self.coordinates@))
    }

    /// This value as a nested message.
    pub open spec fn msg_data(&self) -> WireData {
        WireData::Bytes(message_bytes(self.wire_fields()))
    }

    /// The values as nested messages.
    pub open spec fn msg_data_seq(xs: Seq<Geometry>) -> Seq<WireData> {
        xs.map_values(|x: Geometry| x.msg_data())
    }

    /// `fs` holds a `Geometry`: known tags, every required field present, every field of its kind.
    pub open spec fn wire_decodable(fs: Seq<(u32, WireData)>) -> bool {
        &&& tags_within(fs, 1)
        &&& forall|i: int| 0 <= i < tag_values(fs, 1).len() ==> Point::msg_decodable(#[trigger] tag_values(fs, 1)[i])
    }

    /// `w` is what `fs` holds.
    pub open spec fn decodes_from(fs: Seq<(u32, WireData)>, w: Geometry) -> bool {
        &&& w.coordinates@.len() == tag_values(fs, 1).len() && forall|i: int| 0 <= i < tag_values(fs, 1).len() ==> Point::msg_decodes(#[trigger] tag_values(fs, 1)[i], w.coordinates@[i])
    }

    /// `d` is a nested message that holds a `Geometry`.
    pub open spec fn msg_decodable(d: WireData) -> bool {
        &&& d is Bytes
        &&& parse_message(d->Bytes_0, 0) matches Some(fs) && Self::wire_decodable(fs)
    }

    /// `w` is what the nested message `d` holds.
    pub open spec fn msg_decodes(d: WireData, w: Geometry) -> bool {
        &&& d is Bytes
        &&& parse_message(d->Bytes_0, 0) matches Some(fs) && Self::decodes_from(fs, w)
    }

    /// The two values agree in every field.
    pub open spec fn same_as(self, o: Geometry) -> bool {
        &&& Point::same_seq(self.coordinates@, o.coordinates@)
    }

    /// The two sequences agree element by element.
    pub open spec fn same_seq(a: Seq<Geometry>, b: Seq<Geometry>) -> bool {
        &&& a.len() == b.len()
        &&& forall|i: int| 0 <= i < a.len() ==> (#[trigger] a[i]).same_as(b[i])
    }

    /// Every nested message of this value fits a length prefix.
    pub open spec fn wire_fits(&self) -> bool {
        &&& Point::seq_fits(self.coordinates@)
    }

    /// This value's encoding as a nested message can be decoded.
    pub open spec fn msg_fits(&self) -> bool {
        fields_ok(self.wire_fields()) && self.wire_fits()
    }

    /// Every value of the sequence fits.
    pub open spec fn seq_fits(xs: Seq<Geometry>) -> bool {
        forall|i: int| 0 <= i < xs.len() ==> (#[trigger] xs[i]).msg_fits()
    }

    pub proof fn lemma_wire_tags(&self)
        ensures
            tags_within(self.wire_fields(), 1),
    {
        broadcast use group_codec_lemmas;

        assert(tags_within(Seq::<(u32, WireData)>::empty(), 1));
        lemma_tags_widen(rep_field(1, Point::msg_data_seq(self.coordinates@)), 1, 1);
    }

    /// The fields this value is encoded as.
    pub fn to_wire_fields(&self) -> (r: Vec<WireField>)
        ensures
            fields_view(r@) == self.wire_fields(),
    {
        let mut fs: Vec<WireField> = Vec::new();
        assert(fields_view(fs@) =~= Seq::<(u32, WireData)>::empty());
        let ghost before = fields_view(fs@);
        Point::push_all(&self.coordinates, 1, &mut fs);
        assert(fields_view(fs@) =~= before + rep_field(1, Point::msg_data_seq(self.coordinates@)));
        fs
    }

    /// This value as a nested message.
    pub fn to_wire_value(&self) -> (r: WireValue)
        ensures
            r@ == self.msg_data(),
    {
        let fs = self.to_wire_fields();
        proof {
            self.lemma_wire_tags();
        }
        WireValue::Bytes(encode_message(&fs))
    }

    /// The `Geometry` that `fs` holds.
    pub fn from_wire_fields(fs: &Vec<WireField>) -> (r: Result<Geometry, CodecError>)
        ensures
            r is Ok <==> Self::wire_decodable(fields_view(fs@)),
            r matches Ok(w) ==> Self::decodes_from(fields_view(fs@), w),
    {
        check_tags(fs, 1)?;
        let coordinates = Point::read_all(fs, 1)?;
        Ok(Geometry { coordinates })
    }

    /// The `Geometry` that the nested message `v` holds.
    pub fn from_wire_value(v: &WireValue, t: u32) -> (r: Result<Geometry, CodecError>)
        ensures
            r is Ok <==> Self::msg_decodable(v@),
            r matches Ok(w) ==> Self::msg_decodes(v@, w),
    {
        match v {
            WireValue::Bytes(b) => match decode_message(b.as_slice()) {
                Ok(fs) => Self::from_wire_fields(&fs),
                Err(e) => Err(CodecError::Wire(e)),
            },
            WireValue::Varint(_) => Err(CodecError::BadValue(t)),
        }
    }

    /// Decoding the fields of a value gives back an equal value.
    #[verifier::rlimit(100)]
    #[verifier::spinoff_prover]
    pub proof fn lemma_round_trip(v: Geometry)
        requires
            v.wire_fits(),
        ensures
            Self::wire_decodable(v.wire_fields()),
            forall|w: Geometry| Self::decodes_from(v.wire_fields(), w) ==> w.same_as(v),
    {
        broadcast use lemma_zigzag_round_trip, lemma_str_round_trip, DirectionsType::lemma_code_round_trip, Units::lemma_code_round_trip, LocationType::lemma_code_round_trip, PreferredSide::lemma_code_round_trip, CostingModels::lemma_code_round_trip, BicyleType::lemma_code_round_trip, ManeuverType::lemma_code_round_trip, TravelMode::lemma_code_round_trip, TravelType::lemma_code_round_trip, lemma_opt_fixed_round_trip, lemma_opt_u32_round_trip, lemma_opt_u16_round_trip, lemma_opt_u8_round_trip, lemma_opt_bool_round_trip, lemma_opt_str_round_trip, lemma_opt_directions_type_round_trip, lemma_opt_units_round_trip, lemma_opt_location_type_round_trip, lemma_opt_preferred_side_round_trip, lemma_opt_costing_models_round_trip, lemma_opt_bicyle_type_round_trip, lemma_opt_maneuver_type_round_trip, lemma_opt_travel_mode_round_trip, lemma_opt_travel_type_round_trip;

        v.lemma_wire_tags();
        assert(tag_values(v.wire_fields(), 1) == Point::msg_data_seq(v.coordinates@)) by {
            broadcast use group_codec_lemmas;
        }
        Point::lemma_seq_round_trip(v.coordinates@);
    }

    /// Decoding a value's nested message gives back an equal value.
    pub proof fn lemma_msg_round_trip(v: Geometry)
        requires
            v.msg_fits(),
        ensures
            Self::msg_decodable(v.msg_data()),
            forall|w: Geometry| Self::msg_decodes(v.msg_data(), w) ==> w.same_as(v),
    {
        lemma_wire_round_trip(v.wire_fields());
        Self::lemma_round_trip(v);
    }

}

impl Feature {
    /// The fields this value is encoded as.
    pub open spec fn wire_fields(&self) -> Seq<(u32, WireData)> {
        Seq::empty()
            + opt_field(1, Some(self.geometry.msg_data()))
    }

    /// This value as a nested message.
    pub open spec fn msg_data(&self) -> WireData {
        WireData::Bytes(message_bytes(self.wire_fields()))
    }

    /// The values as nested messages.
    pub open spec fn msg_data_seq(xs: Seq<Feature>) -> Seq<WireData> {
        xs.map_values(|x: Feature| x.msg_data())
    }

    /// `fs` holds a `Feature`: known tags, every required field present, every field of its kind.
    pub open spec fn wire_decodable(fs: Seq<(u32, WireData)>) -> bool {
        &&& tags_within(fs, 1)
        &&& tag_value(fs, 1) matches Some(d) && Geometry::msg_decodable(d)
    }

    /// `w` is what `fs` holds.
    pub open spec fn decodes_from(fs: Seq<(u32, WireData)>, w: Feature) -> bool {
        &&& tag_value(fs, 1) matches Some(d) && Geometry::msg_decodes(d, w.geometry)
    }

    /// `d` is a nested message that holds a `Feature`.
    pub open spec fn msg_decodable(d: WireData) -> bool {
        &&& d is Bytes
        &&& parse_message(d->Bytes_0, 0) matches Some(fs) && Self::wire_decodable(fs)
    }

    /// `w` is what the nested message `d` holds.
    pub open spec fn msg_decodes(d: WireData, w: Feature) -> bool {
        &&& d is Bytes
        &&& parse_message(d->Bytes_0, 0) matches Some(fs) && Self::decodes_from(fs, w)
    }

    /// The two values agree in every field.
    pub open spec fn same_as(self, o: Feature) -> bool {
        &&& self.geometry.same_as(o.geometry)
    }

    /// The two sequences agree element by element.
    pub open spec fn same_seq(a: Seq<Feature>, b: Seq<Feature>) -> bool {
        &&& a.len() == b.len()
        &&& forall|i: int| 0 <= i < a.len() ==> (#[trigger] a[i]).same_as(b[i])
    }

    /// Every nested message of this value fits a length prefix.
    pub open spec fn wire_fits(&self) -> bool {
        &&& self.geometry.msg_fits()
    }

    /// This value's encoding as a nested message can be decoded.
    pub open spec fn msg_fits(&self) -> bool {
        fields_ok(self.wire_fields()) && self.wire_fits()
    }

    /// Every value of the sequence fits.
    pub open spec fn seq_fits(xs: Seq<Feature>) -> bool {
        forall|i: int| 0 <= i < xs.len() ==> (#[trigger] xs[i]).msg_fits()
    }

    pub proof fn lemma_wire_tags(&self)
        ensures
            tags_within(self.wire_fields(), 1),
    {
        broadcast use group_codec_lemmas;

        assert(tags_within(Seq::<(u32, WireData)>::empty(), 1));
        lemma_tags_widen(opt_field(1, Some(self.geometry.msg_data())), 1, 1);
    }

    /// The fields this value is encoded as.
    pub fn to_wire_fields(&self) -> (r: Vec<WireField>)
        ensures
            fields_view(r@) == self.wire_fields(),
    {
        let mut fs: Vec<WireField> = Vec::new();
        assert(fields_view(fs@) =~= Seq::<(u32, WireData)>::empty());
        let ghost before = fields_view(fs@);
        fs.push(WireField { tag: 1, value: self.geometry.to_wire_value() });
        assert(fields_view(fs@) =~= before + opt_field(1, Some(self.geometry.msg_data())));
        fs
    }

    /// This value as a nested message.
    pub fn to_wire_value(&self) -> (r: WireValue)
        ensures
            r@ == self.msg_data(),
    {
        let fs = self.to_wire_fields();
        proof {
            self.lemma_wire_tags();
        }
        WireValue::Bytes(encode_message(&fs))
    }

    /// Appends one field with tag `t` per value.
    pub fn push_all(xs: &Vec<Feature>, t: u32, fs: &mut Vec<WireField>)
        ensures
            fields_view(final(fs)@) == fields_view(old(fs)@) + rep_field(t, Self::msg_data_seq(xs@)),
    {
        let ghost start = fields_view(fs@);
        let mut i: usize = 0;
        while i < xs.len()
            invariant
                i <= xs@.len(),
                fields_view(fs@) == start + rep_field(t, Self::msg_data_seq(xs@.subrange(0, i as int))),
            decreases xs@.len() - i,
        {
            let ghost pre = fields_view(fs@);
            let value = xs[i].to_wire_value();
            fs.push(WireField { tag: t, value });
            proof {
                assert(Self::msg_data_seq(xs@.subrange(0, i + 1)) =~= Self::msg_data_seq(
                    xs@.subrange(0, i as int),
                ).push(xs@[i as int].msg_data()));
                assert(fields_view(fs@) =~= pre.push((t, xs@[i as int].msg_data())));
                assert(rep_field(t, Self::msg_data_seq(xs@.subrange(0, i + 1))) =~= rep_field(
                    t,
                    Self::msg_data_seq(xs@.subrange(0, i as int)),
                ).push((t, xs@[i as int].msg_data())));
            }
            i += 1;
        }
        assert(xs@.subrange(0, xs@.len() as int) =~= xs@);
    }

    /// The `Feature` that `fs` holds.
    pub fn from_wire_fields(fs: &Vec<WireField>) -> (r: Result<Feature, CodecError>)
        ensures
            r is Ok <==> Self::wire_decodable(fields_view(fs@)),
            r matches Ok(w) ==> Self::decodes_from(fields_view(fs@), w),
    {
        check_tags(fs, 1)?;
        let geometry = match last_with_tag(fs, 1) {
            Some(v) => Geometry::from_wire_value(v, 1)?,
            None => return Err(CodecError::MissingField(1)),
        };
        Ok(Feature { geometry })
    }

    /// The `Feature` that the nested message `v` holds.
    pub fn from_wire_value(v: &WireValue, t: u32) -> (r: Result<Feature, CodecError>)
        ensures
            r is Ok <==> Self::msg_decodable(v@),
            r matches Ok(w) ==> Self::msg_decodes(v@, w),
    {
        match v {
            WireValue::Bytes(b) => match decode_message(b.as_slice()) {
                Ok(fs) => Self::from_wire_fields(&fs),
                Err(e) => Err(CodecError::Wire(e)),
            },
            WireValue::Varint(_) => Err(CodecError::BadValue(t)),
        }
    }

    /// The values of all fields with tag `t`, each a nested `Feature`.
    pub fn read_all(fs: &Vec<WireField>, t: u32) -> (r: Result<Vec<Feature>, CodecError>)
        ensures
            r is Ok <==> forall|i: int| 0 <= i < tag_values(fields_view(fs@), t).len() ==> Self::msg_decodable(#[trigger] tag_values(fields_view(fs@), t)[i]),
            r matches Ok(ws) ==> ws@.len() == tag_values(fields_view(fs@), t).len() && forall|i: int| 0 <= i < ws@.len() ==> Self::msg_decodes(#[trigger] tag_values(fields_view(fs@), t)[i], ws@[i]),
    {
        let vs = all_with_tag(fs, t);
        let ghost ds = tag_values(fields_view(fs@), t);
        let mut ws: Vec<Feature> = Vec::new();
        let mut i: usize = 0;
        while i < vs.len()
            invariant
                i <= vs@.len(),
                ds == tag_values(fields_view(fs@), t),
                vs@.len() == ds.len(),
                forall|k: int| 0 <= k < vs@.len() ==> (#[trigger] vs@[k])@ == ds[k],
                ws@.len() == i,
                forall|k: int| 0 <= k < i ==> Self::msg_decodable(#[trigger] ds[k]),
                forall|k: int| 0 <= k < i ==> Self::msg_decodes(#[trigger] ds[k], ws@[k]),
            decreases vs@.len() - i,
        {
            let w = match Self::from_wire_value(vs[i], t) {
                Ok(w) => w,
                Err(e) => {
                    assert(!Self::msg_decodable(ds[i as int]));
                    assert(!(forall|k: int| 0 <= k < ds.len() ==> Self::msg_decodable(#[trigger] ds[k])));
                    return Err(e);
                },
            };
            ws.push(w);
            i += 1;
        }
        Ok(ws)
    }

    /// Decoding the fields of a value gives back an equal value.
    #[verifier::rlimit(100)]
    #[verifier::spinoff_prover]
    pub proof fn lemma_round_trip(v: Feature)
        requires
            v.wire_fits(),
        ensures
            Self::wire_decodable(v.wire_fields()),
            forall|w: Feature| Self::decodes_from(v.wire_fields(), w) ==> w.same_as(v),
    {
        broadcast use lemma_zigzag_round_trip, lemma_str_round_trip, DirectionsType::lemma_code_round_trip, Units::lemma_code_round_trip, LocationType::lemma_code_round_trip, PreferredSide::lemma_code_round_trip, CostingModels::lemma_code_round_trip, BicyleType::lemma_code_round_trip, ManeuverType::lemma_code_round_trip, TravelMode::lemma_code_round_trip, TravelType::lemma_code_round_trip, lemma_opt_fixed_round_trip, lemma_opt_u32_round_trip, lemma_opt_u16_round_trip, lemma_opt_u8_round_trip, lemma_opt_bool_round_trip, lemma_opt_str_round_trip, lemma_opt_directions_type_round_trip, lemma_opt_units_round_trip, lemma_opt_location_type_round_trip, lemma_opt_preferred_side_round_trip, lemma_opt_costing_models_round_trip, lemma_opt_bicyle_type_round_trip, lemma_opt_maneuver_type_round_trip, lemma_opt_travel_mode_round_trip, lemma_opt_travel_type_round_trip;

        v.lemma_wire_tags();
        assert(tag_value(v.wire_fields(), 1) == Some(v.geometry.msg_data())) by {
            broadcast use group_codec_lemmas;
        }
        Geometry::lemma_msg_round_trip(v.geometry);
    }

    /// Decoding a value's nested message gives back an equal value.
    pub proof fn lemma_msg_round_trip(v: Feature)
        requires
            v.msg_fits(),
        ensures
            Self::msg_decodable(v.msg_data()),
            forall|w: Feature| Self::msg_decodes(v.msg_data(), w) ==> w.same_as(v),
    {
        lemma_wire_round_trip(v.wire_fields());
        Self::lemma_round_trip(v);
    }

    pub proof fn lemma_seq_round_trip(xs: Seq<Feature>)
        requires
            Self::seq_fits(xs),
        ensures
            forall|i: int| 0 <= i < xs.len() ==> Self::msg_decodable(#[trigger] Self::msg_data_seq(xs)[i]),
            forall|ws: Seq<Feature>| ws.len() == xs.len() && (forall|i: int| 0 <= i < xs.len() ==> Self::msg_decodes(#[trigger] Self::msg_data_seq(xs)[i], ws[i])) ==> Self::same_seq(ws, xs),
    {
        assert forall|i: int| 0 <= i < xs.len() implies Self::msg_decodable(#[trigger] Self::msg_data_seq(xs)[i]) && (forall|w: Feature| Self::msg_decodes(Self::msg_data_seq(xs)[i], w) ==> w.same_as(xs[i])) by {
            assert(xs[i].msg_fits());
            Self::lemma_msg_round_trip(xs[i]);
        }
        assert forall|ws: Seq<Feature>| ws.len() == xs.len() && (forall|i: int| 0 <= i < xs.len() ==> Self::msg_decodes(#[trigger] Self::msg_data_seq(xs)[i], ws[i])) implies Self::same_seq(ws, xs) by {
            assert forall|i: int| 0 <= i < ws.len() implies (#[trigger] ws[i]).same_as(xs[i]) by {
                assert(Self::msg_decodes(Self::msg_data_seq(xs)[i], ws[i]));
            }
        }
    }

}

impl IsochroneOutput {
    /// The fields this value is encoded as.
    pub open spec fn wire_fields(&self) -> Seq<(u32, WireData)> {
        Seq::empty()
            + rep_field(1, Feature::msg_data_seq(self.features@))
    }

    /// This value as a nested message.
    pub open spec fn msg_data(&self) -> WireData {
        WireData::Bytes(message_bytes(self.wire_fields()))
    }

    /// The values as nested messages.
    pub open spec fn msg_data_seq(xs: Seq<IsochroneOutput>) -> Seq<WireData> {
        xs.map_values(|x: IsochroneOutput| x.msg_data())
    }

    /// `fs` holds a `IsochroneOutput`: known tags, every required field present, every field of its kind.
    pub open spec fn wire_decodable(fs: Seq<(u32, WireData)>) -> bool {
        &&& tags_within(fs, 1)
        &&& forall|i: int| 0 <= i < tag_values(fs, 1).len() ==> Feature::msg_decodable(#[trigger] tag_values(fs, 1)[i])
    }

    /// `w` is what `fs` holds.
    pub open spec fn decodes_from(fs: Seq<(u32, WireData)>, w: IsochroneOutput) -> bool {
        &&& w.features@.len() == tag_values(fs, 1).len() && forall|i: int| 0 <= i < tag_values(fs, 1).len() ==> Feature::msg_decodes(#[trigger] tag_values(fs, 1)[i], w.features@[i])
    }

    /// `d` is a nested message that holds a `IsochroneOutput`.
    pub open spec fn msg_decodable(d: WireData) -> bool {
        &&& d is Bytes
        &&& parse_message(d->Bytes_0, 0) matches Some(fs) && Self::wire_decodable(fs)
    }

    /// `w` is what the nested message `d` holds.
    pub open spec fn msg_decodes(d: WireData, w: IsochroneOutput) -> bool {
        &&& d is Bytes
        &&& parse_message(d->Bytes_0, 0) matches Some(fs) && Self::decodes_from(fs, w)
    }

    /// The two values agree in every field.
    pub open spec fn same_as(self, o: IsochroneOutput) -> bool {
        &&& Feature::same_seq(self.features@, o.features@)
    }

    /// The two sequences agree element by element.
    pub open spec fn same_seq(a: Seq<IsochroneOutput>, b: Seq<IsochroneOutput>) -> bool {
        &&& a.len() == b.len()
        &&& forall|i: int| 0 <= i < a.len() ==> (#[trigger] a[i]).same_as(b[i])
    }

    /// Every nested message of this value fits a length prefix.
    pub open spec fn wire_fits(&self) -> bool {
        &&& Feature::seq_fits(self.features@)
    }

    /// This value's encoding as a nested message can be decoded.
    pub open spec fn msg_fits(&self) -> bool {
        fields_ok(self.wire_fields()) && self.wire_fits()
    }

    /// Every value of the sequence fits.
    pub open spec fn seq_fits(xs: Seq<IsochroneOutput>) -> bool {
        forall|i: int| 0 <= i < xs.len() ==> (#[trigger] xs[i]).msg_fits()
    }

    pub proof fn lemma_wire_tags(&self)
        ensures
            tags_within(self.wire_fields(), 1),
    {
        broadcast use group_codec_lemmas;

        assert(tags_within(Seq::<(u32, WireData)>::empty(), 1));
        lemma_tags_widen(rep_field(1, Feature::msg_data_seq(self.features@)), 1, 1);
    }

    /// The fields this value is encoded as.
    pub fn to_wire_fields(&self) -> (r: Vec<WireField>)
        ensures
            fields_view(r@) == self.wire_fields(),
    {
        let mut fs: Vec<WireField> = Vec::new();
        assert(fields_view(fs@) =~= Seq::<(u32, WireData)>::empty());
        let ghost before = fields_view(fs@);
        Feature::push_all(&self.features, 1, &mut fs);
        assert(fields_view(fs@) =~= before + rep_field(1, Feature::msg_data_seq(self.features@)));
        fs
    }

    /// This value as a nested message.
    pub fn to_wire_value(&self) -> (r: WireValue)
        ensures
            r@ == self.msg_data(),
    {
        let fs = self.to_wire_fields();
        proof {
            self.lemma_wire_tags();
        }
        WireValue::Bytes(encode_message(&fs))
    }

    /// The `IsochroneOutput` that `fs` holds.
    pub fn from_wire_fields(fs: &Vec<WireField>) -> (r: Result<IsochroneOutput, CodecError>)
        ensures
            r is Ok <==> Self::wire_decodable(fields_view(fs@)),
            r matches Ok(w) ==> Self::decodes_from(fields_view(fs@), w),
    {
        check_tags(fs, 1)?;
        let features = Feature::read_all(fs, 1)?;
        Ok(IsochroneOutput { features })
    }

    /// The `IsochroneOutput` that the nested message `v` holds.
    pub fn from_wire_value(v: &WireValue, t: u32) -> (r: Result<IsochroneOutput, CodecError>)
        ensures
            r is Ok <==> Self::msg_decodable(v@),
            r matches Ok(w) ==> Self::msg_decodes(v@, w),
    {
        match v {
            WireValue::Bytes(b) => match decode_message(b.as_slice()) {
                Ok(fs) => Self::from_wire_fields(&fs),
                Err(e) => Err(CodecError::Wire(e)),
            },
            WireValue::Varint(_) => Err(CodecError::BadValue(t)),
        }
    }

    /// Decoding the fields of a value gives back an equal value.
    #[verifier::rlimit(100)]
    #[verifier::spinoff_prover]
    pub proof fn lemma_round_trip(v: IsochroneOutput)
        requires
            v.wire_fits(),
        ensures
            Self::wire_decodable(v.wire_fields()),
            forall|w: IsochroneOutput| Self::decodes_from(v.wire_fields(), w) ==> w.same_as(v),
    {
        broadcast use lemma_zigzag_round_trip, lemma_str_round_trip, DirectionsType::lemma_code_round_trip, Units::lemma_code_round_trip, LocationType::lemma_code_round_trip, PreferredSide::lemma_code_round_trip, CostingModels::lemma_code_round_trip, BicyleType::lemma_code_round_trip, ManeuverType::lemma_code_round_trip, TravelMode::lemma_code_round_trip, TravelType::lemma_code_round_trip, lemma_opt_fixed_round_trip, lemma_opt_u32_round_trip, lemma_opt_u16_round_trip, lemma_opt_u8_round_trip, lemma_opt_bool_round_trip, lemma_opt_str_round_trip, lemma_opt_directions_type_round_trip, lemma_opt_units_round_trip, lemma_opt_location_type_round_trip, lemma_opt_preferred_side_round_trip, lemma_opt_costing_models_round_trip, lemma_opt_bicyle_type_round_trip, lemma_opt_maneuver_type_round_trip, lemma_opt_travel_mode_round_trip, lemma_opt_travel_type_round_trip;

        v.lemma_wire_tags();
        assert(tag_values(v.wire_fields(), 1) == Feature::msg_data_seq(v.features@)) by {
            broadcast use group_codec_lemmas;
        }
        Feature::lemma_seq_round_trip(v.features@);
    }

    /// Decoding a value's nested message gives back an equal value.
    pub proof fn lemma_msg_round_trip(v: IsochroneOutput)
        requires
            v.msg_fits(),
        ensures
            Self::msg_decodable(v.msg_data()),
            forall|w: IsochroneOutput| Self::msg_decodes(v.msg_data(), w) ==> w.same_as(v),
    {
        lemma_wire_round_trip(v.wire_fields());
        Self::lemma_round_trip(v);
    }

}

impl LocateEdge {
    /// The fields this value is encoded as.
    pub open spec fn wire_fields(&self) -> Seq<(u32, WireData)> {
        Seq::empty()
            + opt_field(1, Some(uint_data(self.way_id as u64)))
            + opt_field(2, Some(fixed_data(self.correlated_lat)))
            + opt_field(3, Some(fixed_data(self.correlated_lon)))
            + opt_field(4, Some(fixed_data(self.percent_along)))
            + opt_field(5, opt_str_data(self.side_of_street))
    }

    /// This value as a nested message.
    pub open spec fn msg_data(&self) -> WireData {
        WireData::Bytes(message_bytes(self.wire_fields()))
    }

    /// The values as nested messages.
    pub open spec fn msg_data_seq(xs: Seq<LocateEdge>) -> Seq<WireData> {
        xs.map_values(|x: LocateEdge| x.msg_data())
    }

    /// `fs` holds a `LocateEdge`: known tags, every required field present, every field of its kind.
    pub open spec fn wire_decodable(fs: Seq<(u32, WireData)>) -> bool {
        &&& tags_within(fs, 5)
        &&& tag_value(fs, 1) matches Some(d) && uint_of(d, 0xFFFF_FFFF_FFFF_FFFF) is Some
        &&& tag_value(fs, 2) matches Some(d) && fixed_of(d) is Some
        &&& tag_value(fs, 3) matches Some(d) && fixed_of(d) is Some
        &&& tag_value(fs, 4) matches Some(d) && fixed_of(d) is Some
        &&& opt_str_of(tag_value(fs, 5)) is Some
    }

    /// `w` is what `fs` holds.
    pub open spec fn decodes_from(fs: Seq<(u32, WireData)>, w: LocateEdge) -> bool {
        &&& tag_value(fs, 1) matches Some(d) && uint_of(d, 0xFFFF_FFFF_FFFF_FFFF) == Some(w.way_id as u64)
        &&& tag_value(fs, 2) matches Some(d) && fixed_of(d) == Some(w.correlated_lat)
        &&& tag_value(fs, 3) matches Some(d) && fixed_of(d) == Some(w.correlated_lon)
        &&& tag_value(fs, 4) matches Some(d) && fixed_of(d) == Some(w.percent_along)
        &&& opt_str_of(tag_value(fs, 5)) == Some(opt_str_view(w.side_of_street))
    }

    /// `d` is a nested message that holds a `LocateEdge`.
    pub open spec fn msg_decodable(d: WireData) -> bool {
        &&& d is Bytes
        &&& parse_message(d->Bytes_0, 0) matches Some(fs) && Self::wire_decodable(fs)
    }

    /// `w` is what the nested message `d` holds.
    pub open spec fn msg_decodes(d: WireData, w: LocateEdge) -> bool {
        &&& d is Bytes
        &&& parse_message(d->Bytes_0, 0) matches Some(fs) && Self::decodes_from(fs, w)
    }

    /// The two values agree in every field.
    pub open spec fn same_as(self, o: LocateEdge) -> bool {
        &&& self.way_id == o.way_id
        &&& self.correlated_lat == o.correlated_lat
        &&& self.correlated_lon == o.correlated_lon
        &&& self.percent_along == o.percent_along
        &&& opt_str_view(self.side_of_street) == opt_str_view(o.side_of_street)
    }

    /// The two sequences agree element by element.
    pub open spec fn same_seq(a: Seq<LocateEdge>, b: Seq<LocateEdge>) -> bool {
        &&& a.len() == b.len()
        &&& forall|i: int| 0 <= i < a.len() ==> (#[trigger] a[i]).same_as(b[i])
    }

    /// Every nested message of this value fits a length prefix.
    pub open spec fn wire_fits(&self) -> bool {
        true
    }

    /// This value's encoding as a nested message can be decoded.
    pub open spec fn msg_fits(&self) -> bool {
        fields_ok(self.wire_fields()) && self.wire_fits()
    }

    /// Every value of the sequence fits.
    pub open spec fn seq_fits(xs: Seq<LocateEdge>) -> bool {
        forall|i: int| 0 <= i < xs.len() ==> (#[trigger] xs[i]).msg_fits()
    }

    pub proof fn lemma_wire_tags(&self)
        ensures
            tags_within(self.wire_fields(), 5),
    {
        broadcast use group_codec_lemmas;

        assert(tags_within(Seq::<(u32, WireData)>::empty(), 5));
        lemma_tags_widen(opt_field(1, Some(uint_data(self.way_id as u64))), 1, 5);
        lemma_tags_widen(opt_field(2, Some(fixed_data(self.correlated_lat))), 2, 5);
        lemma_tags_widen(opt_field(3, Some(fixed_data(self.correlated_lon))), 3, 5);
        lemma_tags_widen(opt_field(4, Some(fixed_data(self.percent_along))), 4, 5);
        lemma_tags_widen(opt_field(5, opt_str_data(self.side_of_street)), 5, 5);
    }

    /// The fields this value is encoded as.
    pub fn to_wire_fields(&self) -> (r: Vec<WireField>)
        ensures
            fields_view(r@) == self.wire_fields(),
    {
        let mut fs: Vec<WireField> = Vec::new();
        assert(fields_view(fs@) =~= Seq::<(u32, WireData)>::empty());
        let ghost before = fields_view(fs@);
        fs.push(WireField { tag: 1, value: uint_value(self.way_id as u64) });
        assert(fields_view(fs@) =~= before + opt_field(1, Some(uint_data(self.way_id as u64))));
        let ghost before = fields_view(fs@);
        fs.push(WireField { tag: 2, value: fixed_value(self.correlated_lat) });
        assert(fields_view(fs@) =~= before + opt_field(2, Some(fixed_data(self.correlated_lat))));
        let ghost before = fields_view(fs@);
        fs.push(WireField { tag: 3, value: fixed_value(self.correlated_lon) });
        assert(fields_view(fs@) =~= before + opt_field(3, Some(fixed_data(self.correlated_lon))));
        let ghost before = fields_view(fs@);
        fs.push(WireField { tag: 4, value: fixed_value(self.percent_along) });
        assert(fields_view(fs@) =~= before + opt_field(4, Some(fixed_data(self.percent_along))));
        let ghost before = fields_view(fs@);
        push_opt_str(&mut fs, 5, &self.side_of_street);
        assert(fields_view(fs@) =~= before + opt_field(5, opt_str_data(self.side_of_street)));
        fs
    }

    /// This value as a nested message.
    pub fn to_wire_value(&self) -> (r: WireValue)
        ensures
            r@ == self.msg_data(),
    {
        let fs = self.to_wire_fields();
        proof {
            self.lemma_wire_tags();
        }
        WireValue::Bytes(encode_message(&fs))
    }

    /// Appends one field with tag `t` per value.
    pub fn push_all(xs: &Vec<LocateEdge>, t: u32, fs: &mut Vec<WireField>)
        ensures
            fields_view(final(fs)@) == fields_view(old(fs)@) + rep_field(t, Self::msg_data_seq(xs@)),
    {
        let ghost start = fields_view(fs@);
        let mut i: usize = 0;
        while i < xs.len()
            invariant
                i <= xs@.len(),
                fields_view(fs@) == start + rep_field(t, Self::msg_data_seq(xs@.subrange(0, i as int))),
            decreases xs@.len() - i,
        {
            let ghost pre = fields_view(fs@);
            let value = xs[i].to_wire_value();
            fs.push(WireField { tag: t, value });
            proof {
                assert(Self::msg_data_seq(xs@.subrange(0, i + 1)) =~= Self::msg_data_seq(
                    xs@.subrange(0, i as int),
                ).push(xs@[i as int].msg_data()));
                assert(fields_view(fs@) =~= pre.push((t, xs@[i as int].msg_data())));
                assert(rep_field(t, Self::msg_data_seq(xs@.subrange(0, i + 1))) =~= rep_field(
                    t,
                    Self::msg_data_seq(xs@.subrange(0, i as int)),
                ).push((t, xs@[i as int].msg_data())));
            }
            i += 1;
        }
        assert(xs@.subrange(0, xs@.len() as int) =~= xs@);
    }

    /// The `LocateEdge` that `fs` holds.
    pub fn from_wire_fields(fs: &Vec<WireField>) -> (r: Result<LocateEdge, CodecError>)
        ensures
            r is Ok <==> Self::wire_decodable(fields_view(fs@)),
            r matches Ok(w) ==> Self::decodes_from(fields_view(fs@), w),
    {
        check_tags(fs, 5)?;
        let way_id = match last_with_tag(fs, 1) {
            Some(v) => match read_uint(v, 0xFFFF_FFFF_FFFF_FFFF) {
                Some(x) => x as u64,
                None => return Err(CodecError::BadValue(1)),
            },
            None => return Err(CodecError::MissingField(1)),
        };
        let correlated_lat = match last_with_tag(fs, 2) {
            Some(v) => match read_fixed(v) {
                Some(x) => x,
                None => return Err(CodecError::BadValue(2)),
            },
            None => return Err(CodecError::MissingField(2)),
        };
        let correlated_lon = match last_with_tag(fs, 3) {
            Some(v) => match read_fixed(v) {
                Some(x) => x,
                None => return Err(CodecError::BadValue(3)),
            },
            None => return Err(CodecError::MissingField(3)),
        };
        let percent_along = match last_with_tag(fs, 4) {
            Some(v) => match read_fixed(v) {
                Some(x) => x,
                None => return Err(CodecError::BadValue(4)),
            },
            None => return Err(CodecError::MissingField(4)),
        };
        let side_of_street = read_opt_str(fs, 5)?;
        Ok(LocateEdge { way_id, correlated_lat, correlated_lon, percent_along, side_of_street })
    }

    /// The `LocateEdge` that the nested message `v` holds.
    pub fn from_wire_value(v: &WireValue, t: u32) -> (r: Result<LocateEdge, CodecError>)
        ensures
            r is Ok <==> Self::msg_decodable(v@),
            r matches Ok(w) ==> Self::msg_decodes(v@, w),
    {
        match v {
            WireValue::Bytes(b) => match decode_message(b.as_slice()) {
                Ok(fs) => Self::from_wire_fields(&fs),
                Err(e) => Err(CodecError::Wire(e)),
            },
            WireValue::Varint(_) => Err(CodecError::BadValue(t)),
        }
    }

    /// The values of all fields with tag `t`, each a nested `LocateEdge`.
    pub fn read_all(fs: &Vec<WireField>, t: u32) -> (r: Result<Vec<LocateEdge>, CodecError>)
        ensures
            r is Ok <==> forall|i: int| 0 <= i < tag_values(fields_view(fs@), t).len() ==> Self::msg_decodable(#[trigger] tag_values(fields_view(fs@), t)[i]),
            r matches Ok(ws) ==> ws@.len() == tag_values(fields_view(fs@), t).len() && forall|i: int| 0 <= i < ws@.len() ==> Self::msg_decodes(#[trigger] tag_values(fields_view(fs@), t)[i], ws@[i]),
    {
        let vs = all_with_tag(fs, t);
        let ghost ds = tag_values(fields_view(fs@), t);
        let mut ws: Vec<LocateEdge> = Vec::new();
        let mut i: usize = 0;
        while i < vs.len()
            invariant
                i <= vs@.len(),
                ds == tag_values(fields_view(fs@), t),
                vs@.len() == ds.len(),
                forall|k: int| 0 <= k < vs@.len() ==> (#[trigger] vs@[k])@ == ds[k],
                ws@.len() == i,
                forall|k: int| 0 <= k < i ==> Self::msg_decodable(#[trigger] ds[k]),
                forall|k: int| 0 <= k < i ==> Self::msg_decodes(#[trigger] ds[k], ws@[k]),
            decreases vs@.len() - i,
        {
            let w = match Self::from_wire_value(vs[i], t) {
                Ok(w) => w,
                Err(e) => {
                    assert(!Self::msg_decodable(ds[i as int]));
                    assert(!(forall|k: int| 0 <= k < ds.len() ==> Self::msg_decodable(#[trigger] ds[k])));
                    return Err(e);
                },
            };
            ws.push(w);
            i += 1;
        }
        Ok(ws)
    }

    /// Decoding the fields of a value gives back an equal value.
    #[verifier::rlimit(100)]
    #[verifier::spinoff_prover]
    pub proof fn lemma_round_trip(v: LocateEdge)
        requires
            v.wire_fits(),
        ensures
            Self::wire_decodable(v.wire_fields()),
            forall|w: LocateEdge| Self::decodes_from(v.wire_fields(), w) ==> w.same_as(v),
    {
        broadcast use lemma_zigzag_round_trip, lemma_str_round_trip, DirectionsType::lemma_code_round_trip, Units::lemma_code_round_trip, LocationType::lemma_code_round_trip, PreferredSide::lemma_code_round_trip, CostingModels::lemma_code_round_trip, BicyleType::lemma_code_round_trip, ManeuverType::lemma_code_round_trip, TravelMode::lemma_code_round_trip, TravelType::lemma_code_round_trip, lemma_opt_fixed_round_trip, lemma_opt_u32_round_trip, lemma_opt_u16_round_trip, lemma_opt_u8_round_trip, lemma_opt_bool_round_trip, lemma_opt_str_round_trip, lemma_opt_directions_type_round_trip, lemma_opt_units_round_trip, lemma_opt_location_type_round_trip, lemma_opt_preferred_side_round_trip, lemma_opt_costing_models_round_trip, lemma_opt_bicyle_type_round_trip, lemma_opt_maneuver_type_round_trip, lemma_opt_travel_mode_round_trip, lemma_opt_travel_type_round_trip;

        v.lemma_wire_tags();
        assert(tag_value(v.wire_fields(), 1) == Some(uint_data(v.way_id as u64))) by {
            broadcast use group_codec_lemmas;
        }
        assert(tag_value(v.wire_fields(), 2) == Some(fixed_data(v.correlated_lat))) by {
            broadcast use group_codec_lemmas;
        }
        assert(tag_value(v.wire_fields(), 3) == Some(fixed_data(v.correlated_lon))) by {
            broadcast use group_codec_lemmas;
        }
        assert(tag_value(v.wire_fields(), 4) == Some(fixed_data(v.percent_along))) by {
            broadcast use group_codec_lemmas;
        }
        assert(tag_value(v.wire_fields(), 5) == opt_str_data(v.side_of_street)) by {
            broadcast use group_codec_lemmas;
        }
    }

    /// Decoding a value's nested message gives back an equal value.
    pub proof fn lemma_msg_round_trip(v: LocateEdge)
        requires
            v.msg_fits(),
        ensures
            Self::msg_decodable(v.msg_data()),
            forall|w: LocateEdge| Self::msg_decodes(v.msg_data(), w) ==> w.same_as(v),
    {
        lemma_wire_round_trip(v.wire_fields());
        Self::lemma_round_trip(v);
    }

    pub proof fn lemma_seq_round_trip(xs: Seq<LocateEdge>)
        requires
            Self::seq_fits(xs),
        ensures
            forall|i: int| 0 <= i < xs.len() ==> Self::msg_decodable(#[trigger] Self::msg_data_seq(xs)[i]),
            forall|ws: Seq<LocateEdge>| ws.len() == xs.len() && (forall|i: int| 0 <= i < xs.len() ==> Self::msg_decodes(#[trigger] Self::msg_data_seq(xs)[i], ws[i])) ==> Self::same_seq(ws, xs),
    {
        assert forall|i: int| 0 <= i < xs.len() implies Self::msg_decodable(#[trigger] Self::msg_data_seq(xs)[i]) && (forall|w: LocateEdge| Self::msg_decodes(Self::msg_data_seq(xs)[i], w) ==> w.same_as(xs[i])) by {
            assert(xs[i].msg_fits());
            Self::lemma_msg_round_trip(xs[i]);
        }
        assert forall|ws: Seq<LocateEdge>| ws.len() == xs.len() && (forall|i: int| 0 <= i < xs.len() ==> Self::msg_decodes(#[trigger] Self::msg_data_seq(xs)[i], ws[i])) implies Self::same_seq(ws, xs) by {
            assert forall|i: int| 0 <= i < ws.len() implies (#[trigger] ws[i]).same_as(xs[i]) by {
                assert(Self::msg_decodes(Self::msg_data_seq(xs)[i], ws[i]));
            }
        }
    }

}

impl LocatedPoint {
    /// The fields this value is encoded as.
    pub open spec fn wire_fields(&self) -> Seq<(u32, WireData)> {
        Seq::empty()
            + opt_field(1, Some(fixed_data(self.input_lat)))
            + opt_field(2, Some(fixed_data(self.input_lon)))
            + rep_field(3, LocateEdge::msg_data_seq(self.edges@))
    }

    /// This value as a nested message.
    pub open spec fn msg_data(&self) -> WireData {
        WireData::Bytes(message_bytes(self.wire_fields()))
    }

    /// The values as nested messages.
    pub open spec fn msg_data_seq(xs: Seq<LocatedPoint>) -> Seq<WireData> {
        xs.map_values(|x: LocatedPoint| x.msg_data())
    }

    /// `fs` holds a `LocatedPoint`: known tags, every required field present, every field of its kind.
    pub open spec fn wire_decodable(fs: Seq<(u32, WireData)>) -> bool {
        &&& tags_within(fs, 3)
        &&& tag_value(fs, 1) matches Some(d) && fixed_of(d) is Some
        &&& tag_value(fs, 2) matches Some(d) && fixed_of(d) is Some
        &&& forall|i: int| 0 <= i < tag_values(fs, 3).len() ==> LocateEdge::msg_decodable(#[trigger] tag_values(fs, 3)[i])
    }

    /// `w` is what `fs` holds.
    pub open spec fn decodes_from(fs: Seq<(u32, WireData)>, w: LocatedPoint) -> bool {
        &&& tag_value(fs, 1) matches Some(d) && fixed_of(d) == Some(w.input_lat)
        &&& tag_value(fs, 2) matches Some(d) && fixed_of(d) == Some(w.input_lon)
        &&& w.edges@.len() == tag_values(fs, 3).len() && forall|i: int| 0 <= i < tag_values(fs, 3).len() ==> LocateEdge::msg_decodes(#[trigger] tag_values(fs, 3)[i], w.edges@[i])
    }

    /// `d` is a nested message that holds a `LocatedPoint`.
    pub open spec fn msg_decodable(d: WireData) -> bool {
        &&& d is Bytes
        &&& parse_message(d->Bytes_0, 0) matches Some(fs) && Self::wire_decodable(fs)
    }

    /// `w` is what the nested message `d` holds.
    pub open spec fn msg_decodes(d: WireData, w: LocatedPoint) -> bool {
        &&& d is Bytes
        &&& parse_message(d->Bytes_0, 0) matches Some(fs) && Self::decodes_from(fs, w)
    }

    /// The two values agree in every field.
    pub open spec fn same_as(self, o: LocatedPoint) -> bool {
        &&& self.input_lat == o.input_lat
        &&& self.input_lon == o.input_lon
        &&& LocateEdge::same_seq(self.edges@, o.edges@)
    }

    /// The two sequences agree element by element.
    pub open spec fn same_seq(a: Seq<LocatedPoint>, b: Seq<LocatedPoint>) -> bool {
        &&& a.len() == b.len()
        &&& forall|i: int| 0 <= i < a.len() ==> (#[trigger] a[i]).same_as(b[i])
    }

    /// Every nested message of this value fits a length prefix.
    pub open spec fn wire_fits(&self) -> bool {
        &&& LocateEdge::seq_fits(self.edges@)
    }

    /// This value's encoding as a nested message can be decoded.
    pub open spec fn msg_fits(&self) -> bool {
        fields_ok(self.wire_fields()) && self.wire_fits()
    }

    /// Every value of the sequence fits.
    pub open spec fn seq_fits(xs: Seq<LocatedPoint>) -> bool {
        forall|i: int| 0 <= i < xs.len() ==> (#[trigger] xs[i]).msg_fits()
    }

    pub proof fn lemma_wire_tags(&self)
        ensures
            tags_within(self.wire_fields(), 3),
    {
        broadcast use group_codec_lemmas;

        assert(tags_within(Seq::<(u32, WireData)>::empty(), 3));
        lemma_tags_widen(opt_field(1, Some(fixed_data(self.input_lat))), 1, 3);
        lemma_tags_widen(opt_field(2, Some(fixed_data(self.input_lon))), 2, 3);
        lemma_tags_widen(rep_field(3, LocateEdge::msg_data_seq(self.edges@)), 3, 3);
    }

    /// The fields this value is encoded as.
    pub fn to_wire_fields(&self) -> (r: Vec<WireField>)
        ensures
            fields_view(r@) == self.wire_fields(),
    {
        let mut fs: Vec<WireField> = Vec::new();
        assert(fields_view(fs@) =~= Seq::<(u32, WireData)>::empty());
        let ghost before = fields_view(fs@);
        fs.push(WireField { tag: 1, value: fixed_value(self.input_lat) });
        assert(fields_view(fs@) =~= before + opt_field(1, Some(fixed_data(self.input_lat))));
        let ghost before = fields_view(fs@);
        fs.push(WireField { tag: 2, value: fixed_value(self.input_lon) });
        assert(fields_view(fs@) =~= before + opt_field(2, Some(fixed_data(self.input_lon))));
        let ghost before = fields_view(fs@);
        LocateEdge::push_all(&self.edges, 3, &mut fs);
        assert(fields_view(fs@) =~= before + rep_field(3, LocateEdge::msg_data_seq(self.edges@)));
        fs
    }

    /// This value as a nested message.
    pub fn to_wire_value(&self) -> (r: WireValue)
        ensures
            r@ == self.msg_data(),
    {
        let fs = self.to_wire_fields();
        proof {
            self.lemma_wire_tags();
        }
        WireValue::Bytes(encode_message(&fs))
    }

    /// Appends one field with tag `t` per value.
    pub fn push_all(xs: &Vec<LocatedPoint>, t: u32, fs: &mut Vec<WireField>)
        ensures
            fields_view(final(fs)@) == fields_view(old(fs)@) + rep_field(t, Self::msg_data_seq(xs@)),
    {
        let ghost start = fields_view(fs@);
        let mut i: usize = 0;
        while i < xs.len()
            invariant
                i <= xs@.len(),
                fields_view(fs@) == start + rep_field(t, Self::msg_data_seq(xs@.subrange(0, i as int))),
            decreases xs@.len() - i,
        {
            let ghost pre = fields_view(fs@);
            let value = xs[i].to_wire_value();
            fs.push(WireField { tag: t, value });
            proof {
                assert(Self::msg_data_seq(xs@.subrange(0, i + 1)) =~= Self::msg_data_seq(
                    xs@.subrange(0, i as int),
                ).push(xs@[i as int].msg_data()));
                assert(fields_view(fs@) =~= pre.push((t, xs@[i as int].msg_data())));
                assert(rep_field(t, Self::msg_data_seq(xs@.subrange(0, i + 1))) =~= rep_field(
                    t,
                    Self::msg_data_seq(xs@.subrange(0, i as int)),
                ).push((t, xs@[i as int].msg_data())));
            }
            i += 1;
        }
        assert(xs@.subrange(0, xs@.len() as int) =~= xs@);
    }

    /// The `LocatedPoint` that `fs` holds.
    pub fn from_wire_fields(fs: &Vec<WireField>) -> (r: Result<LocatedPoint, CodecError>)
        ensures
            r is Ok <==> Self::wire_decodable(fields_view(fs@)),
            r matches Ok(w) ==> Self::decodes_from(fields_view(fs@), w),
    {
        check_tags(fs, 3)?;
        let input_lat = match last_with_tag(fs, 1) {
            Some(v) => match read_fixed(v) {
                Some(x) => x,
                None => return Err(CodecError::BadValue(1)),
            },
            None => return Err(CodecError::MissingField(1)),
        };
        let input_lon = match last_with_tag(fs, 2) {
            Some(v) => match read_fixed(v) {
                Some(x) => x,
                None => return Err(CodecError::BadValue(2)),
            },
            None => return Err(CodecError::MissingField(2)),
        };
        let edges = LocateEdge::read_all(fs, 3)?;
        Ok(LocatedPoint { input_lat, input_lon, edges })
    }

    /// The `LocatedPoint` that the nested message `v` holds.
    pub fn from_wire_value(v: &WireValue, t: u32) -> (r: Result<LocatedPoint, CodecError>)
        ensures
            r is Ok <==> Self::msg_decodable(v@),
            r matches Ok(w) ==> Self::msg_decodes(v@, w),
    {
        match v {
            WireValue::Bytes(b) => match decode_message(b.as_slice()) {
                Ok(fs) => Self::from_wire_fields(&fs),
                Err(e) => Err(CodecError::Wire(e)),
            },
            WireValue::Varint(_) => Err(CodecError::BadValue(t)),
        }
    }

    /// The values of all fields with tag `t`, each a nested `LocatedPoint`.
    pub fn read_all(fs: &Vec<WireField>, t: u32) -> (r: Result<Vec<LocatedPoint>, CodecError>)
        ensures
            r is Ok <==> forall|i: int| 0 <= i < tag_values(fields_view(fs@), t).len() ==> Self::msg_decodable(#[trigger] tag_values(fields_view(fs@), t)[i]),
            r matches Ok(ws) ==> ws@.len() == tag_values(fields_view(fs@), t).len() && forall|i: int| 0 <= i < ws@.len() ==> Self::msg_decodes(#[trigger] tag_values(fields_view(fs@), t)[i], ws@[i]),
    {
        let vs = all_with_tag(fs, t);
        let ghost ds = tag_values(fields_view(fs@), t);
        let mut ws: Vec<LocatedPoint> = Vec::new();
        let mut i: usize = 0;
        while i < vs.len()
            invariant
                i <= vs@.len(),
                ds == tag_values(fields_view(fs@), t),
                vs@.len() == ds.len(),
                forall|k: int| 0 <= k < vs@.len() ==> (#[trigger] vs@[k])@ == ds[k],
                ws@.len() == i,
                forall|k: int| 0 <= k < i ==> Self::msg_decodable(#[trigger] ds[k]),
                forall|k: int| 0 <= k < i ==> Self::msg_decodes(#[trigger] ds[k], ws@[k]),
            decreases vs@.len() - i,
        {
            let w = match Self::from_wire_value(vs[i], t) {
                Ok(w) => w,
                Err(e) => {
                    assert(!Self::msg_decodable(ds[i as int]));
                    assert(!(forall|k: int| 0 <= k < ds.len() ==> Self::msg_decodable(#[trigger] ds[k])));
                    return Err(e);
                },
            };
            ws.push(w);
            i += 1;
        }
        Ok(ws)
    }

    /// Decoding the fields of a value gives back an equal value.
    #[verifier::rlimit(100)]
    #[verifier::spinoff_prover]
    pub proof fn lemma_round_trip(v: LocatedPoint)
        requires
            v.wire_fits(),
        ensures
            Self::wire_decodable(v.wire_fields()),
            forall|w: LocatedPoint| Self::decodes_from(v.wire_fields(), w) ==> w.same_as(v),
    {
        broadcast use lemma_zigzag_round_trip, lemma_str_round_trip, DirectionsType::lemma_code_round_trip, Units::lemma_code_round_trip, LocationType::lemma_code_round_trip, PreferredSide::lemma_code_round_trip, CostingModels::lemma_code_round_trip, BicyleType::lemma_code_round_trip, ManeuverType::lemma_code_round_trip, TravelMode::lemma_code_round_trip, TravelType::lemma_code_round_trip, lemma_opt_fixed_round_trip, lemma_opt_u32_round_trip, lemma_opt_u16_round_trip, lemma_opt_u8_round_trip, lemma_opt_bool_round_trip, lemma_opt_str_round_trip, lemma_opt_directions_type_round_trip, lemma_opt_units_round_trip, lemma_opt_location_type_round_trip, lemma_opt_preferred_side_round_trip, lemma_opt_costing_models_round_trip, lemma_opt_bicyle_type_round_trip, lemma_opt_maneuver_type_round_trip, lemma_opt_travel_mode_round_trip, lemma_opt_travel_type_round_trip;

        v.lemma_wire_tags();
        assert(tag_value(v.wire_fields(), 1) == Some(fixed_data(v.input_lat))) by {
            broadcast use group_codec_lemmas;
        }
        assert(tag_value(v.wire_fields(), 2) == Some(fixed_data(v.input_lon))) by {
            broadcast use group_codec_lemmas;
        }
        assert(tag_values(v.wire_fields(), 3) == LocateEdge::msg_data_seq(v.edges@)) by {
            broadcast use group_codec_lemmas;
        }
        LocateEdge::lemma_seq_round_trip(v.edges@);
    }

    /// Decoding a value's nested message gives back an equal value.
    pub proof fn lemma_msg_round_trip(v: LocatedPoint)
        requires
            v.msg_fits(),
        ensures
            Self::msg_decodable(v.msg_data()),
            forall|w: LocatedPoint| Self::msg_decodes(v.msg_data(), w) ==> w.same_as(v),
    {
        lemma_wire_round_trip(v.wire_fields());
        Self::lemma_round_trip(v);
    }

    pub proof fn lemma_seq_round_trip(xs: Seq<LocatedPoint>)
        requires
            Self::seq_fits(xs),
        ensures
            forall|i: int| 0 <= i < xs.len() ==> Self::msg_decodable(#[trigger] Self::msg_data_seq(xs)[i]),
            forall|ws: Seq<LocatedPoint>| ws.len() == xs.len() && (forall|i: int| 0 <= i < xs.len() ==> Self::msg_decodes(#[trigger] Self::msg_data_seq(xs)[i], ws[i])) ==> Self::same_seq(ws, xs),
    {
        assert forall|i: int| 0 <= i < xs.len() implies Self::msg_decodable(#[trigger] Self::msg_data_seq(xs)[i]) && (forall|w: LocatedPoint| Self::msg_decodes(Self::msg_data_seq(xs)[i], w) ==> w.same_as(xs[i])) by {
            assert(xs[i].msg_fits());
            Self::lemma_msg_round_trip(xs[i]);
        }
        assert forall|ws: Seq<LocatedPoint>| ws.len() == xs.len() && (forall|i: int| 0 <= i < xs.len() ==> Self::msg_decodes(#[trigger] Self::msg_data_seq(xs)[i], ws[i])) implies Self::same_seq(ws, xs) by {
            assert forall|i: int| 0 <= i < ws.len() implies (#[trigger] ws[i]).same_as(xs[i]) by {
                assert(Self::msg_decodes(Self::msg_data_seq(xs)[i], ws[i]));
            }
        }
    }

}

impl LocateOutput {
    /// The fields this value is encoded as.
    pub open spec fn wire_fields(&self) -> Seq<(u32, WireData)> {
        Seq::empty()
            + rep_field(1, LocatedPoint::msg_data_seq(self.locations@))
            + opt_field(2, opt_str_data(self.id))
    }

    /// This value as a nested message.
    pub open spec fn msg_data(&self) -> WireData {
        WireData::Bytes(message_bytes(self.wire_fields()))
    }

    /// The values as nested messages.
    pub open spec fn msg_data_seq(xs: Seq<LocateOutput>) -> Seq<WireData> {
        xs.map_values(|x: LocateOutput| x.msg_data())
    }

    /// `fs` holds a `LocateOutput`: known tags, every required field present, every field of its kind.
    pub open spec fn wire_decodable(fs: Seq<(u32, WireData)>) -> bool {
        &&& tags_within(fs, 2)
        &&& forall|i: int| 0 <= i < tag_values(fs, 1).len() ==> LocatedPoint::msg_decodable(#[trigger] tag_values(fs, 1)[i])
        &&& opt_str_of(tag_value(fs, 2)) is Some
    }

    /// `w` is what `fs` holds.
    pub open spec fn decodes_from(fs: Seq<(u32, WireData)>, w: LocateOutput) -> bool {
        &&& w.locations@.len() == tag_values(fs, 1).len() && forall|i: int| 0 <= i < tag_values(fs, 1).len() ==> LocatedPoint::msg_decodes(#[trigger] tag_values(fs, 1)[i], w.locations@[i])
        &&& opt_str_of(tag_value(fs, 2)) == Some(opt_str_view(w.id))
    }

    /// `d` is a nested message that holds a `LocateOutput`.
    pub open spec fn msg_decodable(d: WireData) -> bool {
        &&& d is Bytes
        &&& parse_message(d->Bytes_0, 0) matches Some(fs) && Self::wire_decodable(fs)
    }

    /// `w` is what the nested message `d` holds.
    pub open spec fn msg_decodes(d: WireData, w: LocateOutput) -> bool {
        &&& d is Bytes
        &&& parse_message(d->Bytes_0, 0) matches Some(fs) && Self::decodes_from(fs, w)
    }

    /// The two values agree in every field.
    pub open spec fn same_as(self, o: LocateOutput) -> bool {
        &&& LocatedPoint::same_seq(self.locations@, o.locations@)
        &&& opt_str_view(self.id) == opt_str_view(o.id)
    }

    /// The two sequences agree element by element.
    pub open spec fn same_seq(a: Seq<LocateOutput>, b: Seq<LocateOutput>) -> bool {
        &&& a.len() == b.len()
        &&& forall|i: int| 0 <= i < a.len() ==> (#[trigger] a[i]).same_as(b[i])
    }

    /// Every nested message of this value fits a length prefix.
    pub open spec fn wire_fits(&self) -> bool {
        &&& LocatedPoint::seq_fits(self.locations@)
    }

    /// This value's encoding as a nested message can be decoded.
    pub open spec fn msg_fits(&self) -> bool {
        fields_ok(self.wire_fields()) && self.wire_fits()
    }

    /// Every value of the sequence fits.
    pub open spec fn seq_fits(xs: Seq<LocateOutput>) -> bool {
        forall|i: int| 0 <= i < xs.len() ==> (#[trigger] xs[i]).msg_fits()
    }

    pub proof fn lemma_wire_tags(&self)
        ensures
            tags_within(self.wire_fields(), 2),
    {
        broadcast use group_codec_lemmas;

        assert(tags_within(Seq::<(u32, WireData)>::empty(), 2));
        lemma_tags_widen(rep_field(1, LocatedPoint::msg_data_seq(self.locations@)), 1, 2);
        lemma_tags_widen(opt_field(2, opt_str_data(self.id)), 2, 2);
    }

    /// The fields this value is encoded as.
    pub fn to_wire_fields(&self) -> (r: Vec<WireField>)
        ensures
            fields_view(r@) == self.wire_fields(),
    {
        let mut fs: Vec<WireField> = Vec::new();
        assert(fields_view(fs@) =~= Seq::<(u32, WireData)>::empty());
        let ghost before = fields_view(fs@);
        LocatedPoint::push_all(&self.locations, 1, &mut fs);
        assert(fields_view(fs@) =~= before + rep_field(1, LocatedPoint::msg_data_seq(self.locations@)));
        let ghost before = fields_view(fs@);
        push_opt_str(&mut fs, 2, &self.id);
        assert(fields_view(fs@) =~= before + opt_field(2, opt_str_data(self.id)));
        fs
    }

    /// This value as a nested message.
    pub fn to_wire_value(&self) -> (r: WireValue)
        ensures
            r@ == self.msg_data(),
    {
        let fs = self.to_wire_fields();
        proof {
            self.lemma_wire_tags();
        }
        WireValue::Bytes(encode_message(&fs))
    }

    /// The `LocateOutput` that `fs` holds.
    pub fn from_wire_fields(fs: &Vec<WireField>) -> (r: Result<LocateOutput, CodecError>)
        ensures
            r is Ok <==> Self::wire_decodable(fields_view(fs@)),
            r matches Ok(w) ==> Self::decodes_from(fields_view(fs@), w),
    {
        check_tags(fs, 2)?;
        let locations = LocatedPoint::read_all(fs, 1)?;
        let id = read_opt_str(fs, 2)?;
        Ok(LocateOutput { locations, id })
    }

    /// The `LocateOutput` that the nested message `v` holds.
    pub fn from_wire_value(v: &WireValue, t: u32) -> (r: Result<LocateOutput, CodecError>)
        ensures
            r is Ok <==> Self::msg_decodable(v@),
            r matches Ok(w) ==> Self::msg_decodes(v@, w),
    {
        match v {
            WireValue::Bytes(b) => match decode_message(b.as_slice()) {
                Ok(fs) => Self::from_wire_fields(&fs),
                Err(e) => Err(CodecError::Wire(e)),
            },
            WireValue::Varint(_) => Err(CodecError::BadValue(t)),
        }
    }

    /// Decoding the fields of a value gives back an equal value.
    #[verifier::rlimit(100)]
    #[verifier::spinoff_prover]
    pub proof fn lemma_round_trip(v: LocateOutput)
        requires
            v.wire_fits(),
        ensures
            Self::wire_decodable(v.wire_fields()),
            forall|w: LocateOutput| Self::decodes_from(v.wire_fields(), w) ==> w.same_as(v),
    {
        broadcast use lemma_zigzag_round_trip, lemma_str_round_trip, DirectionsType::lemma_code_round_trip, Units::lemma_code_round_trip, LocationType::lemma_code_round_trip, PreferredSide::lemma_code_round_trip, CostingModels::lemma_code_round_trip, BicyleType::lemma_code_round_trip, ManeuverType::lemma_code_round_trip, TravelMode::lemma_code_round_trip, TravelType::lemma_code_round_trip, lemma_opt_fixed_round_trip, lemma_opt_u32_round_trip, lemma_opt_u16_round_trip, lemma_opt_u8_round_trip, lemma_opt_bool_round_trip, lemma_opt_str_round_trip, lemma_opt_directions_type_round_trip, lemma_opt_units_round_trip, lemma_opt_location_type_round_trip, lemma_opt_preferred_side_round_trip, lemma_opt_costing_models_round_trip, lemma_opt_bicyle_type_round_trip, lemma_opt_maneuver_type_round_trip, lemma_opt_travel_mode_round_trip, lemma_opt_travel_type_round_trip;

        v.lemma_wire_tags();
        assert(tag_values(v.wire_fields(), 1) == LocatedPoint::msg_data_seq(v.locations@)) by {
            broadcast use group_codec_lemmas;
        }
        assert(tag_value(v.wire_fields(), 2) == opt_str_data(v.id)) by {
            broadcast use group_codec_lemmas;
        }
        LocatedPoint::lemma_seq_round_trip(v.locations@);
    }

    /// Decoding a value's nested message gives back an equal value.
    pub proof fn lemma_msg_round_trip(v: LocateOutput)
        requires
            v.msg_fits(),
        ensures
            Self::msg_decodable(v.msg_data()),
            forall|w: LocateOutput| Self::msg_decodes(v.msg_data(), w) ==> w.same_as(v),
    {
        lemma_wire_round_trip(v.wire_fields());
        Self::lemma_round_trip(v);
    }

}

impl TraceEdge {
    /// The fields this value is encoded as.
    pub open spec fn wire_fields(&self) -> Seq<(u32, WireData)> {
        Seq::empty()
            + opt_field(1, Some(uint_data(self.way_id as u64)))
            + opt_field(2, Some(fixed_data(self.length)))
            + opt_field(3, opt_fixed_data(self.speed))
            + opt_field(4, Some(uint_data(self.begin_shape_index as u64)))
            + opt_field(5, Some(uint_data(self.end_shape_index as u64)))
            + rep_field(6, str_data_seq(self.names@))
    }

    /// This value as a nested message.
    pub open spec fn msg_data(&self) -> WireData {
        WireData::Bytes(message_bytes(self.wire_fields()))
    }

    /// The values as nested messages.
    pub open spec fn msg_data_seq(xs: Seq<TraceEdge>) -> Seq<WireData> {
        xs.map_values(|x: TraceEdge| x.msg_data())
    }

    /// `fs` holds a `TraceEdge`: known tags, every required field present, every field of its kind.
    pub open spec fn wire_decodable(fs: Seq<(u32, WireData)>) -> bool {
        &&& tags_within(fs, 6)
        &&& tag_value(fs, 1) matches Some(d) && uint_of(d, 0xFFFF_FFFF_FFFF_FFFF) is Some
        &&& tag_value(fs, 2) matches Some(d) && fixed_of(d) is Some
        &&& opt_fixed_of(tag_value(fs, 3)) is Some
        &&& tag_value(fs, 4) matches Some(d) && uint_of(d, 0xFFFF_FFFF) is Some
        &&& tag_value(fs, 5) matches Some(d) && uint_of(d, 0xFFFF_FFFF) is Some
        &&& forall|i: int| 0 <= i < tag_values(fs, 6).len() ==> str_of(#[trigger] tag_values(fs, 6)[i]) is Some
    }

    /// `w` is what `fs` holds.
    pub open spec fn decodes_from(fs: Seq<(u32, WireData)>, w: TraceEdge) -> bool {
        &&& tag_value(fs, 1) matches Some(d) && uint_of(d, 0xFFFF_FFFF_FFFF_FFFF) == Some(w.way_id as u64)
        &&& tag_value(fs, 2) matches Some(d) && fixed_of(d) == Some(w.length)
        &&& opt_fixed_of(tag_value(fs, 3)) == Some(w.speed)
        &&& tag_value(fs, 4) matches Some(d) && uint_of(d, 0xFFFF_FFFF) == Some(w.begin_shape_index as u64)
        &&& tag_value(fs, 5) matches Some(d) && uint_of(d, 0xFFFF_FFFF) == Some(w.end_shape_index as u64)
        &&& w.names@.len() == tag_values(fs, 6).len() && forall|i: int| 0 <= i < tag_values(fs, 6).len() ==> str_of(#[trigger] tag_values(fs, 6)[i]) == Some(w.names@[i]@)
    }

    /// `d` is a nested message that holds a `TraceEdge`.
    pub open spec fn msg_decodable(d: WireData) -> bool {
        &&& d is Bytes
        &&& parse_message(d->Bytes_0, 0) matches Some(fs) && Self::wire_decodable(fs)
    }

    /// `w` is what the nested message `d` holds.
    pub open spec fn msg_decodes(d: WireData, w: TraceEdge) -> bool {
        &&& d is Bytes
        &&& parse_message(d->Bytes_0, 0) matches Some(fs) && Self::decodes_from(fs, w)
    }

    /// The two values agree in every field.
    pub open spec fn same_as(self, o: TraceEdge) -> bool {
        &&& self.way_id == o.way_id
        &&& self.length == o.length
        &&& self.speed == o.speed
        &&& self.begin_shape_index == o.begin_shape_index
        &&& self.end_shape_index == o.end_shape_index
        &&& self.names@.len() == o.names@.len() && forall|i: int| 0 <= i < self.names@.len() ==> (#[trigger] self.names@[i])@ == o.names@[i]@
    }

    /// The two sequences agree element by element.
    pub open spec fn same_seq(a: Seq<TraceEdge>, b: Seq<TraceEdge>) -> bool {
        &&& a.len() == b.len()
        &&& forall|i: int| 0 <= i < a.len() ==> (#[trigger] a[i]).same_as(b[i])
    }

    /// Every nested message of this value fits a length prefix.
    pub open spec fn wire_fits(&self) -> bool {
        true
    }

    /// This value's encoding as a nested message can be decoded.
    pub open spec fn msg_fits(&self) -> bool {
        fields_ok(self.wire_fields()) && self.wire_fits()
    }

    /// Every value of the sequence fits.
    pub open spec fn seq_fits(xs: Seq<TraceEdge>) -> bool {
        forall|i: int| 0 <= i < xs.len() ==> (#[trigger] xs[i]).msg_fits()
    }

    pub proof fn lemma_wire_tags(&self)
        ensures
            tags_within(self.wire_fields(), 6),
    {
        broadcast use group_codec_lemmas;

        assert(tags_within(Seq::<(u32, WireData)>::empty(), 6));
        lemma_tags_widen(opt_field(1, Some(uint_data(self.way_id as u64))), 1, 6);
        lemma_tags_widen(opt_field(2, Some(fixed_data(self.length))), 2, 6);
        lemma_tags_widen(opt_field(3, opt_fixed_data(self.speed)), 3, 6);
        lemma_tags_widen(opt_field(4, Some(uint_data(self.begin_shape_index as u64))), 4, 6);
        lemma_tags_widen(opt_field(5, Some(uint_data(self.end_shape_index as u64))), 5, 6);
        lemma_tags_widen(rep_field(6, str_data_seq(self.names@)), 6, 6);
    }

    /// The fields this value is encoded as.
    pub fn to_wire_fields(&self) -> (r: Vec<WireField>)
        ensures
            fields_view(r@) == self.wire_fields(),
    {
        let mut fs: Vec<WireField> = Vec::new();
        assert(fields_view(fs@) =~= Seq::<(u32, WireData)>::empty());
        let ghost before = fields_view(fs@);
        fs.push(WireField { tag: 1, value: uint_value(self.way_id as u64) });
        assert(fields_view(fs@) =~= before + opt_field(1, Some(uint_data(self.way_id as u64))));
        let ghost before = fields_view(fs@);
        fs.push(WireField { tag: 2, value: fixed_value(self.length) });
        assert(fields_view(fs@) =~= before + opt_field(2, Some(fixed_data(self.length))));
        let ghost before = fields_view(fs@);
        push_opt_fixed(&mut fs, 3, self.speed);
        assert(fields_view(fs@) =~= before + opt_field(3, opt_fixed_data(self.speed)));
        let ghost before = fields_view(fs@);
        fs.push(WireField { tag: 4, value: uint_value(self.begin_shape_index as u64) });
        assert(fields_view(fs@) =~= before + opt_field(4, Some(uint_data(self.begin_shape_index as u64))));
        let ghost before = fields_view(fs@);
        fs.push(WireField { tag: 5, value: uint_value(self.end_shape_index as u64) });
        assert(fields_view(fs@) =~= before + opt_field(5, Some(uint_data(self.end_shape_index as u64))));
        let ghost before = fields_view(fs@);
        push_all_str(&self.names, 6, &mut fs);
        assert(fields_view(fs@) =~= before + rep_field(6, str_data_seq(self.names@)));
        fs
    }

    /// This value as a nested message.
    pub fn to_wire_value(&self) -> (r: WireValue)
        ensures
            r@ == self.msg_data(),
    {
        let fs = self.to_wire_fields();
        proof {
            self.lemma_wire_tags();
        }
        WireValue::Bytes(encode_message(&fs))
    }

    /// Appends one field with tag `t` per value.
    pub fn push_all(xs: &Vec<TraceEdge>, t: u32, fs: &mut Vec<WireField>)
        ensures
            fields_view(final(fs)@) == fields_view(old(fs)@) + rep_field(t, Self::msg_data_seq(xs@)),
    {
        let ghost start = fields_view(fs@);
        let mut i: usize = 0;
        while i < xs.len()
            invariant
                i <= xs@.len(),
                fields_view(fs@) == start + rep_field(t, Self::msg_data_seq(xs@.subrange(0, i as int))),
            decreases xs@.len() - i,
        {
            let ghost pre = fields_view(fs@);
            let value = xs[i].to_wire_value();
            fs.push(WireField { tag: t, value });
            proof {
                assert(Self::msg_data_seq(xs@.subrange(0, i + 1)) =~= Self::msg_data_seq(
                    xs@.subrange(0, i as int),
                ).push(xs@[i as int].msg_data()));
                assert(fields_view(fs@) =~= pre.push((t, xs@[i as int].msg_data())));
                assert(rep_field(t, Self::msg_data_seq(xs@.subrange(0, i + 1))) =~= rep_field(
                    t,
                    Self::msg_data_seq(xs@.subrange(0, i as int)),
                ).push((t, xs@[i as int].msg_data())));
            }
            i += 1;
        }
        assert(xs@.subrange(0, xs@.len() as int) =~= xs@);
    }

    /// The `TraceEdge` that `fs` holds.
    pub fn from_wire_fields(fs: &Vec<WireField>) -> (r: Result<TraceEdge, CodecError>)
        ensures
            r is Ok <==> Self::wire_decodable(fields_view(fs@)),
            r matches Ok(w) ==> Self::decodes_from(fields_view(fs@), w),
    {
        check_tags(fs, 6)?;
        let way_id = match last_with_tag(fs, 1) {
            Some(v) => match read_uint(v, 0xFFFF_FFFF_FFFF_FFFF) {
                Some(x) => x as u64,
                None => return Err(CodecError::BadValue(1)),
            },
            None => return Err(CodecError::MissingField(1)),
        };
        let length = match last_with_tag(fs, 2) {
            Some(v) => match read_fixed(v) {
                Some(x) => x,
                None => return Err(CodecError::BadValue(2)),
            },
            None => return Err(CodecError::MissingField(2)),
        };
        let speed = read_opt_fixed(fs, 3)?;
        let begin_shape_index = match last_with_tag(fs, 4) {
            Some(v) => match read_uint(v, 0xFFFF_FFFF) {
                Some(x) => x as u32,
                None => return Err(CodecError::BadValue(4)),
            },
            None => return Err(CodecError::MissingField(4)),
        };
        let end_shape_index = match last_with_tag(fs, 5) {
            Some(v) => match read_uint(v, 0xFFFF_FFFF) {
                Some(x) => x as u32,
                None => return Err(CodecError::BadValue(5)),
            },
            None => return Err(CodecError::MissingField(5)),
        };
        let names = read_all_str(fs, 6)?;
        Ok(TraceEdge { way_id, length, speed, begin_shape_index, end_shape_index, names })
    }

    /// The `TraceEdge` that the nested message `v` holds.
    pub fn from_wire_value(v: &WireValue, t: u32) -> (r: Result<TraceEdge, CodecError>)
        ensures
            r is Ok <==> Self::msg_decodable(v@),
            r matches Ok(w) ==> Self::msg_decodes(v@, w),
    {
        match v {
            WireValue::Bytes(b) => match decode_message(b.as_slice()) {
                Ok(fs) => Self::from_wire_fields(&fs),
                Err(e) => Err(CodecError::Wire(e)),
            },
            WireValue::Varint(_) => Err(CodecError::BadValue(t)),
        }
    }

    /// The values of all fields with tag `t`, each a nested `TraceEdge`.
    pub fn read_all(fs: &Vec<WireField>, t: u32) -> (r: Result<Vec<TraceEdge>, CodecError>)
        ensures
            r is Ok <==> forall|i: int| 0 <= i < tag_values(fields_view(fs@), t).len() ==> Self::msg_decodable(#[trigger] tag_values(fields_view(fs@), t)[i]),
            r matches Ok(ws) ==> ws@.len() == tag_values(fields_view(fs@), t).len() && forall|i: int| 0 <= i < ws@.len() ==> Self::msg_decodes(#[trigger] tag_values(fields_view(fs@), t)[i], ws@[i]),
    {
        let vs = all_with_tag(fs, t);
        let ghost ds = tag_values(fields_view(fs@), t);
        let mut ws: Vec<TraceEdge> = Vec::new();
        let mut i: usize = 0;
        while i < vs.len()
            invariant
                i <= vs@.len(),
                ds == tag_values(fields_view(fs@), t),
                vs@.len() == ds.len(),
                forall|k: int| 0 <= k < vs@.len() ==> (#[trigger] vs@[k])@ == ds[k],
                ws@.len() == i,
                forall|k: int| 0 <= k < i ==> Self::msg_decodable(#[trigger] ds[k]),
                forall|k: int| 0 <= k < i ==> Self::msg_decodes(#[trigger] ds[k], ws@[k]),
            decreases vs@.len() - i,
        {
            let w = match Self::from_wire_value(vs[i], t) {
                Ok(w) => w,
                Err(e) => {
                    assert(!Self::msg_decodable(ds[i as int]));
                    assert(!(forall|k: int| 0 <= k < ds.len() ==> Self::msg_decodable(#[trigger] ds[k])));
                    return Err(e);
                },
            };
            ws.push(w);
            i += 1;
        }
        Ok(ws)
    }

    /// Decoding the fields of a value gives back an equal value.
    #[verifier::rlimit(100)]
    #[verifier::spinoff_prover]
    pub proof fn lemma_round_trip(v: TraceEdge)
        requires
            v.wire_fits(),
        ensures
            Self::wire_decodable(v.wire_fields()),
            forall|w: TraceEdge| Self::decodes_from(v.wire_fields(), w) ==> w.same_as(v),
    {
        broadcast use lemma_zigzag_round_trip, lemma_str_round_trip, DirectionsType::lemma_code_round_trip, Units::lemma_code_round_trip, LocationType::lemma_code_round_trip, PreferredSide::lemma_code_round_trip, CostingModels::lemma_code_round_trip, BicyleType::lemma_code_round_trip, ManeuverType::lemma_code_round_trip, TravelMode::lemma_code_round_trip, TravelType::lemma_code_round_trip, lemma_opt_fixed_round_trip, lemma_opt_u32_round_trip, lemma_opt_u16_round_trip, lemma_opt_u8_round_trip, lemma_opt_bool_round_trip, lemma_opt_str_round_trip, lemma_opt_directions_type_round_trip, lemma_opt_units_round_trip, lemma_opt_location_type_round_trip, lemma_opt_preferred_side_round_trip, lemma_opt_costing_models_round_trip, lemma_opt_bicyle_type_round_trip, lemma_opt_maneuver_type_round_trip, lemma_opt_travel_mode_round_trip, lemma_opt_travel_type_round_trip;

        v.lemma_wire_tags();
        assert(tag_value(v.wire_fields(), 1) == Some(uint_data(v.way_id as u64))) by {
            broadcast use group_codec_lemmas;
        }
        assert(tag_value(v.wire_fields(), 2) == Some(fixed_data(v.length))) by {
            broadcast use group_codec_lemmas;
        }
        assert(tag_value(v.wire_fields(), 3) == opt_fixed_data(v.speed)) by {
            broadcast use group_codec_lemmas;
        }
        assert(tag_value(v.wire_fields(), 4) == Some(uint_data(v.begin_shape_index as u64))) by {
            broadcast use group_codec_lemmas;
        }
        assert(tag_value(v.wire_fields(), 5) == Some(uint_data(v.end_shape_index as u64))) by {
            broadcast use group_codec_lemmas;
        }
        assert(tag_values(v.wire_fields(), 6) == str_data_seq(v.names@)) by {
            broadcast use group_codec_lemmas;
        }
        lemma_str_seq_round_trip(v.names@);
        assert(tag_values(v.wire_fields(), 6) == str_data_seq(v.names@));
        assert forall|w: Self| Self::decodes_from(v.wire_fields(), w) implies w.names@.len() == v.names@.len() && forall|i: int| 0 <= i < w.names@.len() ==> (#[trigger] w.names@[i])@ == v.names@[i]@ by {
            assert forall|i: int| 0 <= i < w.names@.len() implies (#[trigger] w.names@[i])@ == v.names@[i]@ by {
                assert(str_of(tag_values(v.wire_fields(), 6)[i]) == Some(w.names@[i]@));
            }
        }
    }

    /// Decoding a value's nested message gives back an equal value.
    pub proof fn lemma_msg_round_trip(v: TraceEdge)
        requires
            v.msg_fits(),
        ensures
            Self::msg_decodable(v.msg_data()),
            forall|w: TraceEdge| Self::msg_decodes(v.msg_data(), w) ==> w.same_as(v),
    {
        lemma_wire_round_trip(v.wire_fields());
        Self::lemma_round_trip(v);
    }

    pub proof fn lemma_seq_round_trip(xs: Seq<TraceEdge>)
        requires
            Self::seq_fits(xs),
        ensures
            forall|i: int| 0 <= i < xs.len() ==> Self::msg_decodable(#[trigger] Self::msg_data_seq(xs)[i]),
            forall|ws: Seq<TraceEdge>| ws.len() == xs.len() && (forall|i: int| 0 <= i < xs.len() ==> Self::msg_decodes(#[trigger] Self::msg_data_seq(xs)[i], ws[i])) ==> Self::same_seq(ws, xs),
    {
        assert forall|i: int| 0 <= i < xs.len() implies Self::msg_decodable(#[trigger] Self::msg_data_seq(xs)[i]) && (forall|w: TraceEdge| Self::msg_decodes(Self::msg_data_seq(xs)[i], w) ==> w.same_as(xs[i])) by {
            assert(xs[i].msg_fits());
            Self::lemma_msg_round_trip(xs[i]);
        }
        assert forall|ws: Seq<TraceEdge>| ws.len() == xs.len() && (forall|i: int| 0 <= i < xs.len() ==> Self::msg_decodes(#[trigger] Self::msg_data_seq(xs)[i], ws[i])) implies Self::same_seq(ws, xs) by {
            assert forall|i: int| 0 <= i < ws.len() implies (#[trigger] ws[i]).same_as(xs[i]) by {
                assert(Self::msg_decodes(Self::msg_data_seq(xs)[i], ws[i]));
            }
        }
    }

}

impl MatchedPoint {
    /// The fields this value is encoded as.
    pub open spec fn wire_fields(&self) -> Seq<(u32, WireData)> {
        Seq::empty()
            + opt_field(1, Some(fixed_data(self.lat)))
            + opt_field(2, Some(fixed_data(self.lon)))
            + opt_field(3, opt_u32_data(self.edge_index))
            + opt_field(4, opt_fixed_data(self.distance_along_edge))
    }

    /// This value as a nested message.
    pub open spec fn msg_data(&self) -> WireData {
        WireData::Bytes(message_bytes(self.wire_fields()))
    }

    /// The values as nested messages.
    pub open spec fn msg_data_seq(xs: Seq<MatchedPoint>) -> Seq<WireData> {
        xs.map_values(|x: MatchedPoint| x.msg_data())
    }

    /// `fs` holds a `MatchedPoint`: known tags, every required field present, every field of its kind.
    pub open spec fn wire_decodable(fs: Seq<(u32, WireData)>) -> bool {
        &&& tags_within(fs, 4)
        &&& tag_value(fs, 1) matches Some(d) && fixed_of(d) is Some
        &&& tag_value(fs, 2) matches Some(d) && fixed_of(d) is Some
        &&& opt_u32_of(tag_value(fs, 3)) is Some
        &&& opt_fixed_of(tag_value(fs, 4)) is Some
    }

    /// `w` is what `fs` holds.
    pub open spec fn decodes_from(fs: Seq<(u32, WireData)>, w: MatchedPoint) -> bool {
        &&& tag_value(fs, 1) matches Some(d) && fixed_of(d) == Some(w.lat)
        &&& tag_value(fs, 2) matches Some(d) && fixed_of(d) == Some(w.lon)
        &&& opt_u32_of(tag_value(fs, 3)) == Some(w.edge_index)
        &&& opt_fixed_of(tag_value(fs, 4)) == Some(w.distance_along_edge)
    }

    /// `d` is a nested message that holds a `MatchedPoint`.
    pub open spec fn msg_decodable(d: WireData) -> bool {
        &&& d is Bytes
        &&& parse_message(d->Bytes_0, 0) matches Some(fs) && Self::wire_decodable(fs)
    }

    /// `w` is what the nested message `d` holds.
    pub open spec fn msg_decodes(d: WireData, w: MatchedPoint) -> bool {
        &&& d is Bytes
        &&& parse_message(d->Bytes_0, 0) matches Some(fs) && Self::decodes_from(fs, w)
    }

    /// The two values agree in every field.
    pub open spec fn same_as(self, o: MatchedPoint) -> bool {
        &&& self.lat == o.lat
        &&& self.lon == o.lon
        &&& self.edge_index == o.edge_index
        &&& self.distance_along_edge == o.distance_along_edge
    }

    /// The two sequences agree element by element.
    pub open spec fn same_seq(a: Seq<MatchedPoint>, b: Seq<MatchedPoint>) -> bool {
        &&& a.len() == b.len()
        &&& forall|i: int| 0 <= i < a.len() ==> (#[trigger] a[i]).same_as(b[i])
    }

    /// Every nested message of this value fits a length prefix.
    pub open spec fn wire_fits(&self) -> bool {
        true
    }

    /// This value's encoding as a nested message can be decoded.
    pub open spec fn msg_fits(&self) -> bool {
        fields_ok(self.wire_fields()) && self.wire_fits()
    }

    /// Every value of the sequence fits.
    pub open spec fn seq_fits(xs: Seq<MatchedPoint>) -> bool {
        forall|i: int| 0 <= i < xs.len() ==> (#[trigger] xs[i]).msg_fits()
    }

    pub proof fn lemma_wire_tags(&self)
        ensures
            tags_within(self.wire_fields(), 4),
    {
        broadcast use group_codec_lemmas;

        assert(tags_within(Seq::<(u32, WireData)>::empty(), 4));
        lemma_tags_widen(opt_field(1, Some(fixed_data(self.lat))), 1, 4);
        lemma_tags_widen(opt_field(2, Some(fixed_data(self.lon))), 2, 4);
        lemma_tags_widen(opt_field(3, opt_u32_data(self.edge_index)), 3, 4);
        lemma_tags_widen(opt_field(4, opt_fixed_data(self.distance_along_edge)), 4, 4);
    }

    /// The fields this value is encoded as.
    pub fn to_wire_fields(&self) -> (r: Vec<WireField>)
        ensures
            fields_view(r@) == self.wire_fields(),
    {
        let mut fs: Vec<WireField> = Vec::new();
        assert(fields_view(fs@) =~= Seq::<(u32, WireData)>::empty());
        let ghost before = fields_view(fs@);
        fs.push(WireField { tag: 1, value: fixed_value(self.lat) });
        assert(fields_view(fs@) =~= before + opt_field(1, Some(fixed_data(self.lat))));
        let ghost before = fields_view(fs@);
        fs.push(WireField { tag: 2, value: fixed_value(self.lon) });
        assert(fields_view(fs@) =~= before + opt_field(2, Some(fixed_data(self.lon))));
        let ghost before = fields_view(fs@);
        push_opt_u32(&mut fs, 3, self.edge_index);
        assert(fields_view(fs@) =~= before + opt_field(3, opt_u32_data(self.edge_index)));
        let ghost before = fields_view(fs@);
        push_opt_fixed(&mut fs, 4, self.distance_along_edge);
        assert(fields_view(fs@) =~= before + opt_field(4, opt_fixed_data(self.distance_along_edge)));
        fs
    }

    /// This value as a nested message.
    pub fn to_wire_value(&self) -> (r: WireValue)
        ensures
            r@ == self.msg_data(),
    {
        let fs = self.to_wire_fields();
        proof {
            self.lemma_wire_tags();
        }
        WireValue::Bytes(encode_message(&fs))
    }

    /// Appends one field with tag `t` per value.
    pub fn push_all(xs: &Vec<MatchedPoint>, t: u32, fs: &mut Vec<WireField>)
        ensures
            fields_view(final(fs)@) == fields_view(old(fs)@) + rep_field(t, Self::msg_data_seq(xs@)),
    {
        let ghost start = fields_view(fs@);
        let mut i: usize = 0;
        while i < xs.len()
            invariant
                i <= xs@.len(),
                fields_view(fs@) == start + rep_field(t, Self::msg_data_seq(xs@.subrange(0, i as int))),
            decreases xs@.len() - i,
        {
            let ghost pre = fields_view(fs@);
            let value = xs[i].to_wire_value();
            fs.push(WireField { tag: t, value });
            proof {
                assert(Self::msg_data_seq(xs@.subrange(0, i + 1)) =~= Self::msg_data_seq(
                    xs@.subrange(0, i as int),
                ).push(xs@[i as int].msg_data()));
                assert(fields_view(fs@) =~= pre.push((t, xs@[i as int].msg_data())));
                assert(rep_field(t, Self::msg_data_seq(xs@.subrange(0, i + 1))) =~= rep_field(
                    t,
                    Self::msg_data_seq(xs@.subrange(0, i as int)),
                ).push((t, xs@[i as int].msg_data())));
            }
            i += 1;
        }
        assert(xs@.subrange(0, xs@.len() as int) =~= xs@);
    }

    /// The `MatchedPoint` that `fs` holds.
    pub fn from_wire_fields(fs: &Vec<WireField>) -> (r: Result<MatchedPoint, CodecError>)
        ensures
            r is Ok <==> Self::wire_decodable(fields_view(fs@)),
            r matches Ok(w) ==> Self::decodes_from(fields_view(fs@), w),
    {
        check_tags(fs, 4)?;
        let lat = match last_with_tag(fs, 1) {
            Some(v) => match read_fixed(v) {
                Some(x) => x,
                None => return Err(CodecError::BadValue(1)),
            },
            None => return Err(CodecError::MissingField(1)),
        };
        let lon = match last_with_tag(fs, 2) {
            Some(v) => match read_fixed(v) {
                Some(x) => x,
                None => return Err(CodecError::BadValue(2)),
            },
            None => return Err(CodecError::MissingField(2)),
        };
        let edge_index = read_opt_u32(fs, 3)?;
        let distance_along_edge = read_opt_fixed(fs, 4)?;
        Ok(MatchedPoint { lat, lon, edge_index, distance_along_edge })
    }

    /// The `MatchedPoint` that the nested message `v` holds.
    pub fn from_wire_value(v: &WireValue, t: u32) -> (r: Result<MatchedPoint, CodecError>)
        ensures
            r is Ok <==> Self::msg_decodable(v@),
            r matches Ok(w) ==> Self::msg_decodes(v@, w),
    {
        match v {
            WireValue::Bytes(b) => match decode_message(b.as_slice()) {
                Ok(fs) => Self::from_wire_fields(&fs),
                Err(e) => Err(CodecError::Wire(e)),
            },
            WireValue::Varint(_) => Err(CodecError::BadValue(t)),
        }
    }

    /// The values of all fields with tag `t`, each a nested `MatchedPoint`.
    pub fn read_all(fs: &Vec<WireField>, t: u32) -> (r: Result<Vec<MatchedPoint>, CodecError>)
        ensures
            r is Ok <==> forall|i: int| 0 <= i < tag_values(fields_view(fs@), t).len() ==> Self::msg_decodable(#[trigger] tag_values(fields_view(fs@), t)[i]),
            r matches Ok(ws) ==> ws@.len() == tag_values(fields_view(fs@), t).len() && forall|i: int| 0 <= i < ws@.len() ==> Self::msg_decodes(#[trigger] tag_values(fields_view(fs@), t)[i], ws@[i]),
    {
        let vs = all_with_tag(fs, t);
        let ghost ds = tag_values(fields_view(fs@), t);
        let mut ws: Vec<MatchedPoint> = Vec::new();
        let mut i: usize = 0;
        while i < vs.len()
            invariant
                i <= vs@.len(),
                ds == tag_values(fields_view(fs@), t),
                vs@.len() == ds.len(),
                forall|k: int| 0 <= k < vs@.len() ==> (#[trigger] vs@[k])@ == ds[k],
                ws@.len() == i,
                forall|k: int| 0 <= k < i ==> Self::msg_decodable(#[trigger] ds[k]),
                forall|k: int| 0 <= k < i ==> Self::msg_decodes(#[trigger] ds[k], ws@[k]),
            decreases vs@.len() - i,
        {
            let w = match Self::from_wire_value(vs[i], t) {
                Ok(w) => w,
                Err(e) => {
                    assert(!Self::msg_decodable(ds[i as int]));
                    assert(!(forall|k: int| 0 <= k < ds.len() ==> Self::msg_decodable(#[trigger] ds[k])));
                    return Err(e);
                },
            };
            ws.push(w);
            i += 1;
        }
        Ok(ws)
    }

    /// Decoding the fields of a value gives back an equal value.
    #[verifier::rlimit(100)]
    #[verifier::spinoff_prover]
    pub proof fn lemma_round_trip(v: MatchedPoint)
        requires
            v.wire_fits(),
        ensures
            Self::wire_decodable(v.wire_fields()),
            forall|w: MatchedPoint| Self::decodes_from(v.wire_fields(), w) ==> w.same_as(v),
    {
        broadcast use lemma_zigzag_round_trip, lemma_str_round_trip, DirectionsType::lemma_code_round_trip, Units::lemma_code_round_trip, LocationType::lemma_code_round_trip, PreferredSide::lemma_code_round_trip, CostingModels::lemma_code_round_trip, BicyleType::lemma_code_round_trip, ManeuverType::lemma_code_round_trip, TravelMode::lemma_code_round_trip, TravelType::lemma_code_round_trip, lemma_opt_fixed_round_trip, lemma_opt_u32_round_trip, lemma_opt_u16_round_trip, lemma_opt_u8_round_trip, lemma_opt_bool_round_trip, lemma_opt_str_round_trip, lemma_opt_directions_type_round_trip, lemma_opt_units_round_trip, lemma_opt_location_type_round_trip, lemma_opt_preferred_side_round_trip, lemma_opt_costing_models_round_trip, lemma_opt_bicyle_type_round_trip, lemma_opt_maneuver_type_round_trip, lemma_opt_travel_mode_round_trip, lemma_opt_travel_type_round_trip;

        v.lemma_wire_tags();
        assert(tag_value(v.wire_fields(), 1) == Some(fixed_data(v.lat))) by {
            broadcast use group_codec_lemmas;
        }
        assert(tag_value(v.wire_fields(), 2) == Some(fixed_data(v.lon))) by {
            broadcast use group_codec_lemmas;
        }
        assert(tag_value(v.wire_fields(), 3) == opt_u32_data(v.edge_index)) by {
            broadcast use group_codec_lemmas;
        }
        assert(tag_value(v.wire_fields(), 4) == opt_fixed_data(v.distance_along_edge)) by {
            broadcast use group_codec_lemmas;
        }
    }

    /// Decoding a value's nested message gives back an equal value.
    pub proof fn lemma_msg_round_trip(v: MatchedPoint)
        requires
            v.msg_fits(),
        ensures
            Self::msg_decodable(v.msg_data()),
            forall|w: MatchedPoint| Self::msg_decodes(v.msg_data(), w) ==> w.same_as(v),
    {
        lemma_wire_round_trip(v.wire_fields());
        Self::lemma_round_trip(v);
    }

    pub proof fn lemma_seq_round_trip(xs: Seq<MatchedPoint>)
        requires
            Self::seq_fits(xs),
        ensures
            forall|i: int| 0 <= i < xs.len() ==> Self::msg_decodable(#[trigger] Self::msg_data_seq(xs)[i]),
            forall|ws: Seq<MatchedPoint>| ws.len() == xs.len() && (forall|i: int| 0 <= i < xs.len() ==> Self::msg_decodes(#[trigger] Self::msg_data_seq(xs)[i], ws[i])) ==> Self::same_seq(ws, xs),
    {
        assert forall|i: int| 0 <= i < xs.len() implies Self::msg_decodable(#[trigger] Self::msg_data_seq(xs)[i]) && (forall|w: MatchedPoint| Self::msg_decodes(Self::msg_data_seq(xs)[i], w) ==> w.same_as(xs[i])) by {
            assert(xs[i].msg_fits());
            Self::lemma_msg_round_trip(xs[i]);
        }
        assert forall|ws: Seq<MatchedPoint>| ws.len() == xs.len() && (forall|i: int| 0 <= i < xs.len() ==> Self::msg_decodes(#[trigger] Self::msg_data_seq(xs)[i], ws[i])) implies Self::same_seq(ws, xs) by {
            assert forall|i: int| 0 <= i < ws.len() implies (#[trigger] ws[i]).same_as(xs[i]) by {
                assert(Self::msg_decodes(Self::msg_data_seq(xs)[i], ws[i]));
            }
        }
    }

}

impl TraceAttributesOutput {
    /// The fields this value is encoded as.
    pub open spec fn wire_fields(&self) -> Seq<(u32, WireData)> {
        Seq::empty()
            + rep_field(1, TraceEdge::msg_data_seq(self.edges@))
            + rep_field(2, MatchedPoint::msg_data_seq(self.matched_points@))
            + opt_field(3, opt_str_data(self.shape))
            + opt_field(4, opt_units_data(self.units))
            + opt_field(5, opt_str_data(self.id))
    }

    /// This value as a nested message.
    pub open spec fn msg_data(&self) -> WireData {
        WireData::Bytes(message_bytes(self.wire_fields()))
    }

    /// The values as nested messages.
    pub open spec fn msg_data_seq(xs: Seq<TraceAttributesOutput>) -> Seq<WireData> {
        xs.map_values(|x: TraceAttributesOutput| x.msg_data())
    }

    /// `fs` holds a `TraceAttributesOutput`: known tags, every required field present, every field of its kind.
    pub open spec fn wire_decodable(fs: Seq<(u32, WireData)>) -> bool {
        &&& tags_within(fs, 5)
        &&& forall|i: int| 0 <= i < tag_values(fs, 1).len() ==> TraceEdge::msg_decodable(#[trigger] tag_values(fs, 1)[i])
        &&& forall|i: int| 0 <= i < tag_values(fs, 2).len() ==> MatchedPoint::msg_decodable(#[trigger] tag_values(fs, 2)[i])
        &&& opt_str_of(tag_value(fs, 3)) is Some
        &&& opt_units_of(tag_value(fs, 4)) is Some
        &&& opt_str_of(tag_value(fs, 5)) is Some
    }

    /// `w` is what `fs` holds.
    pub open spec fn decodes_from(fs: Seq<(u32, WireData)>, w: TraceAttributesOutput) -> bool {
        &&& w.edges@.len() == tag_values(fs, 1).len() && forall|i: int| 0 <= i < tag_values(fs, 1).len() ==> TraceEdge::msg_decodes(#[trigger] tag_values(fs, 1)[i], w.edges@[i])
        &&& w.matched_points@.len() == tag_values(fs, 2).len() && forall|i: int| 0 <= i < tag_values(fs, 2).len() ==> MatchedPoint::msg_decodes(#[trigger] tag_values(fs, 2)[i], w.matched_points@[i])
        &&& opt_str_of(tag_value(fs, 3)) == Some(opt_str_view(w.shape))
        &&& opt_units_of(tag_value(fs, 4)) == Some(w.units)
        &&& opt_str_of(tag_value(fs, 5)) == Some(opt_str_view(w.id))
    }

    /// `d` is a nested message that holds a `TraceAttributesOutput`.
    pub open spec fn msg_decodable(d: WireData) -> bool {
        &&& d is Bytes
        &&& parse_message(d->Bytes_0, 0) matches Some(fs) && Self::wire_decodable(fs)
    }

    /// `w` is what the nested message `d` holds.
    pub open spec fn msg_decodes(d: WireData, w: TraceAttributesOutput) -> bool {
        &&& d is Bytes
        &&& parse_message(d->Bytes_0, 0) matches Some(fs) && Self::decodes_from(fs, w)
    }

    /// The two values agree in every field.
    pub open spec fn same_as(self, o: TraceAttributesOutput) -> bool {
        &&& TraceEdge::same_seq(self.edges@, o.edges@)
        &&& MatchedPoint::same_seq(self.matched_points@, o.matched_points@)
        &&& opt_str_view(self.shape) == opt_str_view(o.shape)
        &&& self.units == o.units
        &&& opt_str_view(self.id) == opt_str_view(o.id)
    }

    /// The two sequences agree element by element.
    pub open spec fn same_seq(a: Seq<TraceAttributesOutput>, b: Seq<TraceAttributesOutput>) -> bool {
        &&& a.len() == b.len()
        &&& forall|i: int| 0 <= i < a.len() ==> (#[trigger] a[i]).same_as(b[i])
    }

    /// Every nested message of this value fits a length prefix.
    pub open spec fn wire_fits(&self) -> bool {
        &&& TraceEdge::seq_fits(self.edges@)
        &&& MatchedPoint::seq_fits(self.matched_points@)
    }

    /// This value's encoding as a nested message can be decoded.
    pub open spec fn msg_fits(&self) -> bool {
        fields_ok(self.wire_fields()) && self.wire_fits()
    }

    /// Every value of the sequence fits.
    pub open spec fn seq_fits(xs: Seq<TraceAttributesOutput>) -> bool {
        forall|i: int| 0 <= i < xs.len() ==> (#[trigger] xs[i]).msg_fits()
    }

    pub proof fn lemma_wire_tags(&self)
        ensures
            tags_within(self.wire_fields(), 5),
    {
        broadcast use group_codec_lemmas;

        assert(tags_within(Seq::<(u32, WireData)>::empty(), 5));
        lemma_tags_widen(rep_field(1, TraceEdge::msg_data_seq(self.edges@)), 1, 5);
        lemma_tags_widen(rep_field(2, MatchedPoint::msg_data_seq(self.matched_points@)), 2, 5);
        lemma_tags_widen(opt_field(3, opt_str_data(self.shape)), 3, 5);
        lemma_tags_widen(opt_field(4, opt_units_data(self.units)), 4, 5);
        lemma_tags_widen(opt_field(5, opt_str_data(self.id)), 5, 5);
    }

    /// The fields this value is encoded as.
    pub fn to_wire_fields(&self) -> (r: Vec<WireField>)
        ensures
            fields_view(r@) == self.wire_fields(),
    {
        let mut fs: Vec<WireField> = Vec::new();
        assert(fields_view(fs@) =~= Seq::<(u32, WireData)>::empty());
        let ghost before = fields_view(fs@);
        TraceEdge::push_all(&self.edges, 1, &mut fs);
        assert(fields_view(fs@) =~= before + rep_field(1, TraceEdge::msg_data_seq(self.edges@)));
        let ghost before = fields_view(fs@);
        MatchedPoint::push_all(&self.matched_points, 2, &mut fs);
        assert(fields_view(fs@) =~= before + rep_field(2, MatchedPoint::msg_data_seq(self.matched_points@)));
        let ghost before = fields_view(fs@);
        push_opt_str(&mut fs, 3, &self.shape);
        assert(fields_view(fs@) =~= before + opt_field(3, opt_str_data(self.shape)));
        let ghost before = fields_view(fs@);
        push_opt_units(&mut fs, 4, self.units);
        assert(fields_view(fs@) =~= before + opt_field(4, opt_units_data(self.units)));
        let ghost before = fields_view(fs@);
        push_opt_str(&mut fs, 5, &self.id);
        assert(fields_view(fs@) =~= before + opt_field(5, opt_str_data(self.id)));
        fs
    }

    /// This value as a nested message.
    pub fn to_wire_value(&self) -> (r: WireValue)
        ensures
            r@ == self.msg_data(),
    {
        let fs = self.to_wire_fields();
        proof {
            self.lemma_wire_tags();
        }
        WireValue::Bytes(encode_message(&fs))
    }

    /// The `TraceAttributesOutput` that `fs` holds.
    pub fn from_wire_fields(fs: &Vec<WireField>) -> (r: Result<TraceAttributesOutput, CodecError>)
        ensures
            r is Ok <==> Self::wire_decodable(fields_view(fs@)),
            r matches Ok(w) ==> Self::decodes_from(fields_view(fs@), w),
    {
        check_tags(fs, 5)?;
        let edges = TraceEdge::read_all(fs, 1)?;
        let matched_points = MatchedPoint::read_all(fs, 2)?;
        let shape = read_opt_str(fs, 3)?;
        let units = read_opt_units(fs, 4)?;
        let id = read_opt_str(fs, 5)?;
        Ok(TraceAttributesOutput { edges, matched_points, shape, units, id })
    }

    /// The `TraceAttributesOutput` that the nested message `v` holds.
    pub fn from_wire_value(v: &WireValue, t: u32) -> (r: Result<TraceAttributesOutput, CodecError>)
        ensures
            r is Ok <==> Self::msg_decodable(v@),
            r matches Ok(w) ==> Self::msg_decodes(v@, w),
    {
        match v {
            WireValue::Bytes(b) => match decode_message(b.as_slice()) {
                Ok(fs) => Self::from_wire_fields(&fs),
                Err(e) => Err(CodecError::Wire(e)),
            },
            WireValue::Varint(_) => Err(CodecError::BadValue(t)),
        }
    }

    /// Decoding the fields of a value gives back an equal value.
    #[verifier::rlimit(100)]
    #[verifier::spinoff_prover]
    pub proof fn lemma_round_trip(v: TraceAttributesOutput)
        requires
            v.wire_fits(),
        ensures
            Self::wire_decodable(v.wire_fields()),
            forall|w: TraceAttributesOutput| Self::decodes_from(v.wire_fields(), w) ==> w.same_as(v),
    {
        broadcast use lemma_zigzag_round_trip, lemma_str_round_trip, DirectionsType::lemma_code_round_trip, Units::lemma_code_round_trip, LocationType::lemma_code_round_trip, PreferredSide::lemma_code_round_trip, CostingModels::lemma_code_round_trip, BicyleType::lemma_code_round_trip, ManeuverType::lemma_code_round_trip, TravelMode::lemma_code_round_trip, TravelType::lemma_code_round_trip, lemma_opt_fixed_round_trip, lemma_opt_u32_round_trip, lemma_opt_u16_round_trip, lemma_opt_u8_round_trip, lemma_opt_bool_round_trip, lemma_opt_str_round_trip, lemma_opt_directions_type_round_trip, lemma_opt_units_round_trip, lemma_opt_location_type_round_trip, lemma_opt_preferred_side_round_trip, lemma_opt_costing_models_round_trip, lemma_opt_bicyle_type_round_trip, lemma_opt_maneuver_type_round_trip, lemma_opt_travel_mode_round_trip, lemma_opt_travel_type_round_trip;

        v.lemma_wire_tags();
        assert(tag_values(v.wire_fields(), 1) == TraceEdge::msg_data_seq(v.edges@)) by {
            broadcast use group_codec_lemmas;
        }
        assert(tag_values(v.wire_fields(), 2) == MatchedPoint::msg_data_seq(v.matched_points@)) by {
            broadcast use group_codec_lemmas;
        }
        assert(tag_value(v.wire_fields(), 3) == opt_str_data(v.shape)) by {
            broadcast use group_codec_lemmas;
        }
        assert(tag_value(v.wire_fields(), 4) == opt_units_data(v.units)) by {
            broadcast use group_codec_lemmas;
        }
        assert(tag_value(v.wire_fields(), 5) == opt_str_data(v.id)) by {
            broadcast use group_codec_lemmas;
        }
        TraceEdge::lemma_seq_round_trip(v.edges@);
        MatchedPoint::lemma_seq_round_trip(v.matched_points@);
    }

    /// Decoding a value's nested message gives back an equal value.
    pub proof fn lemma_msg_round_trip(v: TraceAttributesOutput)
        requires
            v.msg_fits(),
        ensures
            Self::msg_decodable(v.msg_data()),
            forall|w: TraceAttributesOutput| Self::msg_decodes(v.msg_data(), w) ==> w.same_as(v),
    {
        lemma_wire_round_trip(v.wire_fields());
        Self::lemma_round_trip(v);
    }

}

impl TransitAvailability {
    /// The fields this value is encoded as.
    pub open spec fn wire_fields(&self) -> Seq<(u32, WireData)> {
        Seq::empty()
            + opt_field(1, Some(fixed_data(self.lat)))
            + opt_field(2, Some(fixed_data(self.lon)))
            + opt_field(3, Some(uint_data(self.radius as u64)))
            + opt_field(4, Some(bool_data(self.is_transit)))
    }

    /// This value as a nested message.
    pub open spec fn msg_data(&self) -> WireData {
        WireData::Bytes(message_bytes(self.wire_fields()))
    }

    /// The values as nested messages.
    pub open spec fn msg_data_seq(xs: Seq<TransitAvailability>) -> Seq<WireData> {
        xs.map_values(|x: TransitAvailability| x.msg_data())
    }

    /// `fs` holds a `TransitAvailability`: known tags, every required field present, every field of its kind.
    pub open spec fn wire_decodable(fs: Seq<(u32, WireData)>) -> bool {
        &&& tags_within(fs, 4)
        &&& tag_value(fs, 1) matches Some(d) && fixed_of(d) is Some
        &&& tag_value(fs, 2) matches Some(d) && fixed_of(d) is Some
        &&& tag_value(fs, 3) matches Some(d) && uint_of(d, 0xFFFF_FFFF) is Some
        &&& tag_value(fs, 4) matches Some(d) && bool_of(d) is Some
    }

    /// `w` is what `fs` holds.
    pub open spec fn decodes_from(fs: Seq<(u32, WireData)>, w: TransitAvailability) -> bool {
        &&& tag_value(fs, 1) matches Some(d) && fixed_of(d) == Some(w.lat)
        &&& tag_value(fs, 2) matches Some(d) && fixed_of(d) == Some(w.lon)
        &&& tag_value(fs, 3) matches Some(d) && uint_of(d, 0xFFFF_FFFF) == Some(w.radius as u64)
        &&& tag_value(fs, 4) matches Some(d) && bool_of(d) == Some(w.is_transit)
    }

    /// `d` is a nested message that holds a `TransitAvailability`.
    pub open spec fn msg_decodable(d: WireData) -> bool {
        &&& d is Bytes
        &&& parse_message(d->Bytes_0, 0) matches Some(fs) && Self::wire_decodable(fs)
    }

    /// `w` is what the nested message `d` holds.
    pub open spec fn msg_decodes(d: WireData, w: TransitAvailability) -> bool {
        &&& d is Bytes
        &&& parse_message(d->Bytes_0, 0) matches Some(fs) && Self::decodes_from(fs, w)
    }

    /// The two values agree in every field.
    pub open spec fn same_as(self, o: TransitAvailability) -> bool {
        &&& self.lat == o.lat
        &&& self.lon == o.lon
        &&& self.radius == o.radius
        &&& self.is_transit == o.is_transit
    }

    /// The two sequences agree element by element.
    pub open spec fn same_seq(a: Seq<TransitAvailability>, b: Seq<TransitAvailability>) -> bool {
        &&& a.len() == b.len()
        &&& forall|i: int| 0 <= i < a.len() ==> (#[trigger] a[i]).same_as(b[i])
    }

    /// Every nested message of this value fits a length prefix.
    pub open spec fn wire_fits(&self) -> bool {
        true
    }

    /// This value's encoding as a nested message can be decoded.
    pub open spec fn msg_fits(&self) -> bool {
        fields_ok(self.wire_fields()) && self.wire_fits()
    }

    /// Every value of the sequence fits.
    pub open spec fn seq_fits(xs: Seq<TransitAvailability>) -> bool {
        forall|i: int| 0 <= i < xs.len() ==> (#[trigger] xs[i]).msg_fits()
    }

    pub proof fn lemma_wire_tags(&self)
        ensures
            tags_within(self.wire_fields(), 4),
    {
        broadcast use group_codec_lemmas;

        assert(tags_within(Seq::<(u32, WireData)>::empty(), 4));
        lemma_tags_widen(opt_field(1, Some(fixed_data(self.lat))), 1, 4);
        lemma_tags_widen(opt_field(2, Some(fixed_data(self.lon))), 2, 4);
        lemma_tags_widen(opt_field(3, Some(uint_data(self.radius as u64))), 3, 4);
        lemma_tags_widen(opt_field(4, Some(bool_data(self.is_transit))), 4, 4);
    }

    /// The fields this value is encoded as.
    pub fn to_wire_fields(&self) -> (r: Vec<WireField>)
        ensures
            fields_view(r@) == self.wire_fields(),
    {
        let mut fs: Vec<WireField> = Vec::new();
        assert(fields_view(fs@) =~= Seq::<(u32, WireData)>::empty());
        let ghost before = fields_view(fs@);
        fs.push(WireField { tag: 1, value: fixed_value(self.lat) });
        assert(fields_view(fs@) =~= before + opt_field(1, Some(fixed_data(self.lat))));
        let ghost before = fields_view(fs@);
        fs.push(WireField { tag: 2, value: fixed_value(self.lon) });
        assert(fields_view(fs@) =~= before + opt_field(2, Some(fixed_data(self.lon))));
        let ghost before = fields_view(fs@);
        fs.push(WireField { tag: 3, value: uint_value(self.radius as u64) });
        assert(fields_view(fs@) =~= before + opt_field(3, Some(uint_data(self.radius as u64))));
        let ghost before = fields_view(fs@);
        fs.push(WireField { tag: 4, value: bool_value(self.is_transit) });
        assert(fields_view(fs@) =~= before + opt_field(4, Some(bool_data(self.is_transit))));
        fs
    }

    /// This value as a nested message.
    pub fn to_wire_value(&self) -> (r: WireValue)
        ensures
            r@ == self.msg_data(),
    {
        let fs = self.to_wire_fields();
        proof {
            self.lemma_wire_tags();
        }
        WireValue::Bytes(encode_message(&fs))
    }

    /// Appends one field with tag `t` per value.
    pub fn push_all(xs: &Vec<TransitAvailability>, t: u32, fs: &mut Vec<WireField>)
        ensures
            fields_view(final(fs)@) == fields_view(old(fs)@) + rep_field(t, Self::msg_data_seq(xs@)),
    {
        let ghost start = fields_view(fs@);
        let mut i: usize = 0;
        while i < xs.len()
            invariant
                i <= xs@.len(),
                fields_view(fs@) == start + rep_field(t, Self::msg_data_seq(xs@.subrange(0, i as int))),
            decreases xs@.len() - i,
        {
            let ghost pre = fields_view(fs@);
            let value = xs[i].to_wire_value();
            fs.push(WireField { tag: t, value });
            proof {
                assert(Self::msg_data_seq(xs@.subrange(0, i + 1)) =~= Self::msg_data_seq(
                    xs@.subrange(0, i as int),
                ).push(xs@[i as int].msg_data()));
                assert(fields_view(fs@) =~= pre.push((t, xs@[i as int].msg_data())));
                assert(rep_field(t, Self::msg_data_seq(xs@.subrange(0, i + 1))) =~= rep_field(
                    t,
                    Self::msg_data_seq(xs@.subrange(0, i as int)),
                ).push((t, xs@[i as int].msg_data())));
            }
            i += 1;
        }
        assert(xs@.subrange(0, xs@.len() as int) =~= xs@);
    }

    /// The `TransitAvailability` that `fs` holds.
    pub fn from_wire_fields(fs: &Vec<WireField>) -> (r: Result<TransitAvailability, CodecError>)
        ensures
            r is Ok <==> Self::wire_decodable(fields_view(fs@)),
            r matches Ok(w) ==> Self::decodes_from(fields_view(fs@), w),
    {
        check_tags(fs, 4)?;
        let lat = match last_with_tag(fs, 1) {
            Some(v) => match read_fixed(v) {
                Some(x) => x,
                None => return Err(CodecError::BadValue(1)),
            },
            None => return Err(CodecError::MissingField(1)),
        };
        let lon = match last_with_tag(fs, 2) {
            Some(v) => match read_fixed(v) {
                Some(x) => x,
                None => return Err(CodecError::BadValue(2)),
            },
            None => return Err(CodecError::MissingField(2)),
        };
        let radius = match last_with_tag(fs, 3) {
            Some(v) => match read_uint(v, 0xFFFF_FFFF) {
                Some(x) => x as u32,
                None => return Err(CodecError::BadValue(3)),
            },
            None => return Err(CodecError::MissingField(3)),
        };
        let is_transit = match last_with_tag(fs, 4) {
            Some(v) => match read_bool(v) {
                Some(x) => x,
                None => return Err(CodecError::BadValue(4)),
            },
            None => return Err(CodecError::MissingField(4)),
        };
        Ok(TransitAvailability { lat, lon, radius, is_transit })
    }

    /// The `TransitAvailability` that the nested message `v` holds.
    pub fn from_wire_value(v: &WireValue, t: u32) -> (r: Result<TransitAvailability, CodecError>)
        ensures
            r is Ok <==> Self::msg_decodable(v@),
            r matches Ok(w) ==> Self::msg_decodes(v@, w),
    {
        match v {
            WireValue::Bytes(b) => match decode_message(b.as_slice()) {
                Ok(fs) => Self::from_wire_fields(&fs),
                Err(e) => Err(CodecError::Wire(e)),
            },
            WireValue::Varint(_) => Err(CodecError::BadValue(t)),
        }
    }

    /// The values of all fields with tag `t`, each a nested `TransitAvailability`.
    pub fn read_all(fs: &Vec<WireField>, t: u32) -> (r: Result<Vec<TransitAvailability>, CodecError>)
        ensures
            r is Ok <==> forall|i: int| 0 <= i < tag_values(fields_view(fs@), t).len() ==> Self::msg_decodable(#[trigger] tag_values(fields_view(fs@), t)[i]),
            r matches Ok(ws) ==> ws@.len() == tag_values(fields_view(fs@), t).len() && forall|i: int| 0 <= i < ws@.len() ==> Self::msg_decodes(#[trigger] tag_values(fields_view(fs@), t)[i], ws@[i]),
    {
        let vs = all_with_tag(fs, t);
        let ghost ds = tag_values(fields_view(fs@), t);
        let mut ws: Vec<TransitAvailability> = Vec::new();
        let mut i: usize = 0;
        while i < vs.len()
            invariant
                i <= vs@.len(),
                ds == tag_values(fields_view(fs@), t),
                vs@.len() == ds.len(),
                forall|k: int| 0 <= k < vs@.len() ==> (#[trigger] vs@[k])@ == ds[k],
                ws@.len() == i,
                forall|k: int| 0 <= k < i ==> Self::msg_decodable(#[trigger] ds[k]),
                forall|k: int| 0 <= k < i ==> Self::msg_decodes(#[trigger] ds[k], ws@[k]),
            decreases vs@.len() - i,
        {
            let w = match Self::from_wire_value(vs[i], t) {
                Ok(w) => w,
                Err(e) => {
                    assert(!Self::msg_decodable(ds[i as int]));
                    assert(!(forall|k: int| 0 <= k < ds.len() ==> Self::msg_decodable(#[trigger] ds[k])));
                    return Err(e);
                },
            };
            ws.push(w);
            i += 1;
        }
        Ok(ws)
    }

    /// Decoding the fields of a value gives back an equal value.
    #[verifier::rlimit(100)]
    #[verifier::spinoff_prover]
    pub proof fn lemma_round_trip(v: TransitAvailability)
        requires
            v.wire_fits(),
        ensures
            Self::wire_decodable(v.wire_fields()),
            forall|w: TransitAvailability| Self::decodes_from(v.wire_fields(), w) ==> w.same_as(v),
    {
        broadcast use lemma_zigzag_round_trip, lemma_str_round_trip, DirectionsType::lemma_code_round_trip, Units::lemma_code_round_trip, LocationType::lemma_code_round_trip, PreferredSide::lemma_code_round_trip, CostingModels::lemma_code_round_trip, BicyleType::lemma_code_round_trip, ManeuverType::lemma_code_round_trip, TravelMode::lemma_code_round_trip, TravelType::lemma_code_round_trip, lemma_opt_fixed_round_trip, lemma_opt_u32_round_trip, lemma_opt_u16_round_trip, lemma_opt_u8_round_trip, lemma_opt_bool_round_trip, lemma_opt_str_round_trip, lemma_opt_directions_type_round_trip, lemma_opt_units_round_trip, lemma_opt_location_type_round_trip, lemma_opt_preferred_side_round_trip, lemma_opt_costing_models_round_trip, lemma_opt_bicyle_type_round_trip, lemma_opt_maneuver_type_round_trip, lemma_opt_travel_mode_round_trip, lemma_opt_travel_type_round_trip;

        v.lemma_wire_tags();
        assert(tag_value(v.wire_fields(), 1) == Some(fixed_data(v.lat))) by {
            broadcast use group_codec_lemmas;
        }
        assert(tag_value(v.wire_fields(), 2) == Some(fixed_data(v.lon))) by {
            broadcast use group_codec_lemmas;
        }
        assert(tag_value(v.wire_fields(), 3) == Some(uint_data(v.radius as u64))) by {
            broadcast use group_codec_lemmas;
        }
        assert(tag_value(v.wire_fields(), 4) == Some(bool_data(v.is_transit))) by {
            broadcast use group_codec_lemmas;
        }
    }

    /// Decoding a value's nested message gives back an equal value.
    pub proof fn lemma_msg_round_trip(v: TransitAvailability)
        requires
            v.msg_fits(),
        ensures
            Self::msg_decodable(v.msg_data()),
            forall|w: TransitAvailability| Self::msg_decodes(v.msg_data(), w) ==> w.same_as(v),
    {
        lemma_wire_round_trip(v.wire_fields());
        Self::lemma_round_trip(v);
    }

    pub proof fn lemma_seq_round_trip(xs: Seq<TransitAvailability>)
        requires
            Self::seq_fits(xs),
        ensures
            forall|i: int| 0 <= i < xs.len() ==> Self::msg_decodable(#[trigger] Self::msg_data_seq(xs)[i]),
            forall|ws: Seq<TransitAvailability>| ws.len() == xs.len() && (forall|i: int| 0 <= i < xs.len() ==> Self::msg_decodes(#[trigger] Self::msg_data_seq(xs)[i], ws[i])) ==> Self::same_seq(ws, xs),
    {
        assert forall|i: int| 0 <= i < xs.len() implies Self::msg_decodable(#[trigger] Self::msg_data_seq(xs)[i]) && (forall|w: TransitAvailability| Self::msg_decodes(Self::msg_data_seq(xs)[i], w) ==> w.same_as(xs[i])) by {
            assert(xs[i].msg_fits());
            Self::lemma_msg_round_trip(xs[i]);
        }
        assert forall|ws: Seq<TransitAvailability>| ws.len() == xs.len() && (forall|i: int| 0 <= i < xs.len() ==> Self::msg_decodes(#[trigger] Self::msg_data_seq(xs)[i], ws[i])) implies Self::same_seq(ws, xs) by {
            assert forall|i: int| 0 <= i < ws.len() implies (#[trigger] ws[i]).same_as(xs[i]) by {
                assert(Self::msg_decodes(Self::msg_data_seq(xs)[i], ws[i]));
            }
        }
    }

}

impl TransitAvailableOutput {
    /// The fields this value is encoded as.
    pub open spec fn wire_fields(&self) -> Seq<(u32, WireData)> {
        Seq::empty()
            + rep_field(1, TransitAvailability::msg_data_seq(self.locations@))
            + opt_field(2, opt_str_data(self.id))
    }

    /// This value as a nested message.
    pub open spec fn msg_data(&self) -> WireData {
        WireData::Bytes(message_bytes(self.wire_fields()))
    }

    /// The values as nested messages.
    pub open spec fn msg_data_seq(xs: Seq<TransitAvailableOutput>) -> Seq<WireData> {
        xs.map_values(|x: TransitAvailableOutput| x.msg_data())
    }

    /// `fs` holds a `TransitAvailableOutput`: known tags, every required field present, every field of its kind.
    pub open spec fn wire_decodable(fs: Seq<(u32, WireData)>) -> bool {
        &&& tags_within(fs, 2)
        &&& forall|i: int| 0 <= i < tag_values(fs, 1).len() ==> TransitAvailability::msg_decodable(#[trigger] tag_values(fs, 1)[i])
        &&& opt_str_of(tag_value(fs, 2)) is Some
    }

    /// `w` is what `fs` holds.
    pub open spec fn decodes_from(fs: Seq<(u32, WireData)>, w: TransitAvailableOutput) -> bool {
        &&& w.locations@.len() == tag_values(fs, 1).len() && forall|i: int| 0 <= i < tag_values(fs, 1).len() ==> TransitAvailability::msg_decodes(#[trigger] tag_values(fs, 1)[i], w.locations@[i])
        &&& opt_str_of(tag_value(fs, 2)) == Some(opt_str_view(w.id))
    }

    /// `d` is a nested message that holds a `TransitAvailableOutput`.
    pub open spec fn msg_decodable(d: WireData) -> bool {
        &&& d is Bytes
        &&& parse_message(d->Bytes_0, 0) matches Some(fs) && Self::wire_decodable(fs)
    }

    /// `w` is what the nested message `d` holds.
    pub open spec fn msg_decodes(d: WireData, w: TransitAvailableOutput) -> bool {
        &&& d is Bytes
        &&& parse_message(d->Bytes_0, 0) matches Some(fs) && Self::decodes_from(fs, w)
    }

    /// The two values agree in every field.
    pub open spec fn same_as(self, o: TransitAvailableOutput) -> bool {
        &&& TransitAvailability::same_seq(self.locations@, o.locations@)
        &&& opt_str_view(self.id) == opt_str_view(o.id)
    }

    /// The two sequences agree element by element.
    pub open spec fn same_seq(a: Seq<TransitAvailableOutput>, b: Seq<TransitAvailableOutput>) -> bool {
        &&& a.len() == b.len()
        &&& forall|i: int| 0 <= i < a.len() ==> (#[trigger] a[i]).same_as(b[i])
    }

    /// Every nested message of this value fits a length prefix.
    pub open spec fn wire_fits(&self) -> bool {
        &&& TransitAvailability::seq_fits(self.locations@)
    }

    /// This value's encoding as a nested message can be decoded.
    pub open spec fn msg_fits(&self) -> bool {
        fields_ok(self.wire_fields()) && self.wire_fits()
    }

    /// Every value of the sequence fits.
    pub open spec fn seq_fits(xs: Seq<TransitAvailableOutput>) -> bool {
        forall|i: int| 0 <= i < xs.len() ==> (#[trigger] xs[i]).msg_fits()
    }

    pub proof fn lemma_wire_tags(&self)
        ensures
            tags_within(self.wire_fields(), 2),
    {
        broadcast use group_codec_lemmas;

        assert(tags_within(Seq::<(u32, WireData)>::empty(), 2));
        lemma_tags_widen(rep_field(1, TransitAvailability::msg_data_seq(self.locations@)), 1, 2);
        lemma_tags_widen(opt_field(2, opt_str_data(self.id)), 2, 2);
    }

    /// The fields this value is encoded as.
    pub fn to_wire_fields(&self) -> (r: Vec<WireField>)
        ensures
            fields_view(r@) == self.wire_fields(),
    {
        let mut fs: Vec<WireField> = Vec::new();
        assert(fields_view(fs@) =~= Seq::<(u32, WireData)>::empty());
        let ghost before = fields_view(fs@);
        TransitAvailability::push_all(&self.locations, 1, &mut fs);
        assert(fields_view(fs@) =~= before + rep_field(1, TransitAvailability::msg_data_seq(self.locations@)));
        let ghost before = fields_view(fs@);
        push_opt_str(&mut fs, 2, &self.id);
        assert(fields_view(fs@) =~= before + opt_field(2, opt_str_data(self.id)));
        fs
    }

    /// This value as a nested message.
    pub fn to_wire_value(&self) -> (r: WireValue)
        ensures
            r@ == self.msg_data(),
    {
        let fs = self.to_wire_fields();
        proof {
            self.lemma_wire_tags();
        }
        WireValue::Bytes(encode_message(&fs))
    }

    /// The `TransitAvailableOutput` that `fs` holds.
    pub fn from_wire_fields(fs: &Vec<WireField>) -> (r: Result<TransitAvailableOutput, CodecError>)
        ensures
            r is Ok <==> Self::wire_decodable(fields_view(fs@)),
            r matches Ok(w) ==> Self::decodes_from(fields_view(fs@), w),
    {
        check_tags(fs, 2)?;
        let locations = TransitAvailability::read_all(fs, 1)?;
        let id = read_opt_str(fs, 2)?;
        Ok(TransitAvailableOutput { locations, id })
    }

    /// The `TransitAvailableOutput` that the nested message `v` holds.
    pub fn from_wire_value(v: &WireValue, t: u32) -> (r: Result<TransitAvailableOutput, CodecError>)
        ensures
            r is Ok <==> Self::msg_decodable(v@),
            r matches Ok(w) ==> Self::msg_decodes(v@, w),
    {
        match v {
            WireValue::Bytes(b) => match decode_message(b.as_slice()) {
                Ok(fs) => Self::from_wire_fields(&fs),
                Err(e) => Err(CodecError::Wire(e)),
            },
            WireValue::Varint(_) => Err(CodecError::BadValue(t)),
        }
    }

    /// Decoding the fields of a value gives back an equal value.
    #[verifier::rlimit(100)]
    #[verifier::spinoff_prover]
    pub proof fn lemma_round_trip(v: TransitAvailableOutput)
        requires
            v.wire_fits(),
        ensures
            Self::wire_decodable(v.wire_fields()),
            forall|w: TransitAvailableOutput| Self::decodes_from(v.wire_fields(), w) ==> w.same_as(v),
    {
        broadcast use lemma_zigzag_round_trip, lemma_str_round_trip, DirectionsType::lemma_code_round_trip, Units::lemma_code_round_trip, LocationType::lemma_code_round_trip, PreferredSide::lemma_code_round_trip, CostingModels::lemma_code_round_trip, BicyleType::lemma_code_round_trip, ManeuverType::lemma_code_round_trip, TravelMode::lemma_code_round_trip, TravelType::lemma_code_round_trip, lemma_opt_fixed_round_trip, lemma_opt_u32_round_trip, lemma_opt_u16_round_trip, lemma_opt_u8_round_trip, lemma_opt_bool_round_trip, lemma_opt_str_round_trip, lemma_opt_directions_type_round_trip, lemma_opt_units_round_trip, lemma_opt_location_type_round_trip, lemma_opt_preferred_side_round_trip, lemma_opt_costing_models_round_trip, lemma_opt_bicyle_type_round_trip, lemma_opt_maneuver_type_round_trip, lemma_opt_travel_mode_round_trip, lemma_opt_travel_type_round_trip;

        v.lemma_wire_tags();
        assert(tag_values(v.wire_fields(), 1) == TransitAvailability::msg_data_seq(v.locations@)) by {
            broadcast use group_codec_lemmas;
        }
        assert(tag_value(v.wire_fields(), 2) == opt_str_data(v.id)) by {
            broadcast use group_codec_lemmas;
        }
        TransitAvailability::lemma_seq_round_trip(v.locations@);
    }

    /// Decoding a value's nested message gives back an equal value.
    pub proof fn lemma_msg_round_trip(v: TransitAvailableOutput)
        requires
            v.msg_fits(),
        ensures
            Self::msg_decodable(v.msg_data()),
            forall|w: TransitAvailableOutput| Self::msg_decodes(v.msg_data(), w) ==> w.same_as(v),
    {
        lemma_wire_round_trip(v.wire_fields());
        Self::lemma_round_trip(v);
    }

}

impl ExpansionEdge {
    /// The fields this value is encoded as.
    pub open spec fn wire_fields(&self) -> Seq<(u32, WireData)> {
        Seq::empty()
            + rep_field(1, Point::msg_data_seq(self.coordinates@))
            + opt_field(2, Some(fixed_data(self.cost)))
            + opt_field(3, Some(fixed_data(self.duration)))
            + opt_field(4, Some(fixed_data(self.distance)))
    }

    /// This value as a nested message.
    pub open spec fn msg_data(&self) -> WireData {
        WireData::Bytes(message_bytes(self.wire_fields()))
    }

    /// The values as nested messages.
    pub open spec fn msg_data_seq(xs: Seq<ExpansionEdge>) -> Seq<WireData> {
        xs.map_values(|x: ExpansionEdge| x.msg_data())
    }

    /// `fs` holds a `ExpansionEdge`: known tags, every required field present, every field of its kind.
    pub open spec fn wire_decodable(fs: Seq<(u32, WireData)>) -> bool {
        &&& tags_within(fs, 4)
        &&& forall|i: int| 0 <= i < tag_values(fs, 1).len() ==> Point::msg_decodable(#[trigger] tag_values(fs, 1)[i])
        &&& tag_value(fs, 2) matches Some(d) && fixed_of(d) is Some
        &&& tag_value(fs, 3) matches Some(d) && fixed_of(d) is Some
        &&& tag_value(fs, 4) matches Some(d) && fixed_of(d) is Some
    }

    /// `w` is what `fs` holds.
    pub open spec fn decodes_from(fs: Seq<(u32, WireData)>, w: ExpansionEdge) -> bool {
        &&& w.coordinates@.len() == tag_values(fs, 1).len() && forall|i: int| 0 <= i < tag_values(fs, 1).len() ==> Point::msg_decodes(#[trigger] tag_values(fs, 1)[i], w.coordinates@[i])
        &&& tag_value(fs, 2) matches Some(d) && fixed_of(d) == Some(w.cost)
        &&& tag_value(fs, 3) matches Some(d) && fixed_of(d) == Some(w.duration)
        &&& tag_value(fs, 4) matches Some(d) && fixed_of(d) == Some(w.distance)
    }

    /// `d` is a nested message that holds a `ExpansionEdge`.
    pub open spec fn msg_decodable(d: WireData) -> bool {
        &&& d is Bytes
        &&& parse_message(d->Bytes_0, 0) matches Some(fs) && Self::wire_decodable(fs)
    }

    /// `w` is what the nested message `d` holds.
    pub open spec fn msg_decodes(d: WireData, w: ExpansionEdge) -> bool {
        &&& d is Bytes
        &&& parse_message(d->Bytes_0, 0) matches Some(fs) && Self::decodes_from(fs, w)
    }

    /// The two values agree in every field.
    pub open spec fn same_as(self, o: ExpansionEdge) -> bool {
        &&& Point::same_seq(self.coordinates@, o.coordinates@)
        &&& self.cost == o.cost
        &&& self.duration == o.duration
        &&& self.distance == o.distance
    }

    /// The two sequences agree element by element.
    pub open spec fn same_seq(a: Seq<ExpansionEdge>, b: Seq<ExpansionEdge>) -> bool {
        &&& a.len() == b.len()
        &&& forall|i: int| 0 <= i < a.len() ==> (#[trigger] a[i]).same_as(b[i])
    }

    /// Every nested message of this value fits a length prefix.
    pub open spec fn wire_fits(&self) -> bool {
        &&& Point::seq_fits(self.coordinates@)
    }

    /// This value's encoding as a nested message can be decoded.
    pub open spec fn msg_fits(&self) -> bool {
        fields_ok(self.wire_fields()) && self.wire_fits()
    }

    /// Every value of the sequence fits.
    pub open spec fn seq_fits(xs: Seq<ExpansionEdge>) -> bool {
        forall|i: int| 0 <= i < xs.len() ==> (#[trigger] xs[i]).msg_fits()
    }

    pub proof fn lemma_wire_tags(&self)
        ensures
            tags_within(self.wire_fields(), 4),
    {
        broadcast use group_codec_lemmas;

        assert(tags_within(Seq::<(u32, WireData)>::empty(), 4));
        lemma_tags_widen(rep_field(1, Point::msg_data_seq(self.coordinates@)), 1, 4);
        lemma_tags_widen(opt_field(2, Some(fixed_data(self.cost))), 2, 4);
        lemma_tags_widen(opt_field(3, Some(fixed_data(self.duration))), 3, 4);
        lemma_tags_widen(opt_field(4, Some(fixed_data(self.distance))), 4, 4);
    }

    /// The fields this value is encoded as.
    pub fn to_wire_fields(&self) -> (r: Vec<WireField>)
        ensures
            fields_view(r@) == self.wire_fields(),
    {
        let mut fs: Vec<WireField> = Vec::new();
        assert(fields_view(fs@) =~= Seq::<(u32, WireData)>::empty());
        let ghost before = fields_view(fs@);
        Point::push_all(&self.coordinates, 1, &mut fs);
        assert(fields_view(fs@) =~= before + rep_field(1, Point::msg_data_seq(self.coordinates@)));
        let ghost before = fields_view(fs@);
        fs.push(WireField { tag: 2, value: fixed_value(self.cost) });
        assert(fields_view(fs@) =~= before + opt_field(2, Some(fixed_data(self.cost))));
        let ghost before = fields_view(fs@);
        fs.push(WireField { tag: 3, value: fixed_value(self.duration) });
        assert(fields_view(fs@) =~= before + opt_field(3, Some(fixed_data(self.duration))));
        let ghost before = fields_view(fs@);
        fs.push(WireField { tag: 4, value: fixed_value(self.distance) });
        assert(fields_view(fs@) =~= before + opt_field(4, Some(fixed_data(self.distance))));
        fs
    }

    /// This value as a nested message.
    pub fn to_wire_value(&self) -> (r: WireValue)
        ensures
            r@ == self.msg_data(),
    {
        let fs = self.to_wire_fields();
        proof {
            self.lemma_wire_tags();
        }
        WireValue::Bytes(encode_message(&fs))
    }

    /// Appends one field with tag `t` per value.
    pub fn push_all(xs: &Vec<ExpansionEdge>, t: u32, fs: &mut Vec<WireField>)
        ensures
            fields_view(final(fs)@) == fields_view(old(fs)@) + rep_field(t, Self::msg_data_seq(xs@)),
    {
        let ghost start = fields_view(fs@);
        let mut i: usize = 0;
        while i < xs.len()
            invariant
                i <= xs@.len(),
                fields_view(fs@) == start + rep_field(t, Self::msg_data_seq(xs@.subrange(0, i as int))),
            decreases xs@.len() - i,
        {
            let ghost pre = fields_view(fs@);
            let value = xs[i].to_wire_value();
            fs.push(WireField { tag: t, value });
            proof {
                assert(Self::msg_data_seq(xs@.subrange(0, i + 1)) =~= Self::msg_data_seq(
                    xs@.subrange(0, i as int),
                ).push(xs@[i as int].msg_data()));
                assert(fields_view(fs@) =~= pre.push((t, xs@[i as int].msg_data())));
                assert(rep_field(t, Self::msg_data_seq(xs@.subrange(0, i + 1))) =~= rep_field(
                    t,
                    Self::msg_data_seq(xs@.subrange(0, i as int)),
                ).push((t, xs@[i as int].msg_data())));
            }
            i += 1;
        }
        assert(xs@.subrange(0, xs@.len() as int) =~= xs@);
    }

    /// The `ExpansionEdge` that `fs` holds.
    pub fn from_wire_fields(fs: &Vec<WireField>) -> (r: Result<ExpansionEdge, CodecError>)
        ensures
            r is Ok <==> Self::wire_decodable(fields_view(fs@)),
            r matches Ok(w) ==> Self::decodes_from(fields_view(fs@), w),
    {
        check_tags(fs, 4)?;
        let coordinates = Point::read_all(fs, 1)?;
        let cost = match last_with_tag(fs, 2) {
            Some(v) => match read_fixed(v) {
                Some(x) => x,
                None => return Err(CodecError::BadValue(2)),
            },
            None => return Err(CodecError::MissingField(2)),
        };
        let duration = match last_with_tag(fs, 3) {
            Some(v) => match read_fixed(v) {
                Some(x) => x,
                None => return Err(CodecError::BadValue(3)),
            },
            None => return Err(CodecError::MissingField(3)),
        };
        let distance = match last_with_tag(fs, 4) {
            Some(v) => match read_fixed(v) {
                Some(x) => x,
                None => return Err(CodecError::BadValue(4)),
            },
            None => return Err(CodecError::MissingField(4)),
        };
        Ok(ExpansionEdge { coordinates, cost, duration, distance })
    }

    /// The `ExpansionEdge` that the nested message `v` holds.
    pub fn from_wire_value(v: &WireValue, t: u32) -> (r: Result<ExpansionEdge, CodecError>)
        ensures
            r is Ok <==> Self::msg_decodable(v@),
            r matches Ok(w) ==> Self::msg_decodes(v@, w),
    {
        match v {
            WireValue::Bytes(b) => match decode_message(b.as_slice()) {
                Ok(fs) => Self::from_wire_fields(&fs),
                Err(e) => Err(CodecError::Wire(e)),
            },
            WireValue::Varint(_) => Err(CodecError::BadValue(t)),
        }
    }

    /// The values of all fields with tag `t`, each a nested `ExpansionEdge`.
    pub fn read_all(fs: &Vec<WireField>, t: u32) -> (r: Result<Vec<ExpansionEdge>, CodecError>)
        ensures
            r is Ok <==> forall|i: int| 0 <= i < tag_values(fields_view(fs@), t).len() ==> Self::msg_decodable(#[trigger] tag_values(fields_view(fs@), t)[i]),
            r matches Ok(ws) ==> ws@.len() == tag_values(fields_view(fs@), t).len() && forall|i: int| 0 <= i < ws@.len() ==> Self::msg_decodes(#[trigger] tag_values(fields_view(fs@), t)[i], ws@[i]),
    {
        let vs = all_with_tag(fs, t);
        let ghost ds = tag_values(fields_view(fs@), t);
        let mut ws: Vec<ExpansionEdge> = Vec::new();
        let mut i: usize = 0;
        while i < vs.len()
            invariant
                i <= vs@.len(),
                ds == tag_values(fields_view(fs@), t),
                vs@.len() == ds.len(),
                forall|k: int| 0 <= k < vs@.len() ==> (#[trigger] vs@[k])@ == ds[k],
                ws@.len() == i,
                forall|k: int| 0 <= k < i ==> Self::msg_decodable(#[trigger] ds[k]),
                forall|k: int| 0 <= k < i ==> Self::msg_decodes(#[trigger] ds[k], ws@[k]),
            decreases vs@.len() - i,
        {
            let w = match Self::from_wire_value(vs[i], t) {
                Ok(w) => w,
                Err(e) => {
                    assert(!Self::msg_decodable(ds[i as int]));
                    assert(!(forall|k: int| 0 <= k < ds.len() ==> Self::msg_decodable(#[trigger] ds[k])));
                    return Err(e);
                },
            };
            ws.push(w);
            i += 1;
        }
        Ok(ws)
    }

    /// Decoding the fields of a value gives back an equal value.
    #[verifier::rlimit(100)]
    #[verifier::spinoff_prover]
    pub proof fn lemma_round_trip(v: ExpansionEdge)
        requires
            v.wire_fits(),
        ensures
            Self::wire_decodable(v.wire_fields()),
            forall|w: ExpansionEdge| Self::decodes_from(v.wire_fields(), w) ==> w.same_as(v),
    {
        broadcast use lemma_zigzag_round_trip, lemma_str_round_trip, DirectionsType::lemma_code_round_trip, Units::lemma_code_round_trip, LocationType::lemma_code_round_trip, PreferredSide::lemma_code_round_trip, CostingModels::lemma_code_round_trip, BicyleType::lemma_code_round_trip, ManeuverType::lemma_code_round_trip, TravelMode::lemma_code_round_trip, TravelType::lemma_code_round_trip, lemma_opt_fixed_round_trip, lemma_opt_u32_round_trip, lemma_opt_u16_round_trip, lemma_opt_u8_round_trip, lemma_opt_bool_round_trip, lemma_opt_str_round_trip, lemma_opt_directions_type_round_trip, lemma_opt_units_round_trip, lemma_opt_location_type_round_trip, lemma_opt_preferred_side_round_trip, lemma_opt_costing_models_round_trip, lemma_opt_bicyle_type_round_trip, lemma_opt_maneuver_type_round_trip, lemma_opt_travel_mode_round_trip, lemma_opt_travel_type_round_trip;

        v.lemma_wire_tags();
        assert(tag_values(v.wire_fields(), 1) == Point::msg_data_seq(v.coordinates@)) by {
            broadcast use group_codec_lemmas;
        }
        assert(tag_value(v.wire_fields(), 2) == Some(fixed_data(v.cost))) by {
            broadcast use group_codec_lemmas;
        }
        assert(tag_value(v.wire_fields(), 3) == Some(fixed_data(v.duration))) by {
            broadcast use group_codec_lemmas;
        }
        assert(tag_value(v.wire_fields(), 4) == Some(fixed_data(v.distance))) by {
            broadcast use group_codec_lemmas;
        }
        Point::lemma_seq_round_trip(v.coordinates@);
    }

    /// Decoding a value's nested message gives back an equal value.
    pub proof fn lemma_msg_round_trip(v: ExpansionEdge)
        requires
            v.msg_fits(),
        ensures
            Self::msg_decodable(v.msg_data()),
            forall|w: ExpansionEdge| Self::msg_decodes(v.msg_data(), w) ==> w.same_as(v),
    {
        lemma_wire_round_trip(v.wire_fields());
        Self::lemma_round_trip(v);
    }

    pub proof fn lemma_seq_round_trip(xs: Seq<ExpansionEdge>)
        requires
            Self::seq_fits(xs),
        ensures
            forall|i: int| 0 <= i < xs.len() ==> Self::msg_decodable(#[trigger] Self::msg_data_seq(xs)[i]),
            forall|ws: Seq<ExpansionEdge>| ws.len() == xs.len() && (forall|i: int| 0 <= i < xs.len() ==> Self::msg_decodes(#[trigger] Self::msg_data_seq(xs)[i], ws[i])) ==> Self::same_seq(ws, xs),
    {
        assert forall|i: int| 0 <= i < xs.len() implies Self::msg_decodable(#[trigger] Self::msg_data_seq(xs)[i]) && (forall|w: ExpansionEdge| Self::msg_decodes(Self::msg_data_seq(xs)[i], w) ==> w.same_as(xs[i])) by {
            assert(xs[i].msg_fits());
            Self::lemma_msg_round_trip(xs[i]);
        }
        assert forall|ws: Seq<ExpansionEdge>| ws.len() == xs.len() && (forall|i: int| 0 <= i < xs.len() ==> Self::msg_decodes(#[trigger] Self::msg_data_seq(xs)[i], ws[i])) implies Self::same_seq(ws, xs) by {
            assert forall|i: int| 0 <= i < ws.len() implies (#[trigger] ws[i]).same_as(xs[i]) by {
                assert(Self::msg_decodes(Self::msg_data_seq(xs)[i], ws[i]));
            }
        }
    }

}

impl ExpansionOutput {
    /// The fields this value is encoded as.
    pub open spec fn wire_fields(&self) -> Seq<(u32, WireData)> {
        Seq::empty()
            + rep_field(1, ExpansionEdge::msg_data_seq(self.edges@))
            + opt_field(2, opt_str_data(self.id))
    }

    /// This value as a nested message.
    pub open spec fn msg_data(&self) -> WireData {
        WireData::Bytes(message_bytes(self.wire_fields()))
    }

    /// The values as nested messages.
    pub open spec fn msg_data_seq(xs: Seq<ExpansionOutput>) -> Seq<WireData> {
        xs.map_values(|x: ExpansionOutput| x.msg_data())
    }

    /// `fs` holds a `ExpansionOutput`: known tags, every required field present, every field of its kind.
    pub open spec fn wire_decodable(fs: Seq<(u32, WireData)>) -> bool {
        &&& tags_within(fs, 2)
        &&& forall|i: int| 0 <= i < tag_values(fs, 1).len() ==> ExpansionEdge::msg_decodable(#[trigger] tag_values(fs, 1)[i])
        &&& opt_str_of(tag_value(fs, 2)) is Some
    }

    /// `w` is what `fs` holds.
    pub open spec fn decodes_from(fs: Seq<(u32, WireData)>, w: ExpansionOutput) -> bool {
        &&& w.edges@.len() == tag_values(fs, 1).len() && forall|i: int| 0 <= i < tag_values(fs, 1).len() ==> ExpansionEdge::msg_decodes(#[trigger] tag_values(fs, 1)[i], w.edges@[i])
        &&& opt_str_of(tag_value(fs, 2)) == Some(opt_str_view(w.id))
    }

    /// `d` is a nested message that holds a `ExpansionOutput`.
    pub open spec fn msg_decodable(d: WireData) -> bool {
        &&& d is Bytes
        &&& parse_message(d->Bytes_0, 0) matches Some(fs) && Self::wire_decodable(fs)
    }

    /// `w` is what the nested message `d` holds.
    pub open spec fn msg_decodes(d: WireData, w: ExpansionOutput) -> bool {
        &&& d is Bytes
        &&& parse_message(d->Bytes_0, 0) matches Some(fs) && Self::decodes_from(fs, w)
    }

    /// The two values agree in every field.
    pub open spec fn same_as(self, o: ExpansionOutput) -> bool {
        &&& ExpansionEdge::same_seq(self.edges@, o.edges@)
        &&& opt_str_view(self.id) == opt_str_view(o.id)
    }

    /// The two sequences agree element by element.
    pub open spec fn same_seq(a: Seq<ExpansionOutput>, b: Seq<ExpansionOutput>) -> bool {
        &&& a.len() == b.len()
        &&& forall|i: int| 0 <= i < a.len() ==> (#[trigger] a[i]).same_as(b[i])
    }

    /// Every nested message of this value fits a length prefix.
    pub open spec fn wire_fits(&self) -> bool {
        &&& ExpansionEdge::seq_fits(self.edges@)
    }

    /// This value's encoding as a nested message can be decoded.
    pub open spec fn msg_fits(&self) -> bool {
        fields_ok(self.wire_fields()) && self.wire_fits()
    }

    /// Every value of the sequence fits.
    pub open spec fn seq_fits(xs: Seq<ExpansionOutput>) -> bool {
        forall|i: int| 0 <= i < xs.len() ==> (#[trigger] xs[i]).msg_fits()
    }

    pub proof fn lemma_wire_tags(&self)
        ensures
            tags_within(self.wire_fields(), 2),
    {
        broadcast use group_codec_lemmas;

        assert(tags_within(Seq::<(u32, WireData)>::empty(), 2));
        lemma_tags_widen(rep_field(1, ExpansionEdge::msg_data_seq(self.edges@)), 1, 2);
        lemma_tags_widen(opt_field(2, opt_str_data(self.id)), 2, 2);
    }

    /// The fields this value is encoded as.
    pub fn to_wire_fields(&self) -> (r: Vec<WireField>)
        ensures
            fields_view(r@) == self.wire_fields(),
    {
        let mut fs: Vec<WireField> = Vec::new();
        assert(fields_view(fs@) =~= Seq::<(u32, WireData)>::empty());
        let ghost before = fields_view(fs@);
        ExpansionEdge::push_all(&self.edges, 1, &mut fs);
        assert(fields_view(fs@) =~= before + rep_field(1, ExpansionEdge::msg_data_seq(self.edges@)));
        let ghost before = fields_view(fs@);
        push_opt_str(&mut fs, 2, &self.id);
        assert(fields_view(fs@) =~= before + opt_field(2, opt_str_data(self.id)));
        fs
    }

    /// This value as a nested message.
    pub fn to_wire_value(&self) -> (r: WireValue)
        ensures
            r@ == self.msg_data(),
    {
        let fs = self.to_wire_fields();
        proof {
            self.lemma_wire_tags();
        }
        WireValue::Bytes(encode_message(&fs))
    }

    /// The `ExpansionOutput` that `fs` holds.
    pub fn from_wire_fields(fs: &Vec<WireField>) -> (r: Result<ExpansionOutput, CodecError>)
        ensures
            r is Ok <==> Self::wire_decodable(fields_view(fs@)),
            r matches Ok(w) ==> Self::decodes_from(fields_view(fs@), w),
    {
        check_tags(fs, 2)?;
        let edges = ExpansionEdge::read_all(fs, 1)?;
        let id = read_opt_str(fs, 2)?;
        Ok(ExpansionOutput { edges, id })
    }

    /// The `ExpansionOutput` that the nested message `v` holds.
    pub fn from_wire_value(v: &WireValue, t: u32) -> (r: Result<ExpansionOutput, CodecError>)
        ensures
            r is Ok <==> Self::msg_decodable(v@),
            r matches Ok(w) ==> Self::msg_decodes(v@, w),
    {
        match v {
            WireValue::Bytes(b) => match decode_message(b.as_slice()) {
                Ok(fs) => Self::from_wire_fields(&fs),
                Err(e) => Err(CodecError::Wire(e)),
            },
            WireValue::Varint(_) => Err(CodecError::BadValue(t)),
        }
    }

    /// Decoding the fields of a value gives back an equal value.
    #[verifier::rlimit(100)]
    #[verifier::spinoff_prover]
    pub proof fn lemma_round_trip(v: ExpansionOutput)
        requires
            v.wire_fits(),
        ensures
            Self::wire_decodable(v.wire_fields()),
            forall|w: ExpansionOutput| Self::decodes_from(v.wire_fields(), w) ==> w.same_as(v),
    {
        broadcast use lemma_zigzag_round_trip, lemma_str_round_trip, DirectionsType::lemma_code_round_trip, Units::lemma_code_round_trip, LocationType::lemma_code_round_trip, PreferredSide::lemma_code_round_trip, CostingModels::lemma_code_round_trip, BicyleType::lemma_code_round_trip, ManeuverType::lemma_code_round_trip, TravelMode::lemma_code_round_trip, TravelType::lemma_code_round_trip, lemma_opt_fixed_round_trip, lemma_opt_u32_round_trip, lemma_opt_u16_round_trip, lemma_opt_u8_round_trip, lemma_opt_bool_round_trip, lemma_opt_str_round_trip, lemma_opt_directions_type_round_trip, lemma_opt_units_round_trip, lemma_opt_location_type_round_trip, lemma_opt_preferred_side_round_trip, lemma_opt_costing_models_round_trip, lemma_opt_bicyle_type_round_trip, lemma_opt_maneuver_type_round_trip, lemma_opt_travel_mode_round_trip, lemma_opt_travel_type_round_trip;

        v.lemma_wire_tags();
        assert(tag_values(v.wire_fields(), 1) == ExpansionEdge::msg_data_seq(v.edges@)) by {
            broadcast use group_codec_lemmas;
        }
        assert(tag_value(v.wire_fields(), 2) == opt_str_data(v.id)) by {
            broadcast use group_codec_lemmas;
        }
        ExpansionEdge::lemma_seq_round_trip(v.edges@);
    }

    /// Decoding a value's nested message gives back an equal value.
    pub proof fn lemma_msg_round_trip(v: ExpansionOutput)
        requires
            v.msg_fits(),
        ensures
            Self::msg_decodable(v.msg_data()),
            forall|w: ExpansionOutput| Self::msg_decodes(v.msg_data(), w) ==> w.same_as(v),
    {
        lemma_wire_round_trip(v.wire_fields());
        Self::lemma_round_trip(v);
    }

}

impl HeightRequest {
    /// The fields this value is encoded as.
    pub open spec fn wire_fields(&self) -> Seq<(u32, WireData)> {
        Seq::empty()
            + rep_field(1, Location::msg_data_seq(self.shape@))
            + opt_field(2, opt_bool_data(self.range))
            + opt_field(3, opt_str_data(self.id))
    }

    /// This value as a nested message.
    pub open spec fn msg_data(&self) -> WireData {
        WireData::Bytes(message_bytes(self.wire_fields()))
    }

    /// The values as nested messages.
    pub open spec fn msg_data_seq(xs: Seq<HeightRequest>) -> Seq<WireData> {
        xs.map_values(|x: HeightRequest| x.msg_data())
    }

    /// `fs` holds a `HeightRequest`: known tags, every required field present, every field of its kind.
    pub open spec fn wire_decodable(fs: Seq<(u32, WireData)>) -> bool {
        &&& tags_within(fs, 3)
        &&& forall|i: int| 0 <= i < tag_values(fs, 1).len() ==> Location::msg_decodable(#[trigger] tag_values(fs, 1)[i])
        &&& opt_bool_of(tag_value(fs, 2)) is Some
        &&& opt_str_of(tag_value(fs, 3)) is Some
    }

    /// `w` is what `fs` holds.
    pub open spec fn decodes_from(fs: Seq<(u32, WireData)>, w: HeightRequest) -> bool {
        &&& w.shape@.len() == tag_values(fs, 1).len() && forall|i: int| 0 <= i < tag_values(fs, 1).len() ==> Location::msg_decodes(#[trigger] tag_values(fs, 1)[i], w.shape@[i])
        &&& opt_bool_of(tag_value(fs, 2)) == Some(w.range)
        &&& opt_str_of(tag_value(fs, 3)) == Some(opt_str_view(w.id))
    }

    /// `d` is a nested message that holds a `HeightRequest`.
    pub open spec fn msg_decodable(d: WireData) -> bool {
        &&& d is Bytes
        &&& parse_message(d->Bytes_0, 0) matches Some(fs) && Self::wire_decodable(fs)
    }

    /// `w` is what the nested message `d` holds.
    pub open spec fn msg_decodes(d: WireData, w: HeightRequest) -> bool {
        &&& d is Bytes
        &&& parse_message(d->Bytes_0, 0) matches Some(fs) && Self::decodes_from(fs, w)
    }

    /// The two values agree in every field.
    pub open spec fn same_as(self, o: HeightRequest) -> bool {
        &&& Location::same_seq(self.shape@, o.shape@)
        &&& self.range == o.range
        &&& opt_str_view(self.id) == opt_str_view(o.id)
    }

    /// The two sequences agree element by element.
    pub open spec fn same_seq(a: Seq<HeightRequest>, b: Seq<HeightRequest>) -> bool {
        &&& a.len() == b.len()
        &&& forall|i: int| 0 <= i < a.len() ==> (#[trigger] a[i]).same_as(b[i])
    }

    /// Every nested message of this value fits a length prefix.
    pub open spec fn wire_fits(&self) -> bool {
        &&& Location::seq_fits(self.shape@)
    }

    /// This value's encoding as a nested message can be decoded.
    pub open spec fn msg_fits(&self) -> bool {
        fields_ok(self.wire_fields()) && self.wire_fits()
    }

    /// Every value of the sequence fits.
    pub open spec fn seq_fits(xs: Seq<HeightRequest>) -> bool {
        forall|i: int| 0 <= i < xs.len() ==> (#[trigger] xs[i]).msg_fits()
    }

    pub proof fn lemma_wire_tags(&self)
        ensures
            tags_within(self.wire_fields(), 3),
    {
        broadcast use group_codec_lemmas;

        assert(tags_within(Seq::<(u32, WireData)>::empty(), 3));
        lemma_tags_widen(rep_field(1, Location::msg_data_seq(self.shape@)), 1, 3);
        lemma_tags_widen(opt_field(2, opt_bool_data(self.range)), 2, 3);
        lemma_tags_widen(opt_field(3, opt_str_data(self.id)), 3, 3);
    }

    /// The fields this value is encoded as.
    pub fn to_wire_fields(&self) -> (r: Vec<WireField>)
        ensures
            fields_view(r@) == self.wire_fields(),
    {
        let mut fs: Vec<WireField> = Vec::new();
        assert(fields_view(fs@) =~= Seq::<(u32, WireData)>::empty());
        let ghost before = fields_view(fs@);
        Location::push_all(&self.shape, 1, &mut fs);
        assert(fields_view(fs@) =~= before + rep_field(1, Location::msg_data_seq(self.shape@)));
        let ghost before = fields_view(fs@);
        push_opt_bool(&mut fs, 2, self.range);
        assert(fields_view(fs@) =~= before + opt_field(2, opt_bool_data(self.range)));
        let ghost before = fields_view(fs@);
        push_opt_str(&mut fs, 3, &self.id);
        assert(fields_view(fs@) =~= before + opt_field(3, opt_str_data(self.id)));
        fs
    }

    /// This value as a nested message.
    pub fn to_wire_value(&self) -> (r: WireValue)
        ensures
            r@ == self.msg_data(),
    {
        let fs = self.to_wire_fields();
        proof {
            self.lemma_wire_tags();
        }
        WireValue::Bytes(encode_message(&fs))
    }

    /// The `HeightRequest` that `fs` holds.
    pub fn from_wire_fields(fs: &Vec<WireField>) -> (r: Result<HeightRequest, CodecError>)
        ensures
            r is Ok <==> Self::wire_decodable(fields_view(fs@)),
            r matches Ok(w) ==> Self::decodes_from(fields_view(fs@), w),
    {
        check_tags(fs, 3)?;
        let shape = Location::read_all(fs, 1)?;
        let range = read_opt_bool(fs, 2)?;
        let id = read_opt_str(fs, 3)?;
        Ok(HeightRequest { shape, range, id })
    }

    /// The `HeightRequest` that the nested message `v` holds.
    pub fn from_wire_value(v: &WireValue, t: u32) -> (r: Result<HeightRequest, CodecError>)
        ensures
            r is Ok <==> Self::msg_decodable(v@),
            r matches Ok(w) ==> Self::msg_decodes(v@, w),
    {
        match v {
            WireValue::Bytes(b) => match decode_message(b.as_slice()) {
                Ok(fs) => Self::from_wire_fields(&fs),
                Err(e) => Err(CodecError::Wire(e)),
            },
            WireValue::Varint(_) => Err(CodecError::BadValue(t)),
        }
    }

    /// Decoding the fields of a value gives back an equal value.
    #[verifier::rlimit(100)]
    #[verifier::spinoff_prover]
    pub proof fn lemma_round_trip(v: HeightRequest)
        requires
            v.wire_fits(),
        ensures
            Self::wire_decodable(v.wire_fields()),
            forall|w: HeightRequest| Self::decodes_from(v.wire_fields(), w) ==> w.same_as(v),
    {
        broadcast use lemma_zigzag_round_trip, lemma_str_round_trip, DirectionsType::lemma_code_round_trip, Units::lemma_code_round_trip, LocationType::lemma_code_round_trip, PreferredSide::lemma_code_round_trip, CostingModels::lemma_code_round_trip, BicyleType::lemma_code_round_trip, ManeuverType::lemma_code_round_trip, TravelMode::lemma_code_round_trip, TravelType::lemma_code_round_trip, lemma_opt_fixed_round_trip, lemma_opt_u32_round_trip, lemma_opt_u16_round_trip, lemma_opt_u8_round_trip, lemma_opt_bool_round_trip, lemma_opt_str_round_trip, lemma_opt_directions_type_round_trip, lemma_opt_units_round_trip, lemma_opt_location_type_round_trip, lemma_opt_preferred_side_round_trip, lemma_opt_costing_models_round_trip, lemma_opt_bicyle_type_round_trip, lemma_opt_maneuver_type_round_trip, lemma_opt_travel_mode_round_trip, lemma_opt_travel_type_round_trip;

        v.lemma_wire_tags();
        assert(tag_values(v.wire_fields(), 1) == Location::msg_data_seq(v.shape@)) by {
            broadcast use group_codec_lemmas;
        }
        assert(tag_value(v.wire_fields(), 2) == opt_bool_data(v.range)) by {
            broadcast use group_codec_lemmas;
        }
        assert(tag_value(v.wire_fields(), 3) == opt_str_data(v.id)) by {
            broadcast use group_codec_lemmas;
        }
        Location::lemma_seq_round_trip(v.shape@);
    }

    /// Decoding a value's nested message gives back an equal value.
    pub proof fn lemma_msg_round_trip(v: HeightRequest)
        requires
            v.msg_fits(),
        ensures
            Self::msg_decodable(v.msg_data()),
            forall|w: HeightRequest| Self::msg_decodes(v.msg_data(), w) ==> w.same_as(v),
    {
        lemma_wire_round_trip(v.wire_fields());
        Self::lemma_round_trip(v);
    }

}

impl HeightResponse {
    /// The fields this value is encoded as.
    pub open spec fn wire_fields(&self) -> Seq<(u32, WireData)> {
        Seq::empty()
            + rep_field(1, Location::msg_data_seq(self.shape@))
            + opt_field(2, match self.height { Some(v) => Some(fixed_list_data(v@)), None => None })
            + opt_field(3, match self.range_height { Some(v) => Some(RangeHeight::list_data(v@)), None => None })
            + opt_field(4, opt_str_data(self.id))
    }

    /// This value as a nested message.
    pub open spec fn msg_data(&self) -> WireData {
        WireData::Bytes(message_bytes(self.wire_fields()))
    }

    /// The values as nested messages.
    pub open spec fn msg_data_seq(xs: Seq<HeightResponse>) -> Seq<WireData> {
        xs.map_values(|x: HeightResponse| x.msg_data())
    }

    /// `fs` holds a `HeightResponse`: known tags, every required field present, every field of its kind.
    pub open spec fn wire_decodable(fs: Seq<(u32, WireData)>) -> bool {
        &&& tags_within(fs, 4)
        &&& forall|i: int| 0 <= i < tag_values(fs, 1).len() ==> Location::msg_decodable(#[trigger] tag_values(fs, 1)[i])
        &&& tag_value(fs, 2) matches Some(d) ==> fixed_list_of(d) is Some
        &&& tag_value(fs, 3) matches Some(d) ==> RangeHeight::list_decodable(d)
        &&& opt_str_of(tag_value(fs, 4)) is Some
    }

    /// `w` is what `fs` holds.
    pub open spec fn decodes_from(fs: Seq<(u32, WireData)>, w: HeightResponse) -> bool {
        &&& w.shape@.len() == tag_values(fs, 1).len() && forall|i: int| 0 <= i < tag_values(fs, 1).len() ==> Location::msg_decodes(#[trigger] tag_values(fs, 1)[i], w.shape@[i])
        &&& match tag_value(fs, 2) { Some(d) => w.height matches Some(v) && fixed_list_of(d) == Some(v@), None => w.height is None }
        &&& match tag_value(fs, 3) { Some(d) => w.range_height matches Some(v) && RangeHeight::list_decodes(d, v@), None => w.range_height is None }
        &&& opt_str_of(tag_value(fs, 4)) == Some(opt_str_view(w.id))
    }

    /// `d` is a nested message that holds a `HeightResponse`.
    pub open spec fn msg_decodable(d: WireData) -> bool {
        &&& d is Bytes
        &&& parse_message(d->Bytes_0, 0) matches Some(fs) && Self::wire_decodable(fs)
    }

    /// `w` is what the nested message `d` holds.
    pub open spec fn msg_decodes(d: WireData, w: HeightResponse) -> bool {
        &&& d is Bytes
        &&& parse_message(d->Bytes_0, 0) matches Some(fs) && Self::decodes_from(fs, w)
    }

    /// The two values agree in every field.
    pub open spec fn same_as(self, o: HeightResponse) -> bool {
        &&& Location::same_seq(self.shape@, o.shape@)
        &&& match (self.height, o.height) { (Some(x), Some(y)) => x@ == y@, (None, None) => true, _ => false }
        &&& match (self.range_height, o.range_height) { (Some(x), Some(y)) => RangeHeight::same_seq(x@, y@), (None, None) => true, _ => false }
        &&& opt_str_view(self.id) == opt_str_view(o.id)
    }

    /// The two sequences agree element by element.
    pub open spec fn same_seq(a: Seq<HeightResponse>, b: Seq<HeightResponse>) -> bool {
        &&& a.len() == b.len()
        &&& forall|i: int| 0 <= i < a.len() ==> (#[trigger] a[i]).same_as(b[i])
    }

    /// Every nested message of this value fits a length prefix.
    pub open spec fn wire_fits(&self) -> bool {
        &&& Location::seq_fits(self.shape@)
        &&& self.height matches Some(v) ==> fixed_list_fits(v@)
        &&& self.range_height matches Some(v) ==> RangeHeight::list_fits(v@)
    }

    /// This value's encoding as a nested message can be decoded.
    pub open spec fn msg_fits(&self) -> bool {
        fields_ok(self.wire_fields()) && self.wire_fits()
    }

    /// Every value of the sequence fits.
    pub open spec fn seq_fits(xs: Seq<HeightResponse>) -> bool {
        forall|i: int| 0 <= i < xs.len() ==> (#[trigger] xs[i]).msg_fits()
    }

    pub proof fn lemma_wire_tags(&self)
        ensures
            tags_within(self.wire_fields(), 4),
    {
        broadcast use group_codec_lemmas;

        assert(tags_within(Seq::<(u32, WireData)>::empty(), 4));
        lemma_tags_widen(rep_field(1, Location::msg_data_seq(self.shape@)), 1, 4);
        lemma_tags_widen(opt_field(2, match self.height { Some(v) => Some(fixed_list_data(v@)), None => None }), 2, 4);
        lemma_tags_widen(opt_field(3, match self.range_height { Some(v) => Some(RangeHeight::list_data(v@)), None => None }), 3, 4);
        lemma_tags_widen(opt_field(4, opt_str_data(self.id)), 4, 4);
    }

    /// The fields this value is encoded as.
    pub fn to_wire_fields(&self) -> (r: Vec<WireField>)
        ensures
            fields_view(r@) == self.wire_fields(),
    {
        let mut fs: Vec<WireField> = Vec::new();
        assert(fields_view(fs@) =~= Seq::<(u32, WireData)>::empty());
        let ghost before = fields_view(fs@);
        Location::push_all(&self.shape, 1, &mut fs);
        assert(fields_view(fs@) =~= before + rep_field(1, Location::msg_data_seq(self.shape@)));
        let ghost before = fields_view(fs@);
        match &self.height {
            Some(v) => fs.push(WireField { tag: 2, value: fixed_list_value(v) }),
            None => {},
        }
        assert(fields_view(fs@) =~= before + opt_field(2, match self.height { Some(v) => Some(fixed_list_data(v@)), None => None }));
        let ghost before = fields_view(fs@);
        match &self.range_height {
            Some(v) => fs.push(WireField { tag: 3, value: RangeHeight::list_to_wire_value(v) }),
            None => {},
        }
        assert(fields_view(fs@) =~= before + opt_field(3, match self.range_height { Some(v) => Some(RangeHeight::list_data(v@)), None => None }));
        let ghost before = fields_view(fs@);
        push_opt_str(&mut fs, 4, &self.id);
        assert(fields_view(fs@) =~= before + opt_field(4, opt_str_data(self.id)));
        fs
    }

    /// This value as a nested message.
    pub fn to_wire_value(&self) -> (r: WireValue)
        ensures
            r@ == self.msg_data(),
    {
        let fs = self.to_wire_fields();
        proof {
            self.lemma_wire_tags();
        }
        WireValue::Bytes(encode_message(&fs))
    }

    /// The `HeightResponse` that `fs` holds.
    pub fn from_wire_fields(fs: &Vec<WireField>) -> (r: Result<HeightResponse, CodecError>)
        ensures
            r is Ok <==> Self::wire_decodable(fields_view(fs@)),
            r matches Ok(w) ==> Self::decodes_from(fields_view(fs@), w),
    {
        check_tags(fs, 4)?;
        let shape = Location::read_all(fs, 1)?;
        let height = match last_with_tag(fs, 2) {
            Some(v) => match read_fixed_list(v) {
                Some(x) => Some(x),
                None => return Err(CodecError::BadValue(2)),
            },
            None => None,
        };
        let range_height = match last_with_tag(fs, 3) {
            Some(v) => Some(RangeHeight::list_from_wire_value(v, 3)?),
            None => None,
        };
        let id = read_opt_str(fs, 4)?;
        Ok(HeightResponse { shape, height, range_height, id })
    }

    /// The `HeightResponse` that the nested message `v` holds.
    pub fn from_wire_value(v: &WireValue, t: u32) -> (r: Result<HeightResponse, CodecError>)
        ensures
            r is Ok <==> Self::msg_decodable(v@),
            r matches Ok(w) ==> Self::msg_decodes(v@, w),
    {
        match v {
            WireValue::Bytes(b) => match decode_message(b.as_slice()) {
                Ok(fs) => Self::from_wire_fields(&fs),
                Err(e) => Err(CodecError::Wire(e)),
            },
            WireValue::Varint(_) => Err(CodecError::BadValue(t)),
        }
    }

    /// Decoding the fields of a value gives back an equal value.
    #[verifier::rlimit(100)]
    #[verifier::spinoff_prover]
    pub proof fn lemma_round_trip(v: HeightResponse)
        requires
            v.wire_fits(),
        ensures
            Self::wire_decodable(v.wire_fields()),
            forall|w: HeightResponse| Self::decodes_from(v.wire_fields(), w) ==> w.same_as(v),
    {
        broadcast use lemma_zigzag_round_trip, lemma_str_round_trip, DirectionsType::lemma_code_round_trip, Units::lemma_code_round_trip, LocationType::lemma_code_round_trip, PreferredSide::lemma_code_round_trip, CostingModels::lemma_code_round_trip, BicyleType::lemma_code_round_trip, ManeuverType::lemma_code_round_trip, TravelMode::lemma_code_round_trip, TravelType::lemma_code_round_trip, lemma_opt_fixed_round_trip, lemma_opt_u32_round_trip, lemma_opt_u16_round_trip, lemma_opt_u8_round_trip, lemma_opt_bool_round_trip, lemma_opt_str_round_trip, lemma_opt_directions_type_round_trip, lemma_opt_units_round_trip, lemma_opt_location_type_round_trip, lemma_opt_preferred_side_round_trip, lemma_opt_costing_models_round_trip, lemma_opt_bicyle_type_round_trip, lemma_opt_maneuver_type_round_trip, lemma_opt_travel_mode_round_trip, lemma_opt_travel_type_round_trip;

        v.lemma_wire_tags();
        assert(tag_values(v.wire_fields(), 1) == Location::msg_data_seq(v.shape@)) by {
            broadcast use group_codec_lemmas;
        }
        assert(tag_value(v.wire_fields(), 2) == match v.height { Some(v) => Some(fixed_list_data(v@)), None => None }) by {
            broadcast use group_codec_lemmas;
        }
        assert(tag_value(v.wire_fields(), 3) == match v.range_height { Some(v) => Some(RangeHeight::list_data(v@)), None => None }) by {
            broadcast use group_codec_lemmas;
        }
        assert(tag_value(v.wire_fields(), 4) == opt_str_data(v.id)) by {
            broadcast use group_codec_lemmas;
        }
        Location::lemma_seq_round_trip(v.shape@);
        if let Some(s) = v.height {
            lemma_fixed_list_round_trip(s@);
        }
        if let Some(s) = v.range_height {
            RangeHeight::lemma_list_round_trip(s@);
        }
    }

    /// Decoding a value's nested message gives back an equal value.
    pub proof fn lemma_msg_round_trip(v: HeightResponse)
        requires
            v.msg_fits(),
        ensures
            Self::msg_decodable(v.msg_data()),
            forall|w: HeightResponse| Self::msg_decodes(v.msg_data(), w) ==> w.same_as(v),
    {
        lemma_wire_round_trip(v.wire_fields());
        Self::lemma_round_trip(v);
    }

}

} // verus!
