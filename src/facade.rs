//! The per-call protocol of the façade. A call is validated first; only a
//! valid request yields an operation for the engine to run. The engine's
//! reply is then checked against the request before it is handed back, and
//! every failure is reported as a distinct error.
//!
//! The engine itself sits outside the library: `begin` says whether and what
//! to invoke, the caller invokes it, and the `finish_*` functions classify
//! what came back.
use vstd::prelude::*;
use crate::codec::{CodecError, tag_values};
use crate::data::{
    ExpansionOutput, HeightRequest, HeightResponse, IsochroneInput, LocateOutput, TraceAttributesOutput,
    TransitAvailableOutput, IsochroneOutput, MatrixDistance, MatrixInput,
    MatrixOutput, RequestOptions, RoutingOutput, Summary, ValidationError, cell_count, distinct_pairs, table_dims, table_distinct, table_in_range,
};
use crate::fixed::Fixed;
use crate::wire::{WireData, decode_message, fields_view, encode_message, lemma_wire_round_trip, message_bytes, parse_message};

verus! {

/// The fixed catalogue of engine operations.
#[derive(Clone, Copy, PartialEq, Eq, Structural, Debug)]
pub enum Operation {
    Route,
    Locate,
    OptimizedRoute,
    Matrix,
    Isochrone,
    TraceRoute,
    TraceAttributes,
    Height,
    TransitAvailable,
    Expansion,
    Centroid,
}

/// A typed request for one operation of the catalogue.
#[derive(Clone, Debug)]
pub enum Request {
    Route(RequestOptions),
    Locate(RequestOptions),
    OptimizedRoute(RequestOptions),
    Matrix(MatrixInput),
    Isochrone(IsochroneInput),
    TraceRoute(RequestOptions),
    TraceAttributes(RequestOptions),
    Height(HeightRequest),
    TransitAvailable(RequestOptions),
    Expansion(RequestOptions),
    Centroid(RequestOptions),
}

/// Why the engine's reply could not be taken as the operation's response.
#[derive(Clone, Copy, PartialEq, Eq, Structural, Debug)]
pub enum DecodeError {
    /// The reply bytes are not a response of the expected schema.
    Codec(CodecError),
    /// A matrix whose table is not one row per source and one cell per target.
    MatrixShape,
    /// A height response that does not carry exactly the form that was asked for.
    HeightForm,
    /// An isochrone response without exactly one feature per contour.
    ContourCount,
}

/// Every way a call can fail.
#[derive(Clone, Debug)]
pub enum FacadeError {
    /// The request breaks a structural rule; the engine was not called.
    Validation(ValidationError),
    /// The engine's reply does not match the schema the façade expects.
    Decode(DecodeError),
    /// The engine understood the request and rejected it. The message and
    /// the status code are the engine's, unchanged.
    Engine { status: Option<u32>, message: String },
}

/// The fewest locations a location-list operation accepts.
pub open spec fn min_locations(op: Operation) -> usize {
    match op {
        Operation::Route => 2,
        _ => 1,
    }
}

impl Request {
    /// The operation the request is for.
    pub open spec fn spec_operation(&self) -> Operation {
        match self {
            Request::Route(_) => Operation::Route,
            Request::Locate(_) => Operation::Locate,
            Request::OptimizedRoute(_) => Operation::OptimizedRoute,
            Request::Matrix(_) => Operation::Matrix,
            Request::Isochrone(_) => Operation::Isochrone,
            Request::TraceRoute(_) => Operation::TraceRoute,
            Request::TraceAttributes(_) => Operation::TraceAttributes,
            Request::Height(_) => Operation::Height,
            Request::TransitAvailable(_) => Operation::TransitAvailable,
            Request::Expansion(_) => Operation::Expansion,
            Request::Centroid(_) => Operation::Centroid,
        }
    }

    /// The operation the request is for.
    pub fn operation(&self) -> (r: Operation)
        ensures
            r == self.spec_operation(),
    {
        match self {
            Request::Route(_) => Operation::Route,
            Request::Locate(_) => Operation::Locate,
            Request::OptimizedRoute(_) => Operation::OptimizedRoute,
            Request::Matrix(_) => Operation::Matrix,
            Request::Isochrone(_) => Operation::Isochrone,
            Request::TraceRoute(_) => Operation::TraceRoute,
            Request::TraceAttributes(_) => Operation::TraceAttributes,
            Request::Height(_) => Operation::Height,
            Request::TransitAvailable(_) => Operation::TransitAvailable,
            Request::Expansion(_) => Operation::Expansion,
            Request::Centroid(_) => Operation::Centroid,
        }
    }

    /// The structural defect of the request, if any: a location list shorter
    /// than the operation needs (two for a route, one otherwise), or the
    /// defect of a matrix, isochrone or height request.
    pub open spec fn spec_defect(&self) -> Option<ValidationError> {
        match self {
            Request::Matrix(m) => m.spec_defect(),
            Request::Isochrone(i) => i.spec_defect(),
            Request::Height(h) => h.spec_defect(),
            Request::Route(o) | Request::Locate(o) | Request::OptimizedRoute(o) | Request::TraceRoute(o)
            | Request::TraceAttributes(o) | Request::TransitAvailable(o) | Request::Expansion(o)
            | Request::Centroid(o) => {
                let need = min_locations(self.spec_operation());
                if o.locations@.len() < need {
                    Some(ValidationError::TooFewLocations { required: need, given: o.locations@.len() as usize })
                } else {
                    None
                }
            },
        }
    }

    /// Checks the request's structure.
    pub fn validate(&self) -> (r: Result<(), ValidationError>)
        ensures
            r is Ok <==> self.spec_defect() is None,
            r matches Err(e) ==> self.spec_defect() == Some(e),
    {
        match self {
            Request::Matrix(m) => m.validate(),
            Request::Isochrone(i) => i.validate(),
            Request::Height(h) => h.validate(),
            Request::Route(o) => o.validate(2),
            Request::Locate(o) | Request::OptimizedRoute(o) | Request::TraceRoute(o)
            | Request::TraceAttributes(o) | Request::TransitAvailable(o) | Request::Expansion(o)
            | Request::Centroid(o) => o.validate(1),
        }
    }
}

/// What the first step of a call decides: the operation to invoke, or the
/// validation failure that ends the call without invoking anything.
pub open spec fn spec_begin(req: Request) -> Result<Operation, ValidationError> {
    match req.spec_defect() {
        Some(e) => Err(e),
        None => Ok(req.spec_operation()),
    }
}

/// The first step of a call: validates the request and names the operation
/// that the engine is to run. An `Err` ends the call; the engine must not be
/// invoked for it.
pub fn begin(req: &Request) -> (r: Result<Operation, FacadeError>)
    ensures
        match spec_begin(*req) {
            Ok(op) => r == Ok::<Operation, FacadeError>(op),
            Err(e) => r == Err::<Operation, FacadeError>(FacadeError::Validation(e)),
        },
{
    match req.validate() {
        Ok(()) => Ok(req.operation()),
        Err(e) => Err(FacadeError::Validation(e)),
    }
}

/// A request that fails structural validation never reaches the engine: the
/// first step of its call ends it with that validation error and names no
/// operation to invoke.
pub proof fn lemma_validation_precedes_invocation(req: Request)
    requires
        req.spec_defect() is Some,
    ensures
        spec_begin(req) == Err::<Operation, ValidationError>(req.spec_defect()->Some_0),
        !(spec_begin(req) is Ok),
{
}

/// A failure that the engine reported, passed on unchanged.
pub fn engine_failure(status: Option<u32>, message: String) -> (r: FacadeError)
    ensures
        r matches FacadeError::Engine { status: s, message: m } && s == status && m@ == message@,
{
    FacadeError::Engine { status, message }
}

// ---------------------------------------------------------------------------
// Checking replies.
// ---------------------------------------------------------------------------

/// Accepts a matrix response only if it has one row per source and one cell
/// per target, every cell's indices lie within the request's lists, and no
/// two cells share a pair of indices.
pub fn finish_matrix(req: &MatrixInput, out: MatrixOutput) -> (r: Result<MatrixOutput, FacadeError>)
    ensures
        r is Ok <==> out.spec_has_shape(req.sources@.len() as int, req.targets@.len() as int),
        r matches Ok(o) ==> o == out,
        r matches Err(e) ==> e == FacadeError::Decode(DecodeError::MatrixShape),
{
    if out.has_shape(req.sources.len(), req.targets.len()) {
        Ok(out)
    } else {
        Err(FacadeError::Decode(DecodeError::MatrixShape))
    }
}

/// Accepts a height response only if it carries the form the request asked
/// for (range-height pairs when `range` is set, scalar heights otherwise) and
/// not the other.
pub fn finish_height(req: &HeightRequest, out: HeightResponse) -> (r: Result<HeightResponse, FacadeError>)
    ensures
        r is Ok <==> out.spec_answers(req.spec_wants_range()),
        r matches Ok(o) ==> o == out,
        r matches Err(e) ==> e == FacadeError::Decode(DecodeError::HeightForm),
{
    let range = match req.range {
        Some(b) => b,
        None => false,
    };
    if out.answers(range) {
        Ok(out)
    } else {
        Err(FacadeError::Decode(DecodeError::HeightForm))
    }
}

/// Encodes an isochrone response in the binary schema.
pub fn encode_isochrone_output(out: &IsochroneOutput) -> (r: Vec<u8>)
    ensures
        r@ == message_bytes(out.wire_fields()),
{
    let fs = out.to_wire_fields();
    proof {
        out.lemma_wire_tags();
    }
    encode_message(&fs)
}

/// Accepts an isochrone response only if it holds one feature per contour
/// of the request (in any order).
pub fn finish_isochrone_output(req: &IsochroneInput, out: IsochroneOutput) -> (r: Result<IsochroneOutput, FacadeError>)
    ensures
        r is Ok <==> out.features@.len() == req.contours@.len(),
        r matches Ok(o) ==> o == out,
        r matches Err(e) ==> e == FacadeError::Decode(DecodeError::ContourCount),
{
    if out.features.len() == req.contours.len() {
        Ok(out)
    } else {
        Err(FacadeError::Decode(DecodeError::ContourCount))
    }
}

/// Decodes an isochrone reply in the binary schema and checks it against the
/// request.
pub fn finish_isochrone(req: &IsochroneInput, reply: &[u8]) -> (r: Result<IsochroneOutput, FacadeError>)
    ensures
        match parse_message(reply@, 0) {
            None => r is Err,
            Some(fs) => (r is Ok <==> (IsochroneOutput::wire_decodable(fs) && forall|w: IsochroneOutput|
                IsochroneOutput::decodes_from(fs, w) ==> w.features@.len() == req.contours@.len()))
                && (r matches Ok(w) ==> IsochroneOutput::decodes_from(fs, w)),
        },
        r matches Err(e) ==> e is Decode,
{
    match decode_message(reply) {
        Ok(fs) => match IsochroneOutput::from_wire_fields(&fs) {
            Ok(w) => finish_isochrone_output(req, w),
            Err(e) => Err(FacadeError::Decode(DecodeError::Codec(e))),
        },
        Err(e) => Err(FacadeError::Decode(DecodeError::Codec(CodecError::Wire(e)))),
    }
}

/// An isochrone response encoded in the binary schema decodes to an equal
/// response.
pub proof fn lemma_isochrone_output_round_trip(v: IsochroneOutput)
    requires
        v.msg_fits(),
    ensures
        parse_message(message_bytes(v.wire_fields()), 0) == Some(v.wire_fields()),
        IsochroneOutput::wire_decodable(v.wire_fields()),
        forall|w: IsochroneOutput| IsochroneOutput::decodes_from(v.wire_fields(), w) ==> w.same_as(v),
{
    lemma_wire_round_trip(v.wire_fields());
    IsochroneOutput::lemma_round_trip(v);
}

// ---------------------------------------------------------------------------
// The binary encoding of requests and replies.
// ---------------------------------------------------------------------------

/// The fields a request is encoded as: those of its input.
pub open spec fn request_fields(req: Request) -> Seq<(u32, WireData)> {
    match req {
        Request::Matrix(m) => m.wire_fields(),
        Request::Isochrone(i) => i.wire_fields(),
        Request::Height(h) => h.wire_fields(),
        Request::Route(o) | Request::Locate(o) | Request::OptimizedRoute(o) | Request::TraceRoute(o)
        | Request::TraceAttributes(o) | Request::TransitAvailable(o) | Request::Expansion(o)
        | Request::Centroid(o) => o.wire_fields(),
    }
}

/// Encodes a request's input in the binary schema.
pub fn encode_request(req: &Request) -> (r: Vec<u8>)
    ensures
        r@ == message_bytes(request_fields(*req)),
{
    match req {
        Request::Matrix(m) => {
            proof {
                m.lemma_wire_tags();
            }
            encode_message(&m.to_wire_fields())
        },
        Request::Isochrone(i) => {
            proof {
                i.lemma_wire_tags();
            }
            encode_message(&i.to_wire_fields())
        },
        Request::Height(h) => {
            proof {
                h.lemma_wire_tags();
            }
            encode_message(&h.to_wire_fields())
        },
        Request::Route(o) | Request::Locate(o) | Request::OptimizedRoute(o) | Request::TraceRoute(o)
        | Request::TraceAttributes(o) | Request::TransitAvailable(o) | Request::Expansion(o)
        | Request::Centroid(o) => {
            proof {
                o.lemma_wire_tags();
            }
            encode_message(&o.to_wire_fields())
        },
    }
}

/// Decodes a route reply in the binary schema (route, optimized route, trace
/// route and centroid all answer with a route).
pub fn finish_route_reply(reply: &[u8]) -> (r: Result<RoutingOutput, FacadeError>)
    ensures
        match parse_message(reply@, 0) {
            None => r is Err,
            Some(fs) => (r is Ok <==> RoutingOutput::wire_decodable(fs)) && (r matches Ok(w)
                ==> RoutingOutput::decodes_from(fs, w)),
        },
        r matches Err(e) ==> e is Decode,
{
    match decode_message(reply) {
        Ok(fs) => match RoutingOutput::from_wire_fields(&fs) {
            Ok(w) => Ok(w),
            Err(e) => Err(FacadeError::Decode(DecodeError::Codec(e))),
        },
        Err(e) => Err(FacadeError::Decode(DecodeError::Codec(CodecError::Wire(e)))),
    }
}

/// Decodes a locate reply in the binary schema.
pub fn finish_locate_reply(reply: &[u8]) -> (r: Result<LocateOutput, FacadeError>)
    ensures
        match parse_message(reply@, 0) {
            None => r is Err,
            Some(fs) => (r is Ok <==> LocateOutput::wire_decodable(fs)) && (r matches Ok(w)
                ==> LocateOutput::decodes_from(fs, w)),
        },
        r matches Err(e) ==> e is Decode,
{
    match decode_message(reply) {
        Ok(fs) => match LocateOutput::from_wire_fields(&fs) {
            Ok(w) => Ok(w),
            Err(e) => Err(FacadeError::Decode(DecodeError::Codec(e))),
        },
        Err(e) => Err(FacadeError::Decode(DecodeError::Codec(CodecError::Wire(e)))),
    }
}

/// Decodes a trace-attributes reply in the binary schema.
pub fn finish_trace_attributes_reply(reply: &[u8]) -> (r: Result<TraceAttributesOutput, FacadeError>)
    ensures
        match parse_message(reply@, 0) {
            None => r is Err,
            Some(fs) => (r is Ok <==> TraceAttributesOutput::wire_decodable(fs)) && (r matches Ok(w)
                ==> TraceAttributesOutput::decodes_from(fs, w)),
        },
        r matches Err(e) ==> e is Decode,
{
    match decode_message(reply) {
        Ok(fs) => match TraceAttributesOutput::from_wire_fields(&fs) {
            Ok(w) => Ok(w),
            Err(e) => Err(FacadeError::Decode(DecodeError::Codec(e))),
        },
        Err(e) => Err(FacadeError::Decode(DecodeError::Codec(CodecError::Wire(e)))),
    }
}

/// Decodes a transit-availability reply in the binary schema.
pub fn finish_transit_available_reply(reply: &[u8]) -> (r: Result<TransitAvailableOutput, FacadeError>)
    ensures
        match parse_message(reply@, 0) {
            None => r is Err,
            Some(fs) => (r is Ok <==> TransitAvailableOutput::wire_decodable(fs)) && (r matches Ok(w)
                ==> TransitAvailableOutput::decodes_from(fs, w)),
        },
        r matches Err(e) ==> e is Decode,
{
    match decode_message(reply) {
        Ok(fs) => match TransitAvailableOutput::from_wire_fields(&fs) {
            Ok(w) => Ok(w),
            Err(e) => Err(FacadeError::Decode(DecodeError::Codec(e))),
        },
        Err(e) => Err(FacadeError::Decode(DecodeError::Codec(CodecError::Wire(e)))),
    }
}

/// Decodes an expansion reply in the binary schema.
pub fn finish_expansion_reply(reply: &[u8]) -> (r: Result<ExpansionOutput, FacadeError>)
    ensures
        match parse_message(reply@, 0) {
            None => r is Err,
            Some(fs) => (r is Ok <==> ExpansionOutput::wire_decodable(fs)) && (r matches Ok(w)
                ==> ExpansionOutput::decodes_from(fs, w)),
        },
        r matches Err(e) ==> e is Decode,
{
    match decode_message(reply) {
        Ok(fs) => match ExpansionOutput::from_wire_fields(&fs) {
            Ok(w) => Ok(w),
            Err(e) => Err(FacadeError::Decode(DecodeError::Codec(e))),
        },
        Err(e) => Err(FacadeError::Decode(DecodeError::Codec(CodecError::Wire(e)))),
    }
}

/// Two values decoded from the same fields agree in every matrix cell.
proof fn lemma_matrix_decoding_unique(fs: Seq<(u32, WireData)>, a: MatrixOutput, b: MatrixOutput)
    requires
        MatrixOutput::decodes_from(fs, a),
        MatrixOutput::decodes_from(fs, b),
    ensures
        a.sources_to_targets@.len() == b.sources_to_targets@.len(),
        forall|i: int| 0 <= i < a.sources_to_targets@.len() ==> (#[trigger] a.sources_to_targets@[i])@ == b.sources_to_targets@[i]@,
{
    let ds = tag_values(fs, 3);
    assert forall|i: int| 0 <= i < a.sources_to_targets@.len() implies (#[trigger] a.sources_to_targets@[i])@ == b.sources_to_targets@[i]@ by {
        let ra = a.sources_to_targets@[i]@;
        let rb = b.sources_to_targets@[i]@;
        assert(MatrixDistance::list_decodes(ds[i], ra));
        assert(MatrixDistance::list_decodes(ds[i], rb));
        let sub = parse_message(ds[i]->Bytes_0, 0)->Some_0;
        assert forall|j: int| 0 <= j < ra.len() implies ra[j] == rb[j] by {
            assert(MatrixDistance::msg_decodes(tag_values(sub, 1)[j], ra[j]));
            assert(MatrixDistance::msg_decodes(tag_values(sub, 1)[j], rb[j]));
        }
        assert(ra =~= rb);
    }
}

/// Tables whose rows hold the same cells have the same shape.
proof fn lemma_same_rows(a: Seq<Vec<MatrixDistance>>, b: Seq<Vec<MatrixDistance>>, m: int, n: int)
    requires
        a.len() == b.len(),
        forall|i: int| 0 <= i < a.len() ==> (#[trigger] a[i])@ == b[i]@,
    ensures
        table_dims(a, m, n) == table_dims(b, m, n),
        table_dims(a, m, n) ==> table_in_range(a, m, n) == table_in_range(b, m, n),
        table_dims(a, m, n) ==> table_distinct(a, m, n) == table_distinct(b, m, n),
{
    if table_dims(a, m, n) {
        assert forall|i: int| 0 <= i < m implies (#[trigger] b[i])@.len() == n by {
            assert(a[i]@ == b[i]@);
        }
    }
    if table_dims(b, m, n) {
        assert forall|i: int| 0 <= i < m implies (#[trigger] a[i])@.len() == n by {
            assert(a[i]@ == b[i]@);
        }
    }
    if table_in_range(a, m, n) && table_dims(a, m, n) {
        assert forall|i: int, j: int| 0 <= i < m && 0 <= j < n implies (#[trigger] b[i]@[j]).from_index < m
            && b[i]@[j].to_index < n by {
            assert(a[i]@ == b[i]@);
            assert(a[i]@[j] == b[i]@[j]);
        }
    }
    if table_in_range(b, m, n) && table_dims(a, m, n) {
        assert forall|i: int, j: int| 0 <= i < m && 0 <= j < n implies (#[trigger] a[i]@[j]).from_index < m
            && a[i]@[j].to_index < n by {
            assert(a[i]@ == b[i]@);
            assert(a[i]@[j] == b[i]@[j]);
        }
    }
    assert forall|i1: int, j1: int, i2: int, j2: int|
        0 <= i1 < m && 0 <= j1 < n && 0 <= i2 < m && 0 <= j2 < n && table_dims(a, m, n) implies
        distinct_pairs(a, i1, j1, i2, j2) == distinct_pairs(b, i1, j1, i2, j2) by {
        assert(a[i1]@ == b[i1]@);
        assert(a[i2]@ == b[i2]@);
    }
    if table_dims(a, m, n) {
        if table_distinct(a, m, n) {
            assert forall|i1: int, j1: int, i2: int, j2: int|
                0 <= i1 < m && 0 <= j1 < n && 0 <= i2 < m && 0 <= j2 < n implies #[trigger] distinct_pairs(b, i1, j1, i2, j2) by {
                assert(distinct_pairs(a, i1, j1, i2, j2));
            }
        }
        if table_distinct(b, m, n) {
            assert forall|i1: int, j1: int, i2: int, j2: int|
                0 <= i1 < m && 0 <= j1 < n && 0 <= i2 < m && 0 <= j2 < n implies #[trigger] distinct_pairs(a, i1, j1, i2, j2) by {
                assert(distinct_pairs(b, i1, j1, i2, j2));
            }
        }
    }
}

/// Decodes a matrix reply in the binary schema and checks its shape.
pub fn finish_matrix_reply(req: &MatrixInput, reply: &[u8]) -> (r: Result<MatrixOutput, FacadeError>)
    ensures
        match parse_message(reply@, 0) {
            None => r is Err,
            Some(fs) => (r is Ok <==> (MatrixOutput::wire_decodable(fs) && forall|w: MatrixOutput|
                MatrixOutput::decodes_from(fs, w) ==> w.spec_has_shape(
                req.sources@.len() as int,
                req.targets@.len() as int,
            ))) && (r matches Ok(w) ==> MatrixOutput::decodes_from(fs, w)),
        },
        r matches Err(e) ==> e is Decode,
{
    match decode_message(reply) {
        Ok(fs) => match MatrixOutput::from_wire_fields(&fs) {
            Ok(w) => {
                proof {
                    let m = req.sources@.len() as int;
                    let n = req.targets@.len() as int;
                    assert forall|x: MatrixOutput| MatrixOutput::decodes_from(fields_view(fs@), x) implies (
                    x.spec_has_shape(m, n) == w.spec_has_shape(m, n)) by {
                        lemma_matrix_decoding_unique(fields_view(fs@), x, w);
                        lemma_same_rows(x.sources_to_targets@, w.sources_to_targets@, m, n);
                    }
                }
                finish_matrix(req, w)
            },
            Err(e) => Err(FacadeError::Decode(DecodeError::Codec(e))),
        },
        Err(e) => Err(FacadeError::Decode(DecodeError::Codec(CodecError::Wire(e)))),
    }
}

/// Decodes a height reply in the binary schema and checks its form.
pub fn finish_height_reply(req: &HeightRequest, reply: &[u8]) -> (r: Result<HeightResponse, FacadeError>)
    ensures
        match parse_message(reply@, 0) {
            None => r is Err,
            Some(fs) => (r is Ok <==> (HeightResponse::wire_decodable(fs) && forall|w: HeightResponse|
                HeightResponse::decodes_from(fs, w) ==> w.spec_answers(req.spec_wants_range())))
                && (r matches Ok(w) ==> HeightResponse::decodes_from(fs, w)),
        },
        r matches Err(e) ==> e is Decode,
{
    match decode_message(reply) {
        Ok(fs) => match HeightResponse::from_wire_fields(&fs) {
            Ok(w) => finish_height(req, w),
            Err(e) => Err(FacadeError::Decode(DecodeError::Codec(e))),
        },
        Err(e) => Err(FacadeError::Decode(DecodeError::Codec(CodecError::Wire(e)))),
    }
}

/// A route request encoded in the binary schema decodes to an equal request.
pub proof fn lemma_request_options_round_trip(v: RequestOptions)
    requires
        v.msg_fits(),
    ensures
        parse_message(message_bytes(v.wire_fields()), 0) == Some(v.wire_fields()),
        RequestOptions::wire_decodable(v.wire_fields()),
        forall|w: RequestOptions| RequestOptions::decodes_from(v.wire_fields(), w) ==> w.same_as(v),
{
    lemma_wire_round_trip(v.wire_fields());
    RequestOptions::lemma_round_trip(v);
}

/// A route response encoded in the binary schema decodes to an equal response.
pub proof fn lemma_routing_output_round_trip(v: RoutingOutput)
    requires
        v.msg_fits(),
    ensures
        parse_message(message_bytes(v.wire_fields()), 0) == Some(v.wire_fields()),
        RoutingOutput::wire_decodable(v.wire_fields()),
        forall|w: RoutingOutput| RoutingOutput::decodes_from(v.wire_fields(), w) ==> w.same_as(v),
{
    lemma_wire_round_trip(v.wire_fields());
    RoutingOutput::lemma_round_trip(v);
}

// ---------------------------------------------------------------------------
// Laws of the response shapes.
// ---------------------------------------------------------------------------

/// Every height response the façade accepts carries exactly one of the two
/// height forms: never both, never neither.
pub proof fn lemma_height_one_form(req: HeightRequest, out: HeightResponse)
    requires
        out.spec_answers(req.spec_wants_range()),
    ensures
        out.spec_one_form(),
{
}

proof fn lemma_cell_count(rows: Seq<Vec<MatrixDistance>>, n: int)
    requires
        0 <= n,
        forall|i: int| 0 <= i < rows.len() ==> (#[trigger] rows[i])@.len() == n,
    ensures
        cell_count(rows) == rows.len() * n,
    decreases rows.len(),
{
    if rows.len() > 0 {
        lemma_cell_count(rows.drop_last(), n);
        assert(cell_count(rows) == cell_count(rows.drop_last()) + n);
        assert((rows.len() - 1) * n + n == rows.len() * n) by (nonlinear_arith);
    }
}

/// A matrix table of shape `m` × `n` (as the façade accepts it) has exactly
/// `m * n` cells; every cell's source index lies in `[0, m)` and its target
/// index in `[0, n)`; and no two cells share a pair of indices.
pub proof fn lemma_matrix_shape(out: MatrixOutput, m: int, n: int)
    requires
        0 <= n,
        out.spec_has_shape(m, n),
    ensures
        cell_count(out.sources_to_targets@) == m * n,
        forall|i: int, j: int|
            0 <= i < m && 0 <= j < n ==> {
                let c = #[trigger] out.sources_to_targets@[i]@[j];
                c.from_index < m && c.to_index < n
            },
        forall|i1: int, j1: int, i2: int, j2: int|
            0 <= i1 < m && 0 <= j1 < n && 0 <= i2 < m && 0 <= j2 < n && (i1 != i2 || j1 != j2) ==> {
                let c1 = #[trigger] out.sources_to_targets@[i1]@[j1];
                let c2 = #[trigger] out.sources_to_targets@[i2]@[j2];
                c1.from_index != c2.from_index || c1.to_index != c2.to_index
            },
{
    let rows = out.sources_to_targets@;
    lemma_cell_count(rows, n);
    assert forall|i1: int, j1: int, i2: int, j2: int|
        0 <= i1 < m && 0 <= j1 < n && 0 <= i2 < m && 0 <= j2 < n && (i1 != i2 || j1 != j2) implies {
        let c1 = #[trigger] out.sources_to_targets@[i1]@[j1];
        let c2 = #[trigger] out.sources_to_targets@[i2]@[j2];
        c1.from_index != c2.from_index || c1.to_index != c2.to_index
    } by {
        assert(distinct_pairs(rows, i1, j1, i2, j2));
    }
}

impl Summary {
    /// The summary's bounding box contains the point.
    pub open spec fn spec_contains(&self, lat: Fixed, lon: Fixed) -> bool {
        self.min_lat <= lat <= self.max_lat && self.min_lon <= lon <= self.max_lon
    }

    /// Whether the summary's bounding box contains the point.
    pub fn contains(&self, lat: Fixed, lon: Fixed) -> (r: bool)
        ensures
            r == self.spec_contains(lat, lon),
    {
        self.min_lat <= lat && lat <= self.max_lat && self.min_lon <= lon && lon <= self.max_lon
    }
}

} // verus!
