use valhalla::data::{
    HeightRequest, HeightResponse, Leg, Location, MatrixDistance, MatrixInput, MatrixOutput,
    RangeHeight, RequestOptions, RoutingOutput, Summary, Trip, Units, CostingModels, ValidationError,
};
use valhalla::wire::encode_message;
use valhalla::facade::{
    begin, engine_failure, finish_height, finish_matrix, finish_route_reply, DecodeError, FacadeError,
    Operation, Request,
};

fn loc(lat: i64, lon: i64) -> Location {
    Location { lat: Some(lat), lon: Some(lon), ..Default::default() }
}

fn kotti_request() -> RequestOptions {
    RequestOptions {
        id: Some("kotti_to_hermannplatz".into()),
        units: Some(Units::Kilometers),
        costing: Some(CostingModels::Auto),
        locations: vec![
            Location { name: Some("Kottbusser Tor".into()), ..loc(52_499_078, 13_418_230) },
            Location { name: Some("Kottbusser Tor".into()), ..loc(52_487_331, 13_425_042) },
        ],
        ..Default::default()
    }
}

fn scripted_reply(id: &str) -> RoutingOutput {
    let summary = Summary {
        min_lat: 52_487_100,
        min_lon: 13_418_000,
        max_lat: 52_499_300,
        max_lon: 13_425_500,
        time: 240_000_000,
        length: 1_400_000,
    };
    RoutingOutput {
        trip: Trip {
            locations: vec![],
            legs: vec![Leg { maneuvers: vec![], summary }],
            summary,
            status_message: "Found route between points".into(),
            status: 0,
            units: Units::Kilometers,
            language: "en-US".into(),
        },
        id: id.into(),
    }
}

#[test]
fn test_proto_route() {
    let req = kotti_request();
    assert_eq!(begin(&Request::Route(req.clone())).unwrap(), Operation::Route);
    let reply = encode_message(&scripted_reply("kotti_to_hermannplatz").to_wire_fields());
    let out = finish_route_reply(&reply).unwrap();
    assert_eq!(out.id, "kotti_to_hermannplatz");
    let leg = &out.trip.legs[0].summary;
    assert!(leg.min_lat <= 52_487_331 && leg.max_lat >= 52_499_078);
    assert!(leg.contains(52_499_078, 13_418_230));
    assert!(leg.contains(52_487_331, 13_425_042));
    assert!(!leg.contains(52_600_000, 13_418_230));
}

#[test]
fn route_reply_is_passed_on_whatever_its_id() {
    let reply = encode_message(&scripted_reply("other").to_wire_fields());
    assert_eq!(finish_route_reply(&reply).unwrap().id, "other");
}

#[test]
fn invalid_requests_never_reach_the_engine() {
    let mut engine_calls = 0;
    let requests = vec![
        Request::Route(RequestOptions::default()),
        Request::Route(RequestOptions { locations: vec![loc(1, 1)], ..Default::default() }),
        Request::Locate(RequestOptions::default()),
        Request::Matrix(MatrixInput::default()),
        Request::Height(HeightRequest::default()),
        Request::Route(kotti_request()),
        Request::Locate(RequestOptions { locations: vec![loc(1, 1)], ..Default::default() }),
    ];
    let mut errors = vec![];
    for r in &requests {
        match begin(r) {
            Ok(_) => engine_calls += 1,
            Err(FacadeError::Validation(e)) => errors.push(e),
            Err(other) => panic!("unexpected {:?}", other),
        }
    }
    assert_eq!(engine_calls, 2);
    assert_eq!(
        errors,
        vec![
            ValidationError::TooFewLocations { required: 2, given: 0 },
            ValidationError::TooFewLocations { required: 2, given: 1 },
            ValidationError::TooFewLocations { required: 1, given: 0 },
            ValidationError::NoSources,
            ValidationError::TooFewLocations { required: 1, given: 0 },
        ]
    );
}

#[test]
fn operations_of_requests() {
    assert_eq!(Request::Centroid(RequestOptions::default()).operation(), Operation::Centroid);
    assert_eq!(Request::Matrix(MatrixInput::default()).operation(), Operation::Matrix);
    assert_eq!(Request::TraceAttributes(RequestOptions::default()).operation(), Operation::TraceAttributes);
}

#[test]
fn matrix_reply_is_checked() {
    let req = MatrixInput { sources: vec![loc(0, 0), loc(1, 1)], targets: vec![loc(2, 2)], ..Default::default() };
    let cell = |i: usize| MatrixDistance { distance: 10, time: 20, from_index: i, to_index: 0 };
    let good = MatrixOutput { sources_to_targets: vec![vec![cell(0)], vec![cell(1)]], ..Default::default() };
    let out = finish_matrix(&req, good).unwrap();
    assert_eq!(out.sources_to_targets.len() * out.sources_to_targets[0].len(), 2);
    let swapped = MatrixOutput { sources_to_targets: vec![vec![cell(1)], vec![cell(0)]], ..Default::default() };
    assert!(finish_matrix(&req, swapped).is_ok());
    let repeated = MatrixOutput { sources_to_targets: vec![vec![cell(0)], vec![cell(0)]], ..Default::default() };
    match finish_matrix(&req, repeated) {
        Err(FacadeError::Decode(DecodeError::MatrixShape)) => {}
        other => panic!("unexpected {:?}", other),
    }
}

#[test]
fn height_reply_is_checked() {
    let req = HeightRequest { shape: vec![loc(1, 1)], range: Some(true), ..Default::default() };
    let ranged = HeightResponse {
        shape: vec![],
        height: None,
        range_height: Some(vec![RangeHeight { range: 0, height: 34_000_000 }]),
        id: None,
    };
    assert!(finish_height(&req, ranged.clone()).is_ok());
    let plain = HeightRequest { range: None, ..req.clone() };
    match finish_height(&plain, ranged) {
        Err(FacadeError::Decode(DecodeError::HeightForm)) => {}
        other => panic!("unexpected {:?}", other),
    }
    let neither = HeightResponse { shape: vec![], height: None, range_height: None, id: None };
    assert!(finish_height(&plain, neither).is_err());
}

#[test]
fn engine_failures_pass_through() {
    match engine_failure(Some(171), "No suitable edges near location".into()) {
        FacadeError::Engine { status, message } => {
            assert_eq!(status, Some(171));
            assert_eq!(message, "No suitable edges near location");
        }
        other => panic!("unexpected {:?}", other),
    }
}
