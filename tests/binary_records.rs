use valhalla::data::{
    AutomobileOptions, CostingModels, CostingOptions, HeightRequest, HeightResponse, Leg, Location,
    LocationType, Maneuver, ManeuverType, MatrixDistance, MatrixInput, MatrixOutput, PreferredSide,
    RangeHeight, RequestOptions, RoutingOutput, Summary, TravelMode, TravelType, Trip, Units,
    VehicleOptions, LocateOutput, LocatedPoint, LocateEdge, TraceAttributesOutput, TraceEdge,
    MatchedPoint, TransitAvailableOutput, TransitAvailability, ExpansionOutput, ExpansionEdge, Point,
};
use valhalla::facade::{
    encode_request, finish_expansion_reply, finish_height_reply, finish_locate_reply, finish_matrix_reply,
    finish_route_reply, finish_trace_attributes_reply, finish_transit_available_reply,
    FacadeError, Request,
};
use valhalla::wire::{decode_message, encode_message};

fn kotti() -> Location {
    Location {
        lat: Some(52_499_078),
        lon: Some(13_418_230),
        name: Some("Kottbusser Tor".into()),
        location_type: Some(LocationType::BreakThrough),
        preferred_side: Some(PreferredSide::Opposite),
        minimum_reachability: Some(50),
        rank_candidates: Some(false),
        heading: Some(-90_000_000),
        ..Default::default()
    }
}

#[test]
fn location_round_trip() {
    let l = kotti();
    let bytes = encode_message(&l.to_wire_fields());
    let back = Location::from_wire_fields(&decode_message(&bytes).unwrap()).unwrap();
    assert_eq!(back.lat, Some(52_499_078));
    assert_eq!(back.heading, Some(-90_000_000));
    assert_eq!(back.name.as_deref(), Some("Kottbusser Tor"));
    assert_eq!(back.location_type, Some(LocationType::BreakThrough));
    assert_eq!(back.preferred_side, Some(PreferredSide::Opposite));
    assert_eq!(back.minimum_reachability, Some(50));
    assert_eq!(back.rank_candidates, Some(false));
    assert_eq!(back.street, None);
    assert_eq!(back.radius, None);
}

#[test]
fn request_round_trip() {
    let req = RequestOptions {
        locations: vec![kotti(), Location { lat: Some(52_487_331), lon: Some(13_425_042), ..Default::default() }],
        costing: Some(CostingModels::Auto),
        costing_options: Some(CostingOptions {
            auto: Some(AutomobileOptions { country_crossing_penalty: Some(2_000_000_000), shortest: Some(true), ..Default::default() }),
            ..Default::default()
        }),
        units: Some(Units::Kilometers),
        id: Some("kotti_to_hermannplatz".into()),
        ..Default::default()
    };
    let bytes = encode_request(&Request::Route(req.clone()));
    let back = RequestOptions::from_wire_fields(&decode_message(&bytes).unwrap()).unwrap();
    assert_eq!(back.locations.len(), 2);
    assert_eq!(back.locations[1].lon, Some(13_425_042));
    assert_eq!(back.costing, Some(CostingModels::Auto));
    assert_eq!(back.units, Some(Units::Kilometers));
    assert_eq!(back.id.as_deref(), Some("kotti_to_hermannplatz"));
    let auto = back.costing_options.unwrap().auto.unwrap();
    assert_eq!(auto.country_crossing_penalty, Some(2_000_000_000));
    assert_eq!(auto.shortest, Some(true));
    assert_eq!(auto.use_tolls, None);
    assert_eq!(back.directions_type, req.directions_type);
}

fn summary() -> Summary {
    Summary { min_lat: 52_487_100, min_lon: 13_418_000, max_lat: 52_499_300, max_lon: 13_425_500, time: 1, length: 2 }
}

#[test]
fn route_reply_round_trip() {
    let out = RoutingOutput {
        trip: Trip {
            locations: vec![kotti()],
            legs: vec![Leg {
                maneuvers: vec![Maneuver {
                    maneuver_type: ManeuverType::KStartRight,
                    instruction: "Drive south.".into(),
                    verbal_transition_alert_instruction: None,
                    verbal_pre_transition_instruction: Some("Drive south.".into()),
                    verbal_post_transition_instruction: None,
                    street_names: vec!["Skalitzer Straße".into(), "B 179".into()],
                    time: 30_000_000,
                    length: 200_000,
                    begin_shape_index: 0,
                    end_shape_index: 4,
                    travel_mode: TravelMode::Drive,
                    travel_type: TravelType::Car,
                }],
                summary: summary(),
            }],
            summary: summary(),
            status_message: "Found route between points".into(),
            status: 0,
            units: Units::Kilometers,
            language: "en-US".into(),
        },
        id: "kotti_to_hermannplatz".into(),
    };
    let bytes = encode_message(&out.to_wire_fields());
    let back = finish_route_reply(&bytes).unwrap();
    let m = &back.trip.legs[0].maneuvers[0];
    assert_eq!(m.maneuver_type, ManeuverType::KStartRight);
    assert_eq!(m.street_names, vec!["Skalitzer Straße".to_string(), "B 179".to_string()]);
    assert_eq!(m.end_shape_index, 4);
    assert_eq!(back.trip.legs[0].summary, summary());
    assert_eq!(back.trip.locations[0].name.as_deref(), Some("Kottbusser Tor"));
    assert_eq!(back.id, "kotti_to_hermannplatz");
}

#[test]
fn matrix_reply_round_trip() {
    let req = MatrixInput { sources: vec![kotti()], targets: vec![kotti(), kotti()], ..Default::default() };
    let cell = |j: usize| MatrixDistance { distance: 5, time: 6, from_index: 0, to_index: j };
    let out = MatrixOutput {
        sources: vec![vec![kotti()]],
        targets: vec![vec![], vec![kotti()]],
        sources_to_targets: vec![vec![cell(0), cell(1)]],
        units: Some(Units::Miles),
    };
    let bytes = encode_message(&out.to_wire_fields());
    let back = finish_matrix_reply(&req, &bytes).unwrap();
    assert_eq!(back.sources_to_targets, vec![vec![cell(0), cell(1)]]);
    assert_eq!(back.targets.len(), 2);
    assert!(back.targets[0].is_empty());
    assert_eq!(back.units, Some(Units::Miles));
    let wrong = MatrixInput { targets: vec![kotti()], ..req };
    assert!(finish_matrix_reply(&wrong, &bytes).is_err());
}

#[test]
fn height_reply_keeps_empty_form() {
    let req = HeightRequest { shape: vec![kotti()], ..Default::default() };
    let out = HeightResponse { shape: vec![], height: Some(vec![]), range_height: None, id: None };
    let bytes = encode_message(&out.to_wire_fields());
    let back = finish_height_reply(&req, &bytes).unwrap();
    assert_eq!(back.height, Some(vec![]));
    assert_eq!(back.range_height, None);
    let ranged = HeightResponse { height: None, range_height: Some(vec![RangeHeight { range: 0, height: -3 }]), ..out };
    let bytes = encode_message(&ranged.to_wire_fields());
    assert!(finish_height_reply(&req, &bytes).is_err());
    let req_range = HeightRequest { range: Some(true), ..req };
    assert_eq!(finish_height_reply(&req_range, &bytes).unwrap().range_height, Some(vec![RangeHeight { range: 0, height: -3 }]));
}

#[test]
fn vehicle_options_round_trip() {
    let v = VehicleOptions { height: Some(1_600_000), width: Some(1_900_000), include_hot: Some(true), ..Default::default() };
    let fs = v.to_wire_fields();
    assert_eq!(fs.len(), 3);
    let back = VehicleOptions::from_wire_fields(&fs).unwrap();
    assert_eq!(back.height, Some(1_600_000));
    assert_eq!(back.width, Some(1_900_000));
    assert_eq!(back.include_hot, Some(true));
    assert_eq!(back.exclude_unpaved, None);
}

#[test]
fn undecodable_replies_are_decode_errors() {
    for bytes in [vec![0x08], vec![0x0A, 0x05, 0x01], vec![0x78, 0x00]] {
        match finish_route_reply(&bytes) {
            Err(FacadeError::Decode(_)) => {}
            r => panic!("unexpected {:?}", r.map(|o| o.id)),
        }
    }
    let m = MatrixInput { sources: vec![kotti()], targets: vec![kotti()], ..Default::default() };
    assert!(matches!(finish_matrix_reply(&m, &[0x08]), Err(FacadeError::Decode(_))));
    let h = HeightRequest { shape: vec![kotti()], ..Default::default() };
    assert!(matches!(finish_height_reply(&h, &[0xFF]), Err(FacadeError::Decode(_))));
}

#[test]
fn locate_reply_round_trip() {
    let out = LocateOutput {
        locations: vec![LocatedPoint {
            input_lat: 52_499_078,
            input_lon: 13_418_230,
            edges: vec![LocateEdge {
                way_id: 4_000_000_000_123,
                correlated_lat: 52_499_100,
                correlated_lon: 13_418_200,
                percent_along: 37_500_000,
                side_of_street: Some("left".into()),
            }],
        }],
        id: None,
    };
    let back = finish_locate_reply(&encode_message(&out.to_wire_fields())).unwrap();
    assert_eq!(back.locations[0].edges[0].way_id, 4_000_000_000_123);
    assert_eq!(back.locations[0].edges[0].side_of_street.as_deref(), Some("left"));
    assert_eq!(back.locations[0].input_lon, 13_418_230);
}

#[test]
fn trace_attributes_reply_round_trip() {
    let out = TraceAttributesOutput {
        edges: vec![TraceEdge {
            way_id: 7,
            length: 120_000,
            speed: None,
            begin_shape_index: 0,
            end_shape_index: 3,
            names: vec!["Kottbusser Damm".into()],
        }],
        matched_points: vec![MatchedPoint { lat: 1, lon: -2, edge_index: Some(0), distance_along_edge: Some(500_000) }],
        shape: Some("abc".into()),
        units: Some(Units::Kilometers),
        id: Some("t".into()),
    };
    let back = finish_trace_attributes_reply(&encode_message(&out.to_wire_fields())).unwrap();
    assert_eq!(back.edges[0].names, vec!["Kottbusser Damm".to_string()]);
    assert_eq!(back.edges[0].speed, None);
    assert_eq!(back.matched_points[0].lon, -2);
    assert_eq!(back.matched_points[0].edge_index, Some(0));
    assert_eq!(back.units, Some(Units::Kilometers));
}

#[test]
fn transit_and_expansion_replies_round_trip() {
    let t = TransitAvailableOutput {
        locations: vec![TransitAvailability { lat: 3, lon: 4, radius: 250, is_transit: true }],
        id: None,
    };
    let back = finish_transit_available_reply(&encode_message(&t.to_wire_fields())).unwrap();
    assert_eq!(back.locations[0].radius, 250);
    assert!(back.locations[0].is_transit);
    let e = ExpansionOutput {
        edges: vec![ExpansionEdge {
            coordinates: vec![Point { lon: 1, lat: 2 }, Point { lon: 3, lat: 4 }],
            cost: 10,
            duration: 20,
            distance: 30,
        }],
        id: Some("x".into()),
    };
    let back = finish_expansion_reply(&encode_message(&e.to_wire_fields())).unwrap();
    assert_eq!(back.edges[0].coordinates, vec![Point { lon: 1, lat: 2 }, Point { lon: 3, lat: 4 }]);
    assert_eq!(back.edges[0].distance, 30);
    assert!(matches!(finish_expansion_reply(&[0x08]), Err(FacadeError::Decode(_))));
}
