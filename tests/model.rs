use valhalla::data::{
    BicyleType, DirectionsType, HeightRequest, HeightResponse, Location, LocationType,
    ManeuverType, MatrixDistance, MatrixInput, MatrixOutput, RangeHeight, RequestOptions, Units,
    ValidationError,
};

fn loc(lat: i64, lon: i64) -> Location {
    Location { lat: Some(lat), lon: Some(lon), ..Default::default() }
}

#[test]
fn enum_defaults() {
    assert_eq!(DirectionsType::default(), DirectionsType::Instructions);
    assert_eq!(BicyleType::default(), BicyleType::Hybrid);
    assert_eq!(loc(0, 0).effective_type(), LocationType::Break);
    let mut l = loc(0, 0);
    l.location_type = Some(LocationType::Via);
    assert_eq!(l.effective_type(), LocationType::Via);
}

#[test]
fn maneuver_codes_are_stable() {
    assert_eq!(ManeuverType::KNone.code(), 0);
    assert_eq!(ManeuverType::KDestination.code(), 4);
    assert_eq!(ManeuverType::KRoundaboutEnter.code(), 26);
    assert_eq!(ManeuverType::KMergeLeft.code(), 38);
    assert_eq!(ManeuverType::from_code(37), Some(ManeuverType::KMergeRight));
    assert_eq!(ManeuverType::from_code(39), None);
    for c in 0..39u64 {
        assert_eq!(ManeuverType::from_code(c).unwrap().code(), c);
    }
    assert_eq!(Units::from_code(1), Some(Units::Kilometers));
    assert_eq!(Units::from_code(2), None);
}

#[test]
fn route_needs_two_locations() {
    let mut r = RequestOptions::default();
    r.locations.push(loc(1, 2));
    assert_eq!(r.validate(2), Err(ValidationError::TooFewLocations { required: 2, given: 1 }));
    r.locations.push(loc(3, 4));
    assert_eq!(r.validate(2), Ok(()));
}

#[test]
fn matrix_validation() {
    let mut m = MatrixInput::default();
    assert_eq!(m.validate(), Err(ValidationError::NoSources));
    m.sources.push(loc(1, 1));
    assert_eq!(m.validate(), Err(ValidationError::NoTargets));
    m.targets.push(loc(2, 2));
    assert_eq!(m.validate(), Ok(()));
}

#[test]
fn height_request_shape_forms() {
    let mut h = HeightRequest::default();
    assert_eq!(h.validate(), Err(ValidationError::TooFewLocations { required: 1, given: 0 }));
    h.shape.push(loc(1, 1));
    assert_eq!(h.validate(), Ok(()));
}

#[test]
fn height_response_forms() {
    let scalar = HeightResponse { shape: vec![], height: Some(vec![5]), range_height: None, id: None };
    assert!(scalar.answers(false));
    assert!(!scalar.answers(true));
    let ranged = HeightResponse {
        shape: vec![],
        height: None,
        range_height: Some(vec![RangeHeight { range: 0, height: 5 }]),
        id: None,
    };
    assert!(ranged.answers(true));
    let both = HeightResponse { height: Some(vec![]), ..ranged.clone() };
    assert!(!both.answers(true) && !both.answers(false));
}

fn cell(i: usize, j: usize) -> MatrixDistance {
    MatrixDistance { distance: 1, time: 2, from_index: i, to_index: j }
}

#[test]
fn matrix_shape() {
    let mut out = MatrixOutput::default();
    out.sources_to_targets = vec![vec![cell(0, 0), cell(0, 1), cell(0, 2)], vec![cell(1, 0), cell(1, 1), cell(1, 2)]];
    assert!(out.has_shape(2, 3));
    assert!(!out.has_shape(3, 2));
    out.sources_to_targets[1][2] = cell(1, 1);
    assert!(!out.has_shape(2, 3));
    assert!(MatrixOutput::default().has_shape(0, 5));
}

#[test]
fn matrix_cells_in_any_order() {
    let mut out = MatrixOutput::default();
    out.sources_to_targets = vec![vec![cell(1, 1), cell(0, 0)], vec![cell(0, 1), cell(1, 0)]];
    assert!(out.has_shape(2, 2));
    out.sources_to_targets[1][1] = cell(2, 0);
    assert!(!out.has_shape(2, 2));
    out.sources_to_targets[1][1] = cell(0, 2);
    assert!(!out.has_shape(2, 2));
    out.sources_to_targets[1][1] = cell(1, 1);
    assert!(!out.has_shape(2, 2));
}
