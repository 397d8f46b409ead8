//! The request and response model of the catalogue operations.
//!
//! Real-valued quantities (coordinates, headings, times, lengths) are held in
//! fixed point (see `crate::fixed`). Every closed choice is an enum with a
//! fixed numeric code.
use vstd::prelude::*;
use crate::fixed::Fixed;

verus! {

/// How much guidance a route response carries.
#[derive(Clone, Copy, PartialEq, Eq, Structural, Debug)]
pub enum DirectionsType {
    NoDirections,
    Maneuvers,
    Instructions,
}

impl DirectionsType {
    /// The value's numeric code on the wire.
    pub open spec fn spec_code(self) -> u64 {
        match self {
            DirectionsType::NoDirections => 0,
            DirectionsType::Maneuvers => 1,
            DirectionsType::Instructions => 2,
        }
    }

    /// The value's numeric code on the wire.
    pub fn code(&self) -> (r: u64)
        ensures
            r == self.spec_code(),
    {
        match self {
            DirectionsType::NoDirections => 0,
            DirectionsType::Maneuvers => 1,
            DirectionsType::Instructions => 2,
        }
    }

    /// The value whose code is `c`, if any.
    pub open spec fn spec_from_code(c: u64) -> Option<DirectionsType> {
        if c == 0 {
            Some(DirectionsType::NoDirections)
        } else if c == 1 {
            Some(DirectionsType::Maneuvers)
        } else if c == 2 {
            Some(DirectionsType::Instructions)
        } else {
            None
        }
    }

    /// The value whose code is `c`, if any.
    pub fn from_code(c: u64) -> (r: Option<DirectionsType>)
        ensures
            r == Self::spec_from_code(c),
            r is None <==> c >= 3,
    {
        if c == 0 {
            Some(DirectionsType::NoDirections)
        } else if c == 1 {
            Some(DirectionsType::Maneuvers)
        } else if c == 2 {
            Some(DirectionsType::Instructions)
        } else {
            None
        }
    }

    pub broadcast proof fn lemma_code_round_trip(v: DirectionsType)
        ensures
            #[trigger] Self::spec_from_code(v.spec_code()) == Some(v),
    {
    }
}

/// Distance units of a request and its response.
#[derive(Clone, Copy, PartialEq, Eq, Structural, Debug)]
pub enum Units {
    Miles,
    Kilometers,
}

impl Units {
    /// The value's numeric code on the wire.
    pub open spec fn spec_code(self) -> u64 {
        match self {
            Units::Miles => 0,
            Units::Kilometers => 1,
        }
    }

    /// The value's numeric code on the wire.
    pub fn code(&self) -> (r: u64)
        ensures
            r == self.spec_code(),
    {
        match self {
            Units::Miles => 0,
            Units::Kilometers => 1,
        }
    }

    /// The value whose code is `c`, if any.
    pub open spec fn spec_from_code(c: u64) -> Option<Units> {
        if c == 0 {
            Some(Units::Miles)
        } else if c == 1 {
            Some(Units::Kilometers)
        } else {
            None
        }
    }

    /// The value whose code is `c`, if any.
    pub fn from_code(c: u64) -> (r: Option<Units>)
        ensures
            r == Self::spec_from_code(c),
            r is None <==> c >= 2,
    {
        if c == 0 {
            Some(Units::Miles)
        } else if c == 1 {
            Some(Units::Kilometers)
        } else {
            None
        }
    }

    pub broadcast proof fn lemma_code_round_trip(v: Units)
        ensures
            #[trigger] Self::spec_from_code(v.spec_code()) == Some(v),
    {
    }
}

/// Whether the route must stop at a location and split the route into legs there.
#[derive(Clone, Copy, PartialEq, Eq, Structural, Debug)]
pub enum LocationType {
    Break,
    Through,
    Via,
    BreakThrough,
}

impl LocationType {
    /// The value's numeric code on the wire.
    pub open spec fn spec_code(self) -> u64 {
        match self {
            LocationType::Break => 0,
            LocationType::Through => 1,
            LocationType::Via => 2,
            LocationType::BreakThrough => 3,
        }
    }

    /// The value's numeric code on the wire.
    pub fn code(&self) -> (r: u64)
        ensures
            r == self.spec_code(),
    {
        match self {
            LocationType::Break => 0,
            LocationType::Through => 1,
            LocationType::Via => 2,
            LocationType::BreakThrough => 3,
        }
    }

    /// The value whose code is `c`, if any.
    pub open spec fn spec_from_code(c: u64) -> Option<LocationType> {
        if c == 0 {
            Some(LocationType::Break)
        } else if c == 1 {
            Some(LocationType::Through)
        } else if c == 2 {
            Some(LocationType::Via)
        } else if c == 3 {
            Some(LocationType::BreakThrough)
        } else {
            None
        }
    }

    /// The value whose code is `c`, if any.
    pub fn from_code(c: u64) -> (r: Option<LocationType>)
        ensures
            r == Self::spec_from_code(c),
            r is None <==> c >= 4,
    {
        if c == 0 {
            Some(LocationType::Break)
        } else if c == 1 {
            Some(LocationType::Through)
        } else if c == 2 {
            Some(LocationType::Via)
        } else if c == 3 {
            Some(LocationType::BreakThrough)
        } else {
            None
        }
    }

    pub broadcast proof fn lemma_code_round_trip(v: LocationType)
        ensures
            #[trigger] Self::spec_from_code(v.spec_code()) == Some(v),
    {
    }
}

/// The side of the street at which a location is preferably reached.
#[derive(Clone, Copy, PartialEq, Eq, Structural, Debug)]
pub enum PreferredSide {
    Same,
    Opposite,
    Either,
}

impl PreferredSide {
    /// The value's numeric code on the wire.
    pub open spec fn spec_code(self) -> u64 {
        match self {
            PreferredSide::Same => 0,
            PreferredSide::Opposite => 1,
            PreferredSide::Either => 2,
        }
    }

    /// The value's numeric code on the wire.
    pub fn code(&self) -> (r: u64)
        ensures
            r == self.spec_code(),
    {
        match self {
            PreferredSide::Same => 0,
            PreferredSide::Opposite => 1,
            PreferredSide::Either => 2,
        }
    }

    /// The value whose code is `c`, if any.
    pub open spec fn spec_from_code(c: u64) -> Option<PreferredSide> {
        if c == 0 {
            Some(PreferredSide::Same)
        } else if c == 1 {
            Some(PreferredSide::Opposite)
        } else if c == 2 {
            Some(PreferredSide::Either)
        } else {
            None
        }
    }

    /// The value whose code is `c`, if any.
    pub fn from_code(c: u64) -> (r: Option<PreferredSide>)
        ensures
            r == Self::spec_from_code(c),
            r is None <==> c >= 3,
    {
        if c == 0 {
            Some(PreferredSide::Same)
        } else if c == 1 {
            Some(PreferredSide::Opposite)
        } else if c == 2 {
            Some(PreferredSide::Either)
        } else {
            None
        }
    }

    pub broadcast proof fn lemma_code_round_trip(v: PreferredSide)
        ensures
            #[trigger] Self::spec_from_code(v.spec_code()) == Some(v),
    {
    }
}

/// The costing profile that a request is routed with.
#[derive(Clone, Copy, PartialEq, Eq, Structural, Debug)]
pub enum CostingModels {
    Auto,
    Bicycle,
    Bus,
}

impl CostingModels {
    /// The value's numeric code on the wire.
    pub open spec fn spec_code(self) -> u64 {
        match self {
            CostingModels::Auto => 0,
            CostingModels::Bicycle => 1,
            CostingModels::Bus => 2,
        }
    }

    /// The value's numeric code on the wire.
    pub fn code(&self) -> (r: u64)
        ensures
            r == self.spec_code(),
    {
        match self {
            CostingModels::Auto => 0,
            CostingModels::Bicycle => 1,
            CostingModels::Bus => 2,
        }
    }

    /// The value whose code is `c`, if any.
    pub open spec fn spec_from_code(c: u64) -> Option<CostingModels> {
        if c == 0 {
            Some(CostingModels::Auto)
        } else if c == 1 {
            Some(CostingModels::Bicycle)
        } else if c == 2 {
            Some(CostingModels::Bus)
        } else {
            None
        }
    }

    /// The value whose code is `c`, if any.
    pub fn from_code(c: u64) -> (r: Option<CostingModels>)
        ensures
            r == Self::spec_from_code(c),
            r is None <==> c >= 3,
    {
        if c == 0 {
            Some(CostingModels::Auto)
        } else if c == 1 {
            Some(CostingModels::Bicycle)
        } else if c == 2 {
            Some(CostingModels::Bus)
        } else {
            None
        }
    }

    pub broadcast proof fn lemma_code_round_trip(v: CostingModels)
        ensures
            #[trigger] Self::spec_from_code(v.spec_code()) == Some(v),
    {
    }
}

/// The kind of bicycle that bicycle costing assumes.
#[derive(Clone, Copy, PartialEq, Eq, Structural, Debug)]
pub enum BicyleType {
    Hybrid,
    Road,
    City,
    Cross,
    Mountain,
}

impl BicyleType {
    /// The value's numeric code on the wire.
    pub open spec fn spec_code(self) -> u64 {
        match self {
            BicyleType::Hybrid => 0,
            BicyleType::Road => 1,
            BicyleType::City => 2,
            BicyleType::Cross => 3,
            BicyleType::Mountain => 4,
        }
    }

    /// The value's numeric code on the wire.
    pub fn code(&self) -> (r: u64)
        ensures
            r == self.spec_code(),
    {
        match self {
            BicyleType::Hybrid => 0,
            BicyleType::Road => 1,
            BicyleType::City => 2,
            BicyleType::Cross => 3,
            BicyleType::Mountain => 4,
        }
    }

    /// The value whose code is `c`, if any.
    pub open spec fn spec_from_code(c: u64) -> Option<BicyleType> {
        if c == 0 {
            Some(BicyleType::Hybrid)
        } else if c == 1 {
            Some(BicyleType::Road)
        } else if c == 2 {
            Some(BicyleType::City)
        } else if c == 3 {
            Some(BicyleType::Cross)
        } else if c == 4 {
            Some(BicyleType::Mountain)
        } else {
            None
        }
    }

    /// The value whose code is `c`, if any.
    pub fn from_code(c: u64) -> (r: Option<BicyleType>)
        ensures
            r == Self::spec_from_code(c),
            r is None <==> c >= 5,
    {
        if c == 0 {
            Some(BicyleType::Hybrid)
        } else if c == 1 {
            Some(BicyleType::Road)
        } else if c == 2 {
            Some(BicyleType::City)
        } else if c == 3 {
            Some(BicyleType::Cross)
        } else if c == 4 {
            Some(BicyleType::Mountain)
        } else {
            None
        }
    }

    pub broadcast proof fn lemma_code_round_trip(v: BicyleType)
        ensures
            #[trigger] Self::spec_from_code(v.spec_code()) == Some(v),
    {
    }
}

/// The kind of a maneuver. Its numeric codes are a persisted contract and never change.
#[derive(Clone, Copy, PartialEq, Eq, Structural, Debug)]
pub enum ManeuverType {
    KNone,
    KStart,
    KStartRight,
    KStartLeft,
    KDestination,
    KDestinationRight,
    KDestinationLeft,
    KBecomes,
    KContinue,
    KSlightRight,
    KRight,
    KSharpRight,
    KUturnRight,
    KUturnLeft,
    KSharpLeft,
    KLeft,
    KSlightLeft,
    KRampStraight,
    KRampRight,
    KRampLeft,
    KExitRight,
    KExitLeft,
    KStayStraight,
    KStayRight,
    KStayLeft,
    KMerge,
    KRoundaboutEnter,
    KRoundaboutExit,
    KFerryEnter,
    KFerryExit,
    KTransit,
    KTransitTransfer,
    KTransitRemainOn,
    KTransitConnectionStart,
    KTransitConnectionTransfer,
    KTransitConnectionDestination,
    KPostTransitConnectionDestination,
    KMergeRight,
    KMergeLeft,
}

impl ManeuverType {
    /// The value's numeric code on the wire.
    pub open spec fn spec_code(self) -> u64 {
        match self {
            ManeuverType::KNone => 0,
            ManeuverType::KStart => 1,
            ManeuverType::KStartRight => 2,
            ManeuverType::KStartLeft => 3,
            ManeuverType::KDestination => 4,
            ManeuverType::KDestinationRight => 5,
            ManeuverType::KDestinationLeft => 6,
            ManeuverType::KBecomes => 7,
            ManeuverType::KContinue => 8,
            ManeuverType::KSlightRight => 9,
            ManeuverType::KRight => 10,
            ManeuverType::KSharpRight => 11,
            ManeuverType::KUturnRight => 12,
            ManeuverType::KUturnLeft => 13,
            ManeuverType::KSharpLeft => 14,
            ManeuverType::KLeft => 15,
            ManeuverType::KSlightLeft => 16,
            ManeuverType::KRampStraight => 17,
            ManeuverType::KRampRight => 18,
            ManeuverType::KRampLeft => 19,
            ManeuverType::KExitRight => 20,
            ManeuverType::KExitLeft => 21,
            ManeuverType::KStayStraight => 22,
            ManeuverType::KStayRight => 23,
            ManeuverType::KStayLeft => 24,
            ManeuverType::KMerge => 25,
            ManeuverType::KRoundaboutEnter => 26,
            ManeuverType::KRoundaboutExit => 27,
            ManeuverType::KFerryEnter => 28,
            ManeuverType::KFerryExit => 29,
            ManeuverType::KTransit => 30,
            ManeuverType::KTransitTransfer => 31,
            ManeuverType::KTransitRemainOn => 32,
            ManeuverType::KTransitConnectionStart => 33,
            ManeuverType::KTransitConnectionTransfer => 34,
            ManeuverType::KTransitConnectionDestination => 35,
            ManeuverType::KPostTransitConnectionDestination => 36,
            ManeuverType::KMergeRight => 37,
            ManeuverType::KMergeLeft => 38,
        }
    }

    /// The value's numeric code on the wire.
    pub fn code(&self) -> (r: u64)
        ensures
            r == self.spec_code(),
    {
        match self {
            ManeuverType::KNone => 0,
            ManeuverType::KStart => 1,
            ManeuverType::KStartRight => 2,
            ManeuverType::KStartLeft => 3,
            ManeuverType::KDestination => 4,
            ManeuverType::KDestinationRight => 5,
            ManeuverType::KDestinationLeft => 6,
            ManeuverType::KBecomes => 7,
            ManeuverType::KContinue => 8,
            ManeuverType::KSlightRight => 9,
            ManeuverType::KRight => 10,
            ManeuverType::KSharpRight => 11,
            ManeuverType::KUturnRight => 12,
            ManeuverType::KUturnLeft => 13,
            ManeuverType::KSharpLeft => 14,
            ManeuverType::KLeft => 15,
            ManeuverType::KSlightLeft => 16,
            ManeuverType::KRampStraight => 17,
            ManeuverType::KRampRight => 18,
            ManeuverType::KRampLeft => 19,
            ManeuverType::KExitRight => 20,
            ManeuverType::KExitLeft => 21,
            ManeuverType::KStayStraight => 22,
            ManeuverType::KStayRight => 23,
            ManeuverType::KStayLeft => 24,
            ManeuverType::KMerge => 25,
            ManeuverType::KRoundaboutEnter => 26,
            ManeuverType::KRoundaboutExit => 27,
            ManeuverType::KFerryEnter => 28,
            ManeuverType::KFerryExit => 29,
            ManeuverType::KTransit => 30,
            ManeuverType::KTransitTransfer => 31,
            ManeuverType::KTransitRemainOn => 32,
            ManeuverType::KTransitConnectionStart => 33,
            ManeuverType::KTransitConnectionTransfer => 34,
            ManeuverType::KTransitConnectionDestination => 35,
            ManeuverType::KPostTransitConnectionDestination => 36,
            ManeuverType::KMergeRight => 37,
            ManeuverType::KMergeLeft => 38,
        }
    }

    /// The value whose code is `c`, if any.
    pub open spec fn spec_from_code(c: u64) -> Option<ManeuverType> {
        if c == 0 {
            Some(ManeuverType::KNone)
        } else if c == 1 {
            Some(ManeuverType::KStart)
        } else if c == 2 {
            Some(ManeuverType::KStartRight)
        } else if c == 3 {
            Some(ManeuverType::KStartLeft)
        } else if c == 4 {
            Some(ManeuverType::KDestination)
        } else if c == 5 {
            Some(ManeuverType::KDestinationRight)
        } else if c == 6 {
            Some(ManeuverType::KDestinationLeft)
        } else if c == 7 {
            Some(ManeuverType::KBecomes)
        } else if c == 8 {
            Some(ManeuverType::KContinue)
        } else if c == 9 {
            Some(ManeuverType::KSlightRight)
        } else if c == 10 {
            Some(ManeuverType::KRight)
        } else if c == 11 {
            Some(ManeuverType::KSharpRight)
        } else if c == 12 {
            Some(ManeuverType::KUturnRight)
        } else if c == 13 {
            Some(ManeuverType::KUturnLeft)
        } else if c == 14 {
            Some(ManeuverType::KSharpLeft)
        } else if c == 15 {
            Some(ManeuverType::KLeft)
        } else if c == 16 {
            Some(ManeuverType::KSlightLeft)
        } else if c == 17 {
            Some(ManeuverType::KRampStraight)
        } else if c == 18 {
            Some(ManeuverType::KRampRight)
        } else if c == 19 {
            Some(ManeuverType::KRampLeft)
        } else if c == 20 {
            Some(ManeuverType::KExitRight)
        } else if c == 21 {
            Some(ManeuverType::KExitLeft)
        } else if c == 22 {
            Some(ManeuverType::KStayStraight)
        } else if c == 23 {
            Some(ManeuverType::KStayRight)
        } else if c == 24 {
            Some(ManeuverType::KStayLeft)
        } else if c == 25 {
            Some(ManeuverType::KMerge)
        } else if c == 26 {
            Some(ManeuverType::KRoundaboutEnter)
        } else if c == 27 {
            Some(ManeuverType::KRoundaboutExit)
        } else if c == 28 {
            Some(ManeuverType::KFerryEnter)
        } else if c == 29 {
            Some(ManeuverType::KFerryExit)
        } else if c == 30 {
            Some(ManeuverType::KTransit)
        } else if c == 31 {
            Some(ManeuverType::KTransitTransfer)
        } else if c == 32 {
            Some(ManeuverType::KTransitRemainOn)
        } else if c == 33 {
            Some(ManeuverType::KTransitConnectionStart)
        } else if c == 34 {
            Some(ManeuverType::KTransitConnectionTransfer)
        } else if c == 35 {
            Some(ManeuverType::KTransitConnectionDestination)
        } else if c == 36 {
            Some(ManeuverType::KPostTransitConnectionDestination)
        } else if c == 37 {
            Some(ManeuverType::KMergeRight)
        } else if c == 38 {
            Some(ManeuverType::KMergeLeft)
        } else {
            None
        }
    }

    /// The value whose code is `c`, if any.
    pub fn from_code(c: u64) -> (r: Option<ManeuverType>)
        ensures
            r == Self::spec_from_code(c),
            r is None <==> c >= 39,
    {
        if c == 0 {
            Some(ManeuverType::KNone)
        } else if c == 1 {
            Some(ManeuverType::KStart)
        } else if c == 2 {
            Some(ManeuverType::KStartRight)
        } else if c == 3 {
            Some(ManeuverType::KStartLeft)
        } else if c == 4 {
            Some(ManeuverType::KDestination)
        } else if c == 5 {
            Some(ManeuverType::KDestinationRight)
        } else if c == 6 {
            Some(ManeuverType::KDestinationLeft)
        } else if c == 7 {
            Some(ManeuverType::KBecomes)
        } else if c == 8 {
            Some(ManeuverType::KContinue)
        } else if c == 9 {
            Some(ManeuverType::KSlightRight)
        } else if c == 10 {
            Some(ManeuverType::KRight)
        } else if c == 11 {
            Some(ManeuverType::KSharpRight)
        } else if c == 12 {
            Some(ManeuverType::KUturnRight)
        } else if c == 13 {
            Some(ManeuverType::KUturnLeft)
        } else if c == 14 {
            Some(ManeuverType::KSharpLeft)
        } else if c == 15 {
            Some(ManeuverType::KLeft)
        } else if c == 16 {
            Some(ManeuverType::KSlightLeft)
        } else if c == 17 {
            Some(ManeuverType::KRampStraight)
        } else if c == 18 {
            Some(ManeuverType::KRampRight)
        } else if c == 19 {
            Some(ManeuverType::KRampLeft)
        } else if c == 20 {
            Some(ManeuverType::KExitRight)
        } else if c == 21 {
            Some(ManeuverType::KExitLeft)
        } else if c == 22 {
            Some(ManeuverType::KStayStraight)
        } else if c == 23 {
            Some(ManeuverType::KStayRight)
        } else if c == 24 {
            Some(ManeuverType::KStayLeft)
        } else if c == 25 {
            Some(ManeuverType::KMerge)
        } else if c == 26 {
            Some(ManeuverType::KRoundaboutEnter)
        } else if c == 27 {
            Some(ManeuverType::KRoundaboutExit)
        } else if c == 28 {
            Some(ManeuverType::KFerryEnter)
        } else if c == 29 {
            Some(ManeuverType::KFerryExit)
        } else if c == 30 {
            Some(ManeuverType::KTransit)
        } else if c == 31 {
            Some(ManeuverType::KTransitTransfer)
        } else if c == 32 {
            Some(ManeuverType::KTransitRemainOn)
        } else if c == 33 {
            Some(ManeuverType::KTransitConnectionStart)
        } else if c == 34 {
            Some(ManeuverType::KTransitConnectionTransfer)
        } else if c == 35 {
            Some(ManeuverType::KTransitConnectionDestination)
        } else if c == 36 {
            Some(ManeuverType::KPostTransitConnectionDestination)
        } else if c == 37 {
            Some(ManeuverType::KMergeRight)
        } else if c == 38 {
            Some(ManeuverType::KMergeLeft)
        } else {
            None
        }
    }

    pub broadcast proof fn lemma_code_round_trip(v: ManeuverType)
        ensures
            #[trigger] Self::spec_from_code(v.spec_code()) == Some(v),
    {
    }
}

/// The mode in which a maneuver is travelled.
#[derive(Clone, Copy, PartialEq, Eq, Structural, Debug)]
pub enum TravelMode {
    Drive,
    Pedestrian,
    Bicycle,
    Transit,
}

impl TravelMode {
    /// The value's numeric code on the wire.
    pub open spec fn spec_code(self) -> u64 {
        match self {
            TravelMode::Drive => 0,
            TravelMode::Pedestrian => 1,
            TravelMode::Bicycle => 2,
            TravelMode::Transit => 3,
        }
    }

    /// The value's numeric code on the wire.
    pub fn code(&self) -> (r: u64)
        ensures
            r == self.spec_code(),
    {
        match self {
            TravelMode::Drive => 0,
            TravelMode::Pedestrian => 1,
            TravelMode::Bicycle => 2,
            TravelMode::Transit => 3,
        }
    }

    /// The value whose code is `c`, if any.
    pub open spec fn spec_from_code(c: u64) -> Option<TravelMode> {
        if c == 0 {
            Some(TravelMode::Drive)
        } else if c == 1 {
            Some(TravelMode::Pedestrian)
        } else if c == 2 {
            Some(TravelMode::Bicycle)
        } else if c == 3 {
            Some(TravelMode::Transit)
        } else {
            None
        }
    }

    /// The value whose code is `c`, if any.
    pub fn from_code(c: u64) -> (r: Option<TravelMode>)
        ensures
            r == Self::spec_from_code(c),
            r is None <==> c >= 4,
    {
        if c == 0 {
            Some(TravelMode::Drive)
        } else if c == 1 {
            Some(TravelMode::Pedestrian)
        } else if c == 2 {
            Some(TravelMode::Bicycle)
        } else if c == 3 {
            Some(TravelMode::Transit)
        } else {
            None
        }
    }

    pub broadcast proof fn lemma_code_round_trip(v: TravelMode)
        ensures
            #[trigger] Self::spec_from_code(v.spec_code()) == Some(v),
    {
    }
}

/// The vehicle or way of travel within a travel mode.
#[derive(Clone, Copy, PartialEq, Eq, Structural, Debug)]
pub enum TravelType {
    Car,
    Foot,
    Road,
    Tram,
    Metro,
    Rail,
    Bus,
    Ferry,
    Cable,
    Gondola,
    Funicular,
}

impl TravelType {
    /// The value's numeric code on the wire.
    pub open spec fn spec_code(self) -> u64 {
        match self {
            TravelType::Car => 0,
            TravelType::Foot => 1,
            TravelType::Road => 2,
            TravelType::Tram => 3,
            TravelType::Metro => 4,
            TravelType::Rail => 5,
            TravelType::Bus => 6,
            TravelType::Ferry => 7,
            TravelType::Cable => 8,
            TravelType::Gondola => 9,
            TravelType::Funicular => 10,
        }
    }

    /// The value's numeric code on the wire.
    pub fn code(&self) -> (r: u64)
        ensures
            r == self.spec_code(),
    {
        match self {
            TravelType::Car => 0,
            TravelType::Foot => 1,
            TravelType::Road => 2,
            TravelType::Tram => 3,
            TravelType::Metro => 4,
            TravelType::Rail => 5,
            TravelType::Bus => 6,
            TravelType::Ferry => 7,
            TravelType::Cable => 8,
            TravelType::Gondola => 9,
            TravelType::Funicular => 10,
        }
    }

    /// The value whose code is `c`, if any.
    pub open spec fn spec_from_code(c: u64) -> Option<TravelType> {
        if c == 0 {
            Some(TravelType::Car)
        } else if c == 1 {
            Some(TravelType::Foot)
        } else if c == 2 {
            Some(TravelType::Road)
        } else if c == 3 {
            Some(TravelType::Tram)
        } else if c == 4 {
            Some(TravelType::Metro)
        } else if c == 5 {
            Some(TravelType::Rail)
        } else if c == 6 {
            Some(TravelType::Bus)
        } else if c == 7 {
            Some(TravelType::Ferry)
        } else if c == 8 {
            Some(TravelType::Cable)
        } else if c == 9 {
            Some(TravelType::Gondola)
        } else if c == 10 {
            Some(TravelType::Funicular)
        } else {
            None
        }
    }

    /// The value whose code is `c`, if any.
    pub fn from_code(c: u64) -> (r: Option<TravelType>)
        ensures
            r == Self::spec_from_code(c),
            r is None <==> c >= 11,
    {
        if c == 0 {
            Some(TravelType::Car)
        } else if c == 1 {
            Some(TravelType::Foot)
        } else if c == 2 {
            Some(TravelType::Road)
        } else if c == 3 {
            Some(TravelType::Tram)
        } else if c == 4 {
            Some(TravelType::Metro)
        } else if c == 5 {
            Some(TravelType::Rail)
        } else if c == 6 {
            Some(TravelType::Bus)
        } else if c == 7 {
            Some(TravelType::Ferry)
        } else if c == 8 {
            Some(TravelType::Cable)
        } else if c == 9 {
            Some(TravelType::Gondola)
        } else if c == 10 {
            Some(TravelType::Funicular)
        } else {
            None
        }
    }

    pub broadcast proof fn lemma_code_round_trip(v: TravelType)
        ensures
            #[trigger] Self::spec_from_code(v.spec_code()) == Some(v),
    {
    }
}

impl Default for DirectionsType {
    fn default() -> (r: Self)
        ensures
            r == DirectionsType::Instructions,
    {
        DirectionsType::Instructions
    }
}

impl Default for BicyleType {
    fn default() -> (r: Self)
        ensures
            r == BicyleType::Hybrid,
    {
        BicyleType::Hybrid
    }
}

/// A point that a request visits or that a response reports. Every property
/// but the point itself is optional and left to the engine's defaults.
#[derive(Clone, Debug, Default)]
pub struct Location {
    pub lat: Option<Fixed>,
    pub lon: Option<Fixed>,
    /// Taken as `Break` when absent.
    pub location_type: Option<LocationType>,
    pub heading: Option<Fixed>,
    pub heading_tolerance: Option<Fixed>,
    pub street: Option<String>,
    pub way_id: Option<String>,
    pub minimum_reachability: Option<u32>,
    pub radius: Option<Fixed>,
    pub rank_candidates: Option<bool>,
    pub preferred_side: Option<PreferredSide>,
    pub display_lat: Option<Fixed>,
    pub display_lon: Option<Fixed>,
    pub search_cutoff: Option<String>,
    pub node_snap_tolerance: Option<Fixed>,
    pub street_side_tolerance: Option<Fixed>,
    pub street_side_max_distance: Option<Fixed>,
    pub search_filter: Option<String>,
    pub name: Option<String>,
    pub city: Option<String>,
    pub state: Option<String>,
    pub postal_code: Option<String>,
    pub country: Option<String>,
    pub phone: Option<String>,
    pub url: Option<String>,
    pub side_of_street: Option<String>,
    /// ISO 8601 local time, `YYYY-MM-DDThh:mm`.
    pub date_time: Option<String>,
}

impl Location {
    /// The location's type, `Break` when none is given.
    pub open spec fn spec_effective_type(&self) -> LocationType {
        match self.location_type {
            Some(t) => t,
            None => LocationType::Break,
        }
    }

    /// The location's type, `Break` when none is given.
    pub fn effective_type(&self) -> (r: LocationType)
        ensures
            r == self.spec_effective_type(),
    {
        match self.location_type {
            Some(t) => t,
            None => LocationType::Break,
        }
    }
}

/// The options of a route request (and of the other operations that take a
/// list of locations). The order of `locations` is the order of the legs.
#[derive(Clone, Debug, Default)]
pub struct RequestOptions {
    pub locations: Vec<Location>,
    pub costing: Option<CostingModels>,
    pub costing_options: Option<CostingOptions>,
    pub units: Option<Units>,
    pub language: Option<String>,
    pub directions_type: DirectionsType,
    /// Superseded by `directions_type`; passed through unchanged.
    pub narrative: Option<String>,
    /// ISO 8601 local time, `YYYY-MM-DDThh:mm`.
    pub date_time: Option<String>,
    pub out_format: Option<String>,
    /// Echoed back unchanged in the response.
    pub id: Option<String>,
    pub linear_references: Option<String>,
}

/// The options of a location-list request under its older name.
pub type RoutingOptions = RequestOptions;

/// One optional option set per costing profile; only the one of the selected
/// profile is read by the engine, the others are carried through.
#[derive(Clone, Debug, Default)]
pub struct CostingOptions {
    pub auto: Option<AutomobileOptions>,
    pub bicycle: Option<BicycleOptions>,
    pub bus: Option<AutomobileOptions>,
}

/// Costs and penalties of motor-vehicle profiles. Costs and penalties are in
/// seconds; the `use_*` preferences range over 0 to 1.
#[derive(Clone, Copy, Debug, Default)]
pub struct AutomobileOptions {
    pub maneuver_penalty: Option<u32>,
    pub gate_cost: Option<u32>,
    pub gate_penalty: Option<u32>,
    pub private_access_penalty: Option<u32>,
    pub toll_booth_cost: Option<u32>,
    pub toll_booth_penalty: Option<u32>,
    pub ferry_cost: Option<Fixed>,
    pub use_highways: Option<Fixed>,
    pub use_tolls: Option<Fixed>,
    pub use_living_streets: Option<Fixed>,
    pub use_tracks: Option<Fixed>,
    pub service_penalty: Option<u8>,
    pub service_factor: Option<Fixed>,
    pub country_crossing_cost: Option<Fixed>,
    pub country_crossing_penalty: Option<Fixed>,
    pub shortest: Option<bool>,
    pub top_speed: Option<u8>,
    pub ignore_closures: Option<bool>,
    pub closure_factor: Option<Fixed>,
}

/// Vehicle dimensions and restrictions; heights and widths in metres.
#[derive(Clone, Copy, Debug, Default)]
pub struct VehicleOptions {
    pub height: Option<Fixed>,
    pub width: Option<Fixed>,
    pub exclude_unpaved: Option<u8>,
    pub exclude_cash_only_tolls: Option<bool>,
    pub include_hov2: Option<bool>,
    pub include_hov3: Option<bool>,
    pub include_hot: Option<bool>,
}

/// Preferences of the bicycle profile.
#[derive(Clone, Copy, Debug, Default)]
pub struct BicycleOptions {
    pub bicycle_type: Option<BicyleType>,
    pub cycling_speed: Option<Fixed>,
    pub use_roads: Option<Fixed>,
    pub use_hills: Option<Fixed>,
    pub use_ferry: Option<Fixed>,
    pub use_living_streets: Option<Fixed>,
    pub avoid_bad_surfaces: Option<Fixed>,
    pub bss_return_cost: Option<u16>,
    pub bss_return_penalty: Option<Fixed>,
    pub shortest: Option<bool>,
}

/// One step of a leg. `time` is in seconds, `length` in the request's units;
/// the shape indices select the maneuver's part of the route's polyline.
#[derive(Clone, Debug)]
pub struct Maneuver {
    pub maneuver_type: ManeuverType,
    pub instruction: String,
    pub verbal_transition_alert_instruction: Option<String>,
    pub verbal_pre_transition_instruction: Option<String>,
    pub verbal_post_transition_instruction: Option<String>,
    /// Empty where the engine names no street.
    pub street_names: Vec<String>,
    pub time: Fixed,
    pub length: Fixed,
    pub begin_shape_index: u32,
    pub end_shape_index: u32,
    pub travel_mode: TravelMode,
    pub travel_type: TravelType,
}

/// The route between two consecutive break locations.
#[derive(Clone, Debug)]
pub struct Leg {
    pub maneuvers: Vec<Maneuver>,
    pub summary: Summary,
}

/// Bounding box, duration and length of a leg or a trip.
#[derive(Clone, Copy, PartialEq, Eq, Structural, Debug)]
pub struct Summary {
    pub min_lat: Fixed,
    pub min_lon: Fixed,
    pub max_lat: Fixed,
    pub max_lon: Fixed,
    pub time: Fixed,
    pub length: Fixed,
}

/// A whole route, split into legs.
#[derive(Clone, Debug)]
pub struct Trip {
    pub locations: Vec<Location>,
    pub legs: Vec<Leg>,
    pub summary: Summary,
    pub status_message: String,
    pub status: u32,
    pub units: Units,
    pub language: String,
}

/// The response of a route request.
#[derive(Clone, Debug)]
pub struct RoutingOutput {
    pub trip: Trip,
    /// The request's `id`, unchanged.
    pub id: String,
}

/// A many-to-many request: every source to every target.
#[derive(Clone, Debug, Default)]
pub struct MatrixInput {
    pub sources: Vec<Location>,
    pub targets: Vec<Location>,
    pub costing: Option<CostingModels>,
    pub id: Option<String>,
    pub units: Option<Units>,
}

/// One cell of a matrix response: from source `from_index` to target
/// `to_index`, positions in the request's lists.
#[derive(Clone, Copy, PartialEq, Eq, Structural, Debug)]
pub struct MatrixDistance {
    pub distance: Fixed,
    pub time: Fixed,
    pub to_index: usize,
    pub from_index: usize,
}

/// A matrix response: row `i` holds the cells of source `i`, in target order.
#[derive(Clone, Debug, Default)]
pub struct MatrixOutput {
    pub sources: Vec<Vec<Location>>,
    pub targets: Vec<Vec<Location>>,
    pub sources_to_targets: Vec<Vec<MatrixDistance>>,
    pub units: Option<Units>,
}

/// A time threshold of an isochrone, in minutes, with an optional display
/// colour.
#[derive(Clone, Debug)]
pub struct Contour {
    pub time: Fixed,
    pub color: Option<String>,
}

/// A reachability request: the areas reachable from `locations` within each
/// contour's time.
#[derive(Clone, Debug, Default)]
pub struct IsochroneInput {
    pub locations: Vec<Location>,
    pub costing: Option<CostingModels>,
    pub contours: Vec<Contour>,
    pub id: Option<String>,
}

/// A point of a polygon ring.
#[derive(Clone, Copy, PartialEq, Eq, Structural, Debug)]
pub struct Point {
    pub lon: Fixed,
    pub lat: Fixed,
}

/// A ring of points.
#[derive(Clone, Debug)]
pub struct Geometry {
    pub coordinates: Vec<Point>,
}

/// One polygon of an isochrone response.
#[derive(Clone, Debug)]
pub struct Feature {
    pub geometry: Geometry,
}

/// An isochrone response; its features need not follow the contours' order.
#[derive(Clone, Debug)]
pub struct IsochroneOutput {
    pub features: Vec<Feature>,
}

/// An edge of the road network that a located point snaps to; the
/// percentage runs from 0 to 100 along the edge.
#[derive(Clone, Debug)]
pub struct LocateEdge {
    pub way_id: u64,
    pub correlated_lat: Fixed,
    pub correlated_lon: Fixed,
    pub percent_along: Fixed,
    pub side_of_street: Option<String>,
}

/// A request location and the edges it snaps to.
#[derive(Clone, Debug)]
pub struct LocatedPoint {
    pub input_lat: Fixed,
    pub input_lon: Fixed,
    pub edges: Vec<LocateEdge>,
}

/// The response of a locate request.
#[derive(Clone, Debug)]
pub struct LocateOutput {
    pub locations: Vec<LocatedPoint>,
    pub id: Option<String>,
}

/// An edge that a matched trace runs along; the shape indices select its
/// part of the matched shape.
#[derive(Clone, Debug)]
pub struct TraceEdge {
    pub way_id: u64,
    pub length: Fixed,
    pub speed: Option<Fixed>,
    pub begin_shape_index: u32,
    pub end_shape_index: u32,
    pub names: Vec<String>,
}

/// A point of the trace and where it was matched; `edge_index` is a position
/// in the response's edge list.
#[derive(Clone, Debug)]
pub struct MatchedPoint {
    pub lat: Fixed,
    pub lon: Fixed,
    pub edge_index: Option<u32>,
    pub distance_along_edge: Option<Fixed>,
}

/// The response of a trace-attributes request.
#[derive(Clone, Debug)]
pub struct TraceAttributesOutput {
    pub edges: Vec<TraceEdge>,
    pub matched_points: Vec<MatchedPoint>,
    pub shape: Option<String>,
    pub units: Option<Units>,
    pub id: Option<String>,
}

/// Whether transit can be reached within `radius` metres of a location.
#[derive(Clone, Debug)]
pub struct TransitAvailability {
    pub lat: Fixed,
    pub lon: Fixed,
    pub radius: u32,
    pub is_transit: bool,
}

/// The response of a transit-availability request.
#[derive(Clone, Debug)]
pub struct TransitAvailableOutput {
    pub locations: Vec<TransitAvailability>,
    pub id: Option<String>,
}

/// An edge that the search explored, with the cost, duration and distance
/// at which it was reached.
#[derive(Clone, Debug)]
pub struct ExpansionEdge {
    pub coordinates: Vec<Point>,
    pub cost: Fixed,
    pub duration: Fixed,
    pub distance: Fixed,
}

/// The response of an expansion request.
#[derive(Clone, Debug)]
pub struct ExpansionOutput {
    pub edges: Vec<ExpansionEdge>,
    pub id: Option<String>,
}

/// An elevation request along a shape of one or more points. With `range`
/// set the response pairs each height with the distance along the shape.
#[derive(Clone, Debug, Default)]
pub struct HeightRequest {
    pub shape: Vec<Location>,
    pub range: Option<bool>,
    pub id: Option<String>,
}

/// A height together with its distance along the shape, both in metres.
#[derive(Clone, Copy, PartialEq, Eq, Structural, Debug)]
pub struct RangeHeight {
    pub range: Fixed,
    pub height: Fixed,
}

/// An elevation response: scalar heights, or range-height pairs when the
/// request asked for ranges; never both.
#[derive(Clone, Debug)]
pub struct HeightResponse {
    pub shape: Vec<Location>,
    pub height: Option<Vec<Fixed>>,
    pub range_height: Option<Vec<RangeHeight>>,
    pub id: Option<String>,
}

/// A structural defect of a request, found before the engine is called.
#[derive(Clone, Copy, PartialEq, Eq, Structural, Debug)]
pub enum ValidationError {
    /// The request has `given` locations where the operation needs `required`.
    TooFewLocations { required: usize, given: usize },
    /// A matrix request without sources.
    NoSources,
    /// A matrix request without targets.
    NoTargets,
    /// An isochrone request without contours.
    NoContours,
}

impl RequestOptions {
    /// Checks that the request has at least `required` locations.
    pub fn validate(&self, required: usize) -> (r: Result<(), ValidationError>)
        ensures
            r is Ok <==> self.locations@.len() >= required,
            r is Err ==> r == Err::<(), ValidationError>(
                ValidationError::TooFewLocations { required, given: self.locations@.len() as usize },
            ),
    {
        if self.locations.len() < required {
            Err(ValidationError::TooFewLocations { required, given: self.locations.len() })
        } else {
            Ok(())
        }
    }
}

impl MatrixInput {
    /// The first defect of the request, if any: no sources, then no targets.
    pub open spec fn spec_defect(&self) -> Option<ValidationError> {
        if self.sources@.len() == 0 {
            Some(ValidationError::NoSources)
        } else if self.targets@.len() == 0 {
            Some(ValidationError::NoTargets)
        } else {
            None
        }
    }

    /// Checks that sources and targets are both non-empty.
    pub fn validate(&self) -> (r: Result<(), ValidationError>)
        ensures
            r is Ok <==> self.spec_defect() is None,
            r is Err ==> Some(r->Err_0) == self.spec_defect(),
    {
        if self.sources.len() == 0 {
            Err(ValidationError::NoSources)
        } else if self.targets.len() == 0 {
            Err(ValidationError::NoTargets)
        } else {
            Ok(())
        }
    }
}

impl IsochroneInput {
    /// The first defect of the request, if any: no location, then no contour.
    pub open spec fn spec_defect(&self) -> Option<ValidationError> {
        if self.locations@.len() == 0 {
            Some(ValidationError::TooFewLocations { required: 1, given: 0 })
        } else if self.contours@.len() == 0 {
            Some(ValidationError::NoContours)
        } else {
            None
        }
    }

    /// Checks that there is at least one location and one contour.
    pub fn validate(&self) -> (r: Result<(), ValidationError>)
        ensures
            r is Ok <==> self.spec_defect() is None,
            r is Err ==> Some(r->Err_0) == self.spec_defect(),
    {
        if self.locations.len() == 0 {
            Err(ValidationError::TooFewLocations { required: 1, given: 0 })
        } else if self.contours.len() == 0 {
            Err(ValidationError::NoContours)
        } else {
            Ok(())
        }
    }
}

impl HeightRequest {
    /// The defect of the request, if any: a shape without points.
    pub open spec fn spec_defect(&self) -> Option<ValidationError> {
        if self.shape@.len() == 0 {
            Some(ValidationError::TooFewLocations { required: 1, given: 0 })
        } else {
            None
        }
    }

    /// Checks that the shape has at least one point.
    pub fn validate(&self) -> (r: Result<(), ValidationError>)
        ensures
            r is Ok <==> self.spec_defect() is None,
            r is Err ==> Some(r->Err_0) == self.spec_defect(),
    {
        if self.shape.len() == 0 {
            Err(ValidationError::TooFewLocations { required: 1, given: 0 })
        } else {
            Ok(())
        }
    }

    /// Whether the request asks for range-height pairs.
    pub open spec fn spec_wants_range(&self) -> bool {
        self.range == Some(true)
    }
}

impl HeightResponse {
    /// Exactly one of the two height forms is present.
    pub open spec fn spec_one_form(&self) -> bool {
        self.height is Some != self.range_height is Some
    }

    /// The response carries the form that was asked for, and only that one.
    pub open spec fn spec_answers(&self, range: bool) -> bool {
        if range {
            self.range_height is Some && self.height is None
        } else {
            self.height is Some && self.range_height is None
        }
    }

    /// Whether the response carries the form that was asked for, and only
    /// that one.
    pub fn answers(&self, range: bool) -> (r: bool)
        ensures
            r == self.spec_answers(range),
    {
        if range {
            self.range_height.is_some() && self.height.is_none()
        } else {
            self.height.is_some() && self.range_height.is_none()
        }
    }
}

/// The number of cells of a table.
pub open spec fn cell_count(rows: Seq<Vec<MatrixDistance>>) -> int
    decreases rows.len(),
{
    if rows.len() == 0 {
        0
    } else {
        cell_count(rows.drop_last()) + rows.last()@.len()
    }
}

/// The table has `m` rows of `n` cells each.
pub open spec fn table_dims(rows: Seq<Vec<MatrixDistance>>, m: int, n: int) -> bool {
    &&& rows.len() == m
    &&& forall|i: int| 0 <= i < m ==> (#[trigger] rows[i])@.len() == n
}

/// Every cell of an `m` × `n` table goes from a source in `[0, m)` to a
/// target in `[0, n)`.
pub open spec fn table_in_range(rows: Seq<Vec<MatrixDistance>>, m: int, n: int) -> bool {
    forall|i: int, j: int|
        0 <= i < m && 0 <= j < n ==> (#[trigger] rows[i]@[j]).from_index < m && rows[i]@[j].to_index < n
}

/// Cells at different positions carry different (source, target) pairs.
pub open spec fn distinct_pairs(
    rows: Seq<Vec<MatrixDistance>>,
    i1: int,
    j1: int,
    i2: int,
    j2: int,
) -> bool {
    (i1 != i2 || j1 != j2) ==> (rows[i1]@[j1].from_index != rows[i2]@[j2].from_index
        || rows[i1]@[j1].to_index != rows[i2]@[j2].to_index)
}

/// No two cells of an `m` × `n` table share their (source, target) pair.
pub open spec fn table_distinct(rows: Seq<Vec<MatrixDistance>>, m: int, n: int) -> bool {
    forall|i1: int, j1: int, i2: int, j2: int|
        0 <= i1 < m && 0 <= j1 < n && 0 <= i2 < m && 0 <= j2 < n ==> #[trigger] distinct_pairs(
            rows,
            i1,
            j1,
            i2,
            j2,
        )
}

/// Position `(i2, j2)` comes before `(i, j)` in row-major order, within an
/// `m` × `n` table.
pub open spec fn before(i2: int, j2: int, i: int, j: int, n: int) -> bool {
    0 <= i2 && 0 <= j2 < n && (i2 < i || (i2 == i && j2 < j))
}

impl MatrixOutput {
    /// The table has `m` rows of `n` cells, every cell's indices lie in
    /// `[0, m)` × `[0, n)`, and no two cells share a pair of indices. The
    /// cells may come in any order.
    pub open spec fn spec_has_shape(&self, m: int, n: int) -> bool {
        &&& table_dims(self.sources_to_targets@, m, n)
        &&& table_in_range(self.sources_to_targets@, m, n)
        &&& table_distinct(self.sources_to_targets@, m, n)
    }

    fn dims_and_range(&self, m: usize, n: usize) -> (r: bool)
        ensures
            r == (table_dims(self.sources_to_targets@, m as int, n as int) && table_in_range(
                self.sources_to_targets@,
                m as int,
                n as int,
            )),
    {
        let rows = &self.sources_to_targets;
        if rows.len() != m {
            return false;
        }
        let mut i: usize = 0;
        while i < m
            invariant
                i <= m,
                rows@ == self.sources_to_targets@,
                rows@.len() == m,
                forall|k: int| 0 <= k < i ==> (#[trigger] rows@[k])@.len() == n,
                forall|k: int, j: int|
                    0 <= k < i && 0 <= j < n ==> (#[trigger] rows@[k]@[j]).from_index < m
                        && rows@[k]@[j].to_index < n,
            decreases m - i,
        {
            let row = &rows[i];
            if row.len() != n {
                assert(!table_dims(rows@, m as int, n as int)) by {
                    assert(rows@[i as int]@.len() != n);
                }
                return false;
            }
            let mut j: usize = 0;
            while j < n
                invariant
                    j <= n,
                    rows@ == self.sources_to_targets@,
                    i < m,
                    forall|k: int| 0 <= k < i ==> (#[trigger] rows@[k])@.len() == n,
                    rows@.len() == m,
                    row@.len() == n,
                    *row == rows@[i as int],
                    forall|l: int| 0 <= l < j ==> (#[trigger] row@[l]).from_index < m && row@[l].to_index < n,
                decreases n - j,
            {
                if row[j].from_index >= m || row[j].to_index >= n {
                    assert(!table_in_range(rows@, m as int, n as int)) by {
                        assert(rows@[i as int]@[j as int] == row@[j as int]);
                    }
                    return false;
                }
                j += 1;
            }
            assert forall|k: int, l: int| 0 <= k < i + 1 && 0 <= l < n implies (#[trigger] rows@[k]@[l]).from_index < m
                && rows@[k]@[l].to_index < n by {
                if k == i {
                    assert(rows@[k]@[l] == row@[l]);
                }
            }
            i += 1;
        }
        assert(table_dims(rows@, m as int, n as int));
        assert(table_in_range(rows@, m as int, n as int));
        true
    }

    /// Whether the table has `m` rows of `n` cells, every cell's indices lie
    /// in `[0, m)` × `[0, n)`, and no two cells share a pair of indices.
    pub fn has_shape(&self, m: usize, n: usize) -> (r: bool)
        ensures
            r == self.spec_has_shape(m as int, n as int),
    {
        if !self.dims_and_range(m, n) {
            return false;
        }
        let rows = &self.sources_to_targets;
        let ghost t = rows@;
        let mut owner: Vec<Vec<Option<(usize, usize)>>> = Vec::new();
        let mut f: usize = 0;
        while f < m
            invariant
                f <= m,
                owner@.len() == f,
                forall|a: int| 0 <= a < f ==> (#[trigger] owner@[a])@.len() == n,
                forall|a: int, b: int| 0 <= a < f && 0 <= b < n ==> (#[trigger] owner@[a]@[b]) is None,
            decreases m - f,
        {
            let mut row: Vec<Option<(usize, usize)>> = Vec::new();
            let mut g: usize = 0;
            while g < n
                invariant
                    g <= n,
                    row@.len() == g,
                    forall|b: int| 0 <= b < g ==> (#[trigger] row@[b]) is None,
                decreases n - g,
            {
                row.push(None);
                g += 1;
            }
            owner.push(row);
            f += 1;
        }
        let mut i: usize = 0;
        while i < m
            invariant
                i <= m,
                rows@ == self.sources_to_targets@,
                t == rows@,
                rows@ == self.sources_to_targets@,
                table_dims(t, m as int, n as int),
                table_in_range(t, m as int, n as int),
                owner@.len() == m,
                forall|a: int| 0 <= a < m ==> (#[trigger] owner@[a])@.len() == n,
                forall|a: int, b: int|
                    0 <= a < m && 0 <= b < n ==> match #[trigger] owner@[a]@[b] {
                        Some((i2, j2)) => before(i2 as int, j2 as int, i as int, 0, n as int) && t[i2 as int]@[j2 as int].from_index == a
                            && t[i2 as int]@[j2 as int].to_index == b,
                        None => forall|i2: int, j2: int|
                            before(i2, j2, i as int, 0, n as int) ==> !(t[i2]@[j2].from_index == a
                                && t[i2]@[j2].to_index == b),
                    },
                forall|i1: int, j1: int, i2: int, j2: int|
                    before(i1, j1, i as int, 0, n as int) && before(i2, j2, i as int, 0, n as int)
                        ==> #[trigger] distinct_pairs(t, i1, j1, i2, j2),
            decreases m - i,
        {
            let mut j: usize = 0;
            while j < n
                invariant
                    j <= n,
                    rows@ == self.sources_to_targets@,
                    i < m,
                    t == rows@,
                    rows@ == self.sources_to_targets@,
                rows@ == self.sources_to_targets@,
                    table_dims(t, m as int, n as int),
                    table_in_range(t, m as int, n as int),
                    owner@.len() == m,
                    forall|a: int| 0 <= a < m ==> (#[trigger] owner@[a])@.len() == n,
                    forall|a: int, b: int|
                        0 <= a < m && 0 <= b < n ==> match #[trigger] owner@[a]@[b] {
                            Some((i2, j2)) => before(i2 as int, j2 as int, i as int, j as int, n as int)
                                && t[i2 as int]@[j2 as int].from_index == a && t[i2 as int]@[j2 as int].to_index == b,
                            None => forall|i2: int, j2: int|
                                before(i2, j2, i as int, j as int, n as int) ==> !(t[i2]@[j2].from_index == a
                                    && t[i2]@[j2].to_index == b),
                        },
                    forall|i1: int, j1: int, i2: int, j2: int|
                        before(i1, j1, i as int, j as int, n as int) && before(i2, j2, i as int, j as int, n as int)
                            ==> #[trigger] distinct_pairs(t, i1, j1, i2, j2),
                decreases n - j,
            {
                let c = rows[i][j];
                assert(c == t[i as int]@[j as int]);
                let a = c.from_index;
                let b = c.to_index;
                assert(a < m && b < n);
                match owner[a][b] {
                    Some((i2, j2)) => {
                        assert(before(i2 as int, j2 as int, i as int, j as int, n as int));
                        assert(!distinct_pairs(t, i2 as int, j2 as int, i as int, j as int));
                        assert(!table_distinct(t, m as int, n as int));
                        return false;
                    },
                    None => {},
                }
                let ghost old_owner = owner@;
                assert(old_owner[a as int]@[b as int] is None);
                let mut slot: Vec<Option<(usize, usize)>> = Vec::new();
                std::mem::swap(&mut slot, &mut owner[a]);
                slot.set(b, Some((i, j)));
                std::mem::swap(&mut slot, &mut owner[a]);
                assert forall|x: int, y: int|
                    0 <= x < m && 0 <= y < n implies (#[trigger] owner@[x]@[y]) == if x == a && y == b {
                        Some((i, j))
                    } else {
                        old_owner[x]@[y]
                    } by {}
                assert forall|x: int, y: int|
                    0 <= x < m && 0 <= y < n implies match #[trigger] owner@[x]@[y] {
                        Some((i2, j2)) => before(i2 as int, j2 as int, i as int, j + 1, n as int)
                            && t[i2 as int]@[j2 as int].from_index == x && t[i2 as int]@[j2 as int].to_index == y,
                        None => forall|i2: int, j2: int|
                            before(i2, j2, i as int, j + 1, n as int) ==> !(t[i2]@[j2].from_index == x
                                && t[i2]@[j2].to_index == y),
                    } by {
                    if x == a && y == b {
                    } else {
                        match old_owner[x]@[y] {
                            Some((i2, j2)) => {},
                            None => {
                                assert forall|i2: int, j2: int|
                                    before(i2, j2, i as int, j + 1, n as int) implies !(t[i2]@[j2].from_index
                                        == x && t[i2]@[j2].to_index == y) by {
                                    if i2 == i && j2 == j {
                                    } else {
                                        assert(before(i2, j2, i as int, j as int, n as int));
                                    }
                                }
                            },
                        }
                    }
                }
                assert forall|i1: int, j1: int, i2: int, j2: int|
                    before(i1, j1, i as int, j + 1, n as int) && before(i2, j2, i as int, j + 1, n as int)
                        implies #[trigger] distinct_pairs(t, i1, j1, i2, j2) by {
                    let new1 = i1 == i && j1 == j;
                    let new2 = i2 == i && j2 == j;
                    if new1 && !new2 {
                        assert(before(i2, j2, i as int, j as int, n as int));
                        assert(!(t[i2]@[j2].from_index == a && t[i2]@[j2].to_index == b));
                    } else if new2 && !new1 {
                        assert(before(i1, j1, i as int, j as int, n as int));
                        assert(!(t[i1]@[j1].from_index == a && t[i1]@[j1].to_index == b));
                    } else if !new1 && !new2 {
                        assert(before(i1, j1, i as int, j as int, n as int));
                        assert(before(i2, j2, i as int, j as int, n as int));
                        assert(distinct_pairs(t, i1, j1, i2, j2));
                    }
                }
                j += 1;
            }
            assert forall|x: int, y: int|
                0 <= x < m && 0 <= y < n implies match #[trigger] owner@[x]@[y] {
                    Some((i2, j2)) => before(i2 as int, j2 as int, i + 1, 0, n as int)
                        && t[i2 as int]@[j2 as int].from_index == x && t[i2 as int]@[j2 as int].to_index == y,
                    None => forall|i2: int, j2: int|
                        before(i2, j2, i + 1, 0, n as int) ==> !(t[i2]@[j2].from_index == x
                            && t[i2]@[j2].to_index == y),
                } by {
                match owner@[x]@[y] {
                    Some((i2, j2)) => {},
                    None => {
                        assert forall|i2: int, j2: int|
                            before(i2, j2, i + 1, 0, n as int) implies !(t[i2]@[j2].from_index == x
                                && t[i2]@[j2].to_index == y) by {
                            assert(before(i2, j2, i as int, n as int, n as int));
                        }
                    },
                }
            }
            assert forall|i1: int, j1: int, i2: int, j2: int|
                before(i1, j1, i + 1, 0, n as int) && before(i2, j2, i + 1, 0, n as int)
                    implies #[trigger] distinct_pairs(t, i1, j1, i2, j2) by {
                assert(before(i1, j1, i as int, n as int, n as int));
                assert(before(i2, j2, i as int, n as int, n as int));
            }
            i += 1;
        }
        assert forall|i1: int, j1: int, i2: int, j2: int|
            0 <= i1 < m && 0 <= j1 < n && 0 <= i2 < m && 0 <= j2 < n implies #[trigger] distinct_pairs(
            t,
            i1,
            j1,
            i2,
            j2,
        ) by {
            assert(before(i1, j1, m as int, 0, n as int));
            assert(before(i2, j2, m as int, 0, n as int));
        }
        true
    }
}

} // verus!
