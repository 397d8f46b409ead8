//! The engine's settings tree and its default table.
//!
//! Real-valued settings are held in fixed point (see `crate::fixed`).
use vstd::prelude::*;
use crate::fixed::{Fixed, FIXED_ONE};

verus! {

/// The whole settings tree, one section per engine component.
pub struct Config {
    pub mjolnir: MjolnirConfig,
    pub loki: LokiConfig,
    pub thor: ThorConfig,
    pub odin: OdinConfig,
    pub meili: MeiliConfig,
    pub httpd: HttpdConfig,
    pub statsd: StatsdConfig,
    pub additional_data: AdditionalDataConfig,
    pub service_limits: ServiceLimitsConfig,
}

/// Tile storage, caching and graph-building settings.
pub struct MjolnirConfig {
    pub max_cache_size: i32,
    pub id_table_size: i32,
    pub use_lru_mem_cache: bool,
    pub lru_mem_cache_hard_control: bool,
    pub use_simple_mem_cache: bool,
    pub user_agent: Option<String>,
    pub tile_url: Option<String>,
    pub tile_url_gz: Option<bool>,
    pub concurrency: Option<i32>,
    pub tile_dir: String,
    pub tile_extract: String,
    pub traffic_extract: String,
    pub incident_dir: Option<String>,
    pub incident_log: Option<String>,
    pub shortcut_caching: Option<bool>,
    pub admin: String,
    pub timezone: String,
    pub transit_dir: String,
    pub transit_bounding_box: Option<String>,
    pub hierarchy: bool,
    pub shortcuts: bool,
    pub include_driveways: bool,
    pub include_bicycle: bool,
    pub include_pedestrian: bool,
    pub include_driving: bool,
    pub import_bike_share_stations: bool,
    pub global_synchronized_cache: bool,
    pub max_concurrent_reader_users: i32,
    pub reclassify_links: bool,
    pub default_speeds_config: Option<String>,
    pub data_processing: MjolnirDataProcessingConfig,
    pub logging: LoggingConfig,
}

/// Where a component logs. `log_type` is the sink's name (`std_out`, `file`);
/// `long_request` is the duration in milliseconds above which a request is
/// logged as slow.
pub struct LoggingConfig {
    pub log_type: String,
    pub color: bool,
    pub file_name: String,
    pub long_request: Option<Fixed>,
}

/// Switches of the graph-building pipeline.
#[derive(Clone, Copy, PartialEq, Eq, Structural, Debug)]
pub struct MjolnirDataProcessingConfig {
    pub infer_internal_intersections: bool,
    pub infer_turn_channels: bool,
    pub apply_country_overrides: bool,
    pub use_admin_db: bool,
    pub use_direction_on_ways: bool,
    pub allow_alt_name: bool,
    pub use_urban_tag: bool,
    pub use_rest_area: bool,
}

/// Location-search settings and the list of actions the service accepts.
pub struct LokiConfig {
    pub actions: Vec<String>,
    pub use_connectivity: bool,
    pub service_defaults: LokiServiceDefaultsConfig,
    pub logging: LoggingConfig,
    pub service: ServiceConfig,
}

/// Defaults applied to a location that does not set them itself.
#[derive(Clone, Copy, PartialEq, Eq, Structural, Debug)]
pub struct LokiServiceDefaultsConfig {
    pub radius: i32,
    pub minimum_reachability: i32,
    pub search_cutoff: i32,
    pub node_snap_tolerance: i32,
    pub street_side_tolerance: i32,
    pub street_side_max_distance: i32,
    pub heading_tolerance: i32,
}

/// The endpoint at which an internal service listens.
pub struct ServiceConfig {
    pub proxy: String,
}

/// Path-search settings.
pub struct ThorConfig {
    pub logging: LoggingConfig,
    pub source_to_target_algorithm: String,
    pub service: ServiceConfig,
    pub max_reserved_labels_count: i32,
    pub extended_search: bool,
}

/// Narrative-building settings.
pub struct OdinConfig {
    pub logging: LoggingConfig,
    pub service: ServiceConfig,
}

/// Map-matching settings, with one parameter set per travel mode.
pub struct MeiliConfig {
    pub mode: String,
    pub customizable: Vec<String>,
    pub verbose: bool,
    pub default: MeiliModeConfig,
    pub auto: MeiliModeConfig,
    pub pedestrian: MeiliModeConfig,
    pub bicycle: MeiliModeConfig,
    pub multimodal: MeiliModeConfig,
    pub logging: LoggingConfig,
    pub service: ServiceConfig,
    pub grid: GridConfig,
}

/// Map-matching parameters of one travel mode; an absent one falls back on
/// the `default` set.
#[derive(Clone, Copy, PartialEq, Eq, Structural, Debug)]
pub struct MeiliModeConfig {
    pub sigma_z: Option<Fixed>,
    pub gps_accuracy: Option<Fixed>,
    pub beta: Option<i32>,
    pub max_route_distance_factor: Option<i32>,
    pub max_route_time_factor: Option<i32>,
    pub max_search_radius: Option<i32>,
    pub breakage_distance: Option<i32>,
    pub interpolation_distance: Option<i32>,
    pub search_radius: Option<i32>,
    pub geometry: Option<bool>,
    pub route: Option<bool>,
    pub turn_penalty_factor: Option<i32>,
}

/// The spatial grid that map matching indexes candidates with.
#[derive(Clone, Copy, PartialEq, Eq, Structural, Debug)]
pub struct GridConfig {
    pub size: i32,
    pub cache_size: i32,
}

/// The HTTP front end's settings.
pub struct HttpdConfig {
    pub service: HttpdServiceConfig,
}

/// Endpoints and shutdown timing of the HTTP front end.
pub struct HttpdServiceConfig {
    pub listen: String,
    pub loopback: String,
    pub interrupt: String,
    pub drain_seconds: i32,
    pub shutdown_seconds: i32,
}

/// Where metrics are sent.
pub struct StatsdConfig {
    pub host: Option<String>,
    pub port: u16,
    pub prefix: String,
    pub batch_size: Option<i32>,
    pub tags: Option<Vec<String>>,
}

/// Locations of supplementary data sets.
pub struct AdditionalDataConfig {
    pub elevation: String,
}

/// Global limits and the per-profile limits table.
#[derive(Clone, Copy, PartialEq, Eq, Structural, Debug)]
pub struct ServiceLimitsConfig {
    pub max_exclude_locations: i32,
    pub max_reachability: i32,
    pub max_radius: i32,
    pub max_timedep_distance: i32,
    pub max_alternates: i32,
    pub max_exclude_polygons_length: i32,
    pub auto: ServiceLimitConfig,
    pub auto_shorter: ServiceLimitConfig,
    pub bus: ServiceLimitConfig,
    pub hov: ServiceLimitConfig,
    pub taxi: ServiceLimitConfig,
    pub pedestrian: ServiceLimitConfig,
    pub motor_scooter: ServiceLimitConfig,
    pub motorcycle: ServiceLimitConfig,
    pub bicycle: ServiceLimitConfig,
    pub multimodal: ServiceLimitConfig,
    pub transit: ServiceLimitConfig,
    pub truck: ServiceLimitConfig,
    pub skadi: ServiceLimitConfig,
    pub isochrone: ServiceLimitConfig,
    pub trace: ServiceLimitConfig,
    pub bikeshare: ServiceLimitConfig,
    pub centroid: ServiceLimitConfig,
}

/// The limits of one profile. Every limit is optional: an absent one means
/// that the engine applies its own default, never that the limit is zero.
/// Distances are in metres.
#[derive(Clone, Copy, PartialEq, Eq, Structural, Debug)]
pub struct ServiceLimitConfig {
    pub max_distance: Option<Fixed>,
    pub max_locations: Option<i32>,
    pub max_matrix_distance: Option<Fixed>,
    pub max_matrix_locations: Option<i32>,
    pub min_transit_walking_distance: Option<i32>,
    pub max_transit_walking_distance: Option<i32>,
    pub max_shape: Option<i32>,
    pub min_resample: Option<Fixed>,
    pub max_contours: Option<i32>,
    pub max_time_contour: Option<i32>,
    pub max_distance_contour: Option<i32>,
    pub max_gps_accuracy: Option<Fixed>,
    pub max_search_radius: Option<Fixed>,
    pub max_best_paths: Option<i32>,
    pub max_best_paths_shape: Option<i32>,
}

// ---------------------------------------------------------------------------
// The default table.
// ---------------------------------------------------------------------------

/// `l` logs to standard output in colour, with the given slow-request threshold.
pub open spec fn default_logging(l: LoggingConfig, long_request: Option<Fixed>) -> bool {
    &&& l.log_type@ == "std_out"@
    &&& l.color
    &&& l.file_name@ == "path_to_some_file.log"@
    &&& l.long_request == long_request
}

pub(crate) fn make_default_logging(long_request: Option<Fixed>) -> (r: LoggingConfig)
    ensures
        default_logging(r, long_request),
{
    LoggingConfig {
        log_type: String::from_str("std_out"),
        color: true,
        file_name: String::from_str("path_to_some_file.log"),
        long_request,
    }
}

pub(crate) fn make_service(proxy: &str) -> (r: ServiceConfig)
    ensures
        r.proxy@ == proxy@,
{
    ServiceConfig { proxy: String::from_str(proxy) }
}

/// A limits entry with nothing set.
pub open spec fn no_limits() -> ServiceLimitConfig {
    ServiceLimitConfig {
        max_distance: None,
        max_locations: None,
        max_matrix_distance: None,
        max_matrix_locations: None,
        min_transit_walking_distance: None,
        max_transit_walking_distance: None,
        max_shape: None,
        min_resample: None,
        max_contours: None,
        max_time_contour: None,
        max_distance_contour: None,
        max_gps_accuracy: None,
        max_search_radius: None,
        max_best_paths: None,
        max_best_paths_shape: None,
    }
}

/// The limits entry of a routing profile: route and matrix distance (in whole
/// metres) and location counts; everything else unset.
pub open spec fn routing_limits(
    max_distance_m: int,
    max_locations: i32,
    max_matrix_distance_m: int,
    max_matrix_locations: i32,
) -> ServiceLimitConfig {
    ServiceLimitConfig {
        max_distance: Some((max_distance_m * FIXED_ONE) as i64),
        max_locations: Some(max_locations),
        max_matrix_distance: Some((max_matrix_distance_m * FIXED_ONE) as i64),
        max_matrix_locations: Some(max_matrix_locations),
        ..no_limits()
    }
}

fn make_routing_limits(
    max_distance_m: i64,
    max_locations: i32,
    max_matrix_distance_m: i64,
    max_matrix_locations: i32,
) -> (r: ServiceLimitConfig)
    requires
        0 <= max_distance_m <= 1_000_000_000,
        0 <= max_matrix_distance_m <= 1_000_000_000,
    ensures
        r == routing_limits(
            max_distance_m as int,
            max_locations,
            max_matrix_distance_m as int,
            max_matrix_locations,
        ),
{
    let mut r = ServiceLimitConfig::default();
    r.max_distance = Some(max_distance_m * FIXED_ONE);
    r.max_locations = Some(max_locations);
    r.max_matrix_distance = Some(max_matrix_distance_m * FIXED_ONE);
    r.max_matrix_locations = Some(max_matrix_locations);
    r
}

/// `c` holds the documented default of every map-matching mode.
pub open spec fn meili_modes_default(c: MeiliConfig) -> bool {
    &&& c.default == (MeiliModeConfig {
        sigma_z: Some(4_070_000),
        gps_accuracy: Some(5_000_000),
        beta: Some(3),
        max_route_distance_factor: Some(5),
        max_route_time_factor: Some(5),
        max_search_radius: Some(100),
        breakage_distance: Some(2000),
        interpolation_distance: Some(10),
        search_radius: Some(50),
        geometry: Some(false),
        route: Some(true),
        turn_penalty_factor: Some(0),
    })
    &&& c.auto == (MeiliModeConfig {
        turn_penalty_factor: Some(200),
        search_radius: Some(50),
        ..no_mode_settings()
    })
    &&& c.pedestrian == (MeiliModeConfig {
        turn_penalty_factor: Some(100),
        search_radius: Some(50),
        ..no_mode_settings()
    })
    &&& c.bicycle == (MeiliModeConfig { turn_penalty_factor: Some(140), ..no_mode_settings() })
    &&& c.multimodal == (MeiliModeConfig { turn_penalty_factor: Some(70), ..no_mode_settings() })
}

/// A map-matching parameter set with nothing set.
pub open spec fn no_mode_settings() -> MeiliModeConfig {
    MeiliModeConfig {
        sigma_z: None,
        gps_accuracy: None,
        beta: None,
        max_route_distance_factor: None,
        max_route_time_factor: None,
        max_search_radius: None,
        breakage_distance: None,
        interpolation_distance: None,
        search_radius: None,
        geometry: None,
        route: None,
        turn_penalty_factor: None,
    }
}

impl Default for Config {
    fn default() -> (r: Self)
        ensures
            r.mjolnir.is_default(),
            r.loki.is_default(),
            r.thor.is_default(),
            r.odin.is_default(),
            r.meili.is_default(),
            r.httpd.service.is_default(),
            r.statsd.is_default(),
            r.additional_data.is_default(),
            r.service_limits == ServiceLimitsConfig::default_table(),
    {
        Config {
            mjolnir: MjolnirConfig::default(),
            loki: LokiConfig::default(),
            thor: ThorConfig::default(),
            odin: OdinConfig::default(),
            meili: MeiliConfig::default(),
            httpd: HttpdConfig::default(),
            statsd: StatsdConfig::default(),
            additional_data: AdditionalDataConfig::default(),
            service_limits: ServiceLimitsConfig::default(),
        }
    }
}

impl MjolnirConfig {
    /// Every field holds its documented default.
    pub open spec fn is_default(&self) -> bool {
        &&& self.max_cache_size == 1_000_000_000
        &&& self.id_table_size == 1_300_000_000
        &&& !self.use_lru_mem_cache
        &&& !self.lru_mem_cache_hard_control
        &&& !self.use_simple_mem_cache
        &&& self.user_agent is None
        &&& self.tile_url is None
        &&& self.tile_url_gz is None
        &&& self.concurrency is None
        &&& self.tile_dir@ == "/data/valhalla"@
        &&& self.tile_extract@ == "/data/valhalla/tiles.tar"@
        &&& self.traffic_extract@ == "/data/valhalla/traffic.tar"@
        &&& self.incident_dir is None
        &&& self.incident_log is None
        &&& self.shortcut_caching is None
        &&& self.admin@ == "/data/valhalla/admin.sqlite"@
        &&& self.timezone@ == "/data/valhalla/tz_world.sqlite"@
        &&& self.transit_dir@ == "/data/valhalla/transit"@
        &&& self.transit_bounding_box is None
        &&& self.hierarchy
        &&& self.shortcuts
        &&& self.include_driveways
        &&& self.include_bicycle
        &&& self.include_pedestrian
        &&& self.include_driving
        &&& !self.import_bike_share_stations
        &&& !self.global_synchronized_cache
        &&& self.max_concurrent_reader_users == 1
        &&& self.reclassify_links
        &&& self.default_speeds_config is None
        &&& self.data_processing == MjolnirDataProcessingConfig::default_value()
        &&& default_logging(self.logging, None)
    }
}

impl Default for MjolnirConfig {
    fn default() -> (r: Self)
        ensures
            r.is_default(),
    {
        MjolnirConfig {
            max_cache_size: 1_000_000_000,
            id_table_size: 1_300_000_000,
            use_lru_mem_cache: false,
            lru_mem_cache_hard_control: false,
            use_simple_mem_cache: false,
            user_agent: None,
            tile_url: None,
            tile_url_gz: None,
            concurrency: None,
            tile_dir: String::from_str("/data/valhalla"),
            tile_extract: String::from_str("/data/valhalla/tiles.tar"),
            traffic_extract: String::from_str("/data/valhalla/traffic.tar"),
            incident_dir: None,
            incident_log: None,
            shortcut_caching: None,
            admin: String::from_str("/data/valhalla/admin.sqlite"),
            timezone: String::from_str("/data/valhalla/tz_world.sqlite"),
            transit_dir: String::from_str("/data/valhalla/transit"),
            transit_bounding_box: None,
            hierarchy: true,
            shortcuts: true,
            include_driveways: true,
            include_bicycle: true,
            include_pedestrian: true,
            include_driving: true,
            import_bike_share_stations: false,
            global_synchronized_cache: false,
            max_concurrent_reader_users: 1,
            reclassify_links: true,
            default_speeds_config: None,
            data_processing: MjolnirDataProcessingConfig::default(),
            logging: make_default_logging(None),
        }
    }
}

impl MjolnirDataProcessingConfig {
    /// The documented defaults of the pipeline switches.
    pub open spec fn default_value() -> Self {
        MjolnirDataProcessingConfig {
            infer_internal_intersections: true,
            infer_turn_channels: true,
            apply_country_overrides: true,
            use_admin_db: true,
            use_direction_on_ways: false,
            allow_alt_name: false,
            use_urban_tag: false,
            use_rest_area: false,
        }
    }
}

impl Default for MjolnirDataProcessingConfig {
    fn default() -> (r: Self)
        ensures
            r == Self::default_value(),
    {
        MjolnirDataProcessingConfig {
            infer_internal_intersections: true,
            infer_turn_channels: true,
            apply_country_overrides: true,
            use_admin_db: true,
            use_direction_on_ways: false,
            allow_alt_name: false,
            use_urban_tag: false,
            use_rest_area: false,
        }
    }
}

/// The actions that the location-search service accepts by default, in order.
pub open spec fn default_actions() -> Seq<Seq<char>> {
    seq![
        "locate"@,
        "route"@,
        "height"@,
        "sources_to_targets"@,
        "optimized_route"@,
        "isochrone"@,
        "trace_route"@,
        "trace_attributes"@,
        "transit_available"@,
        "expansion"@,
        "centroid"@,
        "status"@,
    ]
}

impl LokiConfig {
    /// Every field holds its documented default.
    pub open spec fn is_default(&self) -> bool {
        &&& self.actions@.map_values(|s: String| s@) == default_actions()
        &&& self.use_connectivity
        &&& self.service_defaults == LokiServiceDefaultsConfig::default_value()
        &&& default_logging(self.logging, Some((100 * FIXED_ONE) as i64))
        &&& self.service.proxy@ == "ipc:///tmp/loki"@
    }
}

impl Default for LokiConfig {
    fn default() -> (r: Self)
        ensures
            r.is_default(),
    {
        let actions = vec![
            String::from_str("locate"),
            String::from_str("route"),
            String::from_str("height"),
            String::from_str("sources_to_targets"),
            String::from_str("optimized_route"),
            String::from_str("isochrone"),
            String::from_str("trace_route"),
            String::from_str("trace_attributes"),
            String::from_str("transit_available"),
            String::from_str("expansion"),
            String::from_str("centroid"),
            String::from_str("status"),
        ];
        assert(actions@.map_values(|s: String| s@) =~= default_actions());
        LokiConfig {
            actions,
            use_connectivity: true,
            service_defaults: LokiServiceDefaultsConfig::default(),
            logging: make_default_logging(Some((100 * FIXED_ONE) as i64)),
            service: make_service("ipc:///tmp/loki"),
        }
    }
}

impl LokiServiceDefaultsConfig {
    /// The documented per-location search defaults.
    pub open spec fn default_value() -> Self {
        LokiServiceDefaultsConfig {
            radius: 0,
            minimum_reachability: 50,
            search_cutoff: 35000,
            node_snap_tolerance: 5,
            street_side_tolerance: 5,
            street_side_max_distance: 1000,
            heading_tolerance: 60,
        }
    }
}

impl Default for LokiServiceDefaultsConfig {
    fn default() -> (r: Self)
        ensures
            r == Self::default_value(),
    {
        LokiServiceDefaultsConfig {
            radius: 0,
            minimum_reachability: 50,
            search_cutoff: 35000,
            node_snap_tolerance: 5,
            street_side_tolerance: 5,
            street_side_max_distance: 1000,
            heading_tolerance: 60,
        }
    }
}

impl ThorConfig {
    /// Every field holds its documented default.
    pub open spec fn is_default(&self) -> bool {
        &&& default_logging(self.logging, Some((110 * FIXED_ONE) as i64))
        &&& self.source_to_target_algorithm@ == "select_optimal"@
        &&& self.service.proxy@ == "ipc:///tmp/thor"@
        &&& self.max_reserved_labels_count == 1_000_000
        &&& !self.extended_search
    }
}

impl Default for ThorConfig {
    fn default() -> (r: Self)
        ensures
            r.is_default(),
    {
        ThorConfig {
            logging: make_default_logging(Some((110 * FIXED_ONE) as i64)),
            source_to_target_algorithm: String::from_str("select_optimal"),
            service: make_service("ipc:///tmp/thor"),
            max_reserved_labels_count: 1_000_000,
            extended_search: false,
        }
    }
}

impl OdinConfig {
    /// Every field holds its documented default.
    pub open spec fn is_default(&self) -> bool {
        &&& default_logging(self.logging, None)
        &&& self.service.proxy@ == "ipc:///tmp/odin"@
    }
}

impl Default for OdinConfig {
    fn default() -> (r: Self)
        ensures
            r.is_default(),
    {
        OdinConfig { logging: make_default_logging(None), service: make_service("ipc:///tmp/odin") }
    }
}

/// The request parameters that a map-matching caller may override, in order.
pub open spec fn default_customizable() -> Seq<Seq<char>> {
    seq![
        "mode"@,
        "search_radius"@,
        "turn_penalty_factor"@,
        "gps_accuracy"@,
        "interpolation_distance"@,
        "sigma_z"@,
        "beta"@,
        "max_route_distance_factor"@,
        "max_route_time_factor"@,
    ]
}

impl MeiliConfig {
    /// Every field holds its documented default.
    pub open spec fn is_default(&self) -> bool {
        &&& self.mode@ == "auto"@
        &&& self.customizable@.map_values(|s: String| s@) == default_customizable()
        &&& !self.verbose
        &&& meili_modes_default(*self)
        &&& default_logging(self.logging, None)
        &&& self.service.proxy@ == "ipc:///tmp/meili"@
        &&& self.grid == GridConfig::default_value()
    }
}

impl Default for MeiliConfig {
    fn default() -> (r: Self)
        ensures
            r.is_default(),
    {
        let customizable = vec![
            String::from_str("mode"),
            String::from_str("search_radius"),
            String::from_str("turn_penalty_factor"),
            String::from_str("gps_accuracy"),
            String::from_str("interpolation_distance"),
            String::from_str("sigma_z"),
            String::from_str("beta"),
            String::from_str("max_route_distance_factor"),
            String::from_str("max_route_time_factor"),
        ];
        assert(customizable@.map_values(|s: String| s@) =~= default_customizable());
        let default = MeiliModeConfig {
            sigma_z: Some(4_070_000),
            gps_accuracy: Some((5 * FIXED_ONE) as i64),
            beta: Some(3),
            max_route_distance_factor: Some(5),
            max_route_time_factor: Some(5),
            max_search_radius: Some(100),
            breakage_distance: Some(2000),
            interpolation_distance: Some(10),
            search_radius: Some(50),
            geometry: Some(false),
            route: Some(true),
            turn_penalty_factor: Some(0),
        };
        let mut auto = MeiliModeConfig::default();
        auto.turn_penalty_factor = Some(200);
        auto.search_radius = Some(50);
        let mut pedestrian = MeiliModeConfig::default();
        pedestrian.turn_penalty_factor = Some(100);
        pedestrian.search_radius = Some(50);
        let mut bicycle = MeiliModeConfig::default();
        bicycle.turn_penalty_factor = Some(140);
        let mut multimodal = MeiliModeConfig::default();
        multimodal.turn_penalty_factor = Some(70);
        MeiliConfig {
            mode: String::from_str("auto"),
            customizable,
            verbose: false,
            default,
            auto,
            pedestrian,
            bicycle,
            multimodal,
            logging: make_default_logging(None),
            service: make_service("ipc:///tmp/meili"),
            grid: GridConfig::default(),
        }
    }
}

impl Default for MeiliModeConfig {
    fn default() -> (r: Self)
        ensures
            r == no_mode_settings(),
    {
        MeiliModeConfig {
            sigma_z: None,
            gps_accuracy: None,
            beta: None,
            max_route_distance_factor: None,
            max_route_time_factor: None,
            max_search_radius: None,
            breakage_distance: None,
            interpolation_distance: None,
            search_radius: None,
            geometry: None,
            route: None,
            turn_penalty_factor: None,
        }
    }
}

impl GridConfig {
    /// The documented grid dimensions.
    pub open spec fn default_value() -> Self {
        GridConfig { size: 500, cache_size: 100240 }
    }
}

impl Default for GridConfig {
    fn default() -> (r: Self)
        ensures
            r == Self::default_value(),
    {
        GridConfig { size: 500, cache_size: 100240 }
    }
}

impl Default for HttpdConfig {
    fn default() -> (r: Self)
        ensures
            r.service.is_default(),
    {
        HttpdConfig { service: HttpdServiceConfig::default() }
    }
}

impl HttpdServiceConfig {
    /// Every field holds its documented default.
    pub open spec fn is_default(&self) -> bool {
        &&& self.listen@ == "tcp://*:8002"@
        &&& self.loopback@ == "ipc:///tmp/loopback"@
        &&& self.interrupt@ == "ipc:///tmp/interrupt"@
        &&& self.drain_seconds == 28
        &&& self.shutdown_seconds == 1
    }
}

impl Default for HttpdServiceConfig {
    fn default() -> (r: Self)
        ensures
            r.is_default(),
    {
        HttpdServiceConfig {
            listen: String::from_str("tcp://*:8002"),
            loopback: String::from_str("ipc:///tmp/loopback"),
            interrupt: String::from_str("ipc:///tmp/interrupt"),
            drain_seconds: 28,
            shutdown_seconds: 1,
        }
    }
}

impl StatsdConfig {
    /// Every field holds its documented default.
    pub open spec fn is_default(&self) -> bool {
        &&& self.host is None
        &&& self.port == 8125
        &&& self.prefix@ == "valhalla"@
        &&& self.batch_size is None
        &&& self.tags is None
    }
}

impl Default for StatsdConfig {
    fn default() -> (r: Self)
        ensures
            r.is_default(),
    {
        StatsdConfig {
            host: None,
            port: 8125,
            prefix: String::from_str("valhalla"),
            batch_size: None,
            tags: None,
        }
    }
}

impl AdditionalDataConfig {
    /// Every field holds its documented default.
    pub open spec fn is_default(&self) -> bool {
        self.elevation@ == "/data/valhalla/elevation/"@
    }
}

impl Default for AdditionalDataConfig {
    fn default() -> (r: Self)
        ensures
            r.is_default(),
    {
        AdditionalDataConfig { elevation: String::from_str("/data/valhalla/elevation/") }
    }
}

impl ServiceLimitsConfig {
    /// The documented limits table.
    #[verifier::opaque]
    pub open spec fn default_table() -> Self {
        ServiceLimitsConfig {
            max_exclude_locations: 50,
            max_reachability: 100,
            max_radius: 200,
            max_timedep_distance: 500000,
            max_alternates: 2,
            max_exclude_polygons_length: 10000,
            auto: routing_limits(5_000_000, 20, 400_000, 50),
            auto_shorter: routing_limits(5_000_000, 20, 400_000, 50),
            bus: routing_limits(5_000_000, 50, 400_000, 50),
            hov: routing_limits(5_000_000, 20, 400_000, 50),
            taxi: routing_limits(5_000_000, 20, 400_000, 50),
            pedestrian: ServiceLimitConfig {
                min_transit_walking_distance: Some(1),
                max_transit_walking_distance: Some(10000),
                ..routing_limits(250_000, 50, 200_000, 50)
            },
            motor_scooter: routing_limits(500_000, 50, 200_000, 50),
            motorcycle: routing_limits(500_000, 50, 200_000, 50),
            bicycle: routing_limits(500_000, 50, 200_000, 50),
            multimodal: routing_limits(500_000, 50, 0, 0),
            transit: routing_limits(500_000, 50, 200_000, 50),
            truck: routing_limits(5_000_000, 20, 400_000, 50),
            skadi: ServiceLimitConfig {
                max_shape: Some(750000),
                min_resample: Some((10 * FIXED_ONE) as i64),
                ..no_limits()
            },
            isochrone: ServiceLimitConfig {
                max_contours: Some(4),
                max_time_contour: Some(120),
                max_distance: Some((25000 * FIXED_ONE) as i64),
                max_locations: Some(1),
                max_distance_contour: Some(200),
                ..no_limits()
            },
            trace: ServiceLimitConfig {
                max_distance: Some((200000 * FIXED_ONE) as i64),
                max_gps_accuracy: Some((100 * FIXED_ONE) as i64),
                max_search_radius: Some((100 * FIXED_ONE) as i64),
                max_shape: Some(16000),
                max_best_paths: Some(4),
                max_best_paths_shape: Some(100),
                ..no_limits()
            },
            bikeshare: routing_limits(500_000, 50, 200_000, 50),
            centroid: ServiceLimitConfig {
                max_distance: Some((200000 * FIXED_ONE) as i64),
                max_locations: Some(5),
                ..no_limits()
            },
        }
    }
}

impl Default for ServiceLimitsConfig {
    fn default() -> (r: Self)
        ensures
            r == Self::default_table(),
    {
        let mut pedestrian = make_routing_limits(250_000, 50, 200_000, 50);
        pedestrian.min_transit_walking_distance = Some(1);
        pedestrian.max_transit_walking_distance = Some(10000);
        let mut skadi = ServiceLimitConfig::default();
        skadi.max_shape = Some(750000);
        skadi.min_resample = Some((10 * FIXED_ONE) as i64);
        let mut isochrone = ServiceLimitConfig::default();
        isochrone.max_contours = Some(4);
        isochrone.max_time_contour = Some(120);
        isochrone.max_distance = Some((25000 * FIXED_ONE) as i64);
        isochrone.max_locations = Some(1);
        isochrone.max_distance_contour = Some(200);
        let mut trace = ServiceLimitConfig::default();
        trace.max_distance = Some((200000 * FIXED_ONE) as i64);
        trace.max_gps_accuracy = Some((100 * FIXED_ONE) as i64);
        trace.max_search_radius = Some((100 * FIXED_ONE) as i64);
        trace.max_shape = Some(16000);
        trace.max_best_paths = Some(4);
        trace.max_best_paths_shape = Some(100);
        let mut centroid = ServiceLimitConfig::default();
        centroid.max_distance = Some((200000 * FIXED_ONE) as i64);
        centroid.max_locations = Some(5);
        proof {
            reveal(ServiceLimitsConfig::default_table);
        }
        ServiceLimitsConfig {
            max_exclude_locations: 50,
            max_reachability: 100,
            max_radius: 200,
            max_timedep_distance: 500000,
            max_alternates: 2,
            max_exclude_polygons_length: 10000,
            auto: make_routing_limits(5_000_000, 20, 400_000, 50),
            auto_shorter: make_routing_limits(5_000_000, 20, 400_000, 50),
            bus: make_routing_limits(5_000_000, 50, 400_000, 50),
            hov: make_routing_limits(5_000_000, 20, 400_000, 50),
            taxi: make_routing_limits(5_000_000, 20, 400_000, 50),
            pedestrian,
            motor_scooter: make_routing_limits(500_000, 50, 200_000, 50),
            motorcycle: make_routing_limits(500_000, 50, 200_000, 50),
            bicycle: make_routing_limits(500_000, 50, 200_000, 50),
            multimodal: make_routing_limits(500_000, 50, 0, 0),
            transit: make_routing_limits(500_000, 50, 200_000, 50),
            truck: make_routing_limits(5_000_000, 20, 400_000, 50),
            skadi,
            isochrone,
            trace,
            bikeshare: make_routing_limits(500_000, 50, 200_000, 50),
            centroid,
        }
    }
}

impl Default for ServiceLimitConfig {
    fn default() -> (r: Self)
        ensures
            r == no_limits(),
    {
        ServiceLimitConfig {
            max_distance: None,
            max_locations: None,
            max_matrix_distance: None,
            max_matrix_locations: None,
            min_transit_walking_distance: None,
            max_transit_walking_distance: None,
            max_shape: None,
            min_resample: None,
            max_contours: None,
            max_time_contour: None,
            max_distance_contour: None,
            max_gps_accuracy: None,
            max_search_radius: None,
            max_best_paths: None,
            max_best_paths_shape: None,
        }
    }
}

} // verus!
