//! Loading the settings tree from a settings document.
//!
//! Inside a section, an absent member takes the documented default of its
//! field: the default value of a required field, and "unset" for an optional
//! one (an unset limit is left to the engine, never taken as zero). An absent
//! section takes its documented default as a whole. A member that is present
//! but of the wrong kind or out of range is an error, never replaced by a
//! default; `null` counts as absent for optional fields only. Members that a
//! section does not define are ignored. At the top level all nine sections
//! are required and no other member is allowed.
use vstd::prelude::*;
use crate::config::{AdditionalDataConfig, Config, GridConfig, HttpdConfig, HttpdServiceConfig, LoggingConfig, LokiConfig, LokiServiceDefaultsConfig, MeiliConfig, MeiliModeConfig, MjolnirConfig, MjolnirDataProcessingConfig, OdinConfig, ServiceConfig, ServiceLimitConfig, ServiceLimitsConfig, StatsdConfig, ThorConfig, default_actions, default_customizable, default_logging, make_default_logging, make_service, no_mode_settings};
use crate::doc::{
    ConfigError, Doc, Member, bool_at, fixed_at, int_at, member, opt_bool_at, opt_chars, opt_fixed_at,
    opt_int_at, opt_str_at, opt_str_list_at, opt_strings_view, read_bool, read_int, read_opt_bool,
    read_opt_fixed, read_opt_int, read_opt_str, read_opt_str_list, read_section, read_str,
    read_str_list, section_at, str_at, str_list_at, strings_view,
};

verus! {

/// The limits section `key` is absent or loadable.
#[verifier::opaque]
pub open spec fn profile_ok(ms: Seq<Member>, key: Seq<char>) -> bool {
    match section_at(ms, key) {
        Some(Some(f)) => ServiceLimitConfig::doc_ok(f),
        Some(None) => true,
        None => false,
    }
}

/// `c` holds the limits that section `key` describes, `default` where it is absent.
#[verifier::opaque]
pub open spec fn profile_loaded(ms: Seq<Member>, key: Seq<char>, c: ServiceLimitConfig, default: ServiceLimitConfig) -> bool {
    match section_at(ms, key) {
        Some(Some(f)) => ServiceLimitConfig::doc_loaded(f, c),
        _ => c == default,
    }
}

/// Loads the limits of one profile, `default` where its section is absent.
fn load_profile(ms: &Vec<Member>, key: &str, default: ServiceLimitConfig) -> (r: Result<ServiceLimitConfig, ConfigError>)
    ensures
        r is Ok <==> profile_ok(ms@, key@),
        r matches Ok(c) ==> profile_loaded(ms@, key@, c, default),
        r matches Err(e) ==> e == ConfigError::Malformed,
{
    proof {
        reveal(profile_ok);
        reveal(profile_loaded);
    }
    match read_section(ms, key)? {
        Some(m) => ServiceLimitConfig::load(m),
        None => Ok(default),
    }
}

impl ServiceConfig {
    /// `ms` can be loaded as a service endpoint.
    pub open spec fn doc_ok(ms: Seq<Member>) -> bool {
        str_at(ms, "proxy"@) is Some
    }

    /// `c` is the endpoint that `ms` describes, `default_proxy` where it names none.
    pub open spec fn doc_loaded(ms: Seq<Member>, c: ServiceConfig, default_proxy: Seq<char>) -> bool {
        c.proxy@ == match str_at(ms, "proxy"@) {
            Some(Some(s)) => s,
            _ => default_proxy,
        }
    }

    /// Loads a service endpoint.
    pub fn load(ms: &Vec<Member>, default_proxy: &str) -> (r: Result<ServiceConfig, ConfigError>)
        ensures
            r is Ok <==> Self::doc_ok(ms@),
            r matches Ok(c) ==> Self::doc_loaded(ms@, c, default_proxy@),
            r matches Err(e) ==> e == ConfigError::Malformed,
    {
        let proxy = match read_str(ms, "proxy")? {
            Some(s) => s,
            None => String::from_str(default_proxy),
        };
        Ok(ServiceConfig { proxy })
    }
}

impl LoggingConfig {
    /// `ms` can be loaded as a `LoggingConfig`: every member it defines is of the right kind.
    #[verifier::opaque]
    pub open spec fn doc_ok(ms: Seq<Member>) -> bool {
        &&& str_at(ms, "type"@) is Some
        &&& bool_at(ms, "color"@) is Some
        &&& str_at(ms, "file_name"@) is Some
        &&& opt_fixed_at(ms, "long_request"@) is Some
    }

    /// `c` is the `LoggingConfig` that `ms` describes, with defaults for absent members.
    #[verifier::opaque]
    pub open spec fn doc_loaded(ms: Seq<Member>, c: LoggingConfig) -> bool {
        &&& c.log_type@ == match str_at(ms, "type"@) { Some(Some(s)) => s, _ => "std_out"@ }
        &&& c.color == match bool_at(ms, "color"@) { Some(Some(b)) => b, _ => true }
        &&& c.file_name@ == match str_at(ms, "file_name"@) { Some(Some(s)) => s, _ => "path_to_some_file.log"@ }
        &&& c.long_request == match opt_fixed_at(ms, "long_request"@) { Some(o) => o, None => None }
    }

    /// Loads a `LoggingConfig` from the members of its section.
    pub fn load(ms: &Vec<Member>) -> (r: Result<LoggingConfig, ConfigError>)
        ensures
            r is Ok <==> Self::doc_ok(ms@),
            r matches Ok(c) ==> Self::doc_loaded(ms@, c),
            r matches Err(e) ==> e == ConfigError::Malformed,
    {
        proof {
            reveal(LoggingConfig::doc_ok);
            reveal(LoggingConfig::doc_loaded);
        }
        let log_type = match read_str(ms, "type")? {
            Some(s) => s,
            None => String::from_str("std_out"),
        };
        let color = match read_bool(ms, "color")? {
            Some(b) => b,
            None => true,
        };
        let file_name = match read_str(ms, "file_name")? {
            Some(s) => s,
            None => String::from_str("path_to_some_file.log"),
        };
        let long_request = read_opt_fixed(ms, "long_request")?;
        Ok(LoggingConfig { log_type, color, file_name, long_request })
    }
}

impl MjolnirDataProcessingConfig {
    /// `ms` can be loaded as a `MjolnirDataProcessingConfig`: every member it defines is of the right kind.
    #[verifier::opaque]
    pub open spec fn doc_ok(ms: Seq<Member>) -> bool {
        &&& bool_at(ms, "infer_internal_intersections"@) is Some
        &&& bool_at(ms, "infer_turn_channels"@) is Some
        &&& bool_at(ms, "apply_country_overrides"@) is Some
        &&& bool_at(ms, "use_admin_db"@) is Some
        &&& bool_at(ms, "use_direction_on_ways"@) is Some
        &&& bool_at(ms, "allow_alt_name"@) is Some
        &&& bool_at(ms, "use_urban_tag"@) is Some
        &&& bool_at(ms, "use_rest_area"@) is Some
    }

    /// `c` is the `MjolnirDataProcessingConfig` that `ms` describes, with defaults for absent members.
    #[verifier::opaque]
    pub open spec fn doc_loaded(ms: Seq<Member>, c: MjolnirDataProcessingConfig) -> bool {
        &&& c.infer_internal_intersections == match bool_at(ms, "infer_internal_intersections"@) { Some(Some(b)) => b, _ => true }
        &&& c.infer_turn_channels == match bool_at(ms, "infer_turn_channels"@) { Some(Some(b)) => b, _ => true }
        &&& c.apply_country_overrides == match bool_at(ms, "apply_country_overrides"@) { Some(Some(b)) => b, _ => true }
        &&& c.use_admin_db == match bool_at(ms, "use_admin_db"@) { Some(Some(b)) => b, _ => true }
        &&& c.use_direction_on_ways == match bool_at(ms, "use_direction_on_ways"@) { Some(Some(b)) => b, _ => false }
        &&& c.allow_alt_name == match bool_at(ms, "allow_alt_name"@) { Some(Some(b)) => b, _ => false }
        &&& c.use_urban_tag == match bool_at(ms, "use_urban_tag"@) { Some(Some(b)) => b, _ => false }
        &&& c.use_rest_area == match bool_at(ms, "use_rest_area"@) { Some(Some(b)) => b, _ => false }
    }

    /// Loads a `MjolnirDataProcessingConfig` from the members of its section.
    pub fn load(ms: &Vec<Member>) -> (r: Result<MjolnirDataProcessingConfig, ConfigError>)
        ensures
            r is Ok <==> Self::doc_ok(ms@),
            r matches Ok(c) ==> Self::doc_loaded(ms@, c),
            r matches Err(e) ==> e == ConfigError::Malformed,
    {
        proof {
            reveal(MjolnirDataProcessingConfig::doc_ok);
            reveal(MjolnirDataProcessingConfig::doc_loaded);
        }
        let infer_internal_intersections = match read_bool(ms, "infer_internal_intersections")? {
            Some(b) => b,
            None => true,
        };
        let infer_turn_channels = match read_bool(ms, "infer_turn_channels")? {
            Some(b) => b,
            None => true,
        };
        let apply_country_overrides = match read_bool(ms, "apply_country_overrides")? {
            Some(b) => b,
            None => true,
        };
        let use_admin_db = match read_bool(ms, "use_admin_db")? {
            Some(b) => b,
            None => true,
        };
        let use_direction_on_ways = match read_bool(ms, "use_direction_on_ways")? {
            Some(b) => b,
            None => false,
        };
        let allow_alt_name = match read_bool(ms, "allow_alt_name")? {
            Some(b) => b,
            None => false,
        };
        let use_urban_tag = match read_bool(ms, "use_urban_tag")? {
            Some(b) => b,
            None => false,
        };
        let use_rest_area = match read_bool(ms, "use_rest_area")? {
            Some(b) => b,
            None => false,
        };
        Ok(MjolnirDataProcessingConfig { infer_internal_intersections, infer_turn_channels, apply_country_overrides, use_admin_db, use_direction_on_ways, allow_alt_name, use_urban_tag, use_rest_area })
    }
}

impl MjolnirConfig {
    /// `ms` can be loaded as a `MjolnirConfig`: every member it defines is of the right kind.
    #[verifier::opaque]
    pub open spec fn doc_ok(ms: Seq<Member>) -> bool {
        &&& int_at(ms, "max_cache_size"@, i32::MIN as int, i32::MAX as int) is Some
        &&& int_at(ms, "id_table_size"@, i32::MIN as int, i32::MAX as int) is Some
        &&& bool_at(ms, "use_lru_mem_cache"@) is Some
        &&& bool_at(ms, "lru_mem_cache_hard_control"@) is Some
        &&& bool_at(ms, "use_simple_mem_cache"@) is Some
        &&& opt_str_at(ms, "user_agent"@) is Some
        &&& opt_str_at(ms, "tile_url"@) is Some
        &&& opt_bool_at(ms, "tile_url_gz"@) is Some
        &&& opt_int_at(ms, "concurrency"@, i32::MIN as int, i32::MAX as int) is Some
        &&& str_at(ms, "tile_dir"@) is Some
        &&& str_at(ms, "tile_extract"@) is Some
        &&& str_at(ms, "traffic_extract"@) is Some
        &&& opt_str_at(ms, "incident_dir"@) is Some
        &&& opt_str_at(ms, "incident_log"@) is Some
        &&& opt_bool_at(ms, "shortcut_caching"@) is Some
        &&& str_at(ms, "admin"@) is Some
        &&& str_at(ms, "timezone"@) is Some
        &&& str_at(ms, "transit_dir"@) is Some
        &&& opt_str_at(ms, "transit_bounding_box"@) is Some
        &&& bool_at(ms, "hierarchy"@) is Some
        &&& bool_at(ms, "shortcuts"@) is Some
        &&& bool_at(ms, "include_driveways"@) is Some
        &&& bool_at(ms, "include_bicycle"@) is Some
        &&& bool_at(ms, "include_pedestrian"@) is Some
        &&& bool_at(ms, "include_driving"@) is Some
        &&& bool_at(ms, "import_bike_share_stations"@) is Some
        &&& bool_at(ms, "global_synchronized_cache"@) is Some
        &&& int_at(ms, "max_concurrent_reader_users"@, i32::MIN as int, i32::MAX as int) is Some
        &&& bool_at(ms, "reclassify_links"@) is Some
        &&& opt_str_at(ms, "default_speeds_config"@) is Some
        &&& match section_at(ms, "data_processing"@) { Some(Some(f)) => MjolnirDataProcessingConfig::doc_ok(f), Some(None) => true, None => false }
        &&& match section_at(ms, "logging"@) { Some(Some(f)) => LoggingConfig::doc_ok(f), Some(None) => true, None => false }
    }

    /// `c` is the `MjolnirConfig` that `ms` describes, with defaults for absent members.
    #[verifier::opaque]
    pub open spec fn doc_loaded(ms: Seq<Member>, c: MjolnirConfig) -> bool {
        &&& c.max_cache_size == match int_at(ms, "max_cache_size"@, i32::MIN as int, i32::MAX as int) { Some(Some(v)) => v as i32, _ => 1_000_000_000i32 }
        &&& c.id_table_size == match int_at(ms, "id_table_size"@, i32::MIN as int, i32::MAX as int) { Some(Some(v)) => v as i32, _ => 1_300_000_000i32 }
        &&& c.use_lru_mem_cache == match bool_at(ms, "use_lru_mem_cache"@) { Some(Some(b)) => b, _ => false }
        &&& c.lru_mem_cache_hard_control == match bool_at(ms, "lru_mem_cache_hard_control"@) { Some(Some(b)) => b, _ => false }
        &&& c.use_simple_mem_cache == match bool_at(ms, "use_simple_mem_cache"@) { Some(Some(b)) => b, _ => false }
        &&& opt_chars(c.user_agent) == match opt_str_at(ms, "user_agent"@) { Some(o) => o, None => None }
        &&& opt_chars(c.tile_url) == match opt_str_at(ms, "tile_url"@) { Some(o) => o, None => None }
        &&& c.tile_url_gz == match opt_bool_at(ms, "tile_url_gz"@) { Some(o) => o, None => None }
        &&& c.concurrency == match opt_int_at(ms, "concurrency"@, i32::MIN as int, i32::MAX as int) { Some(Some(v)) => Some(v as i32), _ => None }
        &&& c.tile_dir@ == match str_at(ms, "tile_dir"@) { Some(Some(s)) => s, _ => "/data/valhalla"@ }
        &&& c.tile_extract@ == match str_at(ms, "tile_extract"@) { Some(Some(s)) => s, _ => "/data/valhalla/tiles.tar"@ }
        &&& c.traffic_extract@ == match str_at(ms, "traffic_extract"@) { Some(Some(s)) => s, _ => "/data/valhalla/traffic.tar"@ }
        &&& opt_chars(c.incident_dir) == match opt_str_at(ms, "incident_dir"@) { Some(o) => o, None => None }
        &&& opt_chars(c.incident_log) == match opt_str_at(ms, "incident_log"@) { Some(o) => o, None => None }
        &&& c.shortcut_caching == match opt_bool_at(ms, "shortcut_caching"@) { Some(o) => o, None => None }
        &&& c.admin@ == match str_at(ms, "admin"@) { Some(Some(s)) => s, _ => "/data/valhalla/admin.sqlite"@ }
        &&& c.timezone@ == match str_at(ms, "timezone"@) { Some(Some(s)) => s, _ => "/data/valhalla/tz_world.sqlite"@ }
        &&& c.transit_dir@ == match str_at(ms, "transit_dir"@) { Some(Some(s)) => s, _ => "/data/valhalla/transit"@ }
        &&& opt_chars(c.transit_bounding_box) == match opt_str_at(ms, "transit_bounding_box"@) { Some(o) => o, None => None }
        &&& c.hierarchy == match bool_at(ms, "hierarchy"@) { Some(Some(b)) => b, _ => true }
        &&& c.shortcuts == match bool_at(ms, "shortcuts"@) { Some(Some(b)) => b, _ => true }
        &&& c.include_driveways == match bool_at(ms, "include_driveways"@) { Some(Some(b)) => b, _ => true }
        &&& c.include_bicycle == match bool_at(ms, "include_bicycle"@) { Some(Some(b)) => b, _ => true }
        &&& c.include_pedestrian == match bool_at(ms, "include_pedestrian"@) { Some(Some(b)) => b, _ => true }
        &&& c.include_driving == match bool_at(ms, "include_driving"@) { Some(Some(b)) => b, _ => true }
        &&& c.import_bike_share_stations == match bool_at(ms, "import_bike_share_stations"@) { Some(Some(b)) => b, _ => false }
        &&& c.global_synchronized_cache == match bool_at(ms, "global_synchronized_cache"@) { Some(Some(b)) => b, _ => false }
        &&& c.max_concurrent_reader_users == match int_at(ms, "max_concurrent_reader_users"@, i32::MIN as int, i32::MAX as int) { Some(Some(v)) => v as i32, _ => 1i32 }
        &&& c.reclassify_links == match bool_at(ms, "reclassify_links"@) { Some(Some(b)) => b, _ => true }
        &&& opt_chars(c.default_speeds_config) == match opt_str_at(ms, "default_speeds_config"@) { Some(o) => o, None => None }
        &&& match section_at(ms, "data_processing"@) { Some(Some(f)) => MjolnirDataProcessingConfig::doc_loaded(f, c.data_processing), _ => c.data_processing == MjolnirDataProcessingConfig::default_value() }
        &&& match section_at(ms, "logging"@) { Some(Some(f)) => LoggingConfig::doc_loaded(f, c.logging), _ => default_logging(c.logging, None) }
    }

    #[verifier::rlimit(100)]
    /// Loads a `MjolnirConfig` from the members of its section.
    pub fn load(ms: &Vec<Member>) -> (r: Result<MjolnirConfig, ConfigError>)
        ensures
            r is Ok <==> Self::doc_ok(ms@),
            r matches Ok(c) ==> Self::doc_loaded(ms@, c),
            r matches Err(e) ==> e == ConfigError::Malformed,
    {
        proof {
            reveal(MjolnirConfig::doc_ok);
            reveal(MjolnirConfig::doc_loaded);
        }
        let max_cache_size: i32 = match read_int(ms, "max_cache_size", i32::MIN as i64, i32::MAX as i64)? {
            Some(v) => v as i32,
            None => 1_000_000_000,
        };
        let id_table_size: i32 = match read_int(ms, "id_table_size", i32::MIN as i64, i32::MAX as i64)? {
            Some(v) => v as i32,
            None => 1_300_000_000,
        };
        let use_lru_mem_cache = match read_bool(ms, "use_lru_mem_cache")? {
            Some(b) => b,
            None => false,
        };
        let lru_mem_cache_hard_control = match read_bool(ms, "lru_mem_cache_hard_control")? {
            Some(b) => b,
            None => false,
        };
        let use_simple_mem_cache = match read_bool(ms, "use_simple_mem_cache")? {
            Some(b) => b,
            None => false,
        };
        let user_agent = read_opt_str(ms, "user_agent")?;
        let tile_url = read_opt_str(ms, "tile_url")?;
        let tile_url_gz = read_opt_bool(ms, "tile_url_gz")?;
        let concurrency: Option<i32> = match read_opt_int(ms, "concurrency", i32::MIN as i64, i32::MAX as i64)? {
            Some(v) => Some(v as i32),
            None => None,
        };
        let tile_dir = match read_str(ms, "tile_dir")? {
            Some(s) => s,
            None => String::from_str("/data/valhalla"),
        };
        let tile_extract = match read_str(ms, "tile_extract")? {
            Some(s) => s,
            None => String::from_str("/data/valhalla/tiles.tar"),
        };
        let traffic_extract = match read_str(ms, "traffic_extract")? {
            Some(s) => s,
            None => String::from_str("/data/valhalla/traffic.tar"),
        };
        let incident_dir = read_opt_str(ms, "incident_dir")?;
        let incident_log = read_opt_str(ms, "incident_log")?;
        let shortcut_caching = read_opt_bool(ms, "shortcut_caching")?;
        let admin = match read_str(ms, "admin")? {
            Some(s) => s,
            None => String::from_str("/data/valhalla/admin.sqlite"),
        };
        let timezone = match read_str(ms, "timezone")? {
            Some(s) => s,
            None => String::from_str("/data/valhalla/tz_world.sqlite"),
        };
        let transit_dir = match read_str(ms, "transit_dir")? {
            Some(s) => s,
            None => String::from_str("/data/valhalla/transit"),
        };
        let transit_bounding_box = read_opt_str(ms, "transit_bounding_box")?;
        let hierarchy = match read_bool(ms, "hierarchy")? {
            Some(b) => b,
            None => true,
        };
        let shortcuts = match read_bool(ms, "shortcuts")? {
            Some(b) => b,
            None => true,
        };
        let include_driveways = match read_bool(ms, "include_driveways")? {
            Some(b) => b,
            None => true,
        };
        let include_bicycle = match read_bool(ms, "include_bicycle")? {
            Some(b) => b,
            None => true,
        };
        let include_pedestrian = match read_bool(ms, "include_pedestrian")? {
            Some(b) => b,
            None => true,
        };
        let include_driving = match read_bool(ms, "include_driving")? {
            Some(b) => b,
            None => true,
        };
        let import_bike_share_stations = match read_bool(ms, "import_bike_share_stations")? {
            Some(b) => b,
            None => false,
        };
        let global_synchronized_cache = match read_bool(ms, "global_synchronized_cache")? {
            Some(b) => b,
            None => false,
        };
        let max_concurrent_reader_users: i32 = match read_int(ms, "max_concurrent_reader_users", i32::MIN as i64, i32::MAX as i64)? {
            Some(v) => v as i32,
            None => 1,
        };
        let reclassify_links = match read_bool(ms, "reclassify_links")? {
            Some(b) => b,
            None => true,
        };
        let default_speeds_config = read_opt_str(ms, "default_speeds_config")?;
        let data_processing = match read_section(ms, "data_processing")? {
            Some(m) => MjolnirDataProcessingConfig::load(m)?,
            None => MjolnirDataProcessingConfig::default(),
        };
        let logging = match read_section(ms, "logging")? {
            Some(m) => LoggingConfig::load(m)?,
            None => make_default_logging(None),
        };
        Ok(MjolnirConfig { max_cache_size, id_table_size, use_lru_mem_cache, lru_mem_cache_hard_control, use_simple_mem_cache, user_agent, tile_url, tile_url_gz, concurrency, tile_dir, tile_extract, traffic_extract, incident_dir, incident_log, shortcut_caching, admin, timezone, transit_dir, transit_bounding_box, hierarchy, shortcuts, include_driveways, include_bicycle, include_pedestrian, include_driving, import_bike_share_stations, global_synchronized_cache, max_concurrent_reader_users, reclassify_links, default_speeds_config, data_processing, logging })
    }
}

impl LokiServiceDefaultsConfig {
    /// `ms` can be loaded as a `LokiServiceDefaultsConfig`: every member it defines is of the right kind.
    #[verifier::opaque]
    pub open spec fn doc_ok(ms: Seq<Member>) -> bool {
        &&& int_at(ms, "radius"@, i32::MIN as int, i32::MAX as int) is Some
        &&& int_at(ms, "minimum_reachability"@, i32::MIN as int, i32::MAX as int) is Some
        &&& int_at(ms, "search_cutoff"@, i32::MIN as int, i32::MAX as int) is Some
        &&& int_at(ms, "node_snap_tolerance"@, i32::MIN as int, i32::MAX as int) is Some
        &&& int_at(ms, "street_side_tolerance"@, i32::MIN as int, i32::MAX as int) is Some
        &&& int_at(ms, "street_side_max_distance"@, i32::MIN as int, i32::MAX as int) is Some
        &&& int_at(ms, "heading_tolerance"@, i32::MIN as int, i32::MAX as int) is Some
    }

    /// `c` is the `LokiServiceDefaultsConfig` that `ms` describes, with defaults for absent members.
    #[verifier::opaque]
    pub open spec fn doc_loaded(ms: Seq<Member>, c: LokiServiceDefaultsConfig) -> bool {
        &&& c.radius == match int_at(ms, "radius"@, i32::MIN as int, i32::MAX as int) { Some(Some(v)) => v as i32, _ => 0i32 }
        &&& c.minimum_reachability == match int_at(ms, "minimum_reachability"@, i32::MIN as int, i32::MAX as int) { Some(Some(v)) => v as i32, _ => 50i32 }
        &&& c.search_cutoff == match int_at(ms, "search_cutoff"@, i32::MIN as int, i32::MAX as int) { Some(Some(v)) => v as i32, _ => 35000i32 }
        &&& c.node_snap_tolerance == match int_at(ms, "node_snap_tolerance"@, i32::MIN as int, i32::MAX as int) { Some(Some(v)) => v as i32, _ => 5i32 }
        &&& c.street_side_tolerance == match int_at(ms, "street_side_tolerance"@, i32::MIN as int, i32::MAX as int) { Some(Some(v)) => v as i32, _ => 5i32 }
        &&& c.street_side_max_distance == match int_at(ms, "street_side_max_distance"@, i32::MIN as int, i32::MAX as int) { Some(Some(v)) => v as i32, _ => 1000i32 }
        &&& c.heading_tolerance == match int_at(ms, "heading_tolerance"@, i32::MIN as int, i32::MAX as int) { Some(Some(v)) => v as i32, _ => 60i32 }
    }

    /// Loads a `LokiServiceDefaultsConfig` from the members of its section.
    pub fn load(ms: &Vec<Member>) -> (r: Result<LokiServiceDefaultsConfig, ConfigError>)
        ensures
            r is Ok <==> Self::doc_ok(ms@),
            r matches Ok(c) ==> Self::doc_loaded(ms@, c),
            r matches Err(e) ==> e == ConfigError::Malformed,
    {
        proof {
            reveal(LokiServiceDefaultsConfig::doc_ok);
            reveal(LokiServiceDefaultsConfig::doc_loaded);
        }
        let radius: i32 = match read_int(ms, "radius", i32::MIN as i64, i32::MAX as i64)? {
            Some(v) => v as i32,
            None => 0,
        };
        let minimum_reachability: i32 = match read_int(ms, "minimum_reachability", i32::MIN as i64, i32::MAX as i64)? {
            Some(v) => v as i32,
            None => 50,
        };
        let search_cutoff: i32 = match read_int(ms, "search_cutoff", i32::MIN as i64, i32::MAX as i64)? {
            Some(v) => v as i32,
            None => 35000,
        };
        let node_snap_tolerance: i32 = match read_int(ms, "node_snap_tolerance", i32::MIN as i64, i32::MAX as i64)? {
            Some(v) => v as i32,
            None => 5,
        };
        let street_side_tolerance: i32 = match read_int(ms, "street_side_tolerance", i32::MIN as i64, i32::MAX as i64)? {
            Some(v) => v as i32,
            None => 5,
        };
        let street_side_max_distance: i32 = match read_int(ms, "street_side_max_distance", i32::MIN as i64, i32::MAX as i64)? {
            Some(v) => v as i32,
            None => 1000,
        };
        let heading_tolerance: i32 = match read_int(ms, "heading_tolerance", i32::MIN as i64, i32::MAX as i64)? {
            Some(v) => v as i32,
            None => 60,
        };
        Ok(LokiServiceDefaultsConfig { radius, minimum_reachability, search_cutoff, node_snap_tolerance, street_side_tolerance, street_side_max_distance, heading_tolerance })
    }
}

impl LokiConfig {
    /// `ms` can be loaded as a `LokiConfig`: every member it defines is of the right kind.
    #[verifier::opaque]
    pub open spec fn doc_ok(ms: Seq<Member>) -> bool {
        &&& str_list_at(ms, "actions"@) is Some
        &&& bool_at(ms, "use_connectivity"@) is Some
        &&& match section_at(ms, "service_defaults"@) { Some(Some(f)) => LokiServiceDefaultsConfig::doc_ok(f), Some(None) => true, None => false }
        &&& match section_at(ms, "logging"@) { Some(Some(f)) => LoggingConfig::doc_ok(f), Some(None) => true, None => false }
        &&& match section_at(ms, "service"@) { Some(Some(f)) => ServiceConfig::doc_ok(f), Some(None) => true, None => false }
    }

    /// `c` is the `LokiConfig` that `ms` describes, with defaults for absent members.
    #[verifier::opaque]
    pub open spec fn doc_loaded(ms: Seq<Member>, c: LokiConfig) -> bool {
        &&& strings_view(c.actions@) == match str_list_at(ms, "actions"@) { Some(Some(v)) => v, _ => default_actions() }
        &&& c.use_connectivity == match bool_at(ms, "use_connectivity"@) { Some(Some(b)) => b, _ => true }
        &&& match section_at(ms, "service_defaults"@) { Some(Some(f)) => LokiServiceDefaultsConfig::doc_loaded(f, c.service_defaults), _ => c.service_defaults == LokiServiceDefaultsConfig::default_value() }
        &&& match section_at(ms, "logging"@) { Some(Some(f)) => LoggingConfig::doc_loaded(f, c.logging), _ => default_logging(c.logging, Some(100_000_000)) }
        &&& match section_at(ms, "service"@) { Some(Some(f)) => ServiceConfig::doc_loaded(f, c.service, "ipc:///tmp/loki"@), _ => c.service.proxy@ == "ipc:///tmp/loki"@ }
    }

    /// Loads a `LokiConfig` from the members of its section.
    pub fn load(ms: &Vec<Member>) -> (r: Result<LokiConfig, ConfigError>)
        ensures
            r is Ok <==> Self::doc_ok(ms@),
            r matches Ok(c) ==> Self::doc_loaded(ms@, c),
            r matches Err(e) ==> e == ConfigError::Malformed,
    {
        proof {
            reveal(LokiConfig::doc_ok);
            reveal(LokiConfig::doc_loaded);
        }
        let actions = match read_str_list(ms, "actions")? {
            Some(v) => v,
            None => LokiConfig::default().actions,
        };
        let use_connectivity = match read_bool(ms, "use_connectivity")? {
            Some(b) => b,
            None => true,
        };
        let service_defaults = match read_section(ms, "service_defaults")? {
            Some(m) => LokiServiceDefaultsConfig::load(m)?,
            None => LokiServiceDefaultsConfig::default(),
        };
        let logging = match read_section(ms, "logging")? {
            Some(m) => LoggingConfig::load(m)?,
            None => make_default_logging(Some(100_000_000)),
        };
        let service = match read_section(ms, "service")? {
            Some(m) => ServiceConfig::load(m, "ipc:///tmp/loki")?,
            None => make_service("ipc:///tmp/loki"),
        };
        Ok(LokiConfig { actions, use_connectivity, service_defaults, logging, service })
    }
}

impl ThorConfig {
    /// `ms` can be loaded as a `ThorConfig`: every member it defines is of the right kind.
    #[verifier::opaque]
    pub open spec fn doc_ok(ms: Seq<Member>) -> bool {
        &&& match section_at(ms, "logging"@) { Some(Some(f)) => LoggingConfig::doc_ok(f), Some(None) => true, None => false }
        &&& str_at(ms, "source_to_target_algorithm"@) is Some
        &&& match section_at(ms, "service"@) { Some(Some(f)) => ServiceConfig::doc_ok(f), Some(None) => true, None => false }
        &&& int_at(ms, "max_reserved_labels_count"@, i32::MIN as int, i32::MAX as int) is Some
        &&& bool_at(ms, "extended_search"@) is Some
    }

    /// `c` is the `ThorConfig` that `ms` describes, with defaults for absent members.
    #[verifier::opaque]
    pub open spec fn doc_loaded(ms: Seq<Member>, c: ThorConfig) -> bool {
        &&& match section_at(ms, "logging"@) { Some(Some(f)) => LoggingConfig::doc_loaded(f, c.logging), _ => default_logging(c.logging, Some(110_000_000)) }
        &&& c.source_to_target_algorithm@ == match str_at(ms, "source_to_target_algorithm"@) { Some(Some(s)) => s, _ => "select_optimal"@ }
        &&& match section_at(ms, "service"@) { Some(Some(f)) => ServiceConfig::doc_loaded(f, c.service, "ipc:///tmp/thor"@), _ => c.service.proxy@ == "ipc:///tmp/thor"@ }
        &&& c.max_reserved_labels_count == match int_at(ms, "max_reserved_labels_count"@, i32::MIN as int, i32::MAX as int) { Some(Some(v)) => v as i32, _ => 1_000_000i32 }
        &&& c.extended_search == match bool_at(ms, "extended_search"@) { Some(Some(b)) => b, _ => false }
    }

    /// Loads a `ThorConfig` from the members of its section.
    pub fn load(ms: &Vec<Member>) -> (r: Result<ThorConfig, ConfigError>)
        ensures
            r is Ok <==> Self::doc_ok(ms@),
            r matches Ok(c) ==> Self::doc_loaded(ms@, c),
            r matches Err(e) ==> e == ConfigError::Malformed,
    {
        proof {
            reveal(ThorConfig::doc_ok);
            reveal(ThorConfig::doc_loaded);
        }
        let logging = match read_section(ms, "logging")? {
            Some(m) => LoggingConfig::load(m)?,
            None => make_default_logging(Some(110_000_000)),
        };
        let source_to_target_algorithm = match read_str(ms, "source_to_target_algorithm")? {
            Some(s) => s,
            None => String::from_str("select_optimal"),
        };
        let service = match read_section(ms, "service")? {
            Some(m) => ServiceConfig::load(m, "ipc:///tmp/thor")?,
            None => make_service("ipc:///tmp/thor"),
        };
        let max_reserved_labels_count: i32 = match read_int(ms, "max_reserved_labels_count", i32::MIN as i64, i32::MAX as i64)? {
            Some(v) => v as i32,
            None => 1_000_000,
        };
        let extended_search = match read_bool(ms, "extended_search")? {
            Some(b) => b,
            None => false,
        };
        Ok(ThorConfig { logging, source_to_target_algorithm, service, max_reserved_labels_count, extended_search })
    }
}

impl OdinConfig {
    /// `ms` can be loaded as a `OdinConfig`: every member it defines is of the right kind.
    #[verifier::opaque]
    pub open spec fn doc_ok(ms: Seq<Member>) -> bool {
        &&& match section_at(ms, "logging"@) { Some(Some(f)) => LoggingConfig::doc_ok(f), Some(None) => true, None => false }
        &&& match section_at(ms, "service"@) { Some(Some(f)) => ServiceConfig::doc_ok(f), Some(None) => true, None => false }
    }

    /// `c` is the `OdinConfig` that `ms` describes, with defaults for absent members.
    #[verifier::opaque]
    pub open spec fn doc_loaded(ms: Seq<Member>, c: OdinConfig) -> bool {
        &&& match section_at(ms, "logging"@) { Some(Some(f)) => LoggingConfig::doc_loaded(f, c.logging), _ => default_logging(c.logging, None) }
        &&& match section_at(ms, "service"@) { Some(Some(f)) => ServiceConfig::doc_loaded(f, c.service, "ipc:///tmp/odin"@), _ => c.service.proxy@ == "ipc:///tmp/odin"@ }
    }

    /// Loads a `OdinConfig` from the members of its section.
    pub fn load(ms: &Vec<Member>) -> (r: Result<OdinConfig, ConfigError>)
        ensures
            r is Ok <==> Self::doc_ok(ms@),
            r matches Ok(c) ==> Self::doc_loaded(ms@, c),
            r matches Err(e) ==> e == ConfigError::Malformed,
    {
        proof {
            reveal(OdinConfig::doc_ok);
            reveal(OdinConfig::doc_loaded);
        }
        let logging = match read_section(ms, "logging")? {
            Some(m) => LoggingConfig::load(m)?,
            None => make_default_logging(None),
        };
        let service = match read_section(ms, "service")? {
            Some(m) => ServiceConfig::load(m, "ipc:///tmp/odin")?,
            None => make_service("ipc:///tmp/odin"),
        };
        Ok(OdinConfig { logging, service })
    }
}

impl MeiliModeConfig {
    /// `ms` can be loaded as a `MeiliModeConfig`: every member it defines is of the right kind.
    #[verifier::opaque]
    pub open spec fn doc_ok(ms: Seq<Member>) -> bool {
        &&& opt_fixed_at(ms, "sigma_z"@) is Some
        &&& opt_fixed_at(ms, "gps_accuracy"@) is Some
        &&& opt_int_at(ms, "beta"@, i32::MIN as int, i32::MAX as int) is Some
        &&& opt_int_at(ms, "max_route_distance_factor"@, i32::MIN as int, i32::MAX as int) is Some
        &&& opt_int_at(ms, "max_route_time_factor"@, i32::MIN as int, i32::MAX as int) is Some
        &&& opt_int_at(ms, "max_search_radius"@, i32::MIN as int, i32::MAX as int) is Some
        &&& opt_int_at(ms, "breakage_distance"@, i32::MIN as int, i32::MAX as int) is Some
        &&& opt_int_at(ms, "interpolation_distance"@, i32::MIN as int, i32::MAX as int) is Some
        &&& opt_int_at(ms, "search_radius"@, i32::MIN as int, i32::MAX as int) is Some
        &&& opt_bool_at(ms, "geometry"@) is Some
        &&& opt_bool_at(ms, "route"@) is Some
        &&& opt_int_at(ms, "turn_penalty_factor"@, i32::MIN as int, i32::MAX as int) is Some
    }

    /// `c` is the `MeiliModeConfig` that `ms` describes, with defaults for absent members.
    #[verifier::opaque]
    pub open spec fn doc_loaded(ms: Seq<Member>, c: MeiliModeConfig) -> bool {
        &&& c.sigma_z == match opt_fixed_at(ms, "sigma_z"@) { Some(o) => o, None => None }
        &&& c.gps_accuracy == match opt_fixed_at(ms, "gps_accuracy"@) { Some(o) => o, None => None }
        &&& c.beta == match opt_int_at(ms, "beta"@, i32::MIN as int, i32::MAX as int) { Some(Some(v)) => Some(v as i32), _ => None }
        &&& c.max_route_distance_factor == match opt_int_at(ms, "max_route_distance_factor"@, i32::MIN as int, i32::MAX as int) { Some(Some(v)) => Some(v as i32), _ => None }
        &&& c.max_route_time_factor == match opt_int_at(ms, "max_route_time_factor"@, i32::MIN as int, i32::MAX as int) { Some(Some(v)) => Some(v as i32), _ => None }
        &&& c.max_search_radius == match opt_int_at(ms, "max_search_radius"@, i32::MIN as int, i32::MAX as int) { Some(Some(v)) => Some(v as i32), _ => None }
        &&& c.breakage_distance == match opt_int_at(ms, "breakage_distance"@, i32::MIN as int, i32::MAX as int) { Some(Some(v)) => Some(v as i32), _ => None }
        &&& c.interpolation_distance == match opt_int_at(ms, "interpolation_distance"@, i32::MIN as int, i32::MAX as int) { Some(Some(v)) => Some(v as i32), _ => None }
        &&& c.search_radius == match opt_int_at(ms, "search_radius"@, i32::MIN as int, i32::MAX as int) { Some(Some(v)) => Some(v as i32), _ => None }
        &&& c.geometry == match opt_bool_at(ms, "geometry"@) { Some(o) => o, None => None }
        &&& c.route == match opt_bool_at(ms, "route"@) { Some(o) => o, None => None }
        &&& c.turn_penalty_factor == match opt_int_at(ms, "turn_penalty_factor"@, i32::MIN as int, i32::MAX as int) { Some(Some(v)) => Some(v as i32), _ => None }
    }

    /// Loads a `MeiliModeConfig` from the members of its section.
    pub fn load(ms: &Vec<Member>) -> (r: Result<MeiliModeConfig, ConfigError>)
        ensures
            r is Ok <==> Self::doc_ok(ms@),
            r matches Ok(c) ==> Self::doc_loaded(ms@, c),
            r matches Err(e) ==> e == ConfigError::Malformed,
    {
        proof {
            reveal(MeiliModeConfig::doc_ok);
            reveal(MeiliModeConfig::doc_loaded);
        }
        let sigma_z = read_opt_fixed(ms, "sigma_z")?;
        let gps_accuracy = read_opt_fixed(ms, "gps_accuracy")?;
        let beta: Option<i32> = match read_opt_int(ms, "beta", i32::MIN as i64, i32::MAX as i64)? {
            Some(v) => Some(v as i32),
            None => None,
        };
        let max_route_distance_factor: Option<i32> = match read_opt_int(ms, "max_route_distance_factor", i32::MIN as i64, i32::MAX as i64)? {
            Some(v) => Some(v as i32),
            None => None,
        };
        let max_route_time_factor: Option<i32> = match read_opt_int(ms, "max_route_time_factor", i32::MIN as i64, i32::MAX as i64)? {
            Some(v) => Some(v as i32),
            None => None,
        };
        let max_search_radius: Option<i32> = match read_opt_int(ms, "max_search_radius", i32::MIN as i64, i32::MAX as i64)? {
            Some(v) => Some(v as i32),
            None => None,
        };
        let breakage_distance: Option<i32> = match read_opt_int(ms, "breakage_distance", i32::MIN as i64, i32::MAX as i64)? {
            Some(v) => Some(v as i32),
            None => None,
        };
        let interpolation_distance: Option<i32> = match read_opt_int(ms, "interpolation_distance", i32::MIN as i64, i32::MAX as i64)? {
            Some(v) => Some(v as i32),
            None => None,
        };
        let search_radius: Option<i32> = match read_opt_int(ms, "search_radius", i32::MIN as i64, i32::MAX as i64)? {
            Some(v) => Some(v as i32),
            None => None,
        };
        let geometry = read_opt_bool(ms, "geometry")?;
        let route = read_opt_bool(ms, "route")?;
        let turn_penalty_factor: Option<i32> = match read_opt_int(ms, "turn_penalty_factor", i32::MIN as i64, i32::MAX as i64)? {
            Some(v) => Some(v as i32),
            None => None,
        };
        Ok(MeiliModeConfig { sigma_z, gps_accuracy, beta, max_route_distance_factor, max_route_time_factor, max_search_radius, breakage_distance, interpolation_distance, search_radius, geometry, route, turn_penalty_factor })
    }
}

impl GridConfig {
    /// `ms` can be loaded as a `GridConfig`: every member it defines is of the right kind.
    #[verifier::opaque]
    pub open spec fn doc_ok(ms: Seq<Member>) -> bool {
        &&& int_at(ms, "size"@, i32::MIN as int, i32::MAX as int) is Some
        &&& int_at(ms, "cache_size"@, i32::MIN as int, i32::MAX as int) is Some
    }

    /// `c` is the `GridConfig` that `ms` describes, with defaults for absent members.
    #[verifier::opaque]
    pub open spec fn doc_loaded(ms: Seq<Member>, c: GridConfig) -> bool {
        &&& c.size == match int_at(ms, "size"@, i32::MIN as int, i32::MAX as int) { Some(Some(v)) => v as i32, _ => 500i32 }
        &&& c.cache_size == match int_at(ms, "cache_size"@, i32::MIN as int, i32::MAX as int) { Some(Some(v)) => v as i32, _ => 100240i32 }
    }

    /// Loads a `GridConfig` from the members of its section.
    pub fn load(ms: &Vec<Member>) -> (r: Result<GridConfig, ConfigError>)
        ensures
            r is Ok <==> Self::doc_ok(ms@),
            r matches Ok(c) ==> Self::doc_loaded(ms@, c),
            r matches Err(e) ==> e == ConfigError::Malformed,
    {
        proof {
            reveal(GridConfig::doc_ok);
            reveal(GridConfig::doc_loaded);
        }
        let size: i32 = match read_int(ms, "size", i32::MIN as i64, i32::MAX as i64)? {
            Some(v) => v as i32,
            None => 500,
        };
        let cache_size: i32 = match read_int(ms, "cache_size", i32::MIN as i64, i32::MAX as i64)? {
            Some(v) => v as i32,
            None => 100240,
        };
        Ok(GridConfig { size, cache_size })
    }
}

impl MeiliConfig {
    /// `ms` can be loaded as a `MeiliConfig`: every member it defines is of the right kind.
    #[verifier::opaque]
    pub open spec fn doc_ok(ms: Seq<Member>) -> bool {
        &&& str_at(ms, "mode"@) is Some
        &&& str_list_at(ms, "customizable"@) is Some
        &&& bool_at(ms, "verbose"@) is Some
        &&& match section_at(ms, "default"@) { Some(Some(f)) => MeiliModeConfig::doc_ok(f), Some(None) => true, None => false }
        &&& match section_at(ms, "auto"@) { Some(Some(f)) => MeiliModeConfig::doc_ok(f), Some(None) => true, None => false }
        &&& match section_at(ms, "pedestrian"@) { Some(Some(f)) => MeiliModeConfig::doc_ok(f), Some(None) => true, None => false }
        &&& match section_at(ms, "bicycle"@) { Some(Some(f)) => MeiliModeConfig::doc_ok(f), Some(None) => true, None => false }
        &&& match section_at(ms, "multimodal"@) { Some(Some(f)) => MeiliModeConfig::doc_ok(f), Some(None) => true, None => false }
        &&& match section_at(ms, "logging"@) { Some(Some(f)) => LoggingConfig::doc_ok(f), Some(None) => true, None => false }
        &&& match section_at(ms, "service"@) { Some(Some(f)) => ServiceConfig::doc_ok(f), Some(None) => true, None => false }
        &&& match section_at(ms, "grid"@) { Some(Some(f)) => GridConfig::doc_ok(f), Some(None) => true, None => false }
    }

    /// `c` is the `MeiliConfig` that `ms` describes, with defaults for absent members.
    #[verifier::opaque]
    pub open spec fn doc_loaded(ms: Seq<Member>, c: MeiliConfig) -> bool {
        &&& c.mode@ == match str_at(ms, "mode"@) { Some(Some(s)) => s, _ => "auto"@ }
        &&& strings_view(c.customizable@) == match str_list_at(ms, "customizable"@) { Some(Some(v)) => v, _ => default_customizable() }
        &&& c.verbose == match bool_at(ms, "verbose"@) { Some(Some(b)) => b, _ => false }
        &&& match section_at(ms, "default"@) { Some(Some(f)) => MeiliModeConfig::doc_loaded(f, c.default), _ => c.default == (MeiliModeConfig {
                sigma_z: Some(4_070_000),
                gps_accuracy: Some(5_000_000),
                beta: Some(3),
                max_route_distance_factor: Some(5),
                max_route_time_factor: Some(5),
                max_search_radius: Some(100),
                breakage_distance: Some(2000),
                interpolation_distance: Some(10),
                search_radius: Some(50),
                geometry: Some(false),
                route: Some(true),
                turn_penalty_factor: Some(0),
            }) }
        &&& match section_at(ms, "auto"@) { Some(Some(f)) => MeiliModeConfig::doc_loaded(f, c.auto), _ => c.auto == (MeiliModeConfig { turn_penalty_factor: Some(200), search_radius: Some(50), ..no_mode_settings() }) }
        &&& match section_at(ms, "pedestrian"@) { Some(Some(f)) => MeiliModeConfig::doc_loaded(f, c.pedestrian), _ => c.pedestrian == (MeiliModeConfig { turn_penalty_factor: Some(100), search_radius: Some(50), ..no_mode_settings() }) }
        &&& match section_at(ms, "bicycle"@) { Some(Some(f)) => MeiliModeConfig::doc_loaded(f, c.bicycle), _ => c.bicycle == (MeiliModeConfig { turn_penalty_factor: Some(140), ..no_mode_settings() }) }
        &&& match section_at(ms, "multimodal"@) { Some(Some(f)) => MeiliModeConfig::doc_loaded(f, c.multimodal), _ => c.multimodal == (MeiliModeConfig { turn_penalty_factor: Some(70), ..no_mode_settings() }) }
        &&& match section_at(ms, "logging"@) { Some(Some(f)) => LoggingConfig::doc_loaded(f, c.logging), _ => default_logging(c.logging, None) }
        &&& match section_at(ms, "service"@) { Some(Some(f)) => ServiceConfig::doc_loaded(f, c.service, "ipc:///tmp/meili"@), _ => c.service.proxy@ == "ipc:///tmp/meili"@ }
        &&& match section_at(ms, "grid"@) { Some(Some(f)) => GridConfig::doc_loaded(f, c.grid), _ => c.grid == GridConfig::default_value() }
    }

    /// Loads a `MeiliConfig` from the members of its section.
    pub fn load(ms: &Vec<Member>) -> (r: Result<MeiliConfig, ConfigError>)
        ensures
            r is Ok <==> Self::doc_ok(ms@),
            r matches Ok(c) ==> Self::doc_loaded(ms@, c),
            r matches Err(e) ==> e == ConfigError::Malformed,
    {
        proof {
            reveal(MeiliConfig::doc_ok);
            reveal(MeiliConfig::doc_loaded);
        }
        let d = MeiliConfig::default();
        let mode = match read_str(ms, "mode")? {
            Some(s) => s,
            None => String::from_str("auto"),
        };
        let customizable = match read_str_list(ms, "customizable")? {
            Some(v) => v,
            None => d.customizable,
        };
        let verbose = match read_bool(ms, "verbose")? {
            Some(b) => b,
            None => false,
        };
        let default = match read_section(ms, "default")? {
            Some(m) => MeiliModeConfig::load(m)?,
            None => d.default,
        };
        let auto = match read_section(ms, "auto")? {
            Some(m) => MeiliModeConfig::load(m)?,
            None => d.auto,
        };
        let pedestrian = match read_section(ms, "pedestrian")? {
            Some(m) => MeiliModeConfig::load(m)?,
            None => d.pedestrian,
        };
        let bicycle = match read_section(ms, "bicycle")? {
            Some(m) => MeiliModeConfig::load(m)?,
            None => d.bicycle,
        };
        let multimodal = match read_section(ms, "multimodal")? {
            Some(m) => MeiliModeConfig::load(m)?,
            None => d.multimodal,
        };
        let logging = match read_section(ms, "logging")? {
            Some(m) => LoggingConfig::load(m)?,
            None => make_default_logging(None),
        };
        let service = match read_section(ms, "service")? {
            Some(m) => ServiceConfig::load(m, "ipc:///tmp/meili")?,
            None => make_service("ipc:///tmp/meili"),
        };
        let grid = match read_section(ms, "grid")? {
            Some(m) => GridConfig::load(m)?,
            None => GridConfig::default(),
        };
        Ok(MeiliConfig { mode, customizable, verbose, default, auto, pedestrian, bicycle, multimodal, logging, service, grid })
    }
}

impl HttpdServiceConfig {
    /// `ms` can be loaded as a `HttpdServiceConfig`: every member it defines is of the right kind.
    #[verifier::opaque]
    pub open spec fn doc_ok(ms: Seq<Member>) -> bool {
        &&& str_at(ms, "listen"@) is Some
        &&& str_at(ms, "loopback"@) is Some
        &&& str_at(ms, "interrupt"@) is Some
        &&& int_at(ms, "drain_seconds"@, i32::MIN as int, i32::MAX as int) is Some
        &&& int_at(ms, "shutdown_seconds"@, i32::MIN as int, i32::MAX as int) is Some
    }

    /// `c` is the `HttpdServiceConfig` that `ms` describes, with defaults for absent members.
    #[verifier::opaque]
    pub open spec fn doc_loaded(ms: Seq<Member>, c: HttpdServiceConfig) -> bool {
        &&& c.listen@ == match str_at(ms, "listen"@) { Some(Some(s)) => s, _ => "tcp://*:8002"@ }
        &&& c.loopback@ == match str_at(ms, "loopback"@) { Some(Some(s)) => s, _ => "ipc:///tmp/loopback"@ }
        &&& c.interrupt@ == match str_at(ms, "interrupt"@) { Some(Some(s)) => s, _ => "ipc:///tmp/interrupt"@ }
        &&& c.drain_seconds == match int_at(ms, "drain_seconds"@, i32::MIN as int, i32::MAX as int) { Some(Some(v)) => v as i32, _ => 28i32 }
        &&& c.shutdown_seconds == match int_at(ms, "shutdown_seconds"@, i32::MIN as int, i32::MAX as int) { Some(Some(v)) => v as i32, _ => 1i32 }
    }

    /// Loads a `HttpdServiceConfig` from the members of its section.
    pub fn load(ms: &Vec<Member>) -> (r: Result<HttpdServiceConfig, ConfigError>)
        ensures
            r is Ok <==> Self::doc_ok(ms@),
            r matches Ok(c) ==> Self::doc_loaded(ms@, c),
            r matches Err(e) ==> e == ConfigError::Malformed,
    {
        proof {
            reveal(HttpdServiceConfig::doc_ok);
            reveal(HttpdServiceConfig::doc_loaded);
        }
        let listen = match read_str(ms, "listen")? {
            Some(s) => s,
            None => String::from_str("tcp://*:8002"),
        };
        let loopback = match read_str(ms, "loopback")? {
            Some(s) => s,
            None => String::from_str("ipc:///tmp/loopback"),
        };
        let interrupt = match read_str(ms, "interrupt")? {
            Some(s) => s,
            None => String::from_str("ipc:///tmp/interrupt"),
        };
        let drain_seconds: i32 = match read_int(ms, "drain_seconds", i32::MIN as i64, i32::MAX as i64)? {
            Some(v) => v as i32,
            None => 28,
        };
        let shutdown_seconds: i32 = match read_int(ms, "shutdown_seconds", i32::MIN as i64, i32::MAX as i64)? {
            Some(v) => v as i32,
            None => 1,
        };
        Ok(HttpdServiceConfig { listen, loopback, interrupt, drain_seconds, shutdown_seconds })
    }
}

impl HttpdConfig {
    /// `ms` can be loaded as a `HttpdConfig`: every member it defines is of the right kind.
    #[verifier::opaque]
    pub open spec fn doc_ok(ms: Seq<Member>) -> bool {
        &&& match section_at(ms, "service"@) { Some(Some(f)) => HttpdServiceConfig::doc_ok(f), Some(None) => true, None => false }
    }

    /// `c` is the `HttpdConfig` that `ms` describes, with defaults for absent members.
    #[verifier::opaque]
    pub open spec fn doc_loaded(ms: Seq<Member>, c: HttpdConfig) -> bool {
        &&& match section_at(ms, "service"@) { Some(Some(f)) => HttpdServiceConfig::doc_loaded(f, c.service), _ => c.service.is_default() }
    }

    /// Loads a `HttpdConfig` from the members of its section.
    pub fn load(ms: &Vec<Member>) -> (r: Result<HttpdConfig, ConfigError>)
        ensures
            r is Ok <==> Self::doc_ok(ms@),
            r matches Ok(c) ==> Self::doc_loaded(ms@, c),
            r matches Err(e) ==> e == ConfigError::Malformed,
    {
        proof {
            reveal(HttpdConfig::doc_ok);
            reveal(HttpdConfig::doc_loaded);
        }
        let service = match read_section(ms, "service")? {
            Some(m) => HttpdServiceConfig::load(m)?,
            None => HttpdServiceConfig::default(),
        };
        Ok(HttpdConfig { service })
    }
}

impl StatsdConfig {
    /// `ms` can be loaded as a `StatsdConfig`: every member it defines is of the right kind.
    #[verifier::opaque]
    pub open spec fn doc_ok(ms: Seq<Member>) -> bool {
        &&& opt_str_at(ms, "host"@) is Some
        &&& int_at(ms, "port"@, 0, 65535) is Some
        &&& str_at(ms, "prefix"@) is Some
        &&& opt_int_at(ms, "batch_size"@, i32::MIN as int, i32::MAX as int) is Some
        &&& opt_str_list_at(ms, "tags"@) is Some
    }

    /// `c` is the `StatsdConfig` that `ms` describes, with defaults for absent members.
    #[verifier::opaque]
    pub open spec fn doc_loaded(ms: Seq<Member>, c: StatsdConfig) -> bool {
        &&& opt_chars(c.host) == match opt_str_at(ms, "host"@) { Some(o) => o, None => None }
        &&& c.port == match int_at(ms, "port"@, 0, 65535) { Some(Some(v)) => v as u16, _ => 8125u16 }
        &&& c.prefix@ == match str_at(ms, "prefix"@) { Some(Some(s)) => s, _ => "valhalla"@ }
        &&& c.batch_size == match opt_int_at(ms, "batch_size"@, i32::MIN as int, i32::MAX as int) { Some(Some(v)) => Some(v as i32), _ => None }
        &&& opt_strings_view(c.tags) == match opt_str_list_at(ms, "tags"@) { Some(o) => o, None => None }
    }

    /// Loads a `StatsdConfig` from the members of its section.
    pub fn load(ms: &Vec<Member>) -> (r: Result<StatsdConfig, ConfigError>)
        ensures
            r is Ok <==> Self::doc_ok(ms@),
            r matches Ok(c) ==> Self::doc_loaded(ms@, c),
            r matches Err(e) ==> e == ConfigError::Malformed,
    {
        proof {
            reveal(StatsdConfig::doc_ok);
            reveal(StatsdConfig::doc_loaded);
        }
        let host = read_opt_str(ms, "host")?;
        let port: u16 = match read_int(ms, "port", 0, 65535)? {
            Some(v) => v as u16,
            None => 8125,
        };
        let prefix = match read_str(ms, "prefix")? {
            Some(s) => s,
            None => String::from_str("valhalla"),
        };
        let batch_size: Option<i32> = match read_opt_int(ms, "batch_size", i32::MIN as i64, i32::MAX as i64)? {
            Some(v) => Some(v as i32),
            None => None,
        };
        let tags = read_opt_str_list(ms, "tags")?;
        Ok(StatsdConfig { host, port, prefix, batch_size, tags })
    }
}

impl AdditionalDataConfig {
    /// `ms` can be loaded as a `AdditionalDataConfig`: every member it defines is of the right kind.
    #[verifier::opaque]
    pub open spec fn doc_ok(ms: Seq<Member>) -> bool {
        &&& str_at(ms, "elevation"@) is Some
    }

    /// `c` is the `AdditionalDataConfig` that `ms` describes, with defaults for absent members.
    #[verifier::opaque]
    pub open spec fn doc_loaded(ms: Seq<Member>, c: AdditionalDataConfig) -> bool {
        &&& c.elevation@ == match str_at(ms, "elevation"@) { Some(Some(s)) => s, _ => "/data/valhalla/elevation/"@ }
    }

    /// Loads a `AdditionalDataConfig` from the members of its section.
    pub fn load(ms: &Vec<Member>) -> (r: Result<AdditionalDataConfig, ConfigError>)
        ensures
            r is Ok <==> Self::doc_ok(ms@),
            r matches Ok(c) ==> Self::doc_loaded(ms@, c),
            r matches Err(e) ==> e == ConfigError::Malformed,
    {
        proof {
            reveal(AdditionalDataConfig::doc_ok);
            reveal(AdditionalDataConfig::doc_loaded);
        }
        let elevation = match read_str(ms, "elevation")? {
            Some(s) => s,
            None => String::from_str("/data/valhalla/elevation/"),
        };
        Ok(AdditionalDataConfig { elevation })
    }
}

impl ServiceLimitConfig {
    /// `ms` can be loaded as a `ServiceLimitConfig`: every member it defines is of the right kind.
    #[verifier::opaque]
    pub open spec fn doc_ok(ms: Seq<Member>) -> bool {
        &&& opt_fixed_at(ms, "max_distance"@) is Some
        &&& opt_int_at(ms, "max_locations"@, i32::MIN as int, i32::MAX as int) is Some
        &&& opt_fixed_at(ms, "max_matrix_distance"@) is Some
        &&& opt_int_at(ms, "max_matrix_locations"@, i32::MIN as int, i32::MAX as int) is Some
        &&& opt_int_at(ms, "min_transit_walking_distance"@, i32::MIN as int, i32::MAX as int) is Some
        &&& opt_int_at(ms, "max_transit_walking_distance"@, i32::MIN as int, i32::MAX as int) is Some
        &&& opt_int_at(ms, "max_shape"@, i32::MIN as int, i32::MAX as int) is Some
        &&& opt_fixed_at(ms, "min_resample"@) is Some
        &&& opt_int_at(ms, "max_contours"@, i32::MIN as int, i32::MAX as int) is Some
        &&& opt_int_at(ms, "max_time_contour"@, i32::MIN as int, i32::MAX as int) is Some
        &&& opt_int_at(ms, "max_distance_contour"@, i32::MIN as int, i32::MAX as int) is Some
        &&& opt_fixed_at(ms, "max_gps_accuracy"@) is Some
        &&& opt_fixed_at(ms, "max_search_radius"@) is Some
        &&& opt_int_at(ms, "max_best_paths"@, i32::MIN as int, i32::MAX as int) is Some
        &&& opt_int_at(ms, "max_best_paths_shape"@, i32::MIN as int, i32::MAX as int) is Some
    }

    /// `c` is the `ServiceLimitConfig` that `ms` describes, with defaults for absent members.
    #[verifier::opaque]
    pub open spec fn doc_loaded(ms: Seq<Member>, c: ServiceLimitConfig) -> bool {
        &&& c.max_distance == match opt_fixed_at(ms, "max_distance"@) { Some(o) => o, None => None }
        &&& c.max_locations == match opt_int_at(ms, "max_locations"@, i32::MIN as int, i32::MAX as int) { Some(Some(v)) => Some(v as i32), _ => None }
        &&& c.max_matrix_distance == match opt_fixed_at(ms, "max_matrix_distance"@) { Some(o) => o, None => None }
        &&& c.max_matrix_locations == match opt_int_at(ms, "max_matrix_locations"@, i32::MIN as int, i32::MAX as int) { Some(Some(v)) => Some(v as i32), _ => None }
        &&& c.min_transit_walking_distance == match opt_int_at(ms, "min_transit_walking_distance"@, i32::MIN as int, i32::MAX as int) { Some(Some(v)) => Some(v as i32), _ => None }
        &&& c.max_transit_walking_distance == match opt_int_at(ms, "max_transit_walking_distance"@, i32::MIN as int, i32::MAX as int) { Some(Some(v)) => Some(v as i32), _ => None }
        &&& c.max_shape == match opt_int_at(ms, "max_shape"@, i32::MIN as int, i32::MAX as int) { Some(Some(v)) => Some(v as i32), _ => None }
        &&& c.min_resample == match opt_fixed_at(ms, "min_resample"@) { Some(o) => o, None => None }
        &&& c.max_contours == match opt_int_at(ms, "max_contours"@, i32::MIN as int, i32::MAX as int) { Some(Some(v)) => Some(v as i32), _ => None }
        &&& c.max_time_contour == match opt_int_at(ms, "max_time_contour"@, i32::MIN as int, i32::MAX as int) { Some(Some(v)) => Some(v as i32), _ => None }
        &&& c.max_distance_contour == match opt_int_at(ms, "max_distance_contour"@, i32::MIN as int, i32::MAX as int) { Some(Some(v)) => Some(v as i32), _ => None }
        &&& c.max_gps_accuracy == match opt_fixed_at(ms, "max_gps_accuracy"@) { Some(o) => o, None => None }
        &&& c.max_search_radius == match opt_fixed_at(ms, "max_search_radius"@) { Some(o) => o, None => None }
        &&& c.max_best_paths == match opt_int_at(ms, "max_best_paths"@, i32::MIN as int, i32::MAX as int) { Some(Some(v)) => Some(v as i32), _ => None }
        &&& c.max_best_paths_shape == match opt_int_at(ms, "max_best_paths_shape"@, i32::MIN as int, i32::MAX as int) { Some(Some(v)) => Some(v as i32), _ => None }
    }

    #[verifier::rlimit(100)]
    /// Loads a `ServiceLimitConfig` from the members of its section.
    pub fn load(ms: &Vec<Member>) -> (r: Result<ServiceLimitConfig, ConfigError>)
        ensures
            r is Ok <==> Self::doc_ok(ms@),
            r matches Ok(c) ==> Self::doc_loaded(ms@, c),
            r matches Err(e) ==> e == ConfigError::Malformed,
    {
        proof {
            reveal(ServiceLimitConfig::doc_ok);
            reveal(ServiceLimitConfig::doc_loaded);
        }
        let max_distance = read_opt_fixed(ms, "max_distance")?;
        let max_locations: Option<i32> = match read_opt_int(ms, "max_locations", i32::MIN as i64, i32::MAX as i64)? {
            Some(v) => Some(v as i32),
            None => None,
        };
        let max_matrix_distance = read_opt_fixed(ms, "max_matrix_distance")?;
        let max_matrix_locations: Option<i32> = match read_opt_int(ms, "max_matrix_locations", i32::MIN as i64, i32::MAX as i64)? {
            Some(v) => Some(v as i32),
            None => None,
        };
        let min_transit_walking_distance: Option<i32> = match read_opt_int(ms, "min_transit_walking_distance", i32::MIN as i64, i32::MAX as i64)? {
            Some(v) => Some(v as i32),
            None => None,
        };
        let max_transit_walking_distance: Option<i32> = match read_opt_int(ms, "max_transit_walking_distance", i32::MIN as i64, i32::MAX as i64)? {
            Some(v) => Some(v as i32),
            None => None,
        };
        let max_shape: Option<i32> = match read_opt_int(ms, "max_shape", i32::MIN as i64, i32::MAX as i64)? {
            Some(v) => Some(v as i32),
            None => None,
        };
        let min_resample = read_opt_fixed(ms, "min_resample")?;
        let max_contours: Option<i32> = match read_opt_int(ms, "max_contours", i32::MIN as i64, i32::MAX as i64)? {
            Some(v) => Some(v as i32),
            None => None,
        };
        let max_time_contour: Option<i32> = match read_opt_int(ms, "max_time_contour", i32::MIN as i64, i32::MAX as i64)? {
            Some(v) => Some(v as i32),
            None => None,
        };
        let max_distance_contour: Option<i32> = match read_opt_int(ms, "max_distance_contour", i32::MIN as i64, i32::MAX as i64)? {
            Some(v) => Some(v as i32),
            None => None,
        };
        let max_gps_accuracy = read_opt_fixed(ms, "max_gps_accuracy")?;
        let max_search_radius = read_opt_fixed(ms, "max_search_radius")?;
        let max_best_paths: Option<i32> = match read_opt_int(ms, "max_best_paths", i32::MIN as i64, i32::MAX as i64)? {
            Some(v) => Some(v as i32),
            None => None,
        };
        let max_best_paths_shape: Option<i32> = match read_opt_int(ms, "max_best_paths_shape", i32::MIN as i64, i32::MAX as i64)? {
            Some(v) => Some(v as i32),
            None => None,
        };
        Ok(ServiceLimitConfig { max_distance, max_locations, max_matrix_distance, max_matrix_locations, min_transit_walking_distance, max_transit_walking_distance, max_shape, min_resample, max_contours, max_time_contour, max_distance_contour, max_gps_accuracy, max_search_radius, max_best_paths, max_best_paths_shape })
    }
}

impl ServiceLimitsConfig {
    /// `ms` can be loaded as a `ServiceLimitsConfig`: every member it defines is of the right kind.
    #[verifier::opaque]
    pub open spec fn doc_ok(ms: Seq<Member>) -> bool {
        &&& int_at(ms, "max_exclude_locations"@, i32::MIN as int, i32::MAX as int) is Some
        &&& int_at(ms, "max_reachability"@, i32::MIN as int, i32::MAX as int) is Some
        &&& int_at(ms, "max_radius"@, i32::MIN as int, i32::MAX as int) is Some
        &&& int_at(ms, "max_timedep_distance"@, i32::MIN as int, i32::MAX as int) is Some
        &&& int_at(ms, "max_alternates"@, i32::MIN as int, i32::MAX as int) is Some
        &&& int_at(ms, "max_exclude_polygons_length"@, i32::MIN as int, i32::MAX as int) is Some
        &&& profile_ok(ms, "auto"@)
        &&& profile_ok(ms, "auto_shorter"@)
        &&& profile_ok(ms, "bus"@)
        &&& profile_ok(ms, "hov"@)
        &&& profile_ok(ms, "taxi"@)
        &&& profile_ok(ms, "pedestrian"@)
        &&& profile_ok(ms, "motor_scooter"@)
        &&& profile_ok(ms, "motorcycle"@)
        &&& profile_ok(ms, "bicycle"@)
        &&& profile_ok(ms, "multimodal"@)
        &&& profile_ok(ms, "transit"@)
        &&& profile_ok(ms, "truck"@)
        &&& profile_ok(ms, "skadi"@)
        &&& profile_ok(ms, "isochrone"@)
        &&& profile_ok(ms, "trace"@)
        &&& profile_ok(ms, "bikeshare"@)
        &&& profile_ok(ms, "centroid"@)
    }

    /// `c` is the `ServiceLimitsConfig` that `ms` describes, with defaults for absent members.
    #[verifier::opaque]
    pub open spec fn doc_loaded(ms: Seq<Member>, c: ServiceLimitsConfig) -> bool {
        &&& c.max_exclude_locations == match int_at(ms, "max_exclude_locations"@, i32::MIN as int, i32::MAX as int) { Some(Some(v)) => v as i32, _ => 50i32 }
        &&& c.max_reachability == match int_at(ms, "max_reachability"@, i32::MIN as int, i32::MAX as int) { Some(Some(v)) => v as i32, _ => 100i32 }
        &&& c.max_radius == match int_at(ms, "max_radius"@, i32::MIN as int, i32::MAX as int) { Some(Some(v)) => v as i32, _ => 200i32 }
        &&& c.max_timedep_distance == match int_at(ms, "max_timedep_distance"@, i32::MIN as int, i32::MAX as int) { Some(Some(v)) => v as i32, _ => 500000i32 }
        &&& c.max_alternates == match int_at(ms, "max_alternates"@, i32::MIN as int, i32::MAX as int) { Some(Some(v)) => v as i32, _ => 2i32 }
        &&& c.max_exclude_polygons_length == match int_at(ms, "max_exclude_polygons_length"@, i32::MIN as int, i32::MAX as int) { Some(Some(v)) => v as i32, _ => 10000i32 }
        &&& profile_loaded(ms, "auto"@, c.auto, ServiceLimitsConfig::default_table().auto)
        &&& profile_loaded(ms, "auto_shorter"@, c.auto_shorter, ServiceLimitsConfig::default_table().auto_shorter)
        &&& profile_loaded(ms, "bus"@, c.bus, ServiceLimitsConfig::default_table().bus)
        &&& profile_loaded(ms, "hov"@, c.hov, ServiceLimitsConfig::default_table().hov)
        &&& profile_loaded(ms, "taxi"@, c.taxi, ServiceLimitsConfig::default_table().taxi)
        &&& profile_loaded(ms, "pedestrian"@, c.pedestrian, ServiceLimitsConfig::default_table().pedestrian)
        &&& profile_loaded(ms, "motor_scooter"@, c.motor_scooter, ServiceLimitsConfig::default_table().motor_scooter)
        &&& profile_loaded(ms, "motorcycle"@, c.motorcycle, ServiceLimitsConfig::default_table().motorcycle)
        &&& profile_loaded(ms, "bicycle"@, c.bicycle, ServiceLimitsConfig::default_table().bicycle)
        &&& profile_loaded(ms, "multimodal"@, c.multimodal, ServiceLimitsConfig::default_table().multimodal)
        &&& profile_loaded(ms, "transit"@, c.transit, ServiceLimitsConfig::default_table().transit)
        &&& profile_loaded(ms, "truck"@, c.truck, ServiceLimitsConfig::default_table().truck)
        &&& profile_loaded(ms, "skadi"@, c.skadi, ServiceLimitsConfig::default_table().skadi)
        &&& profile_loaded(ms, "isochrone"@, c.isochrone, ServiceLimitsConfig::default_table().isochrone)
        &&& profile_loaded(ms, "trace"@, c.trace, ServiceLimitsConfig::default_table().trace)
        &&& profile_loaded(ms, "bikeshare"@, c.bikeshare, ServiceLimitsConfig::default_table().bikeshare)
        &&& profile_loaded(ms, "centroid"@, c.centroid, ServiceLimitsConfig::default_table().centroid)
    }

    #[verifier::rlimit(100)]
    /// Loads a `ServiceLimitsConfig` from the members of its section.
    pub fn load(ms: &Vec<Member>) -> (r: Result<ServiceLimitsConfig, ConfigError>)
        ensures
            r is Ok <==> Self::doc_ok(ms@),
            r matches Ok(c) ==> Self::doc_loaded(ms@, c),
            r matches Err(e) ==> e == ConfigError::Malformed,
    {
        proof {
            reveal(ServiceLimitsConfig::doc_ok);
            reveal(ServiceLimitsConfig::doc_loaded);
        }
        let d = ServiceLimitsConfig::default();
        let max_exclude_locations: i32 = match read_int(ms, "max_exclude_locations", i32::MIN as i64, i32::MAX as i64)? {
            Some(v) => v as i32,
            None => 50,
        };
        let max_reachability: i32 = match read_int(ms, "max_reachability", i32::MIN as i64, i32::MAX as i64)? {
            Some(v) => v as i32,
            None => 100,
        };
        let max_radius: i32 = match read_int(ms, "max_radius", i32::MIN as i64, i32::MAX as i64)? {
            Some(v) => v as i32,
            None => 200,
        };
        let max_timedep_distance: i32 = match read_int(ms, "max_timedep_distance", i32::MIN as i64, i32::MAX as i64)? {
            Some(v) => v as i32,
            None => 500000,
        };
        let max_alternates: i32 = match read_int(ms, "max_alternates", i32::MIN as i64, i32::MAX as i64)? {
            Some(v) => v as i32,
            None => 2,
        };
        let max_exclude_polygons_length: i32 = match read_int(ms, "max_exclude_polygons_length", i32::MIN as i64, i32::MAX as i64)? {
            Some(v) => v as i32,
            None => 10000,
        };
        let auto = load_profile(ms, "auto", d.auto)?;
        let auto_shorter = load_profile(ms, "auto_shorter", d.auto_shorter)?;
        let bus = load_profile(ms, "bus", d.bus)?;
        let hov = load_profile(ms, "hov", d.hov)?;
        let taxi = load_profile(ms, "taxi", d.taxi)?;
        let pedestrian = load_profile(ms, "pedestrian", d.pedestrian)?;
        let motor_scooter = load_profile(ms, "motor_scooter", d.motor_scooter)?;
        let motorcycle = load_profile(ms, "motorcycle", d.motorcycle)?;
        let bicycle = load_profile(ms, "bicycle", d.bicycle)?;
        let multimodal = load_profile(ms, "multimodal", d.multimodal)?;
        let transit = load_profile(ms, "transit", d.transit)?;
        let truck = load_profile(ms, "truck", d.truck)?;
        let skadi = load_profile(ms, "skadi", d.skadi)?;
        let isochrone = load_profile(ms, "isochrone", d.isochrone)?;
        let trace = load_profile(ms, "trace", d.trace)?;
        let bikeshare = load_profile(ms, "bikeshare", d.bikeshare)?;
        let centroid = load_profile(ms, "centroid", d.centroid)?;
        Ok(ServiceLimitsConfig { max_exclude_locations, max_reachability, max_radius, max_timedep_distance, max_alternates, max_exclude_polygons_length, auto, auto_shorter, bus, hov, taxi, pedestrian, motor_scooter, motorcycle, bicycle, multimodal, transit, truck, skadi, isochrone, trace, bikeshare, centroid })
    }
}

/// The names of the top-level sections, in order.
pub open spec fn section_names() -> Seq<Seq<char>> {
    seq![
        "mjolnir"@,
        "loki"@,
        "thor"@,
        "odin"@,
        "meili"@,
        "httpd"@,
        "statsd"@,
        "additional_data"@,
        "service_limits"@,
    ]
}

/// Every top-level member names a section of the tree.
pub open spec fn only_known_sections(ms: Seq<Member>) -> bool {
    forall|i: int| 0 <= i < ms.len() ==> section_names().contains(#[trigger] ms[i].key@)
}

fn is_section_name(key: &String) -> (r: bool)
    ensures
        r == section_names().contains(key@),
{
    let names = [
        "mjolnir",
        "loki",
        "thor",
        "odin",
        "meili",
        "httpd",
        "statsd",
        "additional_data",
        "service_limits",
    ];
    let mut i: usize = 0;
    while i < 9
        invariant
            i <= 9,
            forall|k: int| 0 <= k < i ==> key@ != section_names()[k],
            names@.len() == 9,
            forall|k: int| 0 <= k < 9 ==> (#[trigger] names@[k])@ == section_names()[k],
        decreases 9 - i,
    {
        if *key == String::from_str(names[i]) {
            return true;
        }
        i += 1;
    }
    assert(!section_names().contains(key@)) by {
        if section_names().contains(key@) {
            let k = choose|k: int| 0 <= k < section_names().len() && section_names()[k] == key@;
            assert(key@ != section_names()[k]);
        }
    }
    false
}

/// A section that must be present: absent counts as malformed.
pub open spec fn required_section(ms: Seq<Member>, key: Seq<char>) -> Option<Seq<Member>> {
    match section_at(ms, key) {
        Some(Some(f)) => Some(f),
        _ => None,
    }
}

fn read_required_section<'a>(ms: &'a Vec<Member>, key: &str) -> (r: Result<&'a Vec<Member>, ConfigError>)
    ensures
        match required_section(ms@, key@) {
            Some(f) => r matches Ok(v) && v@ == f,
            None => r == Err::<&Vec<Member>, ConfigError>(ConfigError::Malformed),
        },
{
    match read_section(ms, key)? {
        Some(m) => Ok(m),
        None => Err(ConfigError::Malformed),
    }
}

impl Config {
    /// `ms` can be loaded as a settings tree: only known sections, all of
    /// them present, each loadable.
    pub open spec fn doc_ok(ms: Seq<Member>) -> bool {
        &&& only_known_sections(ms)
        &&& required_section(ms, "mjolnir"@) matches Some(f) && MjolnirConfig::doc_ok(f)
        &&& required_section(ms, "loki"@) matches Some(f) && LokiConfig::doc_ok(f)
        &&& required_section(ms, "thor"@) matches Some(f) && ThorConfig::doc_ok(f)
        &&& required_section(ms, "odin"@) matches Some(f) && OdinConfig::doc_ok(f)
        &&& required_section(ms, "meili"@) matches Some(f) && MeiliConfig::doc_ok(f)
        &&& required_section(ms, "httpd"@) matches Some(f) && HttpdConfig::doc_ok(f)
        &&& required_section(ms, "statsd"@) matches Some(f) && StatsdConfig::doc_ok(f)
        &&& required_section(ms, "additional_data"@) matches Some(f) && AdditionalDataConfig::doc_ok(f)
        &&& required_section(ms, "service_limits"@) matches Some(f) && ServiceLimitsConfig::doc_ok(f)
    }

    /// `c` is the settings tree that `ms` describes.
    pub open spec fn doc_loaded(ms: Seq<Member>, c: Config) -> bool {
        &&& required_section(ms, "mjolnir"@) matches Some(f) && MjolnirConfig::doc_loaded(f, c.mjolnir)
        &&& required_section(ms, "loki"@) matches Some(f) && LokiConfig::doc_loaded(f, c.loki)
        &&& required_section(ms, "thor"@) matches Some(f) && ThorConfig::doc_loaded(f, c.thor)
        &&& required_section(ms, "odin"@) matches Some(f) && OdinConfig::doc_loaded(f, c.odin)
        &&& required_section(ms, "meili"@) matches Some(f) && MeiliConfig::doc_loaded(f, c.meili)
        &&& required_section(ms, "httpd"@) matches Some(f) && HttpdConfig::doc_loaded(f, c.httpd)
        &&& required_section(ms, "statsd"@) matches Some(f) && StatsdConfig::doc_loaded(f, c.statsd)
        &&& required_section(ms, "additional_data"@) matches Some(f) && AdditionalDataConfig::doc_loaded(
            f,
            c.additional_data,
        )
        &&& required_section(ms, "service_limits"@) matches Some(f) && ServiceLimitsConfig::doc_loaded(
            f,
            c.service_limits,
        )
    }

    /// Loads the settings tree from a settings document. A top-level member
    /// that names no section makes the document malformed.
    pub fn load(doc: &Doc) -> (r: Result<Config, ConfigError>)
        ensures
            r is Ok <==> (doc matches Doc::Object(ms) && Self::doc_ok(ms@)),
            r matches Ok(c) ==> (doc matches Doc::Object(ms) && Self::doc_loaded(ms@, c)),
            r matches Err(e) ==> e == ConfigError::Malformed,
    {
        let ms = match doc {
            Doc::Object(ms) => ms,
            _ => return Err(ConfigError::Malformed),
        };
        let mut i: usize = 0;
        while i < ms.len()
            invariant
                i <= ms@.len(),
                *doc == Doc::Object(*ms),
                forall|k: int| 0 <= k < i ==> section_names().contains(#[trigger] ms@[k].key@),
            decreases ms@.len() - i,
        {
            if !is_section_name(&ms[i].key) {
                assert(!only_known_sections(ms@)) by {
                    assert(!section_names().contains(ms@[i as int].key@));
                }
                return Err(ConfigError::Malformed);
            }
            i += 1;
        }
        let mjolnir = MjolnirConfig::load(read_required_section(ms, "mjolnir")?)?;
        let loki = LokiConfig::load(read_required_section(ms, "loki")?)?;
        let thor = ThorConfig::load(read_required_section(ms, "thor")?)?;
        let odin = OdinConfig::load(read_required_section(ms, "odin")?)?;
        let meili = MeiliConfig::load(read_required_section(ms, "meili")?)?;
        let httpd = HttpdConfig::load(read_required_section(ms, "httpd")?)?;
        let statsd = StatsdConfig::load(read_required_section(ms, "statsd")?)?;
        let additional_data = AdditionalDataConfig::load(read_required_section(ms, "additional_data")?)?;
        let service_limits = ServiceLimitsConfig::load(read_required_section(ms, "service_limits")?)?;
        Ok(Config { mjolnir, loki, thor, odin, meili, httpd, statsd, additional_data, service_limits })
    }
}

/// Omitting an optional limit leaves it unset, never zero; omitting a whole
/// profile gives that profile's documented limits; omitting a global limit
/// gives its documented value.
pub proof fn lemma_omitted_limits(ms: Seq<Member>, c: ServiceLimitsConfig)
    requires
        ServiceLimitsConfig::doc_loaded(ms, c),
    ensures
        member(ms, "max_radius"@) is None ==> c.max_radius == 200,
        member(ms, "auto"@) is None ==> c.auto == ServiceLimitsConfig::default_table().auto,
        section_at(ms, "auto"@) matches Some(Some(f)) ==> (member(f, "max_locations"@) is None
            ==> c.auto.max_locations is None),
        section_at(ms, "auto"@) matches Some(Some(f)) ==> (member(f, "max_distance"@) is None
            ==> c.auto.max_distance is None),
{
    reveal(ServiceLimitsConfig::doc_loaded);
    reveal(ServiceLimitConfig::doc_loaded);
    reveal(profile_loaded);
}

/// An optional limit that a profile's section omits is unset.
pub proof fn lemma_omitted_limit_unset(ms: Seq<Member>, c: ServiceLimitConfig)
    requires
        ServiceLimitConfig::doc_loaded(ms, c),
    ensures
        member(ms, "max_distance"@) is None ==> c.max_distance is None,
        member(ms, "max_locations"@) is None ==> c.max_locations is None,
        member(ms, "max_matrix_distance"@) is None ==> c.max_matrix_distance is None,
        member(ms, "max_matrix_locations"@) is None ==> c.max_matrix_locations is None,
        member(ms, "max_shape"@) is None ==> c.max_shape is None,
        member(ms, "max_contours"@) is None ==> c.max_contours is None,
        member(ms, "max_gps_accuracy"@) is None ==> c.max_gps_accuracy is None,
{
    reveal(ServiceLimitConfig::doc_loaded);
}

} // verus!
