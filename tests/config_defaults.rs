use valhalla::config::{
    Config, GridConfig, HttpdServiceConfig, LokiServiceDefaultsConfig, MeiliModeConfig,
    MjolnirDataProcessingConfig, ServiceLimitConfig, ServiceLimitsConfig, StatsdConfig,
};

#[test]
fn service_limits_defaults() {
    let l = ServiceLimitsConfig::default();
    assert_eq!(l.max_exclude_locations, 50);
    assert_eq!(l.max_alternates, 2);
    assert_eq!(l.auto.max_locations, Some(20));
    assert_eq!(l.auto.max_distance, Some(5_000_000_000_000));
    assert_eq!(l.auto.max_matrix_locations, Some(50));
    assert_eq!(l.auto.max_shape, None);
    assert_eq!(l.pedestrian.min_transit_walking_distance, Some(1));
    assert_eq!(l.pedestrian.max_transit_walking_distance, Some(10000));
    assert_eq!(l.multimodal.max_matrix_locations, Some(0));
    assert_eq!(l.isochrone.max_contours, Some(4));
    assert_eq!(l.isochrone.max_locations, Some(1));
    assert_eq!(l.trace.max_best_paths_shape, Some(100));
    assert_eq!(l.skadi.min_resample, Some(10_000_000));
    assert_eq!(l.centroid.max_locations, Some(5));
}

#[test]
fn absent_limit_is_unset_not_zero() {
    let l = ServiceLimitConfig::default();
    assert_eq!(l.max_locations, None);
    assert_eq!(l.max_distance, None);
    assert_eq!(ServiceLimitsConfig::default().skadi.max_locations, None);
}

#[test]
fn component_defaults() {
    let c = Config::default();
    assert_eq!(c.mjolnir.max_cache_size, 1_000_000_000);
    assert_eq!(c.mjolnir.tile_dir, "/data/valhalla");
    assert_eq!(c.mjolnir.concurrency, None);
    assert_eq!(c.mjolnir.logging.log_type, "std_out");
    assert_eq!(c.mjolnir.logging.long_request, None);
    assert_eq!(c.loki.actions.len(), 12);
    assert_eq!(c.loki.actions[3], "sources_to_targets");
    assert_eq!(c.loki.logging.long_request, Some(100_000_000));
    assert_eq!(c.loki.service.proxy, "ipc:///tmp/loki");
    assert_eq!(c.thor.logging.long_request, Some(110_000_000));
    assert_eq!(c.thor.source_to_target_algorithm, "select_optimal");
    assert_eq!(c.odin.service.proxy, "ipc:///tmp/odin");
    assert_eq!(c.meili.customizable.len(), 9);
    assert_eq!(c.meili.default.sigma_z, Some(4_070_000));
    assert_eq!(c.meili.auto.turn_penalty_factor, Some(200));
    assert_eq!(c.meili.auto.beta, None);
    assert_eq!(c.meili.bicycle.search_radius, None);
    assert_eq!(c.httpd.service.listen, "tcp://*:8002");
    assert_eq!(c.statsd.port, 8125);
    assert_eq!(c.additional_data.elevation, "/data/valhalla/elevation/");
}

#[test]
fn small_section_defaults() {
    let d = LokiServiceDefaultsConfig::default();
    assert_eq!(d.minimum_reachability, 50);
    assert_eq!(d.search_cutoff, 35000);
    assert_eq!(d.heading_tolerance, 60);
    let g = GridConfig::default();
    assert_eq!((g.size, g.cache_size), (500, 100240));
    let p = MjolnirDataProcessingConfig::default();
    assert!(p.infer_internal_intersections && !p.use_rest_area);
    let h = HttpdServiceConfig::default();
    assert_eq!((h.drain_seconds, h.shutdown_seconds), (28, 1));
    let s = StatsdConfig::default();
    assert_eq!(s.prefix, "valhalla");
    assert!(s.host.is_none() && s.tags.is_none());
    assert_eq!(MeiliModeConfig::default().turn_penalty_factor, None);
}
