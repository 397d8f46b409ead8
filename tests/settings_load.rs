use valhalla::config::Config;
use valhalla::doc::{ConfigError, Doc, Member};

fn obj(members: Vec<(&str, Doc)>) -> Doc {
    Doc::Object(members.into_iter().map(|(k, v)| Member { key: k.to_string(), value: v }).collect())
}

fn sections(service_limits: Doc) -> Vec<(&'static str, Doc)> {
    vec![
        ("mjolnir", obj(vec![])),
        ("loki", obj(vec![])),
        ("thor", obj(vec![])),
        ("odin", obj(vec![])),
        ("meili", obj(vec![])),
        ("httpd", obj(vec![])),
        ("statsd", obj(vec![])),
        ("additional_data", obj(vec![])),
        ("service_limits", service_limits),
    ]
}

#[test]
fn empty_sections_take_defaults() {
    let c = Config::load(&obj(sections(obj(vec![])))).unwrap();
    assert_eq!(c.mjolnir.max_cache_size, 1_000_000_000);
    assert_eq!(c.mjolnir.tile_dir, "/data/valhalla");
    assert_eq!(c.mjolnir.logging.log_type, "std_out");
    assert_eq!(c.loki.actions.len(), 12);
    assert_eq!(c.loki.logging.long_request, Some(100_000_000));
    assert_eq!(c.thor.service.proxy, "ipc:///tmp/thor");
    assert_eq!(c.meili.auto.turn_penalty_factor, Some(200));
    assert_eq!(c.httpd.service.drain_seconds, 28);
    assert_eq!(c.statsd.port, 8125);
    assert_eq!(c.service_limits.auto.max_locations, Some(20));
    assert_eq!(c.service_limits.max_radius, 200);
}

#[test]
fn omitted_limit_is_unset_not_zero() {
    let limits = obj(vec![("auto", obj(vec![("max_distance", Doc::Int(1000))]))]);
    let c = Config::load(&obj(sections(limits))).unwrap();
    assert_eq!(c.service_limits.auto.max_locations, None);
    assert_eq!(c.service_limits.auto.max_distance, Some(1_000_000_000));
    assert_eq!(c.service_limits.bus.max_locations, Some(50));
}

#[test]
fn present_values_are_read() {
    let mut s = sections(obj(vec![("max_alternates", Doc::Int(5))]));
    s[0] = ("mjolnir", obj(vec![
        ("tile_dir", Doc::Str("/tiles".to_string())),
        ("concurrency", Doc::Int(8)),
        ("logging", obj(vec![("type", Doc::Str("file".to_string())), ("long_request", Doc::Real(12_500_000))])),
    ]));
    s[6] = ("statsd", obj(vec![("tags", Doc::List(vec![Doc::Str("a".to_string())])), ("host", Doc::Null)]));
    let c = Config::load(&obj(s)).unwrap();
    assert_eq!(c.mjolnir.tile_dir, "/tiles");
    assert_eq!(c.mjolnir.concurrency, Some(8));
    assert_eq!(c.mjolnir.logging.log_type, "file");
    assert!(c.mjolnir.logging.color);
    assert_eq!(c.mjolnir.logging.long_request, Some(12_500_000));
    assert_eq!(c.statsd.tags, Some(vec!["a".to_string()]));
    assert_eq!(c.statsd.host, None);
    assert_eq!(c.service_limits.max_alternates, 5);
}

#[test]
fn malformed_values_are_rejected() {
    let mut s = sections(obj(vec![]));
    s[6] = ("statsd", obj(vec![("port", Doc::Int(70000))]));
    assert_eq!(Config::load(&obj(s)).err(), Some(ConfigError::Malformed));
    let mut s = sections(obj(vec![]));
    s[0] = ("mjolnir", obj(vec![("hierarchy", Doc::Int(1))]));
    assert_eq!(Config::load(&obj(s)).err(), Some(ConfigError::Malformed));
    let mut s = sections(obj(vec![]));
    s[0] = ("mjolnir", obj(vec![("max_cache_size", Doc::Null)]));
    assert_eq!(Config::load(&obj(s)).err(), Some(ConfigError::Malformed));
    let limits = obj(vec![("auto", Doc::Int(3))]);
    assert_eq!(Config::load(&obj(sections(limits))).err(), Some(ConfigError::Malformed));
}

#[test]
fn sections_are_required_and_known() {
    let mut s = sections(obj(vec![]));
    s.pop();
    assert_eq!(Config::load(&obj(s)).err(), Some(ConfigError::Malformed));
    let mut s = sections(obj(vec![]));
    s.push(("extra", obj(vec![])));
    assert_eq!(Config::load(&obj(s)).err(), Some(ConfigError::Malformed));
    assert_eq!(Config::load(&Doc::Int(1)).err(), Some(ConfigError::Malformed));
}
