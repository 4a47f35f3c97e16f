use rastfetch::modules::{
    format_time, get_module_functions, get_modules, Config, ConfigEntry, ConfigError, ModuleKind,
};
use rastfetch::orchestrator::{aggregate_results, resolve_requests};

#[test]
fn registry_resolves_known_names() {
    let registry = get_module_functions();
    assert_eq!(registry.get("title"), Some(ModuleKind::Title));
    assert_eq!(registry.get("cpu_usage"), Some(ModuleKind::CpuUsage));
    assert_eq!(registry.get("chassis"), Some(ModuleKind::Chassis));
    assert_eq!(registry.get("nonsense"), None);
    assert_eq!(registry.get(""), None);
}

#[test]
fn missing_provider_is_omitted_not_blanked() {
    let registry = get_module_functions();
    let requests = vec!["os".to_string(), "missing".to_string(), "uptime".to_string()];
    let plan = resolve_requests(&requests, &registry);
    assert_eq!(plan, vec![ModuleKind::Os, ModuleKind::Uptime]);
    assert_eq!(plan.len(), 2);
}

#[test]
fn duplicate_names_each_get_a_slot() {
    let registry = get_module_functions();
    let requests = vec!["os".to_string(), "os".to_string()];
    let plan = resolve_requests(&requests, &registry);
    assert_eq!(plan, vec![ModuleKind::Os, ModuleKind::Os]);
}

#[test]
fn aggregation_restores_request_order() {
    let completions = vec![
        (2usize, "third".to_string()),
        (0usize, "first".to_string()),
        (1usize, "second".to_string()),
    ];
    let out = aggregate_results(3, &completions).unwrap();
    assert_eq!(out, vec!["first", "second", "third"]);
}

#[test]
fn aggregation_is_independent_of_arrival_order() {
    let one = vec![
        (0usize, "a".to_string()),
        (1usize, "b".to_string()),
        (2usize, "c".to_string()),
    ];
    let other = vec![
        (2usize, "c".to_string()),
        (1usize, "b".to_string()),
        (0usize, "a".to_string()),
    ];
    assert_eq!(aggregate_results(3, &one), aggregate_results(3, &other));
}

#[test]
fn aggregation_rejects_malformed_deliveries() {
    let dup = vec![(0usize, "a".to_string()), (0usize, "b".to_string())];
    assert_eq!(aggregate_results(2, &dup), None);

    let out_of_range = vec![(0usize, "a".to_string()), (5usize, "b".to_string())];
    assert_eq!(aggregate_results(2, &out_of_range), None);

    let short = vec![(0usize, "a".to_string())];
    assert_eq!(aggregate_results(2, &short), None);
}

#[test]
fn pipeline_output_matches_known_providers_in_request_order() {
    let registry = get_module_functions();
    let requests = vec![
        "known".to_string(),
        "separator".to_string(),
        "missing".to_string(),
        "os".to_string(),
    ];
    let plan = resolve_requests(&requests, &registry);
    // "known" and "missing" are unregistered: two slots remain.
    assert_eq!(plan, vec![ModuleKind::Separator, ModuleKind::Os]);
    let provider_output = |kind: ModuleKind| -> String {
        match kind {
            ModuleKind::Separator => "sep".to_string(),
            ModuleKind::Os => "os-line".to_string(),
            _ => "other".to_string(),
        }
    };
    // Completions arrive in reverse order.
    let mut completions = Vec::new();
    for slot in (0..plan.len()).rev() {
        completions.push((slot, provider_output(plan[slot])));
    }
    let out = aggregate_results(plan.len(), &completions).unwrap();
    assert_eq!(out, vec!["sep", "os-line"]);
}

#[test]
fn config_module_list_keeps_strings_in_order() {
    let config = Config {
        modules: Some(vec![
            ConfigEntry::Text("os".to_string()),
            ConfigEntry::Other,
            ConfigEntry::Text("cpu".to_string()),
        ]),
    };
    assert_eq!(get_modules(&config).unwrap(), vec!["os", "cpu"]);
}

#[test]
fn config_without_module_list_is_an_error() {
    let config = Config { modules: None };
    assert_eq!(get_modules(&config).unwrap_err(), ConfigError::ModulesMissing);
}

#[test]
fn uptime_formats_hours_minutes_seconds() {
    assert_eq!(format_time(3661), "$21$3h$2 $21$3m$2 $21$3s$2");
    assert_eq!(format_time(0), "$20$3s$2");
    assert_eq!(format_time(59), "$259$3s$2");
    assert_eq!(format_time(60), "$21$3m$2 $20$3s$2");
    assert_eq!(format_time(7200), "$22$3h$2 $20$3m$2 $20$3s$2");
    assert_eq!(format_time(86461), "$224$3h$2 $21$3m$2 $21$3s$2");
}
