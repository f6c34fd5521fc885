use polite::config::PoliteConfig;
use polite::mapping::ConfigMapping;
use polite::oracle::mock_llm_decision;
use polite::remote::parse_online_config;
use polite::resolver::{
    choose_source, resolve_dynamic, resolve_local, Origin, Resolution, ResolutionError, Source,
    REFRESH_INTERVAL_SECS, WELL_KNOWN_ALIAS,
};
use polite::store::load_local_config;

fn settings(niceness: i32, oom_score_adj: i32) -> PoliteConfig {
    PoliteConfig::new(niceness, oom_score_adj).unwrap()
}

#[test]
fn a_named_alias_is_looked_up_locally() {
    for alias in [1i8, -1, 65, 127, -128] {
        assert_eq!(choose_source(alias, 0, None), Source::Local);
        assert_eq!(choose_source(alias, 10_000, Some(9_999)), Source::Local);
        assert_eq!(choose_source(alias, 10_000, Some(0)), Source::Local);
    }
}

#[test]
fn the_reserved_alias_is_never_looked_up_locally() {
    for now in [0u64, 1, 3600, 3601, 1_700_000_000, u64::MAX] {
        for last in [None, Some(0u64), Some(1), Some(3600), Some(now), Some(u64::MAX)] {
            assert_ne!(choose_source(0, now, last), Source::Local);
        }
    }
}

#[test]
fn the_remote_configuration_is_fetched_after_more_than_an_hour() {
    assert_eq!(REFRESH_INTERVAL_SECS, 3600);
    assert_eq!(choose_source(0, 1_700_000_000, None), Source::Remote);
    assert_eq!(choose_source(0, 0, None), Source::Remote);
    assert_eq!(choose_source(0, 1_700_000_000, Some(0)), Source::Remote);
    assert_eq!(choose_source(0, 10_000, Some(6_399)), Source::Remote);
    assert_eq!(choose_source(0, 10_000, Some(6_400)), Source::Fallback);
    assert_eq!(choose_source(0, 10_000, Some(6_401)), Source::Fallback);
    assert_eq!(choose_source(0, 10_000, Some(10_000)), Source::Fallback);
    assert_eq!(choose_source(0, 10_000, Some(20_000)), Source::Fallback);
    assert_eq!(choose_source(0, u64::MAX, Some(0)), Source::Remote);
    assert_eq!(choose_source(0, 0, Some(u64::MAX)), Source::Fallback);
}

#[test]
fn run_with_a_recorded_alias_gets_its_settings() {
    let configs = load_local_config("-START-\n1;5;100\n-END-").unwrap();
    assert_eq!(choose_source(1, 1_700_000_000, None), Source::Local);
    let config = resolve_local(&configs, 1).unwrap();
    assert_eq!(config.niceness(), 5);
    assert_eq!(config.oom_score_adj(), 100);
}

#[test]
fn run_with_an_absent_alias_fails() {
    let configs = load_local_config("-START-\n1;5;100\n-END-").unwrap();
    assert_eq!(choose_source(2, 1_700_000_000, None), Source::Local);
    let err = resolve_local(&configs, 2).unwrap_err();
    assert_eq!(err, ResolutionError::AliasNotFound(2));
    assert_eq!(err.message(), "Alias 2 not found");
}

#[test]
fn alias_not_found_messages() {
    assert_eq!(ResolutionError::AliasNotFound(-128).message(), "Alias -128 not found");
    assert_eq!(ResolutionError::AliasNotFound(127).message(), "Alias 127 not found");
    assert_eq!(ResolutionError::AliasNotFound(0).message(), "Alias 0 not found");
}

#[test]
fn the_reserved_alias_is_in_no_mapping() {
    let configs = load_local_config("-START-\n1;5;100\n-END-").unwrap();
    assert_eq!(resolve_local(&configs, 0), Err(ResolutionError::AliasNotFound(0)));
    assert_eq!(resolve_local(&ConfigMapping::new(), 5), Err(ResolutionError::AliasNotFound(5)));
}

#[test]
fn dynamic_resolution_takes_the_well_known_alias() {
    assert_eq!(WELL_KNOWN_ALIAS, 65);
    let fetched = parse_online_config("1;1;1\n65;7;70\n").unwrap();
    assert_eq!(
        resolve_dynamic(Some(&fetched), "/usr/bin/boinc"),
        Resolution { config: settings(7, 70), origin: Origin::Remote }
    );
}

#[test]
fn dynamic_resolution_falls_back_without_the_well_known_alias() {
    let fetched = parse_online_config("1;1;1\n64;7;70\n").unwrap();
    assert_eq!(
        resolve_dynamic(Some(&fetched), "/usr/bin/boinc"),
        Resolution { config: settings(5, 100), origin: Origin::Fallback }
    );
    assert_eq!(
        resolve_dynamic(Some(&fetched), "/usr/bin/make"),
        Resolution { config: settings(0, 100), origin: Origin::Fallback }
    );
}

#[test]
fn dynamic_resolution_falls_back_without_a_remote_configuration() {
    assert_eq!(
        resolve_dynamic(None, "boinc_client"),
        Resolution { config: settings(5, 100), origin: Origin::Fallback }
    );
    assert_eq!(
        resolve_dynamic(None, "./prog"),
        Resolution { config: settings(0, 100), origin: Origin::Fallback }
    );
}

#[test]
fn the_fallback_knows_the_background_client_by_name() {
    assert_eq!(mock_llm_decision("boinc"), settings(5, 100));
    assert_eq!(mock_llm_decision("/opt/boinc/bin/client"), settings(5, 100));
    assert_eq!(mock_llm_decision("xboincx"), settings(5, 100));
    assert_eq!(mock_llm_decision("BOINC"), settings(0, 100));
    assert_eq!(mock_llm_decision("boin"), settings(0, 100));
    assert_eq!(mock_llm_decision("b-o-i-n-c"), settings(0, 100));
    assert_eq!(mock_llm_decision(""), settings(0, 100));
    assert_eq!(mock_llm_decision("./prog"), settings(0, 100));
}
