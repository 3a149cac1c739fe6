use rspdl::sdk::{
    default_model_scope_per_model, default_solver_timeout_ms, validate_common,
    validate_model_request, validate_timeout, SdkError, SdkSource, SUPPORTED_LOCALE,
    WIRE_SCHEMA_VERSION,
};

fn source(path: &str) -> SdkSource {
    SdkSource {
        path: path.to_owned(),
        text: "@모듈 재고(inventory)\n".to_owned(),
    }
}

#[test]
fn binding_configuration_errors_have_stable_codes() {
    let sources = vec![source("inventory.rspdl")];
    assert_eq!(
        validate_common(999, SUPPORTED_LOCALE, &sources).unwrap_err().code(),
        "RSPDL-SDK-002"
    );
    assert_eq!(
        validate_common(WIRE_SCHEMA_VERSION, "en-US", &sources).unwrap_err().code(),
        "RSPDL-SDK-003"
    );
    assert_eq!(
        validate_common(WIRE_SCHEMA_VERSION, SUPPORTED_LOCALE, &[]).unwrap_err().code(),
        "RSPDL-SDK-004"
    );
    assert!(validate_common(WIRE_SCHEMA_VERSION, SUPPORTED_LOCALE, &sources).is_ok());
}

#[test]
fn the_schema_version_is_checked_before_the_locale() {
    let error = validate_common(2, "en-US", &[source("a.rspdl")]).unwrap_err();
    assert_eq!(
        error,
        SdkError::UnsupportedSchemaVersion {
            requested: 2,
            supported: WIRE_SCHEMA_VERSION,
        }
    );
}

#[test]
fn blank_source_paths_are_refused() {
    let error = validate_common(
        WIRE_SCHEMA_VERSION,
        SUPPORTED_LOCALE,
        &[source("a.rspdl"), source(" \t ")],
    )
    .unwrap_err();
    assert_eq!(
        error,
        SdkError::InvalidOption {
            option: "sources[].path",
            reason: "must not be empty".to_owned(),
        }
    );
}

#[test]
fn invalid_solver_options_are_refused() {
    assert_eq!(validate_timeout(0).unwrap_err().code(), "RSPDL-SDK-004");
    assert_eq!(validate_timeout(250), Ok(250));
    let scope = validate_model_request(
        WIRE_SCHEMA_VERSION,
        SUPPORTED_LOCALE,
        "inventory.rspdl",
        0,
        8,
        1000,
    )
    .unwrap_err();
    assert_eq!(
        scope,
        SdkError::InvalidOption {
            option: "scope_per_model",
            reason: "must be between 1 and 8".to_owned(),
        }
    );
    let too_wide = validate_model_request(
        WIRE_SCHEMA_VERSION,
        SUPPORTED_LOCALE,
        "inventory.rspdl",
        13,
        12,
        1000,
    )
    .unwrap_err();
    assert_eq!(
        too_wide,
        SdkError::InvalidOption {
            option: "scope_per_model",
            reason: "must be between 1 and 12".to_owned(),
        }
    );
    let path = validate_model_request(WIRE_SCHEMA_VERSION, SUPPORTED_LOCALE, "", 1, 8, 1000)
        .unwrap_err();
    assert_eq!(
        path,
        SdkError::InvalidOption {
            option: "source.path",
            reason: "must not be empty".to_owned(),
        }
    );
    assert_eq!(
        validate_model_request(WIRE_SCHEMA_VERSION, SUPPORTED_LOCALE, "a.rspdl", 1, 8, 0)
            .unwrap_err()
            .code(),
        "RSPDL-SDK-004"
    );
    assert_eq!(
        validate_model_request(WIRE_SCHEMA_VERSION, SUPPORTED_LOCALE, "a.rspdl", 8, 8, 40),
        Ok(40)
    );
}

#[test]
fn defaults_are_the_documented_values() {
    assert_eq!(default_solver_timeout_ms(), 5_000);
    assert_eq!(default_model_scope_per_model(), 3);
}

#[test]
fn the_korean_frontend_reads_the_supported_locale() {
    assert_eq!(rspdl::frontend::KoreanFrontend.language_id(), SUPPORTED_LOCALE);
}
