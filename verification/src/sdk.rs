//! The versioned wire contract shared by the language bindings: stable error codes and the
//! validation every request passes before any source is read.
use vstd::prelude::*;

use vstd::string::StringExecFns;

use crate::text::{decimal, decimal_spec, is_space, is_whitespace, str_eq};

verus! {

pub const WIRE_SCHEMA_VERSION: u32 = 1;

pub const SUPPORTED_LOCALE: &'static str = "ko-KR";

pub const DEFAULT_SOLVER_TIMEOUT_MS: u64 = 5_000;

pub const DEFAULT_MODEL_SCOPE_PER_MODEL: usize = 3;

/// A binding-level error: the request never reached the compiler.
#[derive(Clone, Debug, PartialEq, Eq)]
pub enum SdkError {
    InvalidRequestJson { reason: String },
    UnsupportedSchemaVersion { requested: u32, supported: u32 },
    UnsupportedLocale { requested: String, supported: &'static str },
    InvalidOption { option: &'static str, reason: String },
    ResponseSerialization { reason: String },
}

/// The stable code of each error kind.
pub open spec fn code_spec(e: SdkError) -> Seq<char> {
    match e {
        SdkError::InvalidRequestJson { .. } => "RSPDL-SDK-001"@,
        SdkError::UnsupportedSchemaVersion { .. } => "RSPDL-SDK-002"@,
        SdkError::UnsupportedLocale { .. } => "RSPDL-SDK-003"@,
        SdkError::InvalidOption { .. } => "RSPDL-SDK-004"@,
        SdkError::ResponseSerialization { .. } => "RSPDL-SDK-005"@,
    }
}

impl SdkError {
    pub fn code(&self) -> (c: &'static str)
        ensures
            c@ == code_spec(*self),
    {
        match self {
            SdkError::InvalidRequestJson { .. } => "RSPDL-SDK-001",
            SdkError::UnsupportedSchemaVersion { .. } => "RSPDL-SDK-002",
            SdkError::UnsupportedLocale { .. } => "RSPDL-SDK-003",
            SdkError::InvalidOption { .. } => "RSPDL-SDK-004",
            SdkError::ResponseSerialization { .. } => "RSPDL-SDK-005",
        }
    }
}

/// One source file of a request.
#[derive(Clone, Debug)]
pub struct SdkSource {
    pub path: String,
    pub text: String,
}

/// The text has a character other than white space.
pub open spec fn has_visible(t: Seq<char>) -> bool {
    exists|k: int| 0 <= k < t.len() && !is_space(#[trigger] t[k])
}

/// Does `t.trim()` leave anything?
pub fn has_visible_text(t: &str) -> (b: bool)
    ensures
        b == has_visible(t@),
{
    let chars = crate::text::chars_of(t);
    let mut i: usize = 0;
    while i < chars.len()
        invariant
            chars@ == t@,
            i <= chars@.len(),
            forall|k: int| 0 <= k < i ==> is_space(#[trigger] chars@[k]),
        decreases chars@.len() - i,
    {
        if !is_whitespace(chars[i]) {
            return true;
        }
        i = i + 1;
    }
    false
}

/// The outcome of checking the schema version and the locale.
pub open spec fn schema_and_locale_ok(schema_version: u32, locale: Seq<char>) -> bool {
    schema_version == WIRE_SCHEMA_VERSION && locale == SUPPORTED_LOCALE@
}

pub fn validate_schema_and_locale(schema_version: u32, locale: &str) -> (r: Result<(), SdkError>)
    ensures
        schema_version != WIRE_SCHEMA_VERSION ==> r == Err::<(), SdkError>(
            SdkError::UnsupportedSchemaVersion {
                requested: schema_version,
                supported: WIRE_SCHEMA_VERSION,
            },
        ),
        schema_version == WIRE_SCHEMA_VERSION && locale@ != SUPPORTED_LOCALE@ ==> (r matches Err(
            SdkError::UnsupportedLocale { requested, supported },
        ) && requested@ == locale@ && supported@ == SUPPORTED_LOCALE@),
        r is Ok <==> schema_and_locale_ok(schema_version, locale@),
{
    if schema_version != WIRE_SCHEMA_VERSION {
        return Err(
            SdkError::UnsupportedSchemaVersion {
                requested: schema_version,
                supported: WIRE_SCHEMA_VERSION,
            },
        );
    }
    if !str_eq(locale, SUPPORTED_LOCALE) {
        return Err(
            SdkError::UnsupportedLocale { requested: locale.to_owned(), supported: SUPPORTED_LOCALE },
        );
    }
    Ok(())
}

/// Checks a compile or check request: schema version and locale first, then at least one
/// source, then no source without a path.
pub fn validate_common(schema_version: u32, locale: &str, sources: &[SdkSource]) -> (r: Result<
    (),
    SdkError,
>)
    ensures
        schema_version != WIRE_SCHEMA_VERSION ==> r == Err::<(), SdkError>(
            SdkError::UnsupportedSchemaVersion {
                requested: schema_version,
                supported: WIRE_SCHEMA_VERSION,
            },
        ),
        schema_version == WIRE_SCHEMA_VERSION && locale@ != SUPPORTED_LOCALE@ ==> (r matches Err(
            SdkError::UnsupportedLocale { requested, supported },
        ) && requested@ == locale@ && supported@ == SUPPORTED_LOCALE@),
        schema_and_locale_ok(schema_version, locale@) && sources@.len() == 0 ==> (r matches Err(
            SdkError::InvalidOption { option, reason },
        ) && option@ == "sources"@ && reason@ == "must contain at least one source"@),
        schema_and_locale_ok(schema_version, locale@) && sources@.len() > 0 && (exists|k: int|
            0 <= k < sources@.len() && !has_visible((#[trigger] sources@[k]).path@)) ==> (r matches Err(
            SdkError::InvalidOption { option, reason },
        ) && option@ == "sources[].path"@ && reason@ == "must not be empty"@),
        r is Ok <==> (schema_and_locale_ok(schema_version, locale@) && sources@.len() > 0
            && forall|k: int| 0 <= k < sources@.len() ==> has_visible((#[trigger] sources@[k]).path@)),
{
    validate_schema_and_locale(schema_version, locale)?;
    if sources.len() == 0 {
        return Err(
            SdkError::InvalidOption {
                option: "sources",
                reason: "must contain at least one source".to_owned(),
            },
        );
    }
    let mut i: usize = 0;
    while i < sources.len()
        invariant
            schema_and_locale_ok(schema_version, locale@),
            sources@.len() > 0,
            i <= sources@.len(),
            forall|k: int| 0 <= k < i ==> has_visible((#[trigger] sources@[k]).path@),
        decreases sources@.len() - i,
    {
        if !has_visible_text(sources[i].path.as_str()) {
            return Err(
                SdkError::InvalidOption {
                    option: "sources[].path",
                    reason: "must not be empty".to_owned(),
                },
            );
        }
        i = i + 1;
    }
    Ok(())
}

/// A solver timeout must be positive; the accepted value is handed back in milliseconds.
pub fn validate_timeout(timeout_ms: u64) -> (r: Result<u64, SdkError>)
    ensures
        timeout_ms == 0 ==> (r matches Err(SdkError::InvalidOption { option, reason }) && option@
            == "timeout_ms"@ && reason@ == "must be greater than zero"@),
        timeout_ms > 0 ==> r == Ok::<u64, SdkError>(timeout_ms),
{
    if timeout_ms == 0 {
        return Err(
            SdkError::InvalidOption {
                option: "timeout_ms",
                reason: "must be greater than zero".to_owned(),
            },
        );
    }
    Ok(timeout_ms)
}

/// Checks a model-finding request: schema version and locale first, then a source path with a
/// visible character, then a scope per model in `1..=max_scope`, then a positive timeout, which
/// is handed back in milliseconds.
pub fn validate_model_request(
    schema_version: u32,
    locale: &str,
    source_path: &str,
    scope_per_model: usize,
    max_scope: usize,
    timeout_ms: u64,
) -> (r: Result<u64, SdkError>)
    ensures
        schema_version != WIRE_SCHEMA_VERSION ==> r == Err::<u64, SdkError>(
            SdkError::UnsupportedSchemaVersion {
                requested: schema_version,
                supported: WIRE_SCHEMA_VERSION,
            },
        ),
        schema_version == WIRE_SCHEMA_VERSION && locale@ != SUPPORTED_LOCALE@ ==> (r matches Err(
            SdkError::UnsupportedLocale { requested, supported },
        ) && requested@ == locale@ && supported@ == SUPPORTED_LOCALE@),
        schema_and_locale_ok(schema_version, locale@) && !has_visible(source_path@) ==> (r matches Err(
            SdkError::InvalidOption { option, reason },
        ) && option@ == "source.path"@ && reason@ == "must not be empty"@),
        schema_and_locale_ok(schema_version, locale@) && has_visible(source_path@) && !(1
            <= scope_per_model <= max_scope) ==> (r matches Err(
            SdkError::InvalidOption { option, reason },
        ) && option@ == "scope_per_model"@ && reason@ == "must be between 1 and "@ + decimal_spec(
            max_scope as nat,
        )),
        schema_and_locale_ok(schema_version, locale@) && has_visible(source_path@) && 1
            <= scope_per_model <= max_scope && timeout_ms == 0 ==> (r matches Err(
            SdkError::InvalidOption { option, reason },
        ) && option@ == "timeout_ms"@ && reason@ == "must be greater than zero"@),
        r is Ok <==> (schema_and_locale_ok(schema_version, locale@) && has_visible(source_path@)
            && 1 <= scope_per_model <= max_scope && timeout_ms > 0),
        r is Ok ==> r == Ok::<u64, SdkError>(timeout_ms),
{
    validate_schema_and_locale(schema_version, locale)?;
    if !has_visible_text(source_path) {
        return Err(
            SdkError::InvalidOption { option: "source.path", reason: "must not be empty".to_owned() },
        );
    }
    if scope_per_model < 1 || scope_per_model > max_scope {
        let mut reason = String::from_str("must be between 1 and ");
        reason.append(decimal(max_scope).as_str());
        return Err(SdkError::InvalidOption { option: "scope_per_model", reason });
    }
    validate_timeout(timeout_ms)
}

/// The solver timeout a request gets when it names none.
pub fn default_solver_timeout_ms() -> (t: u64)
    ensures
        t == DEFAULT_SOLVER_TIMEOUT_MS,
{
    DEFAULT_SOLVER_TIMEOUT_MS
}

/// The model-finding scope a request gets when it names none.
pub fn default_model_scope_per_model() -> (s: usize)
    ensures
        s == DEFAULT_MODEL_SCOPE_PER_MODEL,
{
    DEFAULT_MODEL_SCOPE_PER_MODEL
}

} // verus!
