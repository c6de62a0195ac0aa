use flylist::weather::api_key_header;
use flylist::weather::failure_message;
use flylist::weather::weather_result;
use flylist::weather::weather_url;
use flylist::weather::ExchangeOutcome;

#[test]
fn url_is_the_fixed_endpoint_with_the_location() {
    assert_eq!(
        weather_url("KSEA"),
        "https://api.checkwx.com/metar/KSEA/decoded"
    );
    assert_eq!(weather_url(""), "https://api.checkwx.com/metar//decoded");
}

#[test]
fn credential_header_name() {
    assert_eq!(api_key_header(), "X-API-Key");
}

#[test]
fn failure_message_carries_location_and_cause() {
    assert_eq!(
        failure_message("ZZZZ", "boom"),
        "CheckWX request failed for ZZZZ: boom"
    );
}

#[test]
fn successful_response_body_is_returned_verbatim() {
    let outcome = ExchangeOutcome::Body {
        status: 200,
        text: "{temp: 15}".to_string(),
    };
    assert_eq!(weather_result("KSEA", outcome), Ok("{temp: 15}".to_string()));
}

#[test]
fn not_found_is_a_failure_naming_the_location() {
    let outcome = ExchangeOutcome::Body {
        status: 404,
        text: "no such station".to_string(),
    };
    let err = weather_result("ZZZZ", outcome).err().expect("404 must fail");
    assert!(err.contains("ZZZZ"));
    assert_eq!(err, "CheckWX request failed for ZZZZ: unexpected HTTP status 404");
}

#[test]
fn network_failure_is_a_failure_naming_the_location() {
    let outcome = ExchangeOutcome::NetworkFailure {
        cause: "connection refused".to_string(),
    };
    let err = weather_result("KLAX", outcome).err().expect("must fail");
    assert_eq!(err, "CheckWX request failed for KLAX: connection refused");
}

#[test]
fn decode_failure_is_a_failure_naming_the_location() {
    let outcome = ExchangeOutcome::DecodeFailure {
        cause: "invalid byte sequence".to_string(),
    };
    let err = weather_result("EGLL", outcome).err().expect("must fail");
    assert_eq!(err, "CheckWX request failed for EGLL: invalid byte sequence");
}

#[test]
fn edge_of_success_status_range() {
    let ok = ExchangeOutcome::Body {
        status: 299,
        text: "fine".to_string(),
    };
    assert_eq!(weather_result("KSEA", ok), Ok("fine".to_string()));
    let low = ExchangeOutcome::Body {
        status: 199,
        text: "odd".to_string(),
    };
    assert!(weather_result("KSEA", low).is_err());
    let high = ExchangeOutcome::Body {
        status: 300,
        text: "moved".to_string(),
    };
    let err = weather_result("KSEA", high).err().expect("must fail");
    assert_eq!(err, "CheckWX request failed for KSEA: unexpected HTTP status 300");
}

#[test]
fn status_codes_render_in_decimal() {
    for (status, rendered) in [(0u16, "0"), (7, "7"), (10, "10"), (503, "503"), (65535, "65535")]
    {
        let outcome = ExchangeOutcome::Body {
            status,
            text: String::new(),
        };
        let err = weather_result("X", outcome).err().expect("must fail");
        assert_eq!(
            err,
            format!("CheckWX request failed for X: unexpected HTTP status {}", rendered)
        );
    }
}

#[test]
fn interleaved_lookups_stay_independent() {
    let first = weather_result(
        "KSEA",
        ExchangeOutcome::Body {
            status: 200,
            text: "{temp: 15}".to_string(),
        },
    );
    let second = weather_result(
        "ZZZZ",
        ExchangeOutcome::NetworkFailure {
            cause: "timed out".to_string(),
        },
    );
    assert_eq!(first, Ok("{temp: 15}".to_string()));
    let err = second.err().expect("must fail");
    assert!(err.contains("ZZZZ"));
    assert!(!err.contains("KSEA"));
}
