//! Decision logic of the credential-shielded weather lookup: the fixed
//! request URL, the header that carries the credential, and the folding
//! of every way one outbound exchange can end into either the raw
//! response body or one normalized failure message.
//!
//! The exchange itself is the transport's business; this module only
//! decides what the caller receives for each possible outcome, so every
//! invocation is a pure function of its own arguments and shares nothing
//! with any other.

use vstd::prelude::*;
use vstd::string::StringExecFns;

verus! {

/// The fixed weather endpoint, parameterized by the location identifier.
pub open spec fn weather_url_spec(icao: Seq<char>) -> Seq<char> {
    "https://api.checkwx.com/metar/"@ + icao + "/decoded"@
}

/// The single normalized failure text: it names the location identifier
/// and ends with the underlying cause.
pub open spec fn failure_message_spec(icao: Seq<char>, cause: Seq<char>) -> Seq<char> {
    "CheckWX request failed for "@ + icao + ": "@ + cause
}

/// The decimal digit characters.
pub open spec fn digit_char(d: nat) -> char {
    if d == 0 {
        '0'
    } else if d == 1 {
        '1'
    } else if d == 2 {
        '2'
    } else if d == 3 {
        '3'
    } else if d == 4 {
        '4'
    } else if d == 5 {
        '5'
    } else if d == 6 {
        '6'
    } else if d == 7 {
        '7'
    } else if d == 8 {
        '8'
    } else {
        '9'
    }
}

/// The decimal rendering of `n`, without leading zeroes.
pub open spec fn dec_digits(n: nat) -> Seq<char>
    decreases n,
{
    if n < 10 {
        seq![digit_char(n)]
    } else {
        dec_digits(n / 10).push(digit_char(n % 10))
    }
}

/// The cause reported when the provider answers outside the success
/// range: it names the status code it sent.
pub open spec fn http_status_cause(status: u16) -> Seq<char> {
    "unexpected HTTP status "@ + dec_digits(status as nat)
}

/// An HTTP status that counts as success.
pub open spec fn success_status(status: u16) -> bool {
    200 <= status < 300
}

/// What one outbound exchange with the weather provider came to, as the
/// transport reports it.
pub enum ExchangeOutcome {
    /// The exchange completed and the body was decoded as text.
    Body { status: u16, text: String },
    /// The exchange completed but the body could not be read as text.
    DecodeFailure { cause: String },
    /// The exchange itself could not be completed.
    NetworkFailure { cause: String },
}

/// The request URL for a location identifier.
pub fn weather_url(icao: &str) -> (r: String)
    ensures
        r@ == weather_url_spec(icao@),
{
    let mut url = String::from_str("https://api.checkwx.com/metar/");
    url.append(icao);
    url.append("/decoded");
    url
}

/// The name of the request header that carries the credential. The
/// credential itself is taken per call and never stored.
pub fn api_key_header() -> (r: String)
    ensures
        r@ == "X-API-Key"@,
{
    String::from_str("X-API-Key")
}

/// Append one decimal digit character.
fn push_digit(s: &mut String, d: u16)
    requires
        d < 10,
    ensures
        final(s)@ == old(s)@ + seq![digit_char(d as nat)],
{
    proof {
        reveal_strlit("0");
        reveal_strlit("1");
        reveal_strlit("2");
        reveal_strlit("3");
        reveal_strlit("4");
        reveal_strlit("5");
        reveal_strlit("6");
        reveal_strlit("7");
        reveal_strlit("8");
        reveal_strlit("9");
    }
    if d == 0 {
        s.append("0");
        proof {
            assert("0"@ =~= seq![digit_char(0)]);
        }
    } else if d == 1 {
        s.append("1");
        proof {
            assert("1"@ =~= seq![digit_char(1)]);
        }
    } else if d == 2 {
        s.append("2");
        proof {
            assert("2"@ =~= seq![digit_char(2)]);
        }
    } else if d == 3 {
        s.append("3");
        proof {
            assert("3"@ =~= seq![digit_char(3)]);
        }
    } else if d == 4 {
        s.append("4");
        proof {
            assert("4"@ =~= seq![digit_char(4)]);
        }
    } else if d == 5 {
        s.append("5");
        proof {
            assert("5"@ =~= seq![digit_char(5)]);
        }
    } else if d == 6 {
        s.append("6");
        proof {
            assert("6"@ =~= seq![digit_char(6)]);
        }
    } else if d == 7 {
        s.append("7");
        proof {
            assert("7"@ =~= seq![digit_char(7)]);
        }
    } else if d == 8 {
        s.append("8");
        proof {
            assert("8"@ =~= seq![digit_char(8)]);
        }
    } else {
        s.append("9");
        proof {
            assert("9"@ =~= seq![digit_char(9)]);
        }
    }
}

/// Append the decimal rendering of `n`.
fn push_decimal(s: &mut String, n: u16)
    ensures
        final(s)@ == old(s)@ + dec_digits(n as nat),
    decreases n,
{
    if n >= 10 {
        push_decimal(s, n / 10);
        push_digit(s, n % 10);
        proof {
            assert((old(s)@ + dec_digits((n / 10) as nat)) + seq![digit_char((n % 10) as nat)]
                =~= old(s)@ + dec_digits(n as nat));
        }
    } else {
        push_digit(s, n);
    }
}

/// The failure text for a location identifier and an underlying cause.
pub fn failure_message(icao: &str, cause: &str) -> (r: String)
    ensures
        r@ == failure_message_spec(icao@, cause@),
{
    let mut m = String::from_str("CheckWX request failed for ");
    m.append(icao);
    m.append(": ");
    m.append(cause);
    m
}

/// Fold the outcome of one exchange into what the caller receives: the
/// raw body of a successful response, character for character, otherwise
/// one normalized failure message naming the location identifier.
pub fn weather_result(icao: &str, outcome: ExchangeOutcome) -> (r: Result<String, String>)
    ensures
        ({
            match outcome {
                ExchangeOutcome::Body { status, text } => if success_status(status) {
                    r matches Ok(t) && t@ == text@
                } else {
                    r matches Err(e) && e@ == failure_message_spec(
                        icao@,
                        http_status_cause(status),
                    )
                },
                ExchangeOutcome::DecodeFailure { cause } => r matches Err(e) && e@
                    == failure_message_spec(icao@, cause@),
                ExchangeOutcome::NetworkFailure { cause } => r matches Err(e) && e@
                    == failure_message_spec(icao@, cause@),
            }
        }),
{
    match outcome {
        ExchangeOutcome::Body { status, text } => {
            if 200 <= status && status < 300 {
                Ok(text)
            } else {
                let mut cause = String::from_str("unexpected HTTP status ");
                push_decimal(&mut cause, status);
                Err(failure_message(icao, cause.as_str()))
            }
        },
        ExchangeOutcome::DecodeFailure { cause } => Err(failure_message(icao, cause.as_str())),
        ExchangeOutcome::NetworkFailure { cause } => Err(failure_message(icao, cause.as_str())),
    }
}

/// Every failure message carries the location identifier, starting right
/// after the fixed prefix, and ends with the underlying cause.
pub proof fn lemma_failure_message_names_location(icao: Seq<char>, cause: Seq<char>)
    ensures
        failure_message_spec(icao, cause).subrange(27, 27 + icao.len() as int) =~= icao,
        failure_message_spec(icao, cause).subrange(
            failure_message_spec(icao, cause).len() - cause.len(),
            failure_message_spec(icao, cause).len() as int,
        ) =~= cause,
{
    reveal_strlit("CheckWX request failed for ");
    reveal_strlit(": ");
}

} // verus!
