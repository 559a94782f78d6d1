//! The attendance-server protocol as the terminal sees it: the reply record,
//! the closed set of error kinds, the status classification, and the retry
//! discipline. The HTTP transport itself lives in the process shell; it asks
//! a [`RetrySession`] before each attempt and hands every outcome back, so
//! every decision in the loop is verified here.

use vstd::prelude::*;

use crate::config::ApiConfig;
use crate::json::{spec_parse_clock_response, parse_clock_response, RespModel};
use crate::timestamp::valid_rfc3339;
use crate::strutil::{dec_digits, u64_to_string};

verus! {

/// The employee identity in a successful reply.
pub struct EmployeeInfo {
    pub id: String,
    pub first_name: String,
    pub last_name: String,
    pub photo_url: Option<String>,
}

/// A successful reply to a scan. The timestamp is the server's RFC 3339 UTC
/// text; the remaining vacation allowance is carried in tenths of a day, the
/// resolution the screens show.
pub struct ClockResponse {
    pub employee: EmployeeInfo,
    pub entry_type: String,
    pub timestamp: String,
    pub today_work_minutes: u32,
    pub today_break_minutes: u32,
    pub overtime_minutes: i32,
    pub remaining_vacation_tenths: i32,
}

/// The closed set of scan failures. Only the last two are transient; the
/// rest are the server's authoritative word.
pub enum ApiError {
    NotFound(String),
    Unauthorized,
    ServerError(String),
    NetworkError(String),
    Timeout,
    Conflict,
}

/// The user-facing line for each error kind.
pub open spec fn spec_error_message(e: ApiError) -> Seq<char> {
    match e {
        ApiError::NotFound(m) => "Not found: "@ + m@,
        ApiError::Unauthorized => "Unauthorized"@,
        ApiError::ServerError(m) => "Server error: "@ + m@,
        ApiError::NetworkError(m) => "Network error: "@ + m@,
        ApiError::Timeout => "Request timed out"@,
        ApiError::Conflict => "Conflict"@,
    }
}

/// Errors the client may retry: the transport failed, so the server has
/// decided nothing.
pub open spec fn spec_is_transient(e: ApiError) -> bool {
    match e {
        ApiError::NetworkError(_) => true,
        ApiError::Timeout => true,
        _ => false,
    }
}

impl ApiError {
    /// Renders the error as its user-facing line.
    pub fn message(&self) -> (r: String)
        ensures
            r@ == spec_error_message(*self),
    {
        match self {
            ApiError::NotFound(m) => "Not found: ".to_owned().concat(m.as_str()),
            ApiError::Unauthorized => "Unauthorized".to_owned(),
            ApiError::ServerError(m) => "Server error: ".to_owned().concat(m.as_str()),
            ApiError::NetworkError(m) => "Network error: ".to_owned().concat(m.as_str()),
            ApiError::Timeout => "Request timed out".to_owned(),
            ApiError::Conflict => "Conflict".to_owned(),
        }
    }

    /// Whether a failed attempt may be retried.
    pub fn is_transient(&self) -> (b: bool)
        ensures
            b == spec_is_transient(*self),
    {
        match self {
            ApiError::NetworkError(_) => true,
            ApiError::Timeout => true,
            _ => false,
        }
    }

}

/// A 2xx status means success on the wire.
pub open spec fn spec_status_is_success(status: u16) -> bool {
    200 <= status < 300
}

/// Whether a reply status counts as success (2xx).
pub fn status_is_success(status: u16) -> (b: bool)
    ensures
        b == spec_status_is_success(status),
{
    200 <= status && status < 300
}

/// Maps a non-2xx reply status to its error.
pub fn classify_error_status(status: u16) -> (e: ApiError)
    requires
        !spec_status_is_success(status),
    ensures
        match e {
            ApiError::NotFound(m) => status == 404 && m@ == "RFID tag not registered"@,
            ApiError::Unauthorized => status == 401,
            ApiError::Conflict => status == 409,
            ApiError::ServerError(m) => status != 404 && status != 401 && status != 409 && m@
                == "HTTP "@ + dec_digits(status as nat),
            _ => false,
        },
{
    if status == 404 {
        ApiError::NotFound("RFID tag not registered".to_owned())
    } else if status == 401 {
        ApiError::Unauthorized
    } else if status == 409 {
        ApiError::Conflict
    } else {
        ApiError::ServerError("HTTP ".to_owned().concat(u64_to_string(status as u64).as_str()))
    }
}


/// Classifies one HTTP reply to a scan: a 2xx body is parsed (an unreadable
/// body is a server error), 404 and 401 and 409 carry their own meaning,
/// and any other status is a server error named by its code.
pub fn classify_response(status: u16, body: &str) -> (r: Result<ClockResponse, ApiError>)
    ensures
        spec_status_is_success(status) ==> (match r {
            Result::Ok(resp) => spec_parse_clock_response(body@) == Option::Some(
                (RespModel {
                    id: resp.employee.id@,
                    first_name: resp.employee.first_name@,
                    last_name: resp.employee.last_name@,
                    photo_url: match resp.employee.photo_url {
                        Option::Some(u) => Option::Some(u@),
                        Option::None => Option::None,
                    },
                    entry_type: resp.entry_type@,
                    timestamp: resp.timestamp@,
                    work: resp.today_work_minutes as int,
                    brk: resp.today_break_minutes as int,
                    overtime: resp.overtime_minutes as int,
                    vacation_tenths: resp.remaining_vacation_tenths as int,
                }),
            ) && valid_rfc3339(resp.timestamp@),
            Result::Err(e) => spec_parse_clock_response(body@) is None && (
            e matches ApiError::ServerError(msg) && msg@ == "Failed to parse response"@),
        }),
        !spec_status_is_success(status) ==> (match r {
            Result::Ok(_) => false,
            Result::Err(e) => match e {
                ApiError::NotFound(msg) => status == 404 && msg@ == "RFID tag not registered"@,
                ApiError::Unauthorized => status == 401,
                ApiError::Conflict => status == 409,
                ApiError::ServerError(msg) => status != 404 && status != 401 && status != 409
                    && msg@ == "HTTP "@ + dec_digits(status as nat),
                _ => false,
            },
        }),
{
    if status_is_success(status) {
        match parse_clock_response(body) {
            Option::Some(resp) => Result::Ok(resp),
            Option::None => Result::Err(
                ApiError::ServerError("Failed to parse response".to_owned()),
            ),
        }
    } else {
        Result::Err(classify_error_status(status))
    }
}

/// The scan client's knobs: where to post, how long one attempt may take,
/// and how many attempts a scan gets in all.
pub struct ApiClient {
    pub base_url: String,
    pub timeout_seconds: u64,
    pub retry_attempts: u32,
}

impl ApiClient {
    pub fn new(config: &ApiConfig) -> (r: ApiClient)
        ensures
            r.base_url@ == config.base_url@,
            r.timeout_seconds == config.timeout_seconds,
            r.retry_attempts == config.retry_attempts,
    {
        ApiClient {
            base_url: config.base_url.clone(),
            timeout_seconds: config.timeout_seconds,
            retry_attempts: config.retry_attempts,
        }
    }

    /// The endpoint a scan is posted to.
    pub fn scan_url(&self) -> (r: String)
        ensures
            r@ == self.base_url@ + "/terminal/scan"@,
    {
        self.base_url.clone().concat("/terminal/scan")
    }

    /// The endpoint the health probe reads.
    pub fn health_url(&self) -> (r: String)
        ensures
            r@ == self.base_url@ + "/actuator/health"@,
    {
        self.base_url.clone().concat("/actuator/health")
    }
}

/// What the retry loop does after one attempt.
pub enum RetryStep {
    /// The scan is over; this is its result.
    Done(Result<ClockResponse, ApiError>),
    /// The failure was transient and attempts remain: try again.
    Retry,
}

/// The verified state of one scan's retry loop. The transport asks
/// [`RetrySession::should_attempt`] before each attempt and feeds every
/// outcome to [`RetrySession::note_outcome`]: a success or a semantic error
/// ends the scan at once, a transient failure is retried while attempts
/// remain, and with none configured no request is sent at all.
pub struct RetrySession {
    attempts_left: u32,
}

impl RetrySession {
    pub closed spec fn spec_attempts_left(&self) -> u32 {
        self.attempts_left
    }

    /// A session for one scan, allowing the configured number of attempts.
    pub fn new(retry_attempts: u32) -> (r: RetrySession)
        ensures
            r.spec_attempts_left() == retry_attempts,
    {
        RetrySession { attempts_left: retry_attempts }
    }

    /// Whether the transport may send (another) request.
    pub fn should_attempt(&self) -> (b: bool)
        ensures
            b == (self.spec_attempts_left() > 0),
    {
        self.attempts_left > 0
    }

    /// The result of a scan that was never sent because no attempts are
    /// configured.
    pub fn no_attempts_result(&self) -> (r: Result<ClockResponse, ApiError>)
        requires
            self.spec_attempts_left() == 0,
        ensures
            r matches Result::Err(e) && spec_is_transient(e) && (e matches ApiError::NetworkError(
                m,
            ) && m@ == "No attempts made"@),
    {
        Result::Err(ApiError::NetworkError("No attempts made".to_owned()))
    }

    /// Consumes one attempt's outcome and decides the loop's next move:
    /// a success or a non-transient error is final; a transient error is
    /// retried exactly while attempts remain.
    pub fn note_outcome(&mut self, outcome: Result<ClockResponse, ApiError>) -> (step: RetryStep)
        requires
            old(self).spec_attempts_left() > 0,
        ensures
            final(self).spec_attempts_left() == old(self).spec_attempts_left() - 1,
            match outcome {
                Result::Ok(_) => step matches RetryStep::Done(r) && r == outcome,
                Result::Err(e) => {
                    if spec_is_transient(e) && old(self).spec_attempts_left() > 1 {
                        step matches RetryStep::Retry
                    } else {
                        step matches RetryStep::Done(r) && r == outcome
                    }
                },
            },
    {
        self.attempts_left = self.attempts_left - 1;
        match &outcome {
            Result::Ok(_) => RetryStep::Done(outcome),
            Result::Err(e) => {
                if e.is_transient() && self.attempts_left > 0 {
                    RetryStep::Retry
                } else {
                    RetryStep::Done(outcome)
                }
            },
        }
    }
}

} // verus!
