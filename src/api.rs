use vstd::prelude::*;
use crate::db::{Database, SmsMessage, opt_view, query_result};
use crate::utils::{MalformedTimestamp, Timestamp, normalized_instant, parse_rfc3339_timestamp};

verus! {

/// HTTP status of a successful answer.
pub const STATUS_OK: u16 = 200;

/// HTTP status of an answer to a request that was not understood.
pub const STATUS_BAD_REQUEST: u16 = 400;

/// HTTP status of an answer to a request that failed inside the service.
pub const STATUS_INTERNAL_ERROR: u16 = 500;

/// The parameters a message query accepts.
#[derive(Clone, Debug)]
pub struct MessageQuery {
    pub after: Option<String>,
}

/// The envelope of every answer: success with data, or failure with a reason.
#[derive(Clone, Debug)]
pub struct ApiResponse<T> {
    pub success: bool,
    pub data: Option<T>,
    pub error: Option<String>,
}

impl<T> ApiResponse<T> {
    pub fn success(data: T) -> (r: Self)
        ensures
            r.success,
            r.data == Some(data),
            r.error is None,
    {
        ApiResponse { success: true, data: Some(data), error: None }
    }

    pub fn error(error: String) -> (r: ApiResponse<()>)
        ensures
            !r.success,
            r.data is None,
            r.error == Some(error),
    {
        ApiResponse { success: false, data: None, error: Some(error) }
    }

    /// An error envelope together with the status it is sent with.
    pub fn error_with_status(error: String, status: u16) -> (r: (u16, ApiResponse<()>))
        ensures
            r.0 == status,
            !r.1.success,
            r.1.data is None,
            r.1.error == Some(error),
    {
        (status, ApiResponse::<()>::error(error))
    }

    /// The status an envelope is sent with when nothing else picks one.
    pub fn status(&self) -> (r: u16)
        ensures
            self.success ==> r == STATUS_OK,
            !self.success ==> r == STATUS_INTERNAL_ERROR,
    {
        if self.success {
            STATUS_OK
        } else {
            STATUS_INTERNAL_ERROR
        }
    }
}

/// The text that starts the reason given for a malformed `after` bound.
pub open spec fn bad_after_prefix() -> Seq<char> {
    "Invalid 'after' timestamp format. Expected RFC3339: "@
}

/// Reads the optional lower bound of a query.
pub fn parse_after(after: Option<&str>) -> (r: Result<Option<Timestamp>, MalformedTimestamp>)
    ensures
        after is None ==> r == Ok::<Option<Timestamp>, MalformedTimestamp>(None),
        after matches Some(s) ==> match normalized_instant(s@) {
            Some(t) => r == Ok::<Option<Timestamp>, MalformedTimestamp>(Some(t)),
            None => r matches Err(e) && e.input@ == s@,
        },
{
    match after {
        None => Ok(None),
        Some(s) => match parse_rfc3339_timestamp(s) {
            Ok(t) => Ok(Some(t)),
            Err(e) => Err(e),
        },
    }
}

/// Answers a query for the messages of device `imei` after the optional
/// bound `after`: a bad request when the bound cannot be read, else the
/// matching messages in ascending timestamp order.
pub fn messages_response(db: &Database, imei: &str, after: Option<&str>) -> (r: (
    u16,
    ApiResponse<Vec<SmsMessage>>,
))
    requires
        db.wf(),
    ensures
        match after {
            Some(s) => normalized_instant(s@) is None ==> {
                &&& r.0 == STATUS_BAD_REQUEST
                &&& !r.1.success
                &&& r.1.data is None
                &&& r.1.error matches Some(e) && e@ == bad_after_prefix() + s@
            },
            None => true,
        },
        match after {
            Some(s) => normalized_instant(s@) is Some,
            None => true,
        } ==> {
            &&& r.0 == STATUS_OK
            &&& r.1.success
            &&& r.1.error is None
            &&& r.1.data matches Some(v) && query_result(
                db@,
                Some(imei@),
                match after {
                    Some(s) => normalized_instant(s@),
                    None => None,
                },
                v@,
            )
        },
{
    match parse_after(after) {
        Err(e) => {
            let mut reason = String::from_str("Invalid 'after' timestamp format. Expected RFC3339: ");
            reason.append(e.input.as_str());
            proof {
                reveal_strlit("Invalid 'after' timestamp format. Expected RFC3339: ");
            }
            (STATUS_BAD_REQUEST, ApiResponse { success: false, data: None, error: Some(reason) })
        },
        Ok(bound) => {
            let messages = db.get_messages(Some(imei), bound);
            assert(opt_view(Some(imei)) == Some(imei@));
            (STATUS_OK, ApiResponse::success(messages))
        },
    }
}

} // verus!
