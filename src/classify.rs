use vstd::prelude::*;
use vstd::string::{StringExecFns, StringSliceAdditionalSpecFns};
use crate::numeral::{decimal, lemma_decimal_nonempty, push_decimal};
use crate::record::FetchOutcome;

verus! {

/// What the head of an HTTP answer (status and declared content type) decides.
pub enum HeadVerdict {
    /// The answer is a 2xx HTML page: its body is to be read.
    ReadBody,
    /// The fetch has failed, for the reason given.
    Reject(String),
}

/// The bytes of the HTML media type, `text/html`.
pub open spec fn html_media_type() -> Seq<u8> {
    seq![116u8, 101u8, 120u8, 116u8, 47u8, 104u8, 116u8, 109u8, 108u8]
}

/// A content type declares HTML when its bytes begin with `text/html`.
pub open spec fn declares_html(content_type: Seq<u8>) -> bool {
    content_type.len() >= html_media_type().len()
        && content_type.subrange(0, html_media_type().len() as int) == html_media_type()
}

pub open spec fn is_success_status(status: u16) -> bool {
    200 <= status && status < 300
}

/// The reason recorded for an answer whose status is not 2xx.
pub open spec fn status_reason(status: u16) -> Seq<char> {
    "HTTP status "@ + decimal(status as nat)
}

/// The reason recorded for an answer that is not HTML.
pub open spec fn not_html_reason() -> Seq<char> {
    "Page is not HTML"@
}

/// The reason recorded when an error came with an empty message.
pub open spec fn unknown_error_reason() -> Seq<char> {
    "Request failed"@
}

/// The reason recorded for an error with the message `message`: the message
/// itself, or a fixed text where it is empty.
pub open spec fn error_reason(message: Seq<char>) -> Seq<char> {
    if message.len() == 0 { unknown_error_reason() } else { message }
}

/// What the head of an answer decides, by its status and declared content type.
pub open spec fn head_verdict_of(status: u16, content_type: Option<Seq<u8>>) -> Option<Seq<char>> {
    if !is_success_status(status) {
        Some(status_reason(status))
    } else if content_type matches Some(ct) && declares_html(ct) {
        None
    } else {
        Some(not_html_reason())
    }
}

/// The bytes of an optional text.
pub open spec fn bytes_of(text: Option<&str>) -> Option<Seq<u8>> {
    match text {
        Some(t) => Some(t.spec_bytes()),
        None => None,
    }
}

/// Whether a declared content type is HTML: its bytes begin with `text/html`.
pub fn is_html_content_type(content_type: &str) -> (r: bool)
    ensures
        r == declares_html(content_type.spec_bytes()),
{
    let bytes = content_type.as_bytes();
    let expected: [u8; 9] = [116u8, 101u8, 120u8, 116u8, 47u8, 104u8, 116u8, 109u8, 108u8];
    if bytes.len() < 9 {
        return false;
    }
    let mut i: usize = 0;
    while i < 9
        invariant
            i <= 9,
            bytes@.len() >= 9,
            bytes@ == content_type.spec_bytes(),
            expected@ == html_media_type(),
            forall|k: int| 0 <= k < i ==> bytes@[k] == html_media_type()[k],
        decreases 9 - i,
    {
        if bytes[i] != expected[i] {
            proof {
                assert(html_media_type().len() == 9);
                assert(bytes@.subrange(0, 9)[i as int] != html_media_type()[i as int]);
                assert(bytes@.subrange(0, 9) != html_media_type());
            }
            return false;
        }
        i = i + 1;
    }
    proof {
        assert(bytes@.subrange(0, 9) =~= html_media_type());
    }
    true
}

/// Classifies the head of an HTTP answer. A status outside 2xx fails with a
/// reason that names the status; a 2xx answer whose content type is not HTML
/// (or is missing) fails as not HTML; a 2xx HTML answer is to have its body read.
pub fn classify_head(status: u16, content_type: Option<&str>) -> (r: HeadVerdict)
    ensures
        match head_verdict_of(status, bytes_of(content_type)) {
            None => r is ReadBody,
            Some(reason) => r matches HeadVerdict::Reject(m) && m@ == reason,
        },
        r matches HeadVerdict::Reject(m) ==> m@.len() > 0,
{
    proof {
        reveal_strlit("HTTP status ");
        reveal_strlit("Page is not HTML");
    }
    if status < 200 || status >= 300 {
        let mut reason = String::from_str("HTTP status ");
        push_decimal(&mut reason, status as u64);
        proof {
            lemma_decimal_nonempty(status as nat);
        }
        return HeadVerdict::Reject(reason);
    }
    let html = match content_type {
        Some(ct) => is_html_content_type(ct),
        None => false,
    };
    if html {
        HeadVerdict::ReadBody
    } else {
        HeadVerdict::Reject(String::from_str("Page is not HTML"))
    }
}

/// The reason for an error: its message, or a fixed text where the message is empty.
pub fn failure_reason(message: String) -> (r: String)
    ensures
        r@ == error_reason(message@),
        r@.len() > 0,
{
    proof {
        reveal_strlit("Request failed");
    }
    if message.as_str().is_empty() {
        String::from_str("Request failed")
    } else {
        message
    }
}

/// The outcome of a fetch whose request failed at the transport level
/// (timeout, name resolution, connection, TLS).
pub fn outcome_of_transport_error(message: String) -> (r: FetchOutcome)
    ensures
        r matches FetchOutcome::Failure(m) && m@ == error_reason(message@) && m@.len() > 0,
{
    FetchOutcome::Failure(failure_reason(message))
}

/// The outcome of a fetch whose head was rejected.
pub fn outcome_of_rejection(reason: String) -> (r: FetchOutcome)
    ensures
        r matches FetchOutcome::Failure(m) && m@ == error_reason(reason@) && m@.len() > 0,
{
    FetchOutcome::Failure(failure_reason(reason))
}

/// The outcome of reading the body of a 2xx HTML answer: the exact body text,
/// or a failure where reading it failed.
pub fn outcome_of_body(body: Result<String, String>) -> (r: FetchOutcome)
    ensures
        match body {
            Ok(text) => r == FetchOutcome::Success(text),
            Err(message) => r matches FetchOutcome::Failure(m) && m@ == error_reason(message@),
        },
        r matches FetchOutcome::Failure(m) ==> m@.len() > 0,
{
    match body {
        Ok(text) => FetchOutcome::Success(text),
        Err(message) => FetchOutcome::Failure(failure_reason(message)),
    }
}

} // verus!
