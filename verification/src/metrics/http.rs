//! Counters of the HTTP query service.

use vstd::prelude::*;
use crate::metrics::counter::{labels_view, spec_inc, Counter, Family, Labels};

verus! {

/// The counters of the HTTP query service.
pub struct HttpMetrics {
    /// Requests, by method, API and status.
    pub query_http_requests_count: Family,
    /// Slow requests, by method, API and status.
    pub query_http_slow_requests_count: Family,
    /// Error responses, by error and code.
    pub query_http_response_errors_count: Family,
    /// Requests whose handler panicked.
    pub query_http_response_panics_count: Counter,
}

/// The labels of a request: its method, its API and its status.
pub open spec fn spec_request_labels(method: Seq<char>, api: Seq<char>, status: Seq<char>) -> Labels {
    seq![("method"@, method), ("api"@, api), ("status"@, status)]
}

/// The labels of an error response: the error and its code in decimal.
pub open spec fn spec_error_labels(err: Seq<char>, code: u16) -> Labels {
    seq![("err"@, err), ("code"@, spec_decimal(code as nat))]
}

/// The decimal digit for `d`.
pub open spec fn spec_digit(d: nat) -> char {
    if d == 0 {
        '0'
    } else if d == 1 {
        '1'
    } else if d == 2 {
        '2'
    } else if d == 3 {
        '3'
    } else if d == 4 {
        '4'
    } else if d == 5 {
        '5'
    } else if d == 6 {
        '6'
    } else if d == 7 {
        '7'
    } else if d == 8 {
        '8'
    } else {
        '9'
    }
}

/// `n` written in decimal, without leading zeros.
pub open spec fn spec_decimal(n: nat) -> Seq<char>
    decreases n,
{
    if n < 10 {
        seq![spec_digit(n)]
    } else {
        spec_decimal(n / 10).push(spec_digit(n % 10))
    }
}

/// The decimal digit for `d`, as a text of one character.
fn digit_text(d: u16) -> (text: &'static str)
    requires
        d < 10,
    ensures
        text@ == seq![spec_digit(d as nat)],
{
    proof {
        reveal_strlit("0");
        reveal_strlit("1");
        reveal_strlit("2");
        reveal_strlit("3");
        reveal_strlit("4");
        reveal_strlit("5");
        reveal_strlit("6");
        reveal_strlit("7");
        reveal_strlit("8");
        reveal_strlit("9");
    }
    let text = match d {
        0 => "0",
        1 => "1",
        2 => "2",
        3 => "3",
        4 => "4",
        5 => "5",
        6 => "6",
        7 => "7",
        8 => "8",
        _ => "9",
    };
    assert(text@ =~= seq![spec_digit(d as nat)]);
    text
}

/// `code` written in decimal, without sign and without leading zeros.
fn code_to_string(code: u16) -> (text: String)
    ensures
        text@ == spec_decimal(code as nat),
    decreases code,
{
    if code < 10 {
        digit_text(code).to_string()
    } else {
        let mut text = code_to_string(code / 10);
        text.append(digit_text(code % 10));
        proof {
            assert(spec_decimal((code / 10) as nat) + seq![spec_digit((code % 10) as nat)] =~= spec_decimal(
                (code / 10) as nat,
            ).push(spec_digit((code % 10) as nat)));
        }
        text
    }
}

fn request_labels(method: String, api: String, status: String) -> (labels: Vec<(String, String)>)
    ensures
        labels_view(labels@) == spec_request_labels(method@, api@, status@),
{
    let labels = vec![
        ("method".to_string(), method),
        ("api".to_string(), api),
        ("status".to_string(), status),
    ];
    proof {
        assert(labels_view(labels@) =~= spec_request_labels(method@, api@, status@));
    }
    labels
}

impl HttpMetrics {
    /// The counters of a service that has not served anything yet.
    pub fn new() -> (metrics: HttpMetrics)
        ensures
            forall|labels: Labels| metrics.query_http_requests_count.count(labels) == 0,
            forall|labels: Labels| metrics.query_http_slow_requests_count.count(labels) == 0,
            forall|labels: Labels| metrics.query_http_response_errors_count.count(labels) == 0,
            metrics.query_http_response_panics_count@ == 0,
    {
        HttpMetrics {
            query_http_requests_count: Family::new(),
            query_http_slow_requests_count: Family::new(),
            query_http_response_errors_count: Family::new(),
            query_http_response_panics_count: Counter::new(),
        }
    }
}

/// Whether `after` is `before` with one more event under `labels` and
/// nothing else changed.
pub open spec fn family_counted(before: Family, after: Family, labels: Labels) -> bool {
    &&& after.count(labels) == spec_inc(before.count(labels))
    &&& forall|other: Labels| other != labels ==> after.count(other) == before.count(other)
}

/// Counts a request with the given method, API and status.
pub fn metrics_incr_http_request_count(metrics: &mut HttpMetrics, method: String, api: String, status: String)
    ensures
        family_counted(
            old(metrics).query_http_requests_count,
            final(metrics).query_http_requests_count,
            spec_request_labels(method@, api@, status@),
        ),
        final(metrics).query_http_slow_requests_count == old(metrics).query_http_slow_requests_count,
        final(metrics).query_http_response_errors_count == old(metrics).query_http_response_errors_count,
        final(metrics).query_http_response_panics_count == old(metrics).query_http_response_panics_count,
{
    let labels = request_labels(method, api, status);
    metrics.query_http_requests_count.inc(labels);
}

/// Counts a slow request with the given method, API and status.
pub fn metrics_incr_http_slow_request_count(
    metrics: &mut HttpMetrics,
    method: String,
    api: String,
    status: String,
)
    ensures
        family_counted(
            old(metrics).query_http_slow_requests_count,
            final(metrics).query_http_slow_requests_count,
            spec_request_labels(method@, api@, status@),
        ),
        final(metrics).query_http_requests_count == old(metrics).query_http_requests_count,
        final(metrics).query_http_response_errors_count == old(metrics).query_http_response_errors_count,
        final(metrics).query_http_response_panics_count == old(metrics).query_http_response_panics_count,
{
    let labels = request_labels(method, api, status);
    metrics.query_http_slow_requests_count.inc(labels);
}

/// Counts an error response with error `err` and code `code`.
pub fn metrics_incr_http_response_errors_count(metrics: &mut HttpMetrics, err: String, code: u16)
    ensures
        family_counted(
            old(metrics).query_http_response_errors_count,
            final(metrics).query_http_response_errors_count,
            spec_error_labels(err@, code),
        ),
        final(metrics).query_http_requests_count == old(metrics).query_http_requests_count,
        final(metrics).query_http_slow_requests_count == old(metrics).query_http_slow_requests_count,
        final(metrics).query_http_response_panics_count == old(metrics).query_http_response_panics_count,
{
    let labels = vec![("err".to_string(), err), ("code".to_string(), code_to_string(code))];
    proof {
        assert(labels_view(labels@) =~= spec_error_labels(err@, code));
    }
    metrics.query_http_response_errors_count.inc(labels);
}

/// Counts a request whose handler panicked.
pub fn metrics_incr_http_response_panics_count(metrics: &mut HttpMetrics)
    ensures
        final(metrics).query_http_response_panics_count@ == spec_inc(
            old(metrics).query_http_response_panics_count@,
        ),
        final(metrics).query_http_requests_count == old(metrics).query_http_requests_count,
        final(metrics).query_http_slow_requests_count == old(metrics).query_http_slow_requests_count,
        final(metrics).query_http_response_errors_count == old(metrics).query_http_response_errors_count,
{
    metrics.query_http_response_panics_count.inc();
}

} // verus!
