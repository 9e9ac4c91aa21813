//! What became of a request that failed.

use vstd::prelude::*;

use crate::text;
use crate::web;

verus! {

/// How a request failed.
#[derive(Debug, Clone, Copy, PartialEq, Eq, Structural)]
pub enum DownloadFailureKind {
    HttpStatus(u16),
    Timeout,
    ConnectionReset,
    Network,
    Other,
}

/// Whether the words of an error speak of a connection that broke.
pub open spec fn speaks_of_reset(message: Seq<char>) -> bool {
    let m = text::ascii_lowercase(message);
    text::contains(m, "connection reset"@) || text::contains(m, "broken pipe"@) || text::contains(
        m,
        "stream error"@,
    ) || text::contains(m, "http2 error"@) || text::contains(m, "operation was aborted"@)
}

/// Whether the words of an error speak of a connection that broke.
pub fn looks_like_connection_reset(message: &str) -> (r: bool)
    ensures
        r == speaks_of_reset(message@),
{
    let m: Vec<char> = text::to_ascii_lower(text::to_chars(message).as_slice());
    let s: &[char] = m.as_slice();
    text::has(s, "connection reset") || text::has(s, "broken pipe") || text::has(s, "stream error")
        || text::has(s, "http2 error") || text::has(s, "operation was aborted")
}

impl DownloadFailureKind {
    /// How a request failed, by what the client says of its error.
    pub open spec fn of(timed_out: bool, connecting: bool, status: Option<u16>, m: Seq<char>) -> Self {
        if timed_out {
            DownloadFailureKind::Timeout
        } else if speaks_of_reset(m) {
            DownloadFailureKind::ConnectionReset
        } else if connecting {
            DownloadFailureKind::Network
        } else {
            match status {
                Some(s) => DownloadFailureKind::HttpStatus(s),
                None => DownloadFailureKind::Other,
            }
        }
    }

    /// How a request failed, by what the client says of its error.
    pub fn classify(timed_out: bool, connecting: bool, status: Option<u16>, message: &str) -> (r:
        Self)
        ensures
            r == DownloadFailureKind::of(timed_out, connecting, status, message@),
    {
        if timed_out {
            return DownloadFailureKind::Timeout;
        }
        if looks_like_connection_reset(message) {
            return DownloadFailureKind::ConnectionReset;
        }
        if connecting {
            return DownloadFailureKind::Network;
        }
        match status {
            Some(s) => DownloadFailureKind::HttpStatus(s),
            None => DownloadFailureKind::Other,
        }
    }

    /// Whether fewer downloads at a time may help.
    pub open spec fn is_pressure(self) -> bool {
        match self {
            DownloadFailureKind::Timeout | DownloadFailureKind::ConnectionReset => true,
            DownloadFailureKind::HttpStatus(s) => s == 408 || s == 429 || s == 502 || s == 503 || s
                == 504,
            DownloadFailureKind::Network | DownloadFailureKind::Other => false,
        }
    }

    /// Whether fewer downloads at a time may help.
    pub fn is_concurrency_pressure(self) -> (r: bool)
        ensures
            r == self.is_pressure(),
    {
        match self {
            DownloadFailureKind::Timeout | DownloadFailureKind::ConnectionReset => true,
            DownloadFailureKind::HttpStatus(s) => s == 408 || s == 429 || s == 502 || s == 503 || s
                == 504,
            DownloadFailureKind::Network | DownloadFailureKind::Other => false,
        }
    }

    /// The kind in words; `status_line` is the status as the protocol writes it.
    pub open spec fn label_of(self, status_line: Seq<char>) -> Seq<char> {
        match self {
            DownloadFailureKind::HttpStatus(_) => "http_status_"@ + status_line,
            DownloadFailureKind::Timeout => "timeout"@,
            DownloadFailureKind::ConnectionReset => "connection_reset"@,
            DownloadFailureKind::Network => "network"@,
            DownloadFailureKind::Other => "other"@,
        }
    }

    /// The kind in words.
    pub fn label(&self, status_line: &str) -> (r: String)
        ensures
            r@ == self.label_of(status_line@),
    {
        match self {
            DownloadFailureKind::HttpStatus(_) => {
                let mut out: String = text::clone_text("http_status_");
                text::push_str(&mut out, status_line);
                out
            },
            DownloadFailureKind::Timeout => text::clone_text("timeout"),
            DownloadFailureKind::ConnectionReset => text::clone_text("connection_reset"),
            DownloadFailureKind::Network => text::clone_text("network"),
            DownloadFailureKind::Other => text::clone_text("other"),
        }
    }
}

/// A request that failed.
#[derive(Debug, Clone)]
pub struct RequestFailure {
    pub status: Option<u16>,
    pub kind: DownloadFailureKind,
    pub message: String,
}

/// The first characters of a reply.
pub open spec fn preview(body: Seq<char>) -> Seq<char> {
    if body.len() > 240 {
        body.take(240)
    } else {
        body
    }
}

/// What is said of a reply that is no success.
pub open spec fn status_message(status_line: Seq<char>, body: Seq<char>) -> Seq<char> {
    if body.len() == 0 {
        "upstream returned status "@ + status_line
    } else {
        "upstream returned status "@ + status_line + ": "@ + preview(body)
    }
}

impl RequestFailure {
    /// A reply that is no success.
    pub fn from_status(status: u16, status_line: &str, body: &str) -> (r: Self)
        ensures
            r.status == Some(status),
            r.kind == DownloadFailureKind::HttpStatus(status),
            r.message@ == status_message(status_line@, body@),
    {
        let b: Vec<char> = text::to_chars(body);
        let mut message: String = text::clone_text("upstream returned status ");
        text::push_str(&mut message, status_line);
        let n: usize = b.len();
        if n > 0 {
            let m: usize = if n > 240 {
                240
            } else {
                n
            };
            let head: &[char] = vstd::slice::slice_subrange(b.as_slice(), 0, m);
            assert(head@ =~= preview(body@));
            text::push_str(&mut message, ": ");
            text::push_str(&mut message, text::from_chars(head).as_str());
        }
        assert(message@ =~= status_message(status_line@, body@));
        RequestFailure { status: Some(status), kind: DownloadFailureKind::HttpStatus(status), message }
    }

    /// A request that took longer than `secs` seconds.
    pub fn timeout(secs: u64) -> (r: Self)
        ensures
            r.status is None,
            r.kind == DownloadFailureKind::Timeout,
            r.message@ == "timed out after "@ + text::decimal(secs as int) + "s"@,
    {
        let mut message: String = text::clone_text("timed out after ");
        text::push_decimal(&mut message, secs);
        text::push_str(&mut message, "s");
        RequestFailure { status: None, kind: DownloadFailureKind::Timeout, message }
    }

    /// Another failure.
    pub fn other(message: &str) -> (r: Self)
        ensures
            r.status is None,
            r.kind == DownloadFailureKind::Other,
            r.message@ == message@,
    {
        RequestFailure {
            status: None,
            kind: DownloadFailureKind::Other,
            message: text::clone_text(message),
        }
    }
}

/// A download that failed for good.
#[derive(Debug)]
pub struct DownloadError {
    url: String,
    kind: DownloadFailureKind,
    message: String,
}

impl DownloadError {
    pub closed spec fn url(&self) -> Seq<char> {
        self.url@
    }

    pub closed spec fn failure(&self) -> DownloadFailureKind {
        self.kind
    }

    pub closed spec fn reason(&self) -> Seq<char> {
        self.message@
    }

    /// The error of a URL whose last request failed.
    pub fn new(url: &str, failure: RequestFailure) -> (r: Self)
        ensures
            r.url() == url@,
            r.failure() == failure.kind,
            r.reason() == failure.message@,
    {
        DownloadError { url: text::clone_text(url), kind: failure.kind, message: failure.message }
    }

    /// How the last request failed.
    pub fn kind(&self) -> (r: DownloadFailureKind)
        ensures
            r == self.failure(),
    {
        self.kind
    }

    /// Whether fewer downloads at a time may help.
    pub fn is_concurrency_pressure(&self) -> (r: bool)
        ensures
            r == self.failure().is_pressure(),
    {
        self.kind.is_concurrency_pressure()
    }

    /// The error in words.
    pub fn message(&self, status_line: &str) -> (r: String)
        ensures
            r@ == "failed to download "@ + self.url() + " ("@ + self.failure().label_of(
                status_line@,
            ) + "): "@ + self.reason(),
    {
        let mut out: String = text::clone_text("failed to download ");
        text::push_str(&mut out, self.url.as_str());
        text::push_str(&mut out, " (");
        text::push_str(&mut out, self.kind.label(status_line).as_str());
        text::push_str(&mut out, "): ");
        text::push_str(&mut out, self.message.as_str());
        out
    }
}

/// The name under which the downloads from a host are counted.
pub open spec fn host_name(url: Seq<char>) -> Seq<char> {
    match web::url_host(url) {
        Some(h) => h,
        None => "<unknown>"@,
    }
}

/// The name under which the downloads from a host are counted.
pub fn host_label(url: &str) -> (r: String)
    ensures
        r@ == host_name(url@),
{
    match web::host_of(url) {
        Some(h) => h,
        None => text::clone_text("<unknown>"),
    }
}

} // verus!
