use vstd::prelude::*;
use std::time::Duration;
use crate::http_breakpoint::{default_range_accept, BreakpointDownloadHttpConfig};

verus! {

#[verifier::external_type_specification]
#[verifier::external_body]
pub struct ExReqwestClient(reqwest::Client);

/// `Duration` is `Copy`: its clone is the same value.
pub assume_specification[ <Duration as Clone>::clone ](d: &Duration) -> (r: Duration)
    ensures
        r == *d,
;

/// `reqwest::Client::clone`: another handle to the same client (its pool is shared). The
/// type is opaque here, so nothing is stated of the value.
pub assume_specification[ <reqwest::Client as Clone>::clone ](c: &reqwest::Client) -> reqwest::Client;

/// The duration `std::time::Duration::from_secs(secs)` gives: `secs` whole seconds. It
/// depends on `secs` alone.
pub uninterp spec fn duration_from_secs(secs: u64) -> Duration;

/// `std::time::Duration::from_secs`: a duration of `secs` seconds. `Duration` is opaque
/// here, so the value is stated only through the name above; the call cannot fail.
#[verifier::external_body]
pub(crate) fn seconds(secs: u64) -> (d: Duration)
    ensures
        d == duration_from_secs(secs),
{
    Duration::from_secs(secs)
}

/// The settings of a client: concurrency limits per direction, the download HTTP settings
/// applied to tasks that bring none, an optional HTTP client to use, and the timeouts of
/// the built-in HTTP client.
#[derive(Debug, Clone)]
pub struct MeowConfig {
    max_upload_concurrency: usize,
    max_download_concurrency: usize,
    breakpoint_download_http: BreakpointDownloadHttpConfig,
    http_client: Option<reqwest::Client>,
    http_timeout: Duration,
    tcp_keepalive: Duration,
}

/// What a client's settings hold.
pub struct MeowConfigView {
    pub max_upload_concurrency: usize,
    pub max_download_concurrency: usize,
    pub range_accept: Seq<char>,
    pub http_client: Option<reqwest::Client>,
    pub http_timeout: Duration,
    pub tcp_keepalive: Duration,
}

impl View for MeowConfig {
    type V = MeowConfigView;

    closed spec fn view(&self) -> MeowConfigView {
        MeowConfigView {
            max_upload_concurrency: self.max_upload_concurrency,
            max_download_concurrency: self.max_download_concurrency,
            range_accept: self.breakpoint_download_http.range_accept@,
            http_client: self.http_client,
            http_timeout: self.http_timeout,
            tcp_keepalive: self.tcp_keepalive,
        }
    }
}

impl Default for MeowConfig {
    /// Two uploads and two downloads at a time, the default download settings, no HTTP
    /// client of the caller's, a 5 s timeout and a 30 s TCP keep-alive.
    fn default() -> (c: Self)
        ensures
            c@.max_upload_concurrency == 2,
            c@.max_download_concurrency == 2,
            c@.range_accept == default_range_accept(),
            c@.http_client is None,
            c@.http_timeout == duration_from_secs(5),
            c@.tcp_keepalive == duration_from_secs(30),
    {
        MeowConfig::new(2, 2)
    }
}

impl MeowConfig {
    /// The given concurrency limits, the default download settings, no HTTP client of the
    /// caller's, a 5 s timeout and a 30 s TCP keep-alive.
    pub fn new(max_upload_concurrency: usize, max_download_concurrency: usize) -> (c: Self)
        ensures
            c@.max_upload_concurrency == max_upload_concurrency,
            c@.max_download_concurrency == max_download_concurrency,
            c@.range_accept == default_range_accept(),
            c@.http_client is None,
            c@.http_timeout == duration_from_secs(5),
            c@.tcp_keepalive == duration_from_secs(30),
    {
        MeowConfig {
            max_upload_concurrency,
            max_download_concurrency,
            breakpoint_download_http: BreakpointDownloadHttpConfig::default(),
            http_client: None,
            http_timeout: seconds(5),
            tcp_keepalive: seconds(30),
        }
    }

    pub fn with_http_client(self, client: reqwest::Client) -> (c: Self)
        ensures
            c@ == (MeowConfigView { http_client: Some(client), ..self@ }),
    {
        MeowConfig { http_client: Some(client), ..self }
    }

    pub fn with_http_timeout(self, timeout: Duration) -> (c: Self)
        ensures
            c@ == (MeowConfigView { http_timeout: timeout, ..self@ }),
    {
        MeowConfig { http_timeout: timeout, ..self }
    }

    pub fn with_tcp_keepalive(self, keepalive: Duration) -> (c: Self)
        ensures
            c@ == (MeowConfigView { tcp_keepalive: keepalive, ..self@ }),
    {
        MeowConfig { tcp_keepalive: keepalive, ..self }
    }

    pub fn max_upload_concurrency(&self) -> (n: usize)
        ensures
            n == self@.max_upload_concurrency,
    {
        self.max_upload_concurrency
    }

    pub fn max_download_concurrency(&self) -> (n: usize)
        ensures
            n == self@.max_download_concurrency,
    {
        self.max_download_concurrency
    }

    pub fn breakpoint_download_http(&self) -> (c: &BreakpointDownloadHttpConfig)
        ensures
            c.range_accept@ == self@.range_accept,
    {
        &self.breakpoint_download_http
    }

    pub fn with_breakpoint_download_http(self, config: BreakpointDownloadHttpConfig) -> (c: Self)
        ensures
            c@ == (MeowConfigView { range_accept: config.range_accept@, ..self@ }),
    {
        MeowConfig { breakpoint_download_http: config, ..self }
    }

    pub fn http_timeout(&self) -> (d: Duration)
        ensures
            d == self@.http_timeout,
    {
        self.http_timeout
    }

    pub fn tcp_keepalive(&self) -> (d: Duration)
        ensures
            d == self@.tcp_keepalive,
    {
        self.tcp_keepalive
    }

    /// The caller's HTTP client, if one was given.
    pub fn http_client_ref(&self) -> (c: Option<&reqwest::Client>)
        ensures
            match self@.http_client {
                Some(x) => c == Some(&x),
                None => c is None,
            },
    {
        match &self.http_client {
            Some(x) => Some(x),
            None => None,
        }
    }
}

/// The settings of a transfer engine: concurrency limits per direction, the download HTTP
/// settings, and an optional HTTP client.
#[derive(Debug, Clone)]
pub struct EngineConfig {
    max_upload_concurrency: usize,
    max_download_concurrency: usize,
    breakpoint_download_http: BreakpointDownloadHttpConfig,
    http_client: Option<reqwest::Client>,
}

/// What an engine's settings hold.
pub struct EngineConfigView {
    pub max_upload_concurrency: usize,
    pub max_download_concurrency: usize,
    pub range_accept: Seq<char>,
    pub http_client: Option<reqwest::Client>,
}

impl View for EngineConfig {
    type V = EngineConfigView;

    closed spec fn view(&self) -> EngineConfigView {
        EngineConfigView {
            max_upload_concurrency: self.max_upload_concurrency,
            max_download_concurrency: self.max_download_concurrency,
            range_accept: self.breakpoint_download_http.range_accept@,
            http_client: self.http_client,
        }
    }
}

impl Default for EngineConfig {
    /// Two uploads and two downloads at a time, default download settings, no HTTP client.
    fn default() -> (c: Self)
        ensures
            c@.max_upload_concurrency == 2,
            c@.max_download_concurrency == 2,
            c@.range_accept == default_range_accept(),
            c@.http_client is None,
    {
        EngineConfig::new(2, 2)
    }
}

impl EngineConfig {
    pub fn new(max_upload_concurrency: usize, max_download_concurrency: usize) -> (c: Self)
        ensures
            c@.max_upload_concurrency == max_upload_concurrency,
            c@.max_download_concurrency == max_download_concurrency,
            c@.range_accept == default_range_accept(),
            c@.http_client is None,
    {
        EngineConfig {
            max_upload_concurrency,
            max_download_concurrency,
            breakpoint_download_http: BreakpointDownloadHttpConfig::default(),
            http_client: None,
        }
    }

    pub fn with_http_client(self, client: reqwest::Client) -> (c: Self)
        ensures
            c@ == (EngineConfigView { http_client: Some(client), ..self@ }),
    {
        EngineConfig { http_client: Some(client), ..self }
    }

    pub fn max_upload_concurrency(&self) -> (n: usize)
        ensures
            n == self@.max_upload_concurrency,
    {
        self.max_upload_concurrency
    }

    pub fn max_download_concurrency(&self) -> (n: usize)
        ensures
            n == self@.max_download_concurrency,
    {
        self.max_download_concurrency
    }

    pub fn breakpoint_download_http(&self) -> (c: &BreakpointDownloadHttpConfig)
        ensures
            c.range_accept@ == self@.range_accept,
    {
        &self.breakpoint_download_http
    }

    pub fn with_breakpoint_download_http(self, config: BreakpointDownloadHttpConfig) -> (c: Self)
        ensures
            c@ == (EngineConfigView { range_accept: config.range_accept@, ..self@ }),
    {
        EngineConfig { breakpoint_download_http: config, ..self }
    }

    /// The caller's HTTP client, if one was given.
    pub fn http_client_ref(&self) -> (c: Option<&reqwest::Client>)
        ensures
            match self@.http_client {
                Some(x) => c == Some(&x),
                None => c is None,
            },
    {
        match &self.http_client {
            Some(x) => Some(x),
            None => None,
        }
    }
}

} // verus!
