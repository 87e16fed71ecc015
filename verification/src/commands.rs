//! The application's shared state and the decisions of its commands.

use vstd::prelude::*;
use crate::api::{ApiClient, ApiError};
use crate::reminder::{lemma_reminder_interval_roundtrip, reminder_interval, spec_reminder_interval};
use crate::text::decimal;
use crate::text::trim_end_char;

verus! {

/// `tokio::task::JoinHandle`: a background task, carried through unread.
#[verifier::external_type_specification]
#[verifier::external_body]
#[verifier::reject_recursive_types(T)]
pub struct ExJoinHandle<T>(tokio::task::JoinHandle<T>);

/// `tokio::task::JoinError`: why a background task did not finish, which
/// Verus meets in the declaration of `JoinHandle`.
#[verifier::external_type_specification]
#[verifier::external_body]
pub struct ExJoinError(tokio::task::JoinError);

// ---------------------------------------------------------------------------
// Settings as stored values
// ---------------------------------------------------------------------------

/// The text of a JSON value when it is a JSON string, and nothing otherwise.
pub uninterp spec fn json_str_of(v: serde_json::Value) -> Option<Seq<char>>;

/// Makes the JSON string value of a text.
///
/// Trusted: builds `serde_json::Value::String`. Claimed: `Value::as_str` gives
/// the text back, as its source (`Value::String(s) => Some(s)`) shows.
#[verifier::external_body]
fn json_string(s: &str) -> (v: serde_json::Value)
    ensures
        json_str_of(v) == Some(s@),
{
    serde_json::Value::String(s.to_string())
}

/// Reads the text of a JSON value.
///
/// Trusted: calls `serde_json::Value::as_str`. Claimed: the result is the
/// name `json_str_of` of the value (its text when it is a JSON string).
#[verifier::external_body]
fn json_as_string(v: &serde_json::Value) -> (r: Option<String>)
    ensures
        opt_string_view(r) == json_str_of(*v),
{
    v.as_str().map(str::to_string)
}

/// The value under which a setting's text is stored: a JSON string.
pub fn setting_to_value(text: &str) -> (v: serde_json::Value)
    ensures
        json_str_of(v) == Some(text@),
{
    json_string(text)
}

/// The text of a stored setting: only a stored JSON string counts.
pub fn setting_from_value(stored: Option<serde_json::Value>) -> (r: Option<String>)
    ensures
        opt_string_view(r) == match stored {
            Some(v) => json_str_of(v),
            None => None,
        },
{
    match stored {
        Some(v) => json_as_string(&v),
        None => None,
    }
}

/// The reminder interval that is saved (as its decimal text, in a JSON
/// string) is the interval that is read back when the reminder starts.
pub proof fn lemma_saved_interval_read_back(minutes: u64, stored: serde_json::Value)
    requires
        json_str_of(stored) == Some(decimal(minutes as nat)),
    ensures
        spec_reminder_interval(json_str_of(stored)) == minutes,
{
    lemma_reminder_interval_roundtrip(minutes);
}

/// Shared application state: the server and token in use, and the background
/// tasks that are running.
pub struct AppState {
    pub base_url: String,
    pub token: String,
    pub sse_handle: Option<tokio::task::JoinHandle<()>>,
    pub reminder_handle: Option<tokio::task::JoinHandle<()>>,
}

/// The characters of an optional string.
pub open spec fn opt_string_view(o: Option<String>) -> Option<Seq<char>> {
    match o {
        Some(s) => Some(s@),
        None => None,
    }
}

impl AppState {
    /// Whether a server and a token are set.
    pub open spec fn is_configured(&self) -> bool {
        self.base_url@.len() > 0 && self.token@.len() > 0
    }

    /// A state with no server, no token and no task.
    pub fn new() -> (s: Self)
        ensures
            s.base_url@ == Seq::<char>::empty(),
            s.token@ == Seq::<char>::empty(),
            s.sse_handle is None,
            s.reminder_handle is None,
    {
        AppState {
            base_url: String::new(),
            token: String::new(),
            sse_handle: None,
            reminder_handle: None,
        }
    }

    fn configured(&self) -> (r: bool)
        ensures
            r == self.is_configured(),
    {
        !self.base_url.as_str().is_empty() && !self.token.as_str().is_empty()
    }

    /// A client for the configured server; an error when the server or the
    /// token is missing, or the text of the network error when no HTTP client
    /// can be built.
    pub fn api_client(&self) -> (r: Result<ApiClient, String>)
        ensures
            !self.is_configured() ==> (r matches Err(e) && e@
                == "Not configured. Call configure() first."@),
            self.is_configured() ==> match r {
                Ok(c) => c.spec_base_url() == trim_end_char(self.base_url@, '/') && c.spec_token()
                    == self.token@,
                Err(e) => exists|d: String| e@ == (ApiError::Network(d)).spec_message(),
            },
    {
        if !self.configured() {
            return Err(String::from_str("Not configured. Call configure() first."));
        }
        match ApiClient::new(self.base_url.as_str(), self.token.as_str()) {
            Ok(c) => Ok(c),
            Err(e) => {
                let m = e.message();
                proof {
                    if let ApiError::Network(d) = e {
                        assert(m@ == (ApiError::Network(d)).spec_message());
                    }
                }
                Err(m)
            },
        }
    }

    /// Stops the stream listener: takes its task out of the state and hands
    /// it back, to be aborted; nothing when none runs.
    pub fn stop_sse_inner(&mut self) -> (stopped: Option<tokio::task::JoinHandle<()>>)
        ensures
            stopped == old(self).sse_handle,
            final(self).sse_handle is None,
            final(self).reminder_handle == old(self).reminder_handle,
            final(self).base_url == old(self).base_url,
            final(self).token == old(self).token,
    {
        let mut handle: Option<tokio::task::JoinHandle<()>> = None;
        std::mem::swap(&mut handle, &mut self.sse_handle);
        handle
    }

    /// Stops the reminder: takes its task out of the state and hands it
    /// back, to be aborted; nothing when none runs.
    pub fn stop_reminder_inner(&mut self) -> (stopped: Option<tokio::task::JoinHandle<()>>)
        ensures
            stopped == old(self).reminder_handle,
            final(self).reminder_handle is None,
            final(self).sse_handle == old(self).sse_handle,
            final(self).base_url == old(self).base_url,
            final(self).token == old(self).token,
    {
        let mut handle: Option<tokio::task::JoinHandle<()>> = None;
        std::mem::swap(&mut handle, &mut self.reminder_handle);
        handle
    }

    /// Records the task that now listens to the stream, and hands back the
    /// one it replaces (to be aborted), so that one listener at most runs.
    pub fn install_sse_handle(&mut self, handle: tokio::task::JoinHandle<()>) -> (displaced:
        Option<tokio::task::JoinHandle<()>>)
        ensures
            displaced == old(self).sse_handle,
            final(self).sse_handle == Some(handle),
            final(self).reminder_handle == old(self).reminder_handle,
            final(self).base_url == old(self).base_url,
            final(self).token == old(self).token,
    {
        let mut slot: Option<tokio::task::JoinHandle<()>> = Some(handle);
        std::mem::swap(&mut slot, &mut self.sse_handle);
        slot
    }

    /// Records the task that now runs the reminder, and hands back the one it
    /// replaces (to be aborted), so that one reminder at most runs.
    pub fn install_reminder_handle(&mut self, handle: tokio::task::JoinHandle<()>) -> (displaced:
        Option<tokio::task::JoinHandle<()>>)
        ensures
            displaced == old(self).reminder_handle,
            final(self).reminder_handle == Some(handle),
            final(self).sse_handle == old(self).sse_handle,
            final(self).base_url == old(self).base_url,
            final(self).token == old(self).token,
    {
        let mut slot: Option<tokio::task::JoinHandle<()>> = Some(handle);
        std::mem::swap(&mut slot, &mut self.reminder_handle);
        slot
    }

    /// Adopts a server and a token that were just validated: they become the
    /// ones in use.
    pub fn adopt_configuration(&mut self, server_url: String, token: String)
        ensures
            final(self).base_url == server_url,
            final(self).token == token,
            final(self).sse_handle == old(self).sse_handle,
            final(self).reminder_handle == old(self).reminder_handle,
    {
        self.base_url = server_url;
        self.token = token;
    }

    /// Adopts saved settings: when both a server and a token were saved,
    /// they become the ones in use and are returned; otherwise nothing
    /// changes.
    pub fn apply_saved_settings(&mut self, server_url: Option<String>, token: Option<String>) -> (r:
        Option<(String, String)>)
        ensures
            (server_url is Some && token is Some) ==> {
                &&& r matches Some((u, t))
                &&& u@ == server_url->0@ && t@ == token->0@
                &&& final(self).base_url@ == u@ && final(self).token@ == t@
            },
            !(server_url is Some && token is Some) ==> r is None && final(self).base_url
                == old(self).base_url && final(self).token == old(self).token,
            final(self).sse_handle == old(self).sse_handle,
            final(self).reminder_handle == old(self).reminder_handle,
    {
        match (server_url, token) {
            (Some(url), Some(tok)) => {
                self.base_url = url.clone();
                self.token = tok.clone();
                Some((url, tok))
            },
            _ => None,
        }
    }

    /// Before the stream listener starts: stops the running one (handing its
    /// task back, to be aborted), then hands out the server and token to
    /// listen with, or an error when they are not set.
    pub fn prepare_sse(&mut self) -> (r: (
        Option<tokio::task::JoinHandle<()>>,
        Result<(String, String), String>,
    ))
        ensures
            r.0 == old(self).sse_handle,
            final(self).sse_handle is None,
            final(self).reminder_handle == old(self).reminder_handle,
            final(self).base_url == old(self).base_url,
            final(self).token == old(self).token,
            !old(self).is_configured() ==> (r.1 matches Err(e) && e@ == "Not configured"@),
            old(self).is_configured() ==> (r.1 matches Ok((u, t)) && u@ == old(self).base_url@
                && t@ == old(self).token@),
    {
        let stopped = self.stop_sse_inner();
        if !self.configured() {
            return (stopped, Err(String::from_str("Not configured")));
        }
        (stopped, Ok((self.base_url.clone(), self.token.clone())))
    }

    /// Before the reminder starts: stops the running one (handing its task
    /// back, to be aborted), then reads the interval from its saved setting
    /// (by default twenty minutes). An interval of zero leaves the reminder
    /// off; otherwise the server, token and interval to run it with are
    /// handed out, or an error when the server or token is not set.
    pub fn prepare_reminder(&mut self, stored_interval: &Option<String>) -> (r: (
        Option<tokio::task::JoinHandle<()>>,
        Result<Option<(String, String, u64)>, String>,
    ))
        ensures
            r.0 == old(self).reminder_handle,
            final(self).reminder_handle is None,
            final(self).sse_handle == old(self).sse_handle,
            final(self).base_url == old(self).base_url,
            final(self).token == old(self).token,
            ({
                let minutes: u64 = spec_reminder_interval(opt_string_view(*stored_interval));
                &&& minutes == 0 ==> r.1 == Ok::<Option<(String, String, u64)>, String>(None)
                &&& minutes != 0 && !old(self).is_configured() ==> (r.1 matches Err(e) && e@
                    == "Not configured"@)
                &&& minutes != 0 && old(self).is_configured() ==> (r.1 matches Ok(
                    Some((u, t, m)),
                ) && u@ == old(self).base_url@ && t@ == old(self).token@ && m == minutes)
            }),
    {
        let stopped = self.stop_reminder_inner();
        let minutes: u64 = reminder_interval(stored_interval);
        if minutes == 0 {
            return (stopped, Ok(None));
        }
        if !self.configured() {
            return (stopped, Err(String::from_str("Not configured")));
        }
        (stopped, Ok(Some((self.base_url.clone(), self.token.clone(), minutes))))
    }

    /// After the reminder interval changed: stops the running reminder
    /// (handing its task back, to be aborted), and hands out the server and
    /// token to restart it with, unless the new interval is zero or the
    /// server or token is not set.
    pub fn prepare_reminder_restart(&mut self, minutes: u64) -> (r: (
        Option<tokio::task::JoinHandle<()>>,
        Option<(String, String)>,
    ))
        ensures
            r.0 == old(self).reminder_handle,
            final(self).reminder_handle is None,
            final(self).sse_handle == old(self).sse_handle,
            final(self).base_url == old(self).base_url,
            final(self).token == old(self).token,
            (minutes != 0 && old(self).is_configured()) <==> r.1 is Some,
            r.1 matches Some((u, t)) ==> u@ == old(self).base_url@ && t@ == old(self).token@,
    {
        let stopped = self.stop_reminder_inner();
        if minutes == 0 || !self.configured() {
            return (stopped, None);
        }
        (stopped, Some((self.base_url.clone(), self.token.clone())))
    }
}

} // verus!
