//! The HTTP client's decisions: how many redirects a request may follow,
//! where each redirect leads and when credentials must not follow it, which
//! proxy the client keeps, and how API keys are hidden in error URLs.
use vstd::prelude::*;
use crate::auto_update::{join_url, parse_url, url_joined, url_parsed};
use crate::text::{has_prefix, opt_view, owned};

verus! {

/// How a request treats redirects.
#[derive(Debug, Clone, Copy, PartialEq, Eq, Structural)]
pub enum RedirectPolicy {
    NoFollow,
    FollowLimit(u32),
    FollowAll,
}

/// How many redirects a request may follow: none, its limit, or a hundred.
pub open spec fn redirect_budget_of(policy: RedirectPolicy) -> nat {
    match policy {
        RedirectPolicy::NoFollow => 0,
        RedirectPolicy::FollowLimit(n) => n as nat,
        RedirectPolicy::FollowAll => 100,
    }
}

/// How many redirects a request may follow, as `redirect_budget_of` gives it.
pub fn redirect_budget(policy: RedirectPolicy) -> (r: usize)
    ensures
        r == redirect_budget_of(policy),
{
    match policy {
        RedirectPolicy::NoFollow => 0,
        RedirectPolicy::FollowLimit(n) => n as usize,
        RedirectPolicy::FollowAll => 100,
    }
}

/// `url::Url::scheme` of the URL that `Url::parse` reads from the text,
/// where it reads one.
pub uninterp spec fn url_scheme_of(url: Seq<char>) -> Option<Seq<char>>;

/// `url::Url::host_str` of the URL that `Url::parse` reads from the text:
/// `None` where it reads none, else the host, where the URL has one.
pub uninterp spec fn url_host_of(url: Seq<char>) -> Option<Option<Seq<char>>>;

/// `url::Url::port_or_known_default` of the URL that `Url::parse` reads
/// from the text: `None` where it reads none, else the port, where known.
pub uninterp spec fn url_port_of(url: Seq<char>) -> Option<Option<u16>>;

/// `url::Url::scheme`, of the URL parsed from the text.
#[verifier::external_body]
fn url_scheme(url: &str) -> (r: Option<String>)
    ensures
        opt_view(r) == url_scheme_of(url@),
{
    match url::Url::parse(url) {
        Ok(u) => Some(u.scheme().to_string()),
        Err(_) => None,
    }
}

/// `url::Url::host_str`, of the URL parsed from the text.
#[verifier::external_body]
fn url_host(url: &str) -> (r: Option<Option<String>>)
    ensures
        match r {
            Some(h) => url_host_of(url@) == Some(opt_view(h)),
            None => url_host_of(url@) is None,
        },
{
    match url::Url::parse(url) {
        Ok(u) => Some(u.host_str().map(|h| h.to_string())),
        Err(_) => None,
    }
}

/// `url::Url::port_or_known_default`, of the URL parsed from the text.
#[verifier::external_body]
fn url_port(url: &str) -> (r: Option<Option<u16>>)
    ensures
        r == url_port_of(url@),
{
    match url::Url::parse(url) {
        Ok(u) => Some(u.port_or_known_default()),
        Err(_) => None,
    }
}

/// Whether two optional hosts are the same.
fn same_host(a: &Option<Option<String>>, b: &Option<Option<String>>) -> (r: bool)
    ensures
        r == (match a {
            Some(h) => Some(opt_view(*h)),
            None => None,
        } == match b {
            Some(h) => Some(opt_view(*h)),
            None => None,
        }),
{
    match (a, b) {
        (Some(x), Some(y)) => crate::text::opt_strings_equal(x, y),
        (None, None) => true,
        _ => false,
    }
}

/// Why a request failed on the way.
#[derive(Debug, Clone, Copy, PartialEq, Eq, Structural)]
pub enum SendError {
    /// The request's URI is no absolute URL.
    InvalidUrl,
    /// A body read from a stream cannot be sent again after a redirect.
    RedirectWithStreamingBody,
    /// A redirect without a usable `Location` header.
    MissingLocation,
    /// A `Location` that is no URL, absolute or relative.
    InvalidLocation,
}

/// What to do with a response.
#[derive(Debug)]
pub enum RedirectStep {
    /// This is the response.
    Done,
    /// Send the request again to this URL; without its `Authorization` and
    /// `Cookie` headers once the origin has changed on this hop or an
    /// earlier one.
    Follow { url: String, strip_credentials: bool },
}

/// Whether two URLs differ in scheme, host or port.
pub open spec fn origin_changed(a: Seq<char>, b: Seq<char>) -> bool {
    url_scheme_of(a) != url_scheme_of(b) || url_host_of(a) != url_host_of(b) || url_port_of(a) != url_port_of(b)
}

/// Where a redirect leads: the `Location` as an absolute URL, else
/// relative to the current URL.
pub open spec fn redirect_target(current: Seq<char>, location: Seq<char>) -> Option<Seq<char>> {
    match url_parsed(location) {
        Some(u) => Some(u),
        None => url_joined(current, location),
    }
}

/// A request following its redirects: the redirects it may still follow,
/// the URL it is at, and whether its credentials were dropped on the way
/// (once dropped, they are not sent again).
#[derive(Debug)]
pub struct RedirectFollower {
    pub redirects_remaining: usize,
    pub current_url: String,
    pub credentials_dropped: bool,
}

impl RedirectFollower {
    /// Starts a request to `uri` with the policy's budget. A URI that is no
    /// URL fails, and so does a streamed body where redirects may be followed.
    pub fn start(policy: RedirectPolicy, uri: &str, streaming_body: bool) -> (r: Result<RedirectFollower, SendError>)
        ensures
            match url_parsed(uri@) {
                None => r == Err::<RedirectFollower, SendError>(SendError::InvalidUrl),
                Some(u) => if streaming_body && redirect_budget_of(policy) > 0 {
                    r == Err::<RedirectFollower, SendError>(SendError::RedirectWithStreamingBody)
                } else {
                    r matches Ok(f) && f.current_url@ == u && f.redirects_remaining == redirect_budget_of(policy)
                        && !f.credentials_dropped
                },
            },
    {
        let remaining = redirect_budget(policy);
        let url = match parse_url(uri) {
            Some(u) => u,
            None => return Err(SendError::InvalidUrl),
        };
        if streaming_body && remaining > 0 {
            return Err(SendError::RedirectWithStreamingBody);
        }
        Ok(RedirectFollower { redirects_remaining: remaining, current_url: url, credentials_dropped: false })
    }

    /// Takes in a response. With no redirects left, or a response that is
    /// no redirect, it is the answer. Otherwise the request follows the
    /// `Location`, dropping its credentials where the origin changes (and
    /// for every later hop), and one redirect fewer remains.
    pub fn on_response(&mut self, is_redirection: bool, location: Option<&str>) -> (r: Result<RedirectStep, SendError>)
        ensures
            old(self).credentials_dropped ==> final(self).credentials_dropped,
            if old(self).redirects_remaining == 0 || !is_redirection {
                r matches Ok(RedirectStep::Done) && final(self).current_url@ == old(self).current_url@
                    && final(self).redirects_remaining == old(self).redirects_remaining
                    && final(self).credentials_dropped == old(self).credentials_dropped
            } else {
                match location {
                    None => r == Err::<RedirectStep, SendError>(SendError::MissingLocation)
                        && final(self).credentials_dropped == old(self).credentials_dropped,
                    Some(l) => match redirect_target(old(self).current_url@, l@) {
                        None => r == Err::<RedirectStep, SendError>(SendError::InvalidLocation)
                            && final(self).credentials_dropped == old(self).credentials_dropped,
                        Some(next) => {
                            &&& final(self).credentials_dropped == (old(self).credentials_dropped
                                || origin_changed(old(self).current_url@, next))
                            &&& r matches Ok(RedirectStep::Follow { url, strip_credentials }) && url@ == next
                                && strip_credentials == final(self).credentials_dropped
                            &&& final(self).current_url@ == next
                            &&& final(self).redirects_remaining == old(self).redirects_remaining - 1
                        },
                    },
                }
            },
    {
        if self.redirects_remaining == 0 || !is_redirection {
            return Ok(RedirectStep::Done);
        }
        let location = match location {
            Some(l) => l,
            None => return Err(SendError::MissingLocation),
        };
        let next = match parse_url(location) {
            Some(u) => u,
            None => match join_url(self.current_url.as_str(), location) {
                Some(u) => u,
                None => return Err(SendError::InvalidLocation),
            },
        };
        let scheme_changed = !crate::text::opt_strings_equal(&url_scheme(self.current_url.as_str()), &url_scheme(next.as_str()));
        let host_changed = !same_host(&url_host(self.current_url.as_str()), &url_host(next.as_str()));
        let port_changed = url_port(self.current_url.as_str()) != url_port(next.as_str());
        let strip = self.credentials_dropped || scheme_changed || host_changed || port_changed;
        self.credentials_dropped = strip;
        self.current_url = next.clone();
        self.redirects_remaining = self.redirects_remaining - 1;
        Ok(RedirectStep::Follow { url: next, strip_credentials: strip })
    }
}

/// The length of the leading run of characters other than `&`.
pub open spec fn value_len(s: Seq<char>) -> nat
    decreases s.len(),
{
    if s.len() == 0 || s[0] == '&' {
        0
    } else {
        1 + value_len(s.drop_first())
    }
}

/// A run of characters other than `&` is no longer than the text.
pub proof fn lemma_value_len_bound(s: Seq<char>)
    ensures
        value_len(s) <= s.len(),
    decreases s.len(),
{
    if s.len() > 0 && s[0] != '&' {
        lemma_value_len_bound(s.drop_first());
    }
}

/// Whether a match of `key=[^&]+` starts at `i`: `key=` followed by at
/// least one character other than `&`.
pub open spec fn key_match_at(s: Seq<char>, i: int) -> bool {
    &&& 0 <= i
    &&& i + 5 <= s.len()
    &&& s.subrange(i, i + 4) == "key="@
    &&& s[i + 4] != '&'
}

/// The text with each match of `key=[^&]+`, found from the left without
/// overlapping, replaced by `key=REDACTED`.
pub open spec fn redact_keys(s: Seq<char>) -> Seq<char>
    decreases s.len(),
{
    if s.len() == 0 {
        s
    } else if key_match_at(s, 0) {
        let end = 4 + value_len(s.subrange(4, s.len() as int));
        proof {
            lemma_value_len_bound(s.subrange(4, s.len() as int));
        }
        "key=REDACTED"@ + redact_keys(s.subrange(end as int, s.len() as int))
    } else {
        seq![s[0]] + redact_keys(s.drop_first())
    }
}

/// The pattern that finds API keys in a URL query.
pub const REDACT_PATTERN: &'static str = "key=[^&]+";

/// What stands for a hidden API key.
pub const REDACTED_KEY: &'static str = "key=REDACTED";

/// `regex::Regex::replace_all` with the pattern `key=[^&]+` and the
/// replacement `key=REDACTED`: `None` where nothing matches (the regex
/// crate then hands back the text borrowed), else the text with every match,
/// leftmost first and without overlap, replaced.
#[verifier::external_body]
fn replace_keys(pattern: &str, replacement: &str, text: &str) -> (r: Option<String>)
    requires
        pattern@ == REDACT_PATTERN@,
        replacement@ == REDACTED_KEY@,
    ensures
        r is None <==> !(exists|i: int| key_match_at(text@, i)),
        r matches Some(t) ==> t@ == redact_keys(text@),
{
    match regex::Regex::new(pattern) {
        Ok(re) => match re.replace_all(text, replacement) {
            std::borrow::Cow::Owned(t) => Some(t),
            std::borrow::Cow::Borrowed(_) => None,
        },
        Err(_) => None,
    }
}

/// The query of a failed request's URL with its API keys hidden, where it
/// holds any; `None` where the query stays as it is.
pub fn redacted_query(query: &str) -> (r: Option<String>)
    ensures
        r is None <==> !(exists|i: int| key_match_at(query@, i)),
        r matches Some(t) ==> t@ == redact_keys(query@),
{
    replace_keys(REDACT_PATTERN, REDACTED_KEY, query)
}

/// The proxy a client reports: the configured one where the HTTP library
/// accepted it, else none.
pub fn effective_proxy(proxy: Option<String>, proxy_accepted: bool) -> (r: Option<String>)
    ensures
        opt_view(r) == if proxy_accepted {
            opt_view(proxy)
        } else {
            None
        },
{
    if proxy_accepted {
        proxy
    } else {
        None
    }
}

} // verus!
