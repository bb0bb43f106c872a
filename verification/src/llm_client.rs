//! Request and usage types of the language-model client, with the text form
//! of a usage limit.
use vstd::prelude::*;
use crate::text::{
    ascii_lower_seq, chars_ascii_lower, chars_eq, chars_from, chars_of, chars_start_with,
    decimal_text, has_prefix, is_u32_text, lemma_decimal_text_reads_back, lemma_trim_unchanged,
    parse_u32, string_of, trim, trim_chars, u32_text_value, u32_to_text, unsigned_digits,
};

verus! {

/// Response header that carries the model-request usage limit.
pub const MODEL_REQUESTS_USAGE_LIMIT_HEADER_NAME: &'static str = "x-vector-model-requests-usage-limit";

/// Response header that carries the model-request usage amount.
pub const MODEL_REQUESTS_USAGE_AMOUNT_HEADER_NAME: &'static str = "x-vector-model-requests-usage-amount";

/// Request header announcing that the client understands the Exa web-search provider.
pub const CLIENT_SUPPORTS_EXA_WEB_SEARCH_PROVIDER_HEADER_NAME: &'static str =
    "x-vector-client-supports-exa-web-search-provider";

/// How much effort a completion request may spend.
#[derive(Debug, Clone, Copy, PartialEq, Eq, Hash, Structural)]
pub enum CompletionMode {
    Normal,
    Max,
}

/// Why a completion was requested.
#[derive(Debug, Clone, Copy, PartialEq, Eq, Hash, Structural)]
pub enum CompletionIntent {
    UserPrompt,
    ToolResults,
    ThreadSummarization,
    ThreadContextSummarization,
    InlineAssist,
    TerminalInlineAssist,
    GenerateGitCommitMessage,
    CreateFile,
    EditFile,
}

/// A limit on model requests: a number of requests, or none.
#[derive(Debug, Clone, Copy, PartialEq, Eq, Hash, Structural)]
pub enum UsageLimit {
    Limited { limit: u32 },
    Unlimited,
}

/// Progress reports of a completion request.
#[derive(Debug, Clone, PartialEq, Eq, Hash)]
pub enum CompletionRequestStatus {
    Queued { position: usize },
    Started,
    Failed { code: String, message: String, request_id: String },
    UsageUpdated { amount: u32, limit: UsageLimit },
    ToolUseLimitReached,
}

/// Why a text is not a usage limit: the text that failed to read as a number.
#[derive(Debug)]
pub enum UsageLimitParseError {
    Invalid(String),
}

/// A web-search request.
#[derive(Debug, Clone, PartialEq, Eq)]
pub struct WebSearchBody {
    pub query: String,
}

/// The results of a web search.
#[derive(Debug, Clone, PartialEq, Eq)]
pub struct WebSearchResponse {
    pub results: Vec<WebSearchResult>,
}

/// One web-search hit.
#[derive(Debug, Clone, PartialEq, Eq)]
pub struct WebSearchResult {
    pub title: String,
    pub url: String,
    pub snippet: Option<String>,
}

/// The word that stands for no limit.
pub open spec fn unlimited_word() -> Seq<char> {
    seq!['u', 'n', 'l', 'i', 'm', 'i', 't', 'e', 'd']
}

/// The optional prefix in front of a numeric limit.
pub open spec fn limited_prefix() -> Seq<char> {
    seq!['l', 'i', 'm', 'i', 't', 'e', 'd', ':']
}

/// The text of a limit: its number in decimal, or the word `unlimited`.
pub open spec fn usage_limit_text(u: UsageLimit) -> Seq<char> {
    match u {
        UsageLimit::Limited { limit } => decimal_text(limit as nat),
        UsageLimit::Unlimited => unlimited_word(),
    }
}

/// The part of a trimmed text that is read as a number: what follows
/// `limited:` where the text starts with it, else the whole text.
pub open spec fn limit_number_text(t: Seq<char>) -> Seq<char> {
    if has_prefix(t, limited_prefix()) {
        t.subrange(limited_prefix().len() as int, t.len() as int)
    } else {
        t
    }
}

/// How a text reads as a limit: after trimming, `unlimited` in any ASCII case
/// is no limit; otherwise the number after an optional `limited:` is the
/// limit, and where there is no number the error holds the text after the
/// prefix.
pub open spec fn usage_limit_reading(s: Seq<char>) -> Result<UsageLimit, Seq<char>> {
    let t = trim(s);
    if ascii_lower_seq(t) == unlimited_word() {
        Ok(UsageLimit::Unlimited)
    } else {
        let d = limit_number_text(t);
        if is_u32_text(d) {
            Ok(UsageLimit::Limited { limit: u32_text_value(d) as u32 })
        } else {
            Err(d)
        }
    }
}

/// The view of a parse result: the limit, or the text carried by the error.
pub open spec fn parse_result_view(r: Result<UsageLimit, UsageLimitParseError>) -> Result<
    UsageLimit,
    Seq<char>,
> {
    match r {
        Ok(u) => Ok(u),
        Err(UsageLimitParseError::Invalid(t)) => Err(t@),
    }
}

fn unlimited_chars() -> (r: Vec<char>)
    ensures
        r@ == unlimited_word(),
{
    let r = vec!['u', 'n', 'l', 'i', 'm', 'i', 't', 'e', 'd'];
    assert(r@ =~= unlimited_word());
    r
}

impl UsageLimit {
    /// The text of the limit: the number, or `unlimited`.
    pub fn to_string(&self) -> (r: String)
        ensures
            r@ == usage_limit_text(*self),
    {
        match self {
            UsageLimit::Limited { limit } => {
                let digits = u32_to_text(*limit);
                string_of(digits.as_slice())
            },
            UsageLimit::Unlimited => {
                let word = unlimited_chars();
                string_of(word.as_slice())
            },
        }
    }

    /// Reads a limit from text, as `usage_limit_reading` describes.
    pub fn from_str(s: &str) -> (r: Result<UsageLimit, UsageLimitParseError>)
        ensures
            parse_result_view(r) == usage_limit_reading(s@),
    {
        let all = chars_of(s);
        let t = trim_chars(all.as_slice());
        let lowered = chars_ascii_lower(t.as_slice());
        let word = unlimited_chars();
        if chars_eq(lowered.as_slice(), word.as_slice()) {
            return Ok(UsageLimit::Unlimited);
        }
        let prefix = vec!['l', 'i', 'm', 'i', 't', 'e', 'd', ':'];
        assert(prefix@ =~= limited_prefix());
        let d = if chars_start_with(t.as_slice(), prefix.as_slice()) {
            chars_from(t.as_slice(), prefix.len())
        } else {
            t
        };
        assert(d@ == limit_number_text(trim(s@)));
        match parse_u32(d.as_slice()) {
            Some(limit) => Ok(UsageLimit::Limited { limit }),
            None => Err(UsageLimitParseError::Invalid(string_of(d.as_slice()))),
        }
    }
}

/// Reading the text of a limit gives the same limit back.
pub proof fn lemma_usage_limit_round_trip(u: UsageLimit)
    ensures
        usage_limit_reading(usage_limit_text(u)) == Ok::<UsageLimit, Seq<char>>(u),
{
    match u {
        UsageLimit::Limited { limit } => {
            let t = decimal_text(limit as nat);
            lemma_decimal_text_reads_back(limit as nat);
            assert('0' <= t[0] <= '9');
            assert('0' <= t.last() <= '9');
            lemma_trim_unchanged(t);
            assert(trim(t) == t);
            assert(ascii_lower_seq(t)[0] == t[0]);
            assert(ascii_lower_seq(t) != unlimited_word());
            assert(!has_prefix(t, limited_prefix())) by {
                if has_prefix(t, limited_prefix()) {
                    assert(t.subrange(0, 8)[0] == t[0]);
                }
            }
            assert(unsigned_digits(t) == t);
        },
        UsageLimit::Unlimited => {
            let t = unlimited_word();
            lemma_trim_unchanged(t);
            assert(ascii_lower_seq(t) =~= t);
        },
    }
}

} // verus!
