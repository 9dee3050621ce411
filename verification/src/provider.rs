//! Provider-facing types and the classification of provider HTTP outcomes
//! into the error taxonomy the reply loop acts on. The transport itself
//! lives outside the library; classification is a pure function of the
//! status code and the error message extracted from the response body.

use vstd::prelude::*;

verus! {

/// How a provider call failed.
#[derive(PartialEq, Debug)]
pub enum ProviderError {
    Authentication(String),
    RequestFailed(String),
    ServerError(String),
    RateLimitExceeded(String),
    ContextLengthExceeded(String),
    ExecutionError(String),
}

impl ProviderError {
    /// The human-readable detail carried by the error.
    pub open spec fn detail(self) -> Seq<char> {
        match self {
            ProviderError::Authentication(s) => s@,
            ProviderError::RequestFailed(s) => s@,
            ProviderError::ServerError(s) => s@,
            ProviderError::RateLimitExceeded(s) => s@,
            ProviderError::ContextLengthExceeded(s) => s@,
            ProviderError::ExecutionError(s) => s@,
        }
    }
}

/// ASCII case folding of one character.
pub open spec fn fold_char(c: char) -> char {
    if 'A' <= c && c <= 'Z' {
        ((c as int) + 32) as char
    } else {
        c
    }
}

/// ASCII case folding of a character sequence.
pub open spec fn fold_chars(s: Seq<char>) -> Seq<char> {
    s.map_values(|c: char| fold_char(c))
}

/// `needle` occurs as a contiguous run inside `hay`.
pub open spec fn contains_seq(hay: Seq<char>, needle: Seq<char>) -> bool {
    exists|o: int|
        0 <= o <= hay.len() - needle.len() && #[trigger] hay.subrange(o, o + needle.len() as int)
            == needle
}

/// The message mentions "too long", compared without regard to ASCII case:
/// the signal the providers use for a context-window overflow in a 400
/// response.
pub open spec fn mentions_too_long(s: Seq<char>) -> bool {
    contains_seq(fold_chars(s), "too long"@)
}

/// Whether `c` reads as `lower` once ASCII case is folded. `lower` must not
/// itself be an ASCII capital, and `upper` must be its capital form (or
/// `lower` again where it has none).
fn char_matches_folded(c: char, lower: char, upper: char) -> (r: bool)
    requires
        !('A' <= lower && lower <= 'Z'),
        upper != lower ==> ('A' <= upper && upper <= 'Z' && (upper as int) + 32 == lower as int),
        upper == lower ==> !(97 <= lower as int <= 122),
    ensures
        r == (fold_char(c) == lower),
{
    let r = c == lower || c == upper;
    proof {
        if 'A' <= c && c <= 'Z' {
            assert(97 <= (c as int) + 32 <= 122);
            assert(fold_char(c) as int == (c as int) + 32);
        } else {
            assert(fold_char(c) == c);
        }
    }
    r
}

/// Whether the message mentions "too long", in any ASCII casing.
#[verifier::loop_isolation(false)]
pub fn message_mentions_too_long(s: &str) -> (r: bool)
    ensures
        r == mentions_too_long(s@),
{
    proof {
        reveal_strlit("too long");
        reveal_strlit("TOO LONG");
    }
    let lower = "too long";
    let upper = "TOO LONG";
    let ghost hay = fold_chars(s@);
    let ghost needle = "too long"@;
    proof {
        assert(hay.len() == s@.len());
        assert(needle.len() == 8);
    }
    let n = s.unicode_len();
    if n < 8 {
        return false;
    }
    let mut o: usize = 0;
    while o <= n - 8
        invariant
            0 <= o <= n - 8 + 1,
            forall|p: int| 0 <= p < o ==> #[trigger] hay.subrange(p, p + 8) != needle,
        decreases n - o,
    {
        let mut k: usize = 0;
        let mut matched = true;
        while k < 8 && matched
            invariant
                0 <= k <= 8,
                o + 8 <= n,
                matched ==> forall|p: int| 0 <= p < k ==> #[trigger] hay[o + p] == needle[p],
                !matched ==> exists|p: int| 0 <= p < k && #[trigger] hay[o + p] != needle[p],
            decreases 8 - k,
        {
            let c = s.get_char(o + k);
            let nl = lower.get_char(k);
            let nu = upper.get_char(k);
            proof {
                assert(forall|p: int|
                    0 <= p < 8 ==> fold_char(#[trigger] "TOO LONG"@[p]) == "too long"@[p]);
                assert(!('A' <= "too long"@[k as int] && "too long"@[k as int] <= 'Z'));
                assert(hay[o + k] == fold_char(s@[o + k]));
            }
            let ok_here = char_matches_folded(c, nl, nu);
            if !ok_here {
                matched = false;
                proof {
                    assert(hay[o + k] != needle[k as int]);
                }
            }
            k = k + 1;
        }
        if matched {
            proof {
                assert forall|p: int| 0 <= p < 8 implies hay.subrange(o as int, o + 8)[p]
                    == needle[p] by {
                    assert(hay[o + p] == needle[p]);
                }
                assert(hay.subrange(o as int, o + 8) =~= needle);
            }
            return true;
        }
        proof {
            let p = choose|p: int| 0 <= p < 8 && hay[o + p] != needle[p];
            assert(hay.subrange(o as int, o + 8)[p] == hay[o + p]);
            assert(hay.subrange(o as int, o + 8) != needle);
        }
        o = o + 1;
    }
    proof {
        if mentions_too_long(s@) {
            let w = choose|w: int|
                0 <= w <= hay.len() - 8 && #[trigger] hay.subrange(w, w + 8) == needle;
            assert(hay.subrange(w, w + 8) != needle);
        }
    }
    false
}

/// The detail text of an optional extracted error message.
pub open spec fn spec_detail(msg: Option<String>) -> Seq<char> {
    match msg {
        Some(s) => s@,
        None => Seq::empty(),
    }
}

fn detail_of(error_message: &Option<String>) -> (d: String)
    ensures
        d@ == spec_detail(*error_message),
{
    match error_message {
        Some(s) => s.clone(),
        None => String::new(),
    }
}

/// Classifies an HTTP outcome of the Anthropic message endpoint: success on
/// 200; authentication failure on 401 and 403; a 400 whose error message
/// mentions "too long" is a context-window overflow, any other 400 a failed
/// request; 500 and 503 are server errors; everything else a failed request.
pub fn classify_anthropic_response(status: u16, error_message: &Option<String>) -> (r: Result<
    (),
    ProviderError,
>)
    ensures
        r is Ok <==> status == 200,
        r matches Err(e) ==> e.detail() == spec_detail(*error_message),
        (status == 401 || status == 403) ==> (r matches Err(e) && e is Authentication),
        (status == 400 && mentions_too_long(spec_detail(*error_message))) ==> (r matches Err(e)
            && e is ContextLengthExceeded),
        (status == 400 && !mentions_too_long(spec_detail(*error_message))) ==> (r matches Err(e)
            && e is RequestFailed),
        (status == 500 || status == 503) ==> (r matches Err(e) && e is ServerError),
        (status != 200 && status != 400 && status != 401 && status != 403 && status != 500
            && status != 503) ==> (r matches Err(e) && e is RequestFailed),
{
    let detail = detail_of(error_message);
    if status == 200 {
        Ok(())
    } else if status == 401 || status == 403 {
        Err(ProviderError::Authentication(detail))
    } else if status == 400 {
        if message_mentions_too_long(detail.as_str()) {
            Err(ProviderError::ContextLengthExceeded(detail))
        } else {
            Err(ProviderError::RequestFailed(detail))
        }
    } else if status == 500 || status == 503 {
        Err(ProviderError::ServerError(detail))
    } else {
        Err(ProviderError::RequestFailed(detail))
    }
}

/// Classifies an HTTP outcome of the OpenAI chat-completions endpoint: the
/// same rules as the Anthropic endpoint.
pub fn classify_openai_response(status: u16, error_message: &Option<String>) -> (r: Result<
    (),
    ProviderError,
>)
    ensures
        r is Ok <==> status == 200,
        r matches Err(e) ==> e.detail() == spec_detail(*error_message),
        (status == 401 || status == 403) ==> (r matches Err(e) && e is Authentication),
        (status == 400 && mentions_too_long(spec_detail(*error_message))) ==> (r matches Err(e)
            && e is ContextLengthExceeded),
        (status == 400 && !mentions_too_long(spec_detail(*error_message))) ==> (r matches Err(e)
            && e is RequestFailed),
        (status == 500 || status == 503) ==> (r matches Err(e) && e is ServerError),
        (status != 200 && status != 400 && status != 401 && status != 403 && status != 500
            && status != 503) ==> (r matches Err(e) && e is RequestFailed),
{
    classify_anthropic_response(status, error_message)
}

/// Classifies an HTTP outcome of the Google generate-content endpoint: as
/// the Anthropic endpoint, except that a 500 is treated as a context-window
/// overflow and a 429 as rate limiting.
pub fn classify_google_response(status: u16, error_message: &Option<String>) -> (r: Result<
    (),
    ProviderError,
>)
    ensures
        r is Ok <==> status == 200,
        r matches Err(e) ==> e.detail() == spec_detail(*error_message),
        (status == 401 || status == 403) ==> (r matches Err(e) && e is Authentication),
        (status == 400 && mentions_too_long(spec_detail(*error_message))) ==> (r matches Err(e)
            && e is ContextLengthExceeded),
        (status == 400 && !mentions_too_long(spec_detail(*error_message))) ==> (r matches Err(e)
            && e is RequestFailed),
        status == 500 ==> (r matches Err(e) && e is ContextLengthExceeded),
        status == 429 ==> (r matches Err(e) && e is RateLimitExceeded),
        status == 503 ==> (r matches Err(e) && e is ServerError),
        (status != 200 && status != 400 && status != 401 && status != 403 && status != 429
            && status != 500 && status != 503) ==> (r matches Err(e) && e is RequestFailed),
{
    let detail = detail_of(error_message);
    if status == 200 {
        Ok(())
    } else if status == 401 || status == 403 {
        Err(ProviderError::Authentication(detail))
    } else if status == 400 {
        if message_mentions_too_long(detail.as_str()) {
            Err(ProviderError::ContextLengthExceeded(detail))
        } else {
            Err(ProviderError::RequestFailed(detail))
        }
    } else if status == 500 {
        Err(ProviderError::ContextLengthExceeded(detail))
    } else if status == 429 {
        Err(ProviderError::RateLimitExceeded(detail))
    } else if status == 503 {
        Err(ProviderError::ServerError(detail))
    } else {
        Err(ProviderError::RequestFailed(detail))
    }
}

/// Classifies an HTTP outcome of the Groq chat-completions endpoint: a 413
/// payload-too-large is a context-window overflow; 401 and 403 are
/// authentication failures; 500 and 503 server errors; everything else a
/// failed request.
pub fn classify_groq_response(status: u16, error_message: &Option<String>) -> (r: Result<
    (),
    ProviderError,
>)
    ensures
        r is Ok <==> status == 200,
        r matches Err(e) ==> e.detail() == spec_detail(*error_message),
        (status == 401 || status == 403) ==> (r matches Err(e) && e is Authentication),
        status == 413 ==> (r matches Err(e) && e is ContextLengthExceeded),
        (status == 500 || status == 503) ==> (r matches Err(e) && e is ServerError),
        (status != 200 && status != 401 && status != 403 && status != 413 && status != 500
            && status != 503) ==> (r matches Err(e) && e is RequestFailed),
{
    let detail = detail_of(error_message);
    if status == 200 {
        Ok(())
    } else if status == 401 || status == 403 {
        Err(ProviderError::Authentication(detail))
    } else if status == 413 {
        Err(ProviderError::ContextLengthExceeded(detail))
    } else if status == 500 || status == 503 {
        Err(ProviderError::ServerError(detail))
    } else {
        Err(ProviderError::RequestFailed(detail))
    }
}

/// What a provider reports about the model in use: at least a name, the
/// tokenizer to count with, and the context window size.
#[derive(PartialEq, Debug)]
pub struct ModelConfig {
    pub model_name: String,
    pub tokenizer_name: String,
    pub context_limit: usize,
}

impl ModelConfig {
    /// A configuration for the named model with the default context window.
    pub fn new(model_name: String) -> (c: ModelConfig)
        ensures
            c.model_name == model_name,
            c.tokenizer_name@ == Seq::<char>::empty(),
            c.context_limit == 128000usize,
    {
        ModelConfig { model_name, tokenizer_name: String::new(), context_limit: 128000 }
    }

    /// Replace the context window size, when one is given.
    pub fn with_context_limit(self, limit: Option<usize>) -> (c: ModelConfig)
        ensures
            c.model_name == self.model_name,
            c.tokenizer_name == self.tokenizer_name,
            c.context_limit == (match limit {
                Some(l) => l,
                None => self.context_limit,
            }),
    {
        match limit {
            Some(l) => ModelConfig { context_limit: l, ..self },
            None => self,
        }
    }

    /// The budget the truncator aims for: seven tenths of the context
    /// window, leaving headroom for the reply and tokenization slack.
    pub fn get_estimated_limit(&self) -> (r: usize)
        ensures
            r == (self.context_limit / 10) * 7,
    {
        (self.context_limit / 10) * 7
    }
}

/// One configuration key a provider reads, and how it is handled.
#[derive(PartialEq, Debug)]
pub struct ConfigKey {
    pub name: String,
    pub required: bool,
    pub secret: bool,
    pub default: Option<String>,
}

impl ConfigKey {
    pub fn new(name: &str, required: bool, secret: bool, default: Option<&str>) -> (k: ConfigKey)
        ensures
            k.name@ == name@,
            k.required == required,
            k.secret == secret,
            match default {
                Some(d) => k.default matches Some(kd) && kd@ == d@,
                None => k.default is None,
            },
    {
        ConfigKey {
            name: name.to_owned(),
            required,
            secret,
            default: match default {
                Some(d) => Some(d.to_owned()),
                None => None,
            },
        }
    }
}

/// A provider's description of itself: its registry name, display name,
/// default model and the configuration keys it reads.
#[derive(PartialEq, Debug)]
pub struct ProviderMetadata {
    pub name: String,
    pub display_name: String,
    pub description: String,
    pub default_model: String,
    pub config_keys: Vec<ConfigKey>,
}

/// The Google provider's metadata.
pub fn google_metadata() -> (m: ProviderMetadata)
    ensures
        m.name@ == "google"@,
        m.display_name@ == "Google Gemini"@,
        m.description@ == "Gemini models from Google AI"@,
        m.default_model@ == "gemini-2.0-flash-exp"@,
        m.config_keys@.len() == 2,
        m.config_keys@[0].name@ == "GOOGLE_API_KEY"@,
        m.config_keys@[0].required,
        m.config_keys@[0].secret,
        m.config_keys@[0].default is None,
        m.config_keys@[1].name@ == "GOOGLE_HOST"@,
        !m.config_keys@[1].required,
        !m.config_keys@[1].secret,
        m.config_keys@[1].default matches Some(d) && d@
            == "https://generativelanguage.googleapis.com"@,
{
    let mut keys: Vec<ConfigKey> = Vec::new();
    keys.push(ConfigKey::new("GOOGLE_API_KEY", true, true, None));
    keys.push(
        ConfigKey::new("GOOGLE_HOST", false, false, Some("https://generativelanguage.googleapis.com")),
    );
    ProviderMetadata {
        name: "google".to_owned(),
        display_name: "Google Gemini".to_owned(),
        description: "Gemini models from Google AI".to_owned(),
        default_model: "gemini-2.0-flash-exp".to_owned(),
        config_keys: keys,
    }
}

/// The Groq provider's metadata.
pub fn groq_metadata() -> (m: ProviderMetadata)
    ensures
        m.name@ == "groq"@,
        m.display_name@ == "Groq"@,
        m.description@ == "Fast inference with Groq hardware"@,
        m.default_model@ == "llama-3.3-70b-versatile"@,
        m.config_keys@.len() == 2,
        m.config_keys@[0].name@ == "GROQ_API_KEY"@,
        m.config_keys@[0].required,
        m.config_keys@[0].secret,
        m.config_keys@[0].default is None,
        m.config_keys@[1].name@ == "GROQ_HOST"@,
        !m.config_keys@[1].required,
        !m.config_keys@[1].secret,
        m.config_keys@[1].default matches Some(d) && d@ == "https://api.groq.com"@,
{
    let mut keys: Vec<ConfigKey> = Vec::new();
    keys.push(ConfigKey::new("GROQ_API_KEY", true, true, None));
    keys.push(ConfigKey::new("GROQ_HOST", false, false, Some("https://api.groq.com")));
    ProviderMetadata {
        name: "groq".to_owned(),
        display_name: "Groq".to_owned(),
        description: "Fast inference with Groq hardware".to_owned(),
        default_model: "llama-3.3-70b-versatile".to_owned(),
        config_keys: keys,
    }
}

} // verus!
