//! Asking a language model.
//!
//! The request goes over the network elsewhere. Here it is put together: which provider, with
//! which key, at which address, with which body; and its answer is found in the reply.

use crate::json;
use crate::json::{Json, Step};
use crate::text;
use vstd::prelude::*;
use vstd::string::*;

verus! {

/// Why there is no answer.
#[derive(Debug, PartialEq, Eq)]
pub enum LlmError {
    /// The request did not go through, or its reply could not be decoded.
    Http(String),
    /// The provider answered with another status than 200.
    ApiError { status: u16, body: String },
    /// None of the variables holds a key.
    MissingApiKey { env_var: String },
    /// There is no answer where it should be in the reply.
    UnexpectedFormat,
    /// There is no such provider.
    UnsupportedProvider(String),
}

/// What an [`LlmError`] stands for.
pub enum ErrorModel {
    Http(Seq<char>),
    ApiError { status: u16, body: Seq<char> },
    MissingApiKey { env_var: Seq<char> },
    UnexpectedFormat,
    UnsupportedProvider(Seq<char>),
}

impl View for LlmError {
    type V = ErrorModel;

    open spec fn view(&self) -> ErrorModel {
        match *self {
            LlmError::Http(e) => ErrorModel::Http(e@),
            LlmError::ApiError { status, body } => ErrorModel::ApiError { status, body: body@ },
            LlmError::MissingApiKey { env_var } => ErrorModel::MissingApiKey { env_var: env_var@ },
            LlmError::UnexpectedFormat => ErrorModel::UnexpectedFormat,
            LlmError::UnsupportedProvider(name) => ErrorModel::UnsupportedProvider(name@),
        }
    }
}

/// What is said about an error.
pub open spec fn error_text(error: ErrorModel) -> Seq<char> {
    match error {
        ErrorModel::Http(e) => "HTTP request failed: "@ + e,
        ErrorModel::ApiError { status, body } => {
            "API error ("@ + text::decimal(status as nat) + "): "@ + body
        },
        ErrorModel::MissingApiKey { env_var } => {
            "Missing API key: set "@ + env_var + " environment variable"@
        },
        ErrorModel::UnexpectedFormat => "Unexpected response format"@,
        ErrorModel::UnsupportedProvider(name) => "Unsupported provider: "@ + name,
    }
}

impl LlmError {
    /// What is said about the error.
    pub fn message(&self) -> (r: String)
        ensures
            r@ == error_text(self@),
    {
        match self {
            LlmError::Http(e) => {
                let mut m = "HTTP request failed: ".to_owned();
                m.append(e.as_str());
                m
            },
            LlmError::ApiError { status, body } => {
                let mut m = "API error (".to_owned();
                m.append(text::decimal_text(*status as u64).as_str());
                m.append("): ");
                m.append(body.as_str());
                m
            },
            LlmError::MissingApiKey { env_var } => {
                let mut m = "Missing API key: set ".to_owned();
                m.append(env_var.as_str());
                m.append(" environment variable");
                m
            },
            LlmError::UnexpectedFormat => "Unexpected response format".to_owned(),
            LlmError::UnsupportedProvider(name) => {
                let mut m = "Unsupported provider: ".to_owned();
                m.append(name.as_str());
                m
            },
        }
    }
}

/// What to ask, and whom.
#[derive(Debug)]
pub struct LlmRequest {
    pub system_prompt: String,
    pub user_message: String,
    pub provider: String,
    pub model: String,
}

/// What an [`LlmRequest`] stands for.
pub struct RequestModel {
    pub system_prompt: Seq<char>,
    pub user_message: Seq<char>,
    pub provider: Seq<char>,
    pub model: Seq<char>,
}

impl View for LlmRequest {
    type V = RequestModel;

    open spec fn view(&self) -> RequestModel {
        RequestModel {
            system_prompt: self.system_prompt@,
            user_message: self.user_message@,
            provider: self.provider@,
            model: self.model@,
        }
    }
}

// ---------------------------------------------------------------------------
// Keys
// ---------------------------------------------------------------------------

/// The value of a variable, the first one where it stands more than once.
pub open spec fn value_of(env: Seq<(Seq<char>, Seq<char>)>, name: Seq<char>) -> Option<Seq<char>>
    decreases env.len(),
{
    if env.len() == 0 {
        None
    } else if env[0].0 == name {
        Some(env[0].1)
    } else {
        value_of(env.skip(1), name)
    }
}

/// The first of the values of `vars` that is more than white space.
pub open spec fn first_key(vars: Seq<Seq<char>>, env: Seq<(Seq<char>, Seq<char>)>) -> Option<
    Seq<char>,
>
    decreases vars.len(),
{
    if vars.len() == 0 {
        None
    } else {
        match value_of(env, vars[0]) {
            Some(value) if text::trimmed(value).len() > 0 => Some(value),
            _ => first_key(vars.skip(1), env),
        }
    }
}

/// The variables for the key of Anthropic, in order. The one of the deck comes first, so that
/// a key can be given to the deck alone.
pub open spec fn anthropic_vars() -> Seq<Seq<char>> {
    seq!["DOT_AGENT_DECK_ANTHROPIC_API_KEY"@, "ANTHROPIC_API_KEY"@]
}

/// The variables for the key of OpenAI, in order.
pub open spec fn openai_vars() -> Seq<Seq<char>> {
    seq!["DOT_AGENT_DECK_OPENAI_API_KEY"@, "OPENAI_API_KEY"@]
}

/// The variables for the key of Anthropic.
pub fn anthropic_key_vars() -> (r: [&'static str; 2])
    ensures
        r@.map_values(|t: &str| t@) == anthropic_vars(),
{
    let r: [&'static str; 2] = ["DOT_AGENT_DECK_ANTHROPIC_API_KEY", "ANTHROPIC_API_KEY"];
    proof {
        assert(r@.map_values(|t: &str| t@) =~= anthropic_vars());
    }
    r
}

/// The variables for the key of OpenAI.
pub fn openai_key_vars() -> (r: [&'static str; 2])
    ensures
        r@.map_values(|t: &str| t@) == openai_vars(),
{
    let r: [&'static str; 2] = ["DOT_AGENT_DECK_OPENAI_API_KEY", "OPENAI_API_KEY"];
    proof {
        assert(r@.map_values(|t: &str| t@) =~= openai_vars());
    }
    r
}

fn lookup<'a>(env: &'a [(String, String)], name: &str) -> (r: Option<&'a str>)
    ensures
        match r {
            Some(value) => value_of(text::pairs(env@), name@) == Some(value@),
            None => value_of(text::pairs(env@), name@) is None,
        },
{
    let ghost all = text::pairs(env@);
    let mut i: usize = 0;
    proof {
        assert(all.skip(0) =~= all);
    }
    while i < env.len()
        invariant
            i <= env@.len(),
            all == text::pairs(env@),
            value_of(all, name@) == value_of(all.skip(i as int), name@),
        decreases env@.len() - i,
    {
        proof {
            assert(all.skip(i as int)[0] == (env@[i as int].0@, env@[i as int].1@));
            assert(all.skip(i as int).skip(1) =~= all.skip(i + 1));
        }
        if text::same_text(env[i].0.as_str(), name) {
            return Some(env[i].1.as_str());
        }
        i = i + 1;
    }
    None
}

/// The key in the first of `vars` that holds one. A variable that holds nothing but white
/// space counts as not set.
pub fn env_api_key(vars: &[&str], env: &[(String, String)]) -> (r: Result<String, LlmError>)
    ensures
        ({
            let names = vars@.map_values(|t: &str| t@);
            match (r, first_key(names, text::pairs(env@))) {
                (Ok(key), Some(value)) => key@ == value,
                (Err(e), None) => e@ == (ErrorModel::MissingApiKey {
                    env_var: text::joined(names, " or "@),
                }),
                _ => false,
            }
        }),
{
    let ghost names = vars@.map_values(|t: &str| t@);
    let ghost all = text::pairs(env@);
    let mut i: usize = 0;
    proof {
        assert(names.skip(0) =~= names);
    }
    while i < vars.len()
        invariant
            i <= vars@.len(),
            names == vars@.map_values(|t: &str| t@),
            all == text::pairs(env@),
            first_key(names, all) == first_key(names.skip(i as int), all),
        decreases vars@.len() - i,
    {
        proof {
            assert(names.skip(i as int)[0] == vars@[i as int]@);
            assert(names.skip(i as int).skip(1) =~= names.skip(i + 1));
        }
        if let Some(value) = lookup(env, vars[i]) {
            if text::trim_text(value).as_str().unicode_len() > 0 {
                return Ok(value.to_owned());
            }
        }
        i = i + 1;
    }
    Err(LlmError::MissingApiKey { env_var: text::join(vars, " or ") })
}

// ---------------------------------------------------------------------------
// Requests
// ---------------------------------------------------------------------------

/// A provider of language models.
#[derive(Debug, Clone, Copy, PartialEq, Eq, Structural)]
pub enum Provider {
    Anthropic,
    OpenAi,
    Ollama,
}

/// The provider of a name.
pub open spec fn provider_named(name: Seq<char>) -> Option<Provider> {
    if name == "anthropic"@ {
        Some(Provider::Anthropic)
    } else if name == "openai"@ {
        Some(Provider::OpenAi)
    } else if name == "ollama"@ {
        Some(Provider::Ollama)
    } else {
        None
    }
}

/// The variables that may hold the key for a provider. One that runs here needs none.
pub open spec fn key_vars(provider: Provider) -> Option<Seq<Seq<char>>> {
    match provider {
        Provider::Anthropic => Some(anthropic_vars()),
        Provider::OpenAi => Some(openai_vars()),
        Provider::Ollama => None,
    }
}

/// A request to be sent.
#[derive(Debug)]
pub struct HttpCall {
    pub provider: Provider,
    pub url: String,
    pub headers: Vec<(String, String)>,
    pub body: String,
    pub timeout_secs: u64,
}

/// What an [`HttpCall`] stands for.
#[verifier::ext_equal]
pub struct CallModel {
    pub provider: Provider,
    pub url: Seq<char>,
    pub headers: Seq<(Seq<char>, Seq<char>)>,
    pub body: Seq<char>,
    pub timeout_secs: u64,
}

impl View for HttpCall {
    type V = CallModel;

    open spec fn view(&self) -> CallModel {
        CallModel {
            provider: self.provider,
            url: self.url@,
            headers: text::pairs(self.headers@),
            body: self.body@,
            timeout_secs: self.timeout_secs,
        }
    }
}

/// The body of a request to Anthropic.
pub open spec fn anthropic_body(request: RequestModel) -> Seq<char> {
    "{\"max_tokens\":1024,\"messages\":[{\"content\":"@ + json::quoted(request.user_message)
        + ",\"role\":\"user\"}],\"model\":"@ + json::quoted(request.model)
        + ",\"system\":[{\"text\":"@ + json::quoted(request.system_prompt)
        + ",\"type\":\"text\"}]}"@
}

/// The body of a request to OpenAI.
pub open spec fn openai_body(request: RequestModel) -> Seq<char> {
    "{\"max_tokens\":1024,\"messages\":[{\"content\":"@ + json::quoted(request.system_prompt)
        + ",\"role\":\"system\"},{\"content\":"@ + json::quoted(request.user_message)
        + ",\"role\":\"user\"}],\"model\":"@ + json::quoted(request.model) + "}"@
}

/// The body of a request to Ollama.
pub open spec fn ollama_body(request: RequestModel) -> Seq<char> {
    "{\"model\":"@ + json::quoted(request.model) + ",\"prompt\":"@ + json::quoted(
        request.system_prompt + "\n\n"@ + request.user_message,
    ) + ",\"stream\":false}"@
}

/// The request to a provider, with the key for it.
pub open spec fn call_for(provider: Provider, request: RequestModel, key: Seq<char>) -> CallModel {
    match provider {
        Provider::Anthropic => CallModel {
            provider,
            url: "https://api.anthropic.com/v1/messages"@,
            headers: seq![
                ("x-api-key"@, key),
                ("anthropic-version"@, "2023-06-01"@),
                ("content-type"@, "application/json"@),
            ],
            body: anthropic_body(request),
            timeout_secs: 30,
        },
        Provider::OpenAi => CallModel {
            provider,
            url: "https://api.openai.com/v1/chat/completions"@,
            headers: seq![
                ("Authorization"@, "Bearer "@ + key),
                ("content-type"@, "application/json"@),
            ],
            body: openai_body(request),
            timeout_secs: 30,
        },
        Provider::Ollama => CallModel {
            provider,
            url: "http://localhost:11434/api/generate"@,
            headers: seq![("content-type"@, "application/json"@)],
            body: ollama_body(request),
            timeout_secs: 60,
        },
    }
}

/// What comes of a request before it is sent: the call to make, or why there is none.
pub open spec fn planned(request: RequestModel, env: Seq<(Seq<char>, Seq<char>)>) -> Result<
    CallModel,
    ErrorModel,
> {
    match provider_named(request.provider) {
        None => Err(ErrorModel::UnsupportedProvider(request.provider)),
        Some(provider) => match key_vars(provider) {
            None => Ok(call_for(provider, request, Seq::empty())),
            Some(vars) => match first_key(vars, env) {
                Some(key) => Ok(call_for(provider, request, key)),
                None => Err(
                    ErrorModel::MissingApiKey { env_var: text::joined(vars, " or "@) },
                ),
            },
        },
    }
}

/// The same result in terms of what its parts stand for.
pub open spec fn plan_model(r: Result<HttpCall, LlmError>) -> Result<CallModel, ErrorModel> {
    match r {
        Ok(call) => Ok(call@),
        Err(e) => Err(e@),
    }
}

fn call_anthropic(request: &LlmRequest, key: &str) -> (r: HttpCall)
    ensures
        r@ == call_for(Provider::Anthropic, request@, key@),
{
    let mut body = "{\"max_tokens\":1024,\"messages\":[{\"content\":".to_owned();
    body.append(json::quote(request.user_message.as_str()).as_str());
    body.append(",\"role\":\"user\"}],\"model\":");
    body.append(json::quote(request.model.as_str()).as_str());
    body.append(",\"system\":[{\"text\":");
    body.append(json::quote(request.system_prompt.as_str()).as_str());
    body.append(",\"type\":\"text\"}]}");
    let mut headers: Vec<(String, String)> = Vec::new();
    headers.push(("x-api-key".to_owned(), key.to_owned()));
    headers.push(("anthropic-version".to_owned(), "2023-06-01".to_owned()));
    headers.push(("content-type".to_owned(), "application/json".to_owned()));
    let call = HttpCall {
        provider: Provider::Anthropic,
        url: "https://api.anthropic.com/v1/messages".to_owned(),
        headers,
        body,
        timeout_secs: 30,
    };
    proof {
        assert(call@ =~= call_for(Provider::Anthropic, request@, key@));
    }
    call
}

fn call_openai(request: &LlmRequest, key: &str) -> (r: HttpCall)
    ensures
        r@ == call_for(Provider::OpenAi, request@, key@),
{
    let mut body = "{\"max_tokens\":1024,\"messages\":[{\"content\":".to_owned();
    body.append(json::quote(request.system_prompt.as_str()).as_str());
    body.append(",\"role\":\"system\"},{\"content\":");
    body.append(json::quote(request.user_message.as_str()).as_str());
    body.append(",\"role\":\"user\"}],\"model\":");
    body.append(json::quote(request.model.as_str()).as_str());
    body.append("}");
    let mut bearer = "Bearer ".to_owned();
    bearer.append(key);
    let mut headers: Vec<(String, String)> = Vec::new();
    headers.push(("Authorization".to_owned(), bearer));
    headers.push(("content-type".to_owned(), "application/json".to_owned()));
    let call = HttpCall {
        provider: Provider::OpenAi,
        url: "https://api.openai.com/v1/chat/completions".to_owned(),
        headers,
        body,
        timeout_secs: 30,
    };
    proof {
        assert(call@ =~= call_for(Provider::OpenAi, request@, key@));
    }
    call
}

fn call_ollama(request: &LlmRequest) -> (r: HttpCall)
    ensures
        r@ == call_for(Provider::Ollama, request@, Seq::empty()),
{
    let mut prompt = request.system_prompt.as_str().to_owned();
    prompt.append("\n\n");
    prompt.append(request.user_message.as_str());
    let mut body = "{\"model\":".to_owned();
    body.append(json::quote(request.model.as_str()).as_str());
    body.append(",\"prompt\":");
    body.append(json::quote(prompt.as_str()).as_str());
    body.append(",\"stream\":false}");
    let mut headers: Vec<(String, String)> = Vec::new();
    headers.push(("content-type".to_owned(), "application/json".to_owned()));
    let call = HttpCall {
        provider: Provider::Ollama,
        url: "http://localhost:11434/api/generate".to_owned(),
        headers,
        body,
        timeout_secs: 60,
    };
    proof {
        assert(call@ =~= call_for(Provider::Ollama, request@, Seq::empty()));
    }
    call
}

/// Put a request together for the provider that it names, with the key that the environment
/// holds for it.
pub fn call_llm(request: &LlmRequest, env: &[(String, String)]) -> (r: Result<HttpCall, LlmError>)
    ensures
        plan_model(r) == planned(request@, text::pairs(env@)),
{
    let provider: &str = request.provider.as_str();
    if text::same_text(provider, "anthropic") {
        let vars = anthropic_key_vars();
        match env_api_key(vars.as_slice(), env) {
            Ok(key) => Ok(call_anthropic(request, key.as_str())),
            Err(e) => Err(e),
        }
    } else if text::same_text(provider, "openai") {
        let vars = openai_key_vars();
        match env_api_key(vars.as_slice(), env) {
            Ok(key) => Ok(call_openai(request, key.as_str())),
            Err(e) => Err(e),
        }
    } else if text::same_text(provider, "ollama") {
        Ok(call_ollama(request))
    } else {
        Err(LlmError::UnsupportedProvider(provider.to_owned()))
    }
}

// ---------------------------------------------------------------------------
// Replies
// ---------------------------------------------------------------------------

/// Where the answer of a provider stands in its reply.
pub open spec fn answer_path(provider: Provider) -> Seq<Step> {
    match provider {
        Provider::Anthropic => seq![Step::Key("content"@), Step::At(0), Step::Key("text"@)],
        Provider::OpenAi => seq![
            Step::Key("choices"@),
            Step::At(0),
            Step::Key("message"@),
            Step::Key("content"@),
        ],
        Provider::Ollama => seq![Step::Key("response"@)],
    }
}

/// The answer in a reply with these strings.
pub open spec fn answer_among(
    provider: Provider,
    strings: Map<Seq<Step>, Seq<char>>,
) -> Result<Seq<char>, ErrorModel> {
    if strings.contains_key(answer_path(provider)) {
        Ok(strings[answer_path(provider)])
    } else {
        Err(ErrorModel::UnexpectedFormat)
    }
}

/// What a reply comes to: the strings of its document, if it is one, and its text as it is
/// wanted for an error.
pub open spec fn outcome(
    provider: Provider,
    status: u16,
    strings: Option<Map<Seq<Step>, Seq<char>>>,
    refusal: Seq<char>,
) -> Result<Seq<char>, ErrorModel> {
    if status != 200 {
        Err(ErrorModel::ApiError { status, body: refusal })
    } else {
        match strings {
            None => Err(ErrorModel::Http("error decoding response body"@)),
            Some(found) => answer_among(provider, found),
        }
    }
}

/// The same result in terms of what its parts stand for.
pub open spec fn answer_model(r: Result<String, LlmError>) -> Result<Seq<char>, ErrorModel> {
    match r {
        Ok(answer) => Ok(answer@),
        Err(e) => Err(e@),
    }
}

/// The answer in the document of a reply.
pub fn answer_in(provider: Provider, reply: &serde_json::Value) -> (r: Result<String, LlmError>)
    ensures
        answer_model(r) == answer_among(provider, json::strings_in(*reply)),
{
    let ghost strings = json::strings_in(*reply);
    let place: &serde_json::Value = match provider {
        Provider::Anthropic => {
            let content = json::member(reply, "content");
            let first = json::element(content, 0);
            json::member(first, "text")
        },
        Provider::OpenAi => {
            let choices = json::member(reply, "choices");
            let first = json::element(choices, 0);
            let message = json::member(first, "message");
            json::member(message, "content")
        },
        Provider::Ollama => json::member(reply, "response"),
    };
    proof {
        let none = Seq::<Step>::empty();
        match provider {
            Provider::Anthropic => {
                assert(seq![Step::Key("content"@)] + (seq![Step::At(0)] + (seq![Step::Key("text"@)]
                    + none)) =~= answer_path(provider));
            },
            Provider::OpenAi => {
                assert(seq![Step::Key("choices"@)] + (seq![Step::At(0)] + (seq![
                    Step::Key("message"@),
                ] + (seq![Step::Key("content"@)] + none))) =~= answer_path(provider));
            },
            Provider::Ollama => {
                assert(seq![Step::Key("response"@)] + none =~= answer_path(provider));
            },
        }
    }
    match json::string(place) {
        Some(answer) => Ok(answer),
        None => Err(LlmError::UnexpectedFormat),
    }
}

/// Whether a reply of this status holds an answer, and not an error.
pub fn is_accepted(status: u16) -> (r: bool)
    ensures
        r == (status == 200),
{
    status == 200
}

/// Read a reply: its status, its body, and its text where it was refused.
pub fn read_reply(provider: Provider, status: u16, body: &[u8], refusal: &str) -> (r: Result<
    String,
    LlmError,
>)
    ensures
        answer_model(r) == outcome(provider, status, json::strings_read(body@), refusal@),
{
    if !is_accepted(status) {
        return Err(LlmError::ApiError { status, body: refusal.to_owned() });
    }
    match json::parse(body) {
        Ok(reply) => answer_in(provider, &reply),
        Err(_) => Err(LlmError::Http("error decoding response body".to_owned())),
    }
}

// ---------------------------------------------------------------------------
// Laws
// ---------------------------------------------------------------------------

/// A key for the deck alone comes before the general one, and a blank one does not stand in
/// its way.
pub proof fn the_first_key_that_is_not_blank_wins(
    own: Seq<char>,
    general: Seq<char>,
    env: Seq<(Seq<char>, Seq<char>)>,
)
    ensures
        ({
            let key = first_key(seq![own, general], env);
            match value_of(env, own) {
                Some(value) if text::trimmed(value).len() > 0 => key == Some(value),
                _ => key == first_key(seq![general], env),
            }
        }),
{
    assert(seq![own, general].skip(1) =~= seq![general]);
}

/// A key that is sent is never blank, and it stands in one of the variables.
pub proof fn no_blank_key_is_sent(vars: Seq<Seq<char>>, env: Seq<(Seq<char>, Seq<char>)>)
    ensures
        first_key(vars, env) matches Some(key) ==> text::trimmed(key).len() > 0 && exists|i: int|
            0 <= i < vars.len() && value_of(env, #[trigger] vars[i]) == Some(key),
    decreases vars.len(),
{
    if vars.len() > 0 {
        match value_of(env, vars[0]) {
            Some(value) if text::trimmed(value).len() > 0 => {},
            _ => {
                no_blank_key_is_sent(vars.skip(1), env);
                if let Some(key) = first_key(vars.skip(1), env) {
                    let i = choose|i: int|
                        0 <= i < vars.skip(1).len() && value_of(env, #[trigger] vars.skip(1)[i])
                            == Some(key);
                    assert(vars[i + 1] == vars.skip(1)[i]);
                }
            },
        }
    }
}

/// A provider that runs here is called without a key, whatever the environment holds.
pub proof fn ollama_needs_no_key(request: RequestModel, env: Seq<(Seq<char>, Seq<char>)>)
    requires
        request.provider == "ollama"@,
    ensures
        planned(request, env) is Ok,
        planned(request, env) == planned(request, Seq::empty()),
{
    reveal_strlit("ollama");
    reveal_strlit("openai");
    reveal_strlit("anthropic");
    assert("ollama"@[1] != "openai"@[1]);
    assert("ollama"@.len() != "anthropic"@.len());
}

/// One message of a conversation.
pub open spec fn message_document(role: Seq<char>, content: Seq<char>) -> Json {
    Json::Object(seq!["content"@, "role"@], seq![Json::Text(content), Json::Text(role)])
}

/// What Anthropic is asked: the user's message, the model, and the system prompt beside them.
pub open spec fn anthropic_document(
    user_message: Seq<char>,
    system_prompt: Seq<char>,
    model: Seq<char>,
) -> Json {
    Json::Object(
        seq!["max_tokens"@, "messages"@, "model"@, "system"@],
        seq![
            Json::Number(1024),
            Json::List(seq![message_document("user"@, user_message)]),
            Json::Text(model),
            Json::List(
                seq![
                    Json::Object(
                        seq!["text"@, "type"@],
                        seq![Json::Text(system_prompt), Json::Text("text"@)],
                    ),
                ],
            ),
        ],
    )
}

/// What OpenAI is asked: the system prompt as the first message, the user's as the second.
pub open spec fn openai_document(
    user_message: Seq<char>,
    system_prompt: Seq<char>,
    model: Seq<char>,
) -> Json {
    Json::Object(
        seq!["max_tokens"@, "messages"@, "model"@],
        seq![
            Json::Number(1024),
            Json::List(
                seq![
                    message_document("system"@, system_prompt),
                    message_document("user"@, user_message),
                ],
            ),
            Json::Text(model),
        ],
    )
}

/// What Ollama is asked: one prompt, in which the user's message stands behind the system
/// prompt and an empty line.
pub open spec fn ollama_document(
    user_message: Seq<char>,
    system_prompt: Seq<char>,
    model: Seq<char>,
) -> Json {
    Json::Object(
        seq!["model"@, "prompt"@, "stream"@],
        seq![
            Json::Text(model),
            Json::Text(system_prompt + seq!['\n', '\n'] + user_message),
            Json::Flag(false),
        ],
    )
}

proof fn a_member_is_written(key: Seq<char>, value: Json)
    requires
        forall|i: int|
            0 <= i < key.len() ==> (#[trigger] key[i]) >= ' ' && key[i] != '"' && key[i] != '\\',
    ensures
        json::written_members(seq![key], seq![value]) == seq!['"'] + key + seq!['"', ':']
            + json::written(value),
{
    json::members_are_written_one_by_one(key, value, Seq::empty(), Seq::empty());
    json::plain_text_is_quoted_as_it_is(key);
    assert(seq!['"'] + key + seq!['"'] + seq![':'] + json::written(value) =~= seq!['"'] + key
        + seq!['"', ':'] + json::written(value));
}

proof fn one_more_member_is_written(
    key: Seq<char>,
    value: Json,
    keys: Seq<Seq<char>>,
    values: Seq<Json>,
)
    requires
        keys.len() == values.len(),
        values.len() > 0,
        forall|i: int|
            0 <= i < key.len() ==> (#[trigger] key[i]) >= ' ' && key[i] != '"' && key[i] != '\\',
    ensures
        json::written_members(seq![key] + keys, seq![value] + values) == seq!['"'] + key + seq![
            '"',
            ':',
        ] + json::written(value) + seq![','] + json::written_members(keys, values),
{
    json::members_are_written_one_by_one(key, value, keys, values);
    json::plain_text_is_quoted_as_it_is(key);
    assert(seq!['"'] + key + seq!['"'] + seq![':'] =~= seq!['"'] + key + seq!['"', ':']);
}

proof fn a_message_is_written(role: Seq<char>, content: Seq<char>)
    requires
        role == "user"@ || role == "system"@,
    ensures
        json::written(message_document(role, content)) == "{\"content\":"@ + json::quoted(content)
            + ",\"role\":\""@ + role + "\"}"@,
        json::is_sound(message_document(role, content)),
{
    let keys = seq!["content"@, "role"@];
    let values = seq![Json::Text(content), Json::Text(role)];
    reveal_strlit("content");
    reveal_strlit("role");
    reveal_strlit("user");
    reveal_strlit("system");
    reveal_strlit("{\"content\":");
    reveal_strlit(",\"role\":\"");
    reveal_strlit("\"}");
    a_member_is_written("role"@, Json::Text(role));
    assert(keys =~= seq!["content"@] + seq!["role"@]);
    assert(values =~= seq![Json::Text(content)] + seq![Json::Text(role)]);
    one_more_member_is_written(
        "content"@,
        Json::Text(content),
        seq!["role"@],
        seq![Json::Text(role)],
    );
    json::plain_text_is_quoted_as_it_is(role);
    let q = json::quoted(content);
    let whole = json::written(message_document(role, content));
    assert(whole =~= "{\"content\":"@ + q + ",\"role\":\""@ + role + "\"}"@);
    two_are_sound(Json::Text(content), Json::Text(role));
}

proof fn one_is_sound(a: Json)
    requires
        json::is_sound(a),
    ensures
        json::all_sound(seq![a]),
{
    assert(seq![a].drop_first() =~= Seq::<Json>::empty());
    assert(json::all_sound(seq![a].drop_first()));
}

proof fn two_are_sound(a: Json, b: Json)
    requires
        json::is_sound(a),
        json::is_sound(b),
    ensures
        json::all_sound(seq![a, b]),
{
    one_is_sound(b);
    assert(seq![a, b].drop_first() =~= seq![b]);
}

proof fn three_are_sound(a: Json, b: Json, c: Json)
    requires
        json::is_sound(a),
        json::is_sound(b),
        json::is_sound(c),
    ensures
        json::all_sound(seq![a, b, c]),
{
    two_are_sound(b, c);
    assert(seq![a, b, c].drop_first() =~= seq![b, c]);
}

proof fn the_limit_is_written()
    ensures
        text::decimal(1024) == "1024"@,
{
    reveal_strlit("1024");
    reveal_with_fuel(text::decimal, 4);
    assert(text::decimal(1024) =~= "1024"@);
}

proof fn the_anthropic_body_is_written(request: RequestModel)
    ensures
        anthropic_body(request) == json::written(
            anthropic_document(request.user_message, request.system_prompt, request.model),
        ),
        json::is_sound(
            anthropic_document(request.user_message, request.system_prompt, request.model),
        ),
{
    let user = json::quoted(request.user_message);
    let model = json::quoted(request.model);
    let system = json::quoted(request.system_prompt);
    let message = message_document("user"@, request.user_message);
    let block = Json::Object(
        seq!["text"@, "type"@],
        seq![Json::Text(request.system_prompt), Json::Text("text"@)],
    );
    a_message_is_written("user"@, request.user_message);
    reveal_strlit("text");
    reveal_strlit("type");
    reveal_strlit("max_tokens");
    reveal_strlit("messages");
    reveal_strlit("model");
    reveal_strlit("system");
    let w_message = json::written(message);
    let w_block = json::written(block);
    assert(w_block == "{\"text\":"@ + system + ",\"type\":\"text\"}"@) by {
        reveal_strlit("{\"text\":");
        reveal_strlit(",\"type\":\"text\"}");
        a_member_is_written("type"@, Json::Text("text"@));
        assert(seq!["text"@, "type"@] =~= seq!["text"@] + seq!["type"@]);
        assert(seq![Json::Text(request.system_prompt), Json::Text("text"@)] =~= seq![
            Json::Text(request.system_prompt),
        ] + seq![Json::Text("text"@)]);
        one_more_member_is_written(
            "text"@,
            Json::Text(request.system_prompt),
            seq!["type"@],
            seq![Json::Text("text"@)],
        );
        json::plain_text_is_quoted_as_it_is("text"@);
        assert(w_block =~= "{\"text\":"@ + system + ",\"type\":\"text\"}"@);
    }
    let v0 = Json::Number(1024);
    let v1 = Json::List(seq![message]);
    let v2 = Json::Text(request.model);
    let v3 = Json::List(seq![block]);
    let k0 = "max_tokens"@;
    let k1 = "messages"@;
    let k2 = "model"@;
    let k3 = "system"@;
    the_limit_is_written();
    json::items_are_written_one_by_one(message, Seq::empty());
    json::items_are_written_one_by_one(block, Seq::empty());
    a_member_is_written(k3, v3);
    one_more_member_is_written(k2, v2, seq![k3], seq![v3]);
    assert(seq![k2] + seq![k3] =~= seq![k2, k3]);
    assert(seq![v2] + seq![v3] =~= seq![v2, v3]);
    one_more_member_is_written(k1, v1, seq![k2, k3], seq![v2, v3]);
    assert(seq![k1] + seq![k2, k3] =~= seq![k1, k2, k3]);
    assert(seq![v1] + seq![v2, v3] =~= seq![v1, v2, v3]);
    one_more_member_is_written(k0, v0, seq![k1, k2, k3], seq![v1, v2, v3]);
    assert(seq![k0] + seq![k1, k2, k3] =~= seq![k0, k1, k2, k3]);
    assert(seq![v0] + seq![v1, v2, v3] =~= seq![v0, v1, v2, v3]);
    anthropic_pieces(user, model, system, w_message, w_block);
    let members = json::written_members(seq![k0, k1, k2, k3], seq![v0, v1, v2, v3]);
    assert(members =~= anthropic_members(w_message, model, w_block));
    one_is_sound(message);
    two_are_sound(Json::Text(request.system_prompt), Json::Text("text"@));
    one_is_sound(block);
    three_are_sound(v1, v2, v3);
    assert(seq![v0, v1, v2, v3].drop_first() =~= seq![v1, v2, v3]);
    assert(json::is_sound(v0));
    assert(json::all_sound(seq![v0, v1, v2, v3]));
}

spec fn anthropic_members(message: Seq<char>, model: Seq<char>, block: Seq<char>) -> Seq<char> {
    seq!['"'] + "max_tokens"@ + seq!['"', ':'] + "1024"@ + seq![','] + (seq!['"'] + "messages"@
        + seq!['"', ':'] + (seq!['['] + message + seq![']']) + seq![','] + (seq!['"'] + "model"@
        + seq!['"', ':'] + model + seq![','] + (seq!['"'] + "system"@ + seq!['"', ':'] + (seq!['[']
        + block + seq![']']))))
}

proof fn anthropic_pieces(
    user: Seq<char>,
    model: Seq<char>,
    system: Seq<char>,
    message: Seq<char>,
    block: Seq<char>,
)
    requires
        message == "{\"content\":"@ + user + ",\"role\":\""@ + "user"@ + "\"}"@,
        block == "{\"text\":"@ + system + ",\"type\":\"text\"}"@,
    ensures
        seq!['{'] + anthropic_members(message, model, block) + seq!['}']
            == "{\"max_tokens\":1024,\"messages\":[{\"content\":"@ + user
            + ",\"role\":\"user\"}],\"model\":"@ + model + ",\"system\":[{\"text\":"@ + system
            + ",\"type\":\"text\"}]}"@,
{
    let a = "{\"max_tokens\":1024,\"messages\":["@;
    let b = "],\"model\":"@;
    let c = ",\"system\":["@;
    let d = "]}"@;
    let p = "{\"content\":"@;
    let q = ",\"role\":\""@ + "user"@ + "\"}"@;
    let r = "{\"text\":"@;
    let t = ",\"type\":\"text\"}"@;
    anthropic_members_joined(message, model, block);
    anthropic_literals();
    openai_literals();
    assert(message =~= p + user + q);
    anthropic_regrouped(a, p, user, q, b, model, c, r, system, t, d);
}

proof fn anthropic_regrouped(
    a: Seq<char>,
    p: Seq<char>,
    user: Seq<char>,
    q: Seq<char>,
    b: Seq<char>,
    model: Seq<char>,
    c: Seq<char>,
    r: Seq<char>,
    system: Seq<char>,
    t: Seq<char>,
    d: Seq<char>,
)
    ensures
        a + (p + user + q) + b + model + c + (r + system + t) + d == (a + p) + user + (q + b)
            + model + (c + r) + system + (t + d),
{
    assert(a + (p + user + q) + b =~= (a + p) + user + (q + b));
    let front = (a + p) + user + (q + b) + model;
    assert(front + c + (r + system + t) + d =~= front + (c + r) + system + (t + d));
}

/// What stands around the texts of a request to Anthropic.
proof fn anthropic_literals()
    ensures
        ",\"system\":["@ + "{\"text\":"@ == ",\"system\":[{\"text\":"@,
        ",\"type\":\"text\"}"@ + "]}"@ == ",\"type\":\"text\"}]}"@,
{
    assert(",\"system\":["@ + "{\"text\":"@ =~= ",\"system\":[{\"text\":"@) by {
        reveal_strlit(",\"system\":[");
        reveal_strlit("{\"text\":");
        reveal_strlit(",\"system\":[{\"text\":");
    }
    assert(",\"type\":\"text\"}"@ + "]}"@ =~= ",\"type\":\"text\"}]}"@) by {
        reveal_strlit(",\"type\":\"text\"}");
        reveal_strlit("]}");
        reveal_strlit(",\"type\":\"text\"}]}");
    }
}

proof fn anthropic_members_joined(message: Seq<char>, model: Seq<char>, block: Seq<char>)
    ensures
        seq!['{'] + anthropic_members(message, model, block) + seq!['}']
            == "{\"max_tokens\":1024,\"messages\":["@ + message + "],\"model\":"@ + model
            + ",\"system\":["@ + block + "]}"@,
{
    reveal_strlit("{\"max_tokens\":1024,\"messages\":[");
    reveal_strlit("],\"model\":");
    reveal_strlit(",\"system\":[");
    reveal_strlit("]}");
    reveal_strlit("max_tokens");
    reveal_strlit("messages");
    reveal_strlit("model");
    reveal_strlit("system");
    reveal_strlit("1024");
    let a = seq!['{'] + (seq!['"'] + "max_tokens"@ + seq!['"', ':'] + "1024"@ + seq![',']) + (seq![
        '"',
    ] + "messages"@ + seq!['"', ':']) + seq!['['];
    assert(a =~= "{\"max_tokens\":1024,\"messages\":["@);
    let b = seq![']'] + seq![','] + (seq!['"'] + "model"@ + seq!['"', ':']);
    assert(b =~= "],\"model\":"@);
    let c = seq![','] + (seq!['"'] + "system"@ + seq!['"', ':']) + seq!['['];
    assert(c =~= ",\"system\":["@);
    let d = seq![']'] + seq!['}'];
    assert(d =~= "]}"@);
    assert(seq!['{'] + anthropic_members(message, model, block) + seq!['}'] =~= a + message + b
        + model + c + block + d);
}

proof fn the_openai_body_is_written(request: RequestModel)
    ensures
        openai_body(request) == json::written(
            openai_document(request.user_message, request.system_prompt, request.model),
        ),
        json::is_sound(
            openai_document(request.user_message, request.system_prompt, request.model),
        ),
{
    let user = json::quoted(request.user_message);
    let model = json::quoted(request.model);
    let system = json::quoted(request.system_prompt);
    let first = message_document("system"@, request.system_prompt);
    let second = message_document("user"@, request.user_message);
    a_message_is_written("system"@, request.system_prompt);
    a_message_is_written("user"@, request.user_message);
    let w1 = json::written(first);
    let w2 = json::written(second);
    let v0 = Json::Number(1024);
    let v1 = Json::List(seq![first, second]);
    let v2 = Json::Text(request.model);
    let k0 = "max_tokens"@;
    let k1 = "messages"@;
    let k2 = "model"@;
    reveal_strlit("max_tokens");
    reveal_strlit("messages");
    reveal_strlit("model");
    the_limit_is_written();
    json::items_are_written_one_by_one(second, Seq::empty());
    json::items_are_written_one_by_one(first, seq![second]);
    assert(seq![first] + seq![second] =~= seq![first, second]);
    a_member_is_written(k2, v2);
    one_more_member_is_written(k1, v1, seq![k2], seq![v2]);
    assert(seq![k1] + seq![k2] =~= seq![k1, k2]);
    assert(seq![v1] + seq![v2] =~= seq![v1, v2]);
    one_more_member_is_written(k0, v0, seq![k1, k2], seq![v1, v2]);
    assert(seq![k0] + seq![k1, k2] =~= seq![k0, k1, k2]);
    assert(seq![v0] + seq![v1, v2] =~= seq![v0, v1, v2]);
    openai_pieces(user, model, system, w1, w2);
    let members = json::written_members(seq![k0, k1, k2], seq![v0, v1, v2]);
    assert(members =~= openai_members(w1, w2, model));
    two_are_sound(first, second);
    three_are_sound(v0, v1, v2);
}

spec fn openai_members(first: Seq<char>, second: Seq<char>, model: Seq<char>) -> Seq<char> {
    seq!['"'] + "max_tokens"@ + seq!['"', ':'] + "1024"@ + seq![','] + (seq!['"'] + "messages"@
        + seq!['"', ':'] + (seq!['['] + (first + seq![','] + second) + seq![']']) + seq![',']
        + (seq!['"'] + "model"@ + seq!['"', ':'] + model))
}

proof fn openai_pieces(
    user: Seq<char>,
    model: Seq<char>,
    system: Seq<char>,
    first: Seq<char>,
    second: Seq<char>,
)
    requires
        first == "{\"content\":"@ + system + ",\"role\":\""@ + "system"@ + "\"}"@,
        second == "{\"content\":"@ + user + ",\"role\":\""@ + "user"@ + "\"}"@,
    ensures
        seq!['{'] + openai_members(first, second, model) + seq!['}']
            == "{\"max_tokens\":1024,\"messages\":[{\"content\":"@ + system
            + ",\"role\":\"system\"},{\"content\":"@ + user
            + ",\"role\":\"user\"}],\"model\":"@ + model + "}"@,
{
    let a = "{\"max_tokens\":1024,\"messages\":["@;
    let b = ","@;
    let c = "],\"model\":"@;
    let d = "}"@;
    let p = "{\"content\":"@;
    let q = ",\"role\":\""@ + "system"@ + "\"}"@;
    let t = ",\"role\":\""@ + "user"@ + "\"}"@;
    openai_members_joined(first, second, model);
    openai_literals();
    assert(first =~= p + system + q);
    assert(second =~= p + user + t);
    openai_regrouped(a, p, system, q, b, user, t, c, model, d);
}

proof fn openai_regrouped(
    a: Seq<char>,
    p: Seq<char>,
    system: Seq<char>,
    q: Seq<char>,
    b: Seq<char>,
    user: Seq<char>,
    t: Seq<char>,
    c: Seq<char>,
    model: Seq<char>,
    d: Seq<char>,
)
    ensures
        a + (p + system + q) + b + (p + user + t) + c + model + d == (a + p) + system + (q + b + p)
            + user + (t + c) + model + d,
{
    assert(a + (p + system + q) =~= (a + p) + system + q);
    let front = (a + p) + system;
    assert(front + q + b + (p + user + t) =~= front + (q + b + p) + user + t);
    let more = front + (q + b + p) + user;
    assert(more + t + c =~= more + (t + c));
}

/// What stands around the texts of a request to OpenAI.
proof fn openai_literals()
    ensures
        "{\"max_tokens\":1024,\"messages\":["@ + "{\"content\":"@
            == "{\"max_tokens\":1024,\"messages\":[{\"content\":"@,
        ",\"role\":\""@ + "system"@ + "\"}"@ + ","@ + "{\"content\":"@
            == ",\"role\":\"system\"},{\"content\":"@,
        ",\"role\":\""@ + "user"@ + "\"}"@ + "],\"model\":"@
            == ",\"role\":\"user\"}],\"model\":"@,
{
    assert("{\"max_tokens\":1024,\"messages\":["@ + "{\"content\":"@
        =~= "{\"max_tokens\":1024,\"messages\":[{\"content\":"@) by {
        reveal_strlit("{\"max_tokens\":1024,\"messages\":[");
        reveal_strlit("{\"content\":");
        reveal_strlit("{\"max_tokens\":1024,\"messages\":[{\"content\":");
    }
    assert(",\"role\":\""@ + "system"@ + "\"}"@ + ","@ + "{\"content\":"@
        =~= ",\"role\":\"system\"},{\"content\":"@) by {
        reveal_strlit(",\"role\":\"");
        reveal_strlit("system");
        reveal_strlit("\"}");
        reveal_strlit(",");
        reveal_strlit("{\"content\":");
        reveal_strlit(",\"role\":\"system\"},{\"content\":");
    }
    assert(",\"role\":\""@ + "user"@ + "\"}"@ + "],\"model\":"@
        =~= ",\"role\":\"user\"}],\"model\":"@) by {
        reveal_strlit(",\"role\":\"");
        reveal_strlit("user");
        reveal_strlit("\"}");
        reveal_strlit("],\"model\":");
        reveal_strlit(",\"role\":\"user\"}],\"model\":");
    }
}

proof fn openai_members_joined(first: Seq<char>, second: Seq<char>, model: Seq<char>)
    ensures
        seq!['{'] + openai_members(first, second, model) + seq!['}']
            == "{\"max_tokens\":1024,\"messages\":["@ + first + ","@ + second
            + "],\"model\":"@ + model + "}"@,
{
    reveal_strlit("{\"max_tokens\":1024,\"messages\":[");
    reveal_strlit(",");
    reveal_strlit("],\"model\":");
    reveal_strlit("}");
    reveal_strlit("max_tokens");
    reveal_strlit("messages");
    reveal_strlit("model");
    reveal_strlit("1024");
    let a = seq!['{'] + (seq!['"'] + "max_tokens"@ + seq!['"', ':'] + "1024"@ + seq![',']) + (seq![
        '"',
    ] + "messages"@ + seq!['"', ':']) + seq!['['];
    assert(a =~= "{\"max_tokens\":1024,\"messages\":["@);
    let c = seq![']'] + seq![','] + (seq!['"'] + "model"@ + seq!['"', ':']);
    assert(c =~= "],\"model\":"@);
    assert(seq![','] =~= ","@);
    assert(seq!['}'] =~= "}"@);
    assert(seq!['{'] + openai_members(first, second, model) + seq!['}'] =~= a + first + seq![',']
        + second + c + model + seq!['}']);
}

proof fn the_ollama_body_is_written(request: RequestModel)
    ensures
        ollama_body(request) == json::written(
            ollama_document(request.user_message, request.system_prompt, request.model),
        ),
        json::is_sound(
            ollama_document(request.user_message, request.system_prompt, request.model),
        ),
{
    let prompt = request.system_prompt + seq!['\n', '\n'] + request.user_message;
    let v0 = Json::Text(request.model);
    let v1 = Json::Text(prompt);
    let v2 = Json::Flag(false);
    let k0 = "model"@;
    let k1 = "prompt"@;
    let k2 = "stream"@;
    reveal_strlit("model");
    reveal_strlit("prompt");
    reveal_strlit("stream");
    a_member_is_written(k2, v2);
    one_more_member_is_written(k1, v1, seq![k2], seq![v2]);
    assert(seq![k1] + seq![k2] =~= seq![k1, k2]);
    assert(seq![v1] + seq![v2] =~= seq![v1, v2]);
    one_more_member_is_written(k0, v0, seq![k1, k2], seq![v1, v2]);
    assert(seq![k0] + seq![k1, k2] =~= seq![k0, k1, k2]);
    assert(seq![v0] + seq![v1, v2] =~= seq![v0, v1, v2]);
    assert("\n\n"@ =~= seq!['\n', '\n']) by {
        reveal_strlit("\n\n");
    }
    let model = json::quoted(request.model);
    let asked = json::quoted(prompt);
    let members = seq!['"'] + k0 + seq!['"', ':'] + model + seq![','] + (seq!['"'] + k1 + seq![
        '"',
        ':',
    ] + asked + seq![','] + (seq!['"'] + k2 + seq!['"', ':'] + "false"@));
    assert(seq!['{'] + members + seq!['}'] =~= "{\"model\":"@ + model + ",\"prompt\":"@ + asked
        + ",\"stream\":false}"@) by {
        reveal_strlit("{\"model\":");
        reveal_strlit(",\"prompt\":");
        reveal_strlit(",\"stream\":false}");
        reveal_strlit("false");
    }
    three_are_sound(v0, v1, v2);
}

/// What a provider is asked for: the three texts of the request, unchanged.
pub open spec fn asked_document(provider: Provider, request: RequestModel) -> Json {
    match provider {
        Provider::Anthropic => anthropic_document(
            request.user_message,
            request.system_prompt,
            request.model,
        ),
        Provider::OpenAi => openai_document(
            request.user_message,
            request.system_prompt,
            request.model,
        ),
        Provider::Ollama => ollama_document(
            request.user_message,
            request.system_prompt,
            request.model,
        ),
    }
}

/// The body of every request is a document that holds the user's message, the system prompt
/// and the model as they are, whatever they hold and however long they are.
pub proof fn a_body_is_the_document_that_was_asked_for(
    provider: Provider,
    request: RequestModel,
    key: Seq<char>,
)
    ensures
        json::document(call_for(provider, request, key).body) == Some(
            asked_document(provider, request),
        ),
{
    let body = call_for(provider, request, key).body;
    let asked = asked_document(provider, request);
    match provider {
        Provider::Anthropic => the_anthropic_body_is_written(request),
        Provider::OpenAi => the_openai_body_is_written(request),
        Provider::Ollama => the_ollama_body_is_written(request),
    }
    json::a_written_document_is_read_back(asked, Seq::empty());
    assert(body + Seq::<char>::empty() =~= body);
}

/// Where each text of a request stands in the document of its body: the user's message is the
/// content of the message of role `user`, the system prompt is the system text, and the model is
/// named. Ollama gets one prompt, the user's message behind the system prompt.
pub proof fn the_document_holds_what_was_asked(provider: Provider, request: RequestModel)
    ensures
        ({
            let asked = asked_document(provider, request);
            &&& json::found_at(asked, seq![Step::Key("model"@)]) == Some(Json::Text(request.model))
            &&& provider == Provider::Anthropic ==> {
                &&& json::found_at(
                    asked,
                    seq![Step::Key("messages"@), Step::At(0), Step::Key("content"@)],
                ) == Some(Json::Text(request.user_message))
                &&& json::found_at(
                    asked,
                    seq![Step::Key("messages"@), Step::At(0), Step::Key("role"@)],
                ) == Some(Json::Text("user"@))
                &&& json::found_at(
                    asked,
                    seq![Step::Key("system"@), Step::At(0), Step::Key("text"@)],
                ) == Some(Json::Text(request.system_prompt))
            }
            &&& provider == Provider::OpenAi ==> {
                &&& json::found_at(
                    asked,
                    seq![Step::Key("messages"@), Step::At(0), Step::Key("content"@)],
                ) == Some(Json::Text(request.system_prompt))
                &&& json::found_at(
                    asked,
                    seq![Step::Key("messages"@), Step::At(0), Step::Key("role"@)],
                ) == Some(Json::Text("system"@))
                &&& json::found_at(
                    asked,
                    seq![Step::Key("messages"@), Step::At(1), Step::Key("content"@)],
                ) == Some(Json::Text(request.user_message))
                &&& json::found_at(
                    asked,
                    seq![Step::Key("messages"@), Step::At(1), Step::Key("role"@)],
                ) == Some(Json::Text("user"@))
            }
            &&& provider == Provider::Ollama ==> {
                &&& json::found_at(asked, seq![Step::Key("prompt"@)]) == Some(
                    Json::Text(request.system_prompt + seq!['\n', '\n'] + request.user_message),
                )
                &&& json::found_at(asked, seq![Step::Key("stream"@)]) == Some(Json::Flag(false))
            }
        }),
{
    let asked = asked_document(provider, request);
    keys_differ();
    reveal_with_fuel(json::under, 5);
    reveal_with_fuel(json::found_at, 4);
    let model = seq![Step::Key("model"@)];
    assert(model.drop_first() =~= Seq::<Step>::empty());
    let none = Seq::<Step>::empty();
    match provider {
        Provider::Ollama => {
            assert(seq![Step::Key("prompt"@)].drop_first() =~= none);
            assert(seq![Step::Key("stream"@)].drop_first() =~= none);
        },
        _ => {
            three_steps("messages"@, 0, "content"@);
            three_steps("messages"@, 0, "role"@);
            three_steps("messages"@, 1, "content"@);
            three_steps("messages"@, 1, "role"@);
            three_steps("system"@, 0, "text"@);
        },
    }
}

proof fn three_steps(first: Seq<char>, at: nat, last: Seq<char>)
    ensures
        ({
            let path = seq![Step::Key(first), Step::At(at), Step::Key(last)];
            &&& path.drop_first() == seq![Step::At(at), Step::Key(last)]
            &&& path.drop_first().drop_first() == seq![Step::Key(last)]
            &&& path.drop_first().drop_first().drop_first().len() == 0
        }),
{
    let path = seq![Step::Key(first), Step::At(at), Step::Key(last)];
    assert(path.drop_first() =~= seq![Step::At(at), Step::Key(last)]);
    assert(path.drop_first().drop_first() =~= seq![Step::Key(last)]);
}

proof fn keys_differ()
    ensures
        "max_tokens"@ != "messages"@ && "max_tokens"@ != "model"@ && "max_tokens"@ != "system"@,
        "messages"@ != "model"@ && "messages"@ != "system"@,
        "model"@ != "system"@ && "model"@ != "prompt"@ && "model"@ != "stream"@,
        "prompt"@ != "stream"@,
        "content"@ != "role"@,
        "text"@ != "type"@,
{
    reveal_strlit("max_tokens");
    reveal_strlit("messages");
    reveal_strlit("model");
    reveal_strlit("system");
    reveal_strlit("prompt");
    reveal_strlit("stream");
    reveal_strlit("content");
    reveal_strlit("role");
    reveal_strlit("text");
    reveal_strlit("type");
    assert("max_tokens"@.len() == 10 && "messages"@.len() == 8 && "model"@.len() == 5);
    assert("system"@.len() == 6 && "prompt"@.len() == 6 && "stream"@.len() == 6);
    assert("content"@.len() == 7 && "role"@.len() == 4);
    assert("prompt"@[0] != "stream"@[0]);
    assert("text"@[1] != "type"@[1]);
}

/// Two requests to Anthropic or OpenAI that differ in the user's message, the system prompt or
/// the model have different bodies; two to Ollama do where the model or the prompt differs that
/// the two texts make together.
pub proof fn different_requests_have_different_bodies(
    provider: Provider,
    a: RequestModel,
    b: RequestModel,
    key: Seq<char>,
)
    requires
        call_for(provider, a, key).body == call_for(provider, b, key).body,
    ensures
        a.model == b.model,
        provider != Provider::Ollama ==> a.user_message == b.user_message && a.system_prompt
            == b.system_prompt,
        provider == Provider::Ollama ==> a.system_prompt + seq!['\n', '\n'] + a.user_message
            == b.system_prompt + seq!['\n', '\n'] + b.user_message,
{
    a_body_is_the_document_that_was_asked_for(provider, a, key);
    a_body_is_the_document_that_was_asked_for(provider, b, key);
    the_document_holds_what_was_asked(provider, a);
    the_document_holds_what_was_asked(provider, b);
}

/// Whether a call carries this header.
pub open spec fn has_header(call: CallModel, name: Seq<char>, value: Seq<char>) -> bool {
    exists|i: int| 0 <= i < call.headers.len() && #[trigger] call.headers[i] == (name, value)
}

/// A request goes to the address of its provider and to no other, says that its body is JSON,
/// and carries the key as the provider wants it. Ollama gets no key.
pub proof fn a_call_goes_to_its_provider(provider: Provider, request: RequestModel, key: Seq<char>)
    ensures
        ({
            let call = call_for(provider, request, key);
            &&& call.provider == provider
            &&& has_header(call, "content-type"@, "application/json"@)
            &&& provider == Provider::Anthropic ==> call.url
                == "https://api.anthropic.com/v1/messages"@ && has_header(call, "x-api-key"@, key)
                && has_header(call, "anthropic-version"@, "2023-06-01"@) && call.headers.len() == 3
                && call.timeout_secs == 30
            &&& provider == Provider::OpenAi ==> call.url
                == "https://api.openai.com/v1/chat/completions"@ && has_header(
                call,
                "Authorization"@,
                "Bearer "@ + key,
            ) && call.headers.len() == 2 && call.timeout_secs == 30
            &&& provider == Provider::Ollama ==> call.url
                == "http://localhost:11434/api/generate"@ && call.headers.len() == 1
                && call.timeout_secs == 60
        }),
{
    let call = call_for(provider, request, key);
    match provider {
        Provider::Anthropic => {
            assert(call.headers[0] == ("x-api-key"@, key));
            assert(call.headers[1] == ("anthropic-version"@, "2023-06-01"@));
            assert(call.headers[2] == ("content-type"@, "application/json"@));
        },
        Provider::OpenAi => {
            assert(call.headers[0] == ("Authorization"@, "Bearer "@ + key));
            assert(call.headers[1] == ("content-type"@, "application/json"@));
        },
        Provider::Ollama => {
            assert(call.headers[0] == ("content-type"@, "application/json"@));
        },
    }
}

/// The value of a variable is that of its first line in the environment; without one there is
/// none.
pub proof fn a_variable_has_its_first_value(
    env: Seq<(Seq<char>, Seq<char>)>,
    name: Seq<char>,
    i: int,
)
    ensures
        0 <= i < env.len() && env[i].0 == name && (forall|j: int|
            0 <= j < i ==> (#[trigger] env[j]).0 != name) ==> value_of(env, name) == Some(env[i].1),
        (forall|j: int| 0 <= j < env.len() ==> (#[trigger] env[j]).0 != name) ==> value_of(
            env,
            name,
        ) is None,
    decreases env.len(),
{
    if env.len() > 0 && env[0].0 != name {
        let rest = env.skip(1);
        a_variable_has_its_first_value(rest, name, i - 1);
        assert(forall|j: int| 0 <= j < rest.len() ==> #[trigger] rest[j] == env[j + 1]);
    }
}

/// The key is that of the first variable whose value is more than white space; there is none
/// exactly where every variable is blank or not set.
pub proof fn the_first_variable_that_holds_a_key_gives_it(
    vars: Seq<Seq<char>>,
    env: Seq<(Seq<char>, Seq<char>)>,
    i: int,
)
    ensures
        0 <= i < vars.len() && !is_blank(value_of(env, vars[i])) && (forall|j: int|
            0 <= j < i ==> is_blank(value_of(env, #[trigger] vars[j]))) ==> first_key(vars, env)
            == value_of(env, vars[i]),
        (forall|j: int| 0 <= j < vars.len() ==> is_blank(value_of(env, #[trigger] vars[j])))
            ==> first_key(vars, env) is None,
    decreases vars.len(),
{
    if vars.len() > 0 && is_blank(value_of(env, vars[0])) {
        let rest = vars.skip(1);
        the_first_variable_that_holds_a_key_gives_it(rest, env, i - 1);
        assert(forall|j: int| 0 <= j < rest.len() ==> #[trigger] rest[j] == vars[j + 1]);
    }
}

/// Whether a value is not set, or holds nothing but white space.
pub open spec fn is_blank(value: Option<Seq<char>>) -> bool {
    value is None || text::trimmed(value->0).len() == 0
}

/// What becomes of a request follows from its provider's name and the variables for it: the
/// call with the key, the error that names both variables, the call without a key, or the error
/// that names the provider.
pub proof fn a_request_is_planned_by_its_provider(
    request: RequestModel,
    env: Seq<(Seq<char>, Seq<char>)>,
)
    ensures
        ({
            let plan = planned(request, env);
            let own = first_key(
                seq!["DOT_AGENT_DECK_ANTHROPIC_API_KEY"@, "ANTHROPIC_API_KEY"@],
                env,
            );
            let other = first_key(seq!["DOT_AGENT_DECK_OPENAI_API_KEY"@, "OPENAI_API_KEY"@], env);
            &&& request.provider == "anthropic"@ && own is Some ==> plan == Ok::<
                CallModel,
                ErrorModel,
            >(call_for(Provider::Anthropic, request, own->0))
            &&& request.provider == "anthropic"@ && own is None ==> plan is Err
                && plan->Err_0 is MissingApiKey && plan->Err_0->env_var
                == "DOT_AGENT_DECK_ANTHROPIC_API_KEY"@ + " or "@ + "ANTHROPIC_API_KEY"@
            &&& request.provider == "openai"@ && other is Some ==> plan == Ok::<
                CallModel,
                ErrorModel,
            >(call_for(Provider::OpenAi, request, other->0))
            &&& request.provider == "openai"@ && other is None ==> plan is Err
                && plan->Err_0 is MissingApiKey && plan->Err_0->env_var
                == "DOT_AGENT_DECK_OPENAI_API_KEY"@ + " or "@ + "OPENAI_API_KEY"@
            &&& request.provider == "ollama"@ ==> plan is Ok && plan->Ok_0.provider
                == Provider::Ollama && plan->Ok_0.body == call_for(
                Provider::Ollama,
                request,
                Seq::empty(),
            ).body
            &&& request.provider != "anthropic"@ && request.provider != "openai"@
                && request.provider != "ollama"@ ==> plan == Err::<CallModel, ErrorModel>(
                ErrorModel::UnsupportedProvider(request.provider),
            )
        }),
{
    reveal_strlit("anthropic");
    reveal_strlit("openai");
    reveal_strlit("ollama");
    assert("anthropic"@.len() == 9 && "openai"@.len() == 6 && "ollama"@.len() == 6);
    assert("ollama"@[1] != "openai"@[1]);
    text::items_are_joined_by_the_separator(
        seq!["DOT_AGENT_DECK_ANTHROPIC_API_KEY"@],
        " or "@,
        "ANTHROPIC_API_KEY"@,
    );
    text::items_are_joined_by_the_separator(
        Seq::empty(),
        " or "@,
        "DOT_AGENT_DECK_ANTHROPIC_API_KEY"@,
    );
    text::items_are_joined_by_the_separator(
        seq!["DOT_AGENT_DECK_OPENAI_API_KEY"@],
        " or "@,
        "OPENAI_API_KEY"@,
    );
    text::items_are_joined_by_the_separator(
        Seq::empty(),
        " or "@,
        "DOT_AGENT_DECK_OPENAI_API_KEY"@,
    );
    assert(seq!["DOT_AGENT_DECK_ANTHROPIC_API_KEY"@].push("ANTHROPIC_API_KEY"@)
        =~= anthropic_vars());
    assert(seq!["DOT_AGENT_DECK_OPENAI_API_KEY"@].push("OPENAI_API_KEY"@) =~= openai_vars());
}

/// The answer is the string at the provider's place in a reply of status 200. Any other status
/// is an error with that status and the text of the reply, a reply that is no document is one
/// too, and so is a document without a string at that place.
pub proof fn the_answer_stands_at_its_place(
    status: u16,
    strings: Map<Seq<Step>, Seq<char>>,
    refusal: Seq<char>,
)
    ensures
        ({
            let places = seq![
                (
                    Provider::Anthropic,
                    seq![Step::Key("content"@), Step::At(0), Step::Key("text"@)],
                ),
                (
                    Provider::OpenAi,
                    seq![
                        Step::Key("choices"@),
                        Step::At(0),
                        Step::Key("message"@),
                        Step::Key("content"@),
                    ],
                ),
                (Provider::Ollama, seq![Step::Key("response"@)]),
            ];
            forall|i: int|
                0 <= i < 3 ==> {
                    let (provider, place) = #[trigger] places[i];
                    &&& status != 200 ==> outcome(provider, status, Some(strings), refusal) == Err::<
                        Seq<char>,
                        ErrorModel,
                    >(ErrorModel::ApiError { status, body: refusal })
                    &&& status != 200 ==> outcome(provider, status, None, refusal) == Err::<
                        Seq<char>,
                        ErrorModel,
                    >(ErrorModel::ApiError { status, body: refusal })
                    &&& status == 200 && strings.contains_key(place) ==> outcome(
                        provider,
                        status,
                        Some(strings),
                        refusal,
                    ) == Ok::<Seq<char>, ErrorModel>(strings[place])
                    &&& status == 200 && !strings.contains_key(place) ==> outcome(
                        provider,
                        status,
                        Some(strings),
                        refusal,
                    ) == Err::<Seq<char>, ErrorModel>(ErrorModel::UnexpectedFormat)
                    &&& status == 200 ==> outcome(provider, status, None, refusal) is Err
                        && outcome(provider, status, None, refusal)->Err_0 is Http
                }
        }),
{
}

/// What is said about an error names what went wrong: the status and the text of a refusal, the
/// variables that hold no key, the provider that there is not.
pub proof fn errors_say_what_went_wrong(status: u16, detail: Seq<char>)
    ensures
        error_text(ErrorModel::Http(detail)) == "HTTP request failed: "@ + detail,
        error_text(ErrorModel::ApiError { status, body: detail }) == "API error ("@ + text::decimal(
            status as nat,
        ) + "): "@ + detail,
        error_text(ErrorModel::MissingApiKey { env_var: detail }) == "Missing API key: set "@
            + detail + " environment variable"@,
        error_text(ErrorModel::UnsupportedProvider(detail)) == "Unsupported provider: "@ + detail,
        error_text(ErrorModel::UnexpectedFormat) == "Unexpected response format"@,
{
}

} // verus!
