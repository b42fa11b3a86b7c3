use vstd::prelude::*;
use vstd::string::StringExecFns;

verus! {

/// The model that a client asks for when a call names none.
pub open spec fn default_model_name() -> Seq<char> {
    "llama3.2:1b"@
}

/// The system prompt of a code review.
pub open spec fn review_system() -> Seq<char> {
    "You are a senior Rust engineer. Review code for bugs, style, performance, security."@
}

/// The system prompt of a code explanation.
pub open spec fn explain_system() -> Seq<char> {
    "You explain code clearly."@
}

/// The prompt that asks for a review of `code`.
pub open spec fn review_prompt(code: Seq<char>) -> Seq<char> {
    "Review this Rust code:\n\n```\n"@ + code + "\n```\n\nGive concise bullet points."@
}

/// The prompt that asks for an explanation of `code`.
pub open spec fn explain_prompt(code: Seq<char>) -> Seq<char> {
    "Explain this code step by step:\n\n```\n"@ + code + "\n```"@
}

/// A client of a local Ollama server: where it is and which model to use by
/// default.
pub struct LLMClient {
    pub host: String,
    pub default_model: String,
}

/// What a generation request asks for (the sampling temperature travels
/// beside it).
pub struct GenerateRequest {
    pub model: String,
    pub prompt: String,
    /// Empty when there is no system prompt; then it is not sent.
    pub system: String,
    pub stream: bool,
    pub num_predict: i32,
}

impl LLMClient {
    /// A client of the server at `host` using the default model.
    pub fn with_host(host: &str) -> (c: LLMClient)
        ensures
            c.host@ == host@,
            c.default_model@ == default_model_name(),
    {
        LLMClient { host: host.to_owned(), default_model: "llama3.2:1b".to_owned() }
    }

    /// A client of the server at `host` using `model` by default.
    pub fn with_host_and_model(host: &str, model: &str) -> (c: LLMClient)
        ensures
            c.host@ == host@,
            c.default_model@ == model@,
    {
        LLMClient { host: host.to_owned(), default_model: model.to_owned() }
    }

    /// The address that generation requests are posted to.
    pub fn generate_url(&self) -> (url: String)
        ensures
            url@ == self.host@ + "/api/generate"@,
    {
        let mut url = self.host.clone();
        url.append("/api/generate");
        url
    }

    /// The request for `prompt`: the given model or else the default one, the
    /// given system prompt or else none, no streaming, at most `max_tokens`
    /// tokens.
    pub fn request(&self, prompt: &str, model: Option<&str>, system: Option<&str>, max_tokens: i32) -> (r:
        GenerateRequest)
        ensures
            r.model@ == match model {
                Some(m) => m@,
                None => self.default_model@,
            },
            r.prompt@ == prompt@,
            r.system@ == match system {
                Some(s) => s@,
                None => Seq::<char>::empty(),
            },
            !r.stream,
            r.num_predict == max_tokens,
    {
        let model = match model {
            Some(m) => m.to_owned(),
            None => self.default_model.clone(),
        };
        let system = match system {
            Some(s) => s.to_owned(),
            None => String::new(),
        };
        GenerateRequest { model, prompt: prompt.to_owned(), system, stream: false, num_predict: max_tokens }
    }

    /// The request for a review of `code`: a senior Rust engineer's system
    /// prompt, the default model, at most 600 tokens.
    pub fn code_review(&self, code: &str) -> (r: GenerateRequest)
        ensures
            r.model@ == self.default_model@,
            r.prompt@ == review_prompt(code@),
            r.system@ == review_system(),
            !r.stream,
            r.num_predict == 600,
    {
        let mut prompt = String::from_str("Review this Rust code:\n\n```\n");
        prompt.append(code);
        prompt.append("\n```\n\nGive concise bullet points.");
        self.request(
            prompt.as_str(),
            None,
            Some("You are a senior Rust engineer. Review code for bugs, style, performance, security."),
            600,
        )
    }

    /// The request for an explanation of `code`: the default model, at most
    /// 500 tokens.
    pub fn explain_code(&self, code: &str) -> (r: GenerateRequest)
        ensures
            r.model@ == self.default_model@,
            r.prompt@ == explain_prompt(code@),
            r.system@ == explain_system(),
            !r.stream,
            r.num_predict == 500,
    {
        let mut prompt = String::from_str("Explain this code step by step:\n\n```\n");
        prompt.append(code);
        prompt.append("\n```");
        self.request(prompt.as_str(), None, Some("You explain code clearly."), 500)
    }
}

} // verus!
