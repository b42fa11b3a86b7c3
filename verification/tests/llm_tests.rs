use plexus::llm::LLMClient;

#[test]
fn default_model_and_url() {
    let c = LLMClient::with_host("http://localhost:11434");
    assert_eq!(c.default_model, "llama3.2:1b");
    assert_eq!(c.generate_url(), "http://localhost:11434/api/generate");
    let m = LLMClient::with_host_and_model("http://h:1", "qwen");
    assert_eq!(m.default_model, "qwen");
    assert_eq!(m.host, "http://h:1");
}

#[test]
fn request_fields() {
    let c = LLMClient::with_host("http://localhost:11434");
    let r = c.request("What is 2+2?", None, None, 50);
    assert_eq!(r.model, "llama3.2:1b");
    assert_eq!(r.prompt, "What is 2+2?");
    assert_eq!(r.system, "");
    assert!(!r.stream);
    assert_eq!(r.num_predict, 50);
    let r = c.request("p", Some("other"), Some("sys"), 7);
    assert_eq!(r.model, "other");
    assert_eq!(r.system, "sys");
}

#[test]
fn review_and_explain_prompts() {
    let c = LLMClient::with_host("x");
    let r = c.code_review("fn f() {}");
    assert_eq!(r.prompt, "Review this Rust code:\n\n```\nfn f() {}\n```\n\nGive concise bullet points.");
    assert_eq!(r.system, "You are a senior Rust engineer. Review code for bugs, style, performance, security.");
    assert_eq!(r.num_predict, 600);
    let e = c.explain_code("x");
    assert_eq!(e.prompt, "Explain this code step by step:\n\n```\nx\n```");
    assert_eq!(e.system, "You explain code clearly.");
    assert_eq!(e.num_predict, 500);
}
