use ocr_rust::api::{get_api_url, NEXA_API_URL, OLLAMA_API_URL};

#[test]
fn api_url_by_model_name() {
    assert_eq!(get_api_url("NexaAI/DeepSeek-OCR-GGUF:BF16"), NEXA_API_URL);
    assert_eq!(get_api_url("some-GGUF-model"), NEXA_API_URL);
    assert_eq!(get_api_url("llava:13b"), OLLAMA_API_URL);
    assert_eq!(get_api_url("nexaai/gguf"), OLLAMA_API_URL);
    assert_eq!(get_api_url(""), OLLAMA_API_URL);
}

#[test]
fn api_urls() {
    assert_eq!(NEXA_API_URL, "http://127.0.0.1:18181/v1/chat/completions");
    assert_eq!(OLLAMA_API_URL, "http://127.0.0.1:11434/v1/chat/completions");
}
