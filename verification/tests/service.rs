use ocr_rust::service::{
    build_prompt, combine_image_markdown, data_url_of, decimal_chars, image_data_url,
    is_image_extension,
    stack_images, try_image_data_url,
};

#[test]
fn data_url_encodes_the_bytes() {
    assert_eq!(image_data_url(b"hi"), "data:image/png;base64,aGk=");
    assert_eq!(image_data_url(b""), "data:image/png;base64,");
    assert_eq!(image_data_url(&[0xff, 0xfe, 0xfd]), "data:image/png;base64,//79");
    assert_eq!(try_image_data_url(b"abc"), Some("data:image/png;base64,YWJj".to_string()));
}

#[test]
fn data_url_from_encoded_text() {
    assert_eq!(data_url_of("aGk="), "data:image/png;base64,aGk=");
    assert_eq!(data_url_of(""), "data:image/png;base64,");
}

#[test]
fn prompt_for_a_nexa_model() {
    assert_eq!(
        build_prompt(Some("scan.png"), None, "NexaAI/DeepSeek-OCR-GGUF:BF16", true),
        "scan.png <|grounding|>Convert the document to markdown."
    );
    assert_eq!(
        build_prompt(Some("scan.png"), Some("Read the table."), "x-GGUF", false),
        "scan.png <|grounding|>Read the table."
    );
}

#[test]
fn prompt_for_another_model() {
    assert_eq!(
        build_prompt(Some("a.jpg"), None, "llava", false),
        "a.jpg <|grounding|>Convert the document to markdown.\n\nIMPORTANT INSTRUCTIONS:\n- Return ONLY the OCR result. No thinking, explanations, or markdown code blocks.\n- Fix grammar mistakes when confident."
    );
    assert_eq!(
        build_prompt(Some("a.jpg"), Some("Do it."), "llava", true),
        "a.jpg <|grounding|>Do it.\n\nIMPORTANT INSTRUCTIONS:\n- Return ONLY the OCR result. No thinking, explanations, or markdown code blocks.\n- Fix grammar mistakes when confident.\n- Include coordinate information for text positioning."
    );
}

#[test]
fn prompt_for_joined_images() {
    assert_eq!(
        build_prompt(None, None, "NexaAI/x", false),
        "Combined document with multiple pages. <|grounding|>Convert the entire document to markdown, preserving the structure and content from all pages."
    );
    assert_eq!(
        build_prompt(None, Some("Go."), "llava", true),
        "Combined document with multiple pages. <|grounding|>Go.\n\nIMPORTANT INSTRUCTIONS:\n- Extract all text from this image. Present the extracted text in a structured format, preserving all line breaks and original spacing. Do not interpret or summarize the content; provide the raw text as precisely as possible.\n- Fix grammar mistakes when confident.\n- Include coordinate information for text positioning."
    );
}

#[test]
fn image_extensions() {
    assert!(is_image_extension("png"));
    assert!(is_image_extension("JPG"));
    assert!(is_image_extension("Jpeg"));
    assert!(is_image_extension("webp"));
    assert!(!is_image_extension("gif"));
    assert!(!is_image_extension("pngx"));
    assert!(!is_image_extension(""));
}

#[test]
fn decimal_digits() {
    assert_eq!(decimal_chars(0), vec!['0']);
    assert_eq!(decimal_chars(7), vec!['7']);
    assert_eq!(decimal_chars(10), vec!['1', '0']);
    assert_eq!(decimal_chars(4096).into_iter().collect::<String>(), "4096");
}

#[test]
fn combine_puts_sentinels_between_images() {
    let parts = vec!["first".to_string(), "second".to_string()];
    assert_eq!(
        combine_image_markdown(&parts),
        "---IMAGE_INDEX:0---\nfirst\n\n---PAGE_BREAK---\n\n---IMAGE_INDEX:1---\nsecond\n\n"
    );
    assert_eq!(combine_image_markdown(&[]), "");
    assert_eq!(
        combine_image_markdown(&["only".to_string()]),
        "---IMAGE_INDEX:0---\nonly\n\n"
    );
}

#[test]
fn stack_centers_each_image() {
    assert_eq!(
        stack_images(&[(100, 50), (60, 30), (101, 1)]),
        Some((101, 81, vec![(0, 0), (20, 50), (0, 80)]))
    );
    assert_eq!(stack_images(&[]), Some((0, 0, vec![])));
}

#[test]
fn stack_too_high() {
    assert_eq!(stack_images(&[(1, u32::MAX), (1, 1)]), None);
    assert_eq!(
        stack_images(&[(1, u32::MAX - 1), (3, 1)]),
        Some((3, u32::MAX, vec![(1, 0), (0, u32::MAX - 1)]))
    );
}
