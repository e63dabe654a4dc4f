use spop::frames::capabilities::{capabilities_text, parse_capabilities, FrameCapabilities};

#[test]
fn test_frame_capabilities() {
    assert_eq!(
        FrameCapabilities::from_str("pipelining").unwrap(),
        FrameCapabilities::Pipelining
    );
    assert_eq!(FrameCapabilities::Pipelining.to_string(), "pipelining");
    assert!(FrameCapabilities::from_str("unknown").is_err());
}

#[test]
fn capability_error_quotes_the_token() {
    assert_eq!(
        FrameCapabilities::from_str("async"),
        Err("Unknown capability: async".to_string())
    );
}

#[test]
fn capability_case_is_ignored() {
    assert_eq!(
        FrameCapabilities::from_str("PipeLining"),
        Ok(FrameCapabilities::Pipelining)
    );
    assert_eq!(FrameCapabilities::from_lowercase("PipeLining"), None);
    assert_eq!(
        FrameCapabilities::from_lowercase("pipelining"),
        Some(FrameCapabilities::Pipelining)
    );
}

#[test]
fn capability_trait_parse_agrees() {
    let parsed: Result<FrameCapabilities, String> = "pipelining".parse();
    assert_eq!(parsed, Ok(FrameCapabilities::Pipelining));
}

#[test]
fn capability_list_drops_unknown_tokens_and_space() {
    assert_eq!(
        parse_capabilities(" fragmentation ,\tpipelining , async"),
        vec![FrameCapabilities::Pipelining]
    );
    assert_eq!(parse_capabilities(""), Vec::<FrameCapabilities>::new());
    assert_eq!(
        parse_capabilities("pipelining,PIPELINING"),
        vec![FrameCapabilities::Pipelining, FrameCapabilities::Pipelining]
    );
}

#[test]
fn capability_list_is_written_with_commas() {
    assert_eq!(capabilities_text(&vec![]), "");
    assert_eq!(
        capabilities_text(&vec![FrameCapabilities::Pipelining]),
        "pipelining"
    );
    assert_eq!(
        capabilities_text(&vec![
            FrameCapabilities::Pipelining,
            FrameCapabilities::Pipelining
        ]),
        "pipelining,pipelining"
    );
}
