use harvest::inference::{encode_image_request, frame_invoke_body, invoke_url, ExtractedFields};
use harvest::outcome::{classify_unit, UnitEvent, UnitOutcome};

#[test]
fn request_body_frames_the_standard_encoding() {
    let body = encode_image_request(&b"Man".to_vec());
    assert_eq!(body, "{\"image\":\"TWFu\"}");
}

#[test]
fn request_body_keeps_padding() {
    let body = encode_image_request(&b"M".to_vec());
    assert_eq!(body, "{\"image\":\"TQ==\"}");
}

#[test]
fn empty_resource_still_frames() {
    let body = encode_image_request(&Vec::new());
    assert_eq!(body, "{\"image\":\"\"}");
}

#[test]
fn framing_is_plain_concatenation() {
    assert_eq!(frame_invoke_body("abc"), "{\"image\":\"abc\"}");
}

#[test]
fn invoke_url_appends_the_path() {
    assert_eq!(invoke_url("http://localhost:1234"), "http://localhost:1234/invoke");
}

#[test]
fn inference_response_classifies_like_any_unit() {
    let fields = ExtractedFields {
        words_in_mark: Some(String::from("ACME")),
        chinese_character: None,
        description_of_device: Some(String::from("a circle")),
    };
    let outcome = classify_unit(String::from("img1.png"), UnitEvent::Decoded { payload: fields });
    match outcome {
        UnitOutcome::Success { key, payload } => {
            assert_eq!(key, "img1.png");
            assert_eq!(payload.words_in_mark.as_deref(), Some("ACME"));
            assert_eq!(payload.chinese_character, None);
            assert_eq!(payload.description_of_device.as_deref(), Some("a circle"));
        },
        UnitOutcome::Failure { .. } => panic!("expected a success"),
    }
}
