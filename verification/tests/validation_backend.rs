use ass_renderer::backend::{BackendProber, BackendType};
use ass_renderer::error::RenderError;
use ass_renderer::validation::{
    validate_alignment, validate_alpha, validate_color, validate_drawing_mode, validate_font_encoding,
    validate_karaoke_duration, validate_time_ms, validate_wrap_style,
};

fn message(r: Result<u32, RenderError>) -> String {
    match r {
        Err(RenderError::InvalidScript(m)) => m,
        other => panic!("unexpected {:?}", other),
    }
}

#[test]
fn alignment_range() {
    assert_eq!(validate_alignment(1).unwrap(), 1);
    assert_eq!(validate_alignment(9).unwrap(), 9);
    match validate_alignment(0) {
        Err(RenderError::InvalidScript(m)) => assert_eq!(m, "Invalid alignment value: 0. Must be 1-9"),
        other => panic!("unexpected {:?}", other),
    }
    assert!(validate_alignment(10).is_err());
}

#[test]
fn wrap_style_range() {
    assert_eq!(validate_wrap_style(3).unwrap(), 3);
    match validate_wrap_style(4) {
        Err(RenderError::InvalidScript(m)) => assert_eq!(m, "Invalid wrap style: 4. Must be 0-3"),
        other => panic!("unexpected {:?}", other),
    }
}

#[test]
fn drawing_mode_range() {
    assert_eq!(validate_drawing_mode(4).unwrap(), 4);
    match validate_drawing_mode(255) {
        Err(RenderError::InvalidScript(m)) => assert_eq!(m, "Invalid drawing mode: 255. Must be 0-4"),
        other => panic!("unexpected {:?}", other),
    }
}

#[test]
fn karaoke_duration_range() {
    assert_eq!(validate_karaoke_duration(99999).unwrap(), 99999);
    assert_eq!(message(validate_karaoke_duration(100000)), "Invalid karaoke duration: 100000 centiseconds");
}

#[test]
fn passthrough_validators() {
    assert_eq!(validate_color([1, 2, 3, 4]).unwrap(), [1, 2, 3, 4]);
    assert_eq!(validate_alpha(200).unwrap(), 200);
    assert_eq!(validate_time_ms(u32::MAX).unwrap(), u32::MAX);
    assert_eq!(validate_font_encoding(128).unwrap(), 128);
}

#[test]
fn error_classification() {
    assert!(RenderError::FontError("x".into()).is_recoverable());
    assert!(RenderError::FontError("x".into()).is_resource_error());
    assert!(RenderError::ShapingError("x".into()).is_recoverable());
    assert!(!RenderError::ShapingError("x".into()).is_resource_error());
    assert!(RenderError::ResourceLimitExceeded("x".into()).is_resource_error());
    assert!(!RenderError::InvalidDimensions.is_recoverable());
}

#[test]
fn prober_defaults_to_software() {
    let p = BackendProber::new();
    assert_eq!(p.available_backends(), vec![BackendType::Software]);
    assert!(p.is_backend_available(BackendType::Software));
    assert!(!p.is_backend_available(BackendType::Vulkan));
}

#[test]
fn prober_keeps_preference_order_of_available() {
    let p = BackendProber::with_preference(vec![BackendType::Vulkan, BackendType::Software, BackendType::Metal]);
    assert_eq!(p.available_backends(), vec![BackendType::Software]);
    assert_eq!(BackendType::WebGPU.as_str(), "WebGPU");
}

#[test]
fn error_messages_name_kind_and_detail() {
    assert_eq!(
        RenderError::InvalidBufferSize { expected: 16, actual: 12 }.message(),
        "Invalid buffer size: expected 16 bytes, got 12"
    );
    assert_eq!(
        RenderError::InvalidBufferSize { expected: 0, actual: 1000 }.message(),
        "Invalid buffer size: expected 0 bytes, got 1000"
    );
    assert_eq!(
        RenderError::InvalidDimensions.message(),
        "Invalid dimensions: dimensions must be positive and non-zero"
    );
    assert_eq!(RenderError::ParseError("bad tag".to_string()).message(), "Parse error: bad tag");
    assert_eq!(RenderError::UnsupportedBackend("Metal").message(), "Unsupported backend: Metal");
    assert_eq!(RenderError::FontError(String::new()).message(), "Font error: ");
    assert_eq!(RenderError::NoBackendAvailable.message(), "No rendering backend available");
}

#[test]
fn karaoke_duration_message_has_full_number() {
    match validate_karaoke_duration(200_001) {
        Err(RenderError::InvalidScript(m)) => {
            assert_eq!(m, "Invalid karaoke duration: 200001 centiseconds")
        }
        _ => panic!("expected an error"),
    }
}
