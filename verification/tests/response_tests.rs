use catscii::error::PipelineError;
use catscii::response::respond;

#[test]
fn success_response_has_html_content_type_and_body() {
    let r = respond(Ok(String::from("<pre>art</pre>")));
    assert_eq!(r.status, 200);
    assert_eq!(r.content_type, "text/html; charset=utf-8");
    assert_eq!(r.body, "<pre>art</pre>");
}

#[test]
fn network_failure_maps_to_fixed_500() {
    let r = respond(Err(PipelineError::Network));
    assert_eq!(r.status, 500);
    assert_eq!(r.content_type, "text/plain; charset=utf-8");
    assert_eq!(r.body, "Something went wrong");
}

#[test]
fn upstream_status_404_maps_to_fixed_500() {
    let r = respond(Err(PipelineError::UpstreamStatus(404)));
    assert_eq!(r.status, 500);
    assert_eq!(r.body, "Something went wrong");
}

#[test]
fn upstream_status_500_maps_to_fixed_500() {
    let r = respond(Err(PipelineError::UpstreamStatus(500)));
    assert_eq!(r.status, 500);
    assert_eq!(r.body, "Something went wrong");
}

#[test]
fn invalid_metadata_maps_to_fixed_500() {
    let r = respond(Err(PipelineError::InvalidMetadata));
    assert_eq!(r.status, 500);
    assert_eq!(r.body, "Something went wrong");
}

#[test]
fn empty_result_maps_to_fixed_500() {
    let r = respond(Err(PipelineError::EmptyResult));
    assert_eq!(r.status, 500);
    assert_eq!(r.body, "Something went wrong");
}

#[test]
fn decode_failure_maps_to_fixed_500() {
    let r = respond(Err(PipelineError::Decode));
    assert_eq!(r.status, 500);
    assert_eq!(r.body, "Something went wrong");
}

#[test]
fn conversion_failure_maps_to_fixed_500() {
    let r = respond(Err(PipelineError::Conversion));
    assert_eq!(r.status, 500);
    assert_eq!(r.body, "Something went wrong");
}

#[test]
fn any_two_errors_give_byte_identical_responses() {
    let errors = vec![
        PipelineError::Network,
        PipelineError::UpstreamStatus(404),
        PipelineError::UpstreamStatus(503),
        PipelineError::InvalidMetadata,
        PipelineError::EmptyResult,
        PipelineError::Decode,
        PipelineError::Conversion,
    ];
    for a in &errors {
        for b in &errors {
            let ra = respond(Err(*a));
            let rb = respond(Err(*b));
            assert_eq!(ra.status, rb.status);
            assert_eq!(ra.content_type.as_bytes(), rb.content_type.as_bytes());
            assert_eq!(ra.body.as_bytes(), rb.body.as_bytes());
        }
    }
}

#[test]
fn error_messages_name_the_underlying_cause() {
    assert_eq!(
        PipelineError::Network.message(),
        "outbound call could not complete"
    );
    assert_eq!(
        PipelineError::UpstreamStatus(404).message(),
        "outbound call returned a non-2xx status"
    );
    assert_eq!(
        PipelineError::EmptyResult.message(),
        "image metadata listed no images"
    );
    assert_eq!(
        PipelineError::Decode.message(),
        "downloaded bytes are not a valid image"
    );
}
