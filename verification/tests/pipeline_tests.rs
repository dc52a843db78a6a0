use catscii::pipeline::{cat_art_from_fetch, cat_image_url_from_fetch, handle_request, FetchOutcome};
use catscii::response::respond;

fn tiny_jpeg() -> Vec<u8> {
    let mut img = image::RgbImage::new(8, 8);
    for (x, y, p) in img.enumerate_pixels_mut() {
        let v = ((x + y) % 2 * 255) as u8;
        *p = image::Rgb([v, v, 255 - v]);
    }
    let mut buf = std::io::Cursor::new(Vec::new());
    img.write_to(&mut buf, image::ImageFormat::Jpeg).unwrap();
    buf.into_inner()
}

#[test]
fn valid_jpeg_gives_ascii_art_html() {
    let jpeg = tiny_jpeg();
    let art = cat_art_from_fetch(FetchOutcome::Success { status: 200, body: jpeg.clone() })
        .unwrap();
    assert!(!art.is_empty());
    assert!(art.contains("<!DOCTYPE html>"));
    assert!(art.contains("<pre>"));
    assert_ne!(art.as_bytes(), jpeg.as_slice());
}

#[test]
fn png_bytes_are_decoded_too() {
    let img = image::RgbImage::new(5, 7);
    let mut buf = std::io::Cursor::new(Vec::new());
    img.write_to(&mut buf, image::ImageFormat::Png).unwrap();
    let r = handle_request(FetchOutcome::Success { status: 200, body: buf.into_inner() });
    assert_eq!(r.status, 200);
    assert!(r.body.contains("<pre>"));
}

#[test]
fn the_whole_2xx_range_counts_as_success() {
    let r = handle_request(FetchOutcome::Success { status: 204, body: tiny_jpeg() });
    assert_eq!(r.status, 200);
    let r = handle_request(FetchOutcome::Success { status: 299, body: tiny_jpeg() });
    assert_eq!(r.status, 200);
    let r = handle_request(FetchOutcome::Success { status: 300, body: tiny_jpeg() });
    assert_eq!(r.status, 500);
    let r = handle_request(FetchOutcome::Success { status: 199, body: tiny_jpeg() });
    assert_eq!(r.status, 500);
}

#[test]
fn successful_request_is_200_html_with_nonempty_body() {
    let r = handle_request(FetchOutcome::Success { status: 200, body: tiny_jpeg() });
    assert_eq!(r.status, 200);
    assert_eq!(r.content_type, "text/html; charset=utf-8");
    assert!(!r.body.is_empty());
}

/// A farbfeld image: the magic, big-endian width and height, and one
/// 8-byte RGBA sample per pixel.
fn farbfeld(width: u32, height: u32) -> Vec<u8> {
    let mut bytes = b"farbfeld".to_vec();
    bytes.extend_from_slice(&width.to_be_bytes());
    bytes.extend_from_slice(&height.to_be_bytes());
    for _ in 0..(width as usize * height as usize * 8) {
        bytes.push(0x7F);
    }
    bytes
}

#[test]
fn a_decodable_empty_pixel_grid_is_a_conversion_failure() {
    let r = cat_art_from_fetch(FetchOutcome::Success { status: 200, body: farbfeld(0, 0) });
    assert_eq!(r.unwrap_err(), catscii::error::PipelineError::Conversion);
    let r = cat_art_from_fetch(FetchOutcome::Success { status: 200, body: farbfeld(0, 3) });
    assert_eq!(r.unwrap_err(), catscii::error::PipelineError::Conversion);
    let r = cat_art_from_fetch(FetchOutcome::Success { status: 200, body: farbfeld(3, 0) });
    assert_eq!(r.unwrap_err(), catscii::error::PipelineError::Conversion);
}

#[test]
fn a_conversion_failure_gives_the_fixed_500() {
    let r = handle_request(FetchOutcome::Success { status: 200, body: farbfeld(0, 0) });
    assert_eq!(r.status, 500);
    assert_eq!(r.content_type, "text/plain; charset=utf-8");
    assert_eq!(r.body, "Something went wrong");
}

#[test]
fn a_one_pixel_image_still_converts() {
    let r = handle_request(FetchOutcome::Success { status: 200, body: farbfeld(1, 1) });
    assert_eq!(r.status, 200);
    assert!(r.body.contains("<pre>"));
}

#[test]
fn corrupt_image_bytes_give_the_fixed_500() {
    let r = handle_request(FetchOutcome::Success {
        status: 200,
        body: b"these bytes are no image".to_vec(),
    });
    assert_eq!(r.status, 500);
    assert_eq!(r.content_type, "text/plain; charset=utf-8");
    assert_eq!(r.body, "Something went wrong");
}

#[test]
fn upstream_404_gives_the_fixed_500() {
    let r = handle_request(FetchOutcome::Success { status: 404, body: tiny_jpeg() });
    assert_eq!(r.status, 500);
    assert_eq!(r.body, "Something went wrong");
}

#[test]
fn network_failure_gives_the_fixed_500() {
    let r = handle_request(FetchOutcome::NetworkFailure);
    assert_eq!(r.status, 500);
    assert_eq!(r.body, "Something went wrong");
}

#[test]
fn metadata_then_download_scenario_succeeds_end_to_end() {
    let meta = br#"[{"url":"https://example.com/cat.jpg"}]"#.to_vec();
    let url = cat_image_url_from_fetch(FetchOutcome::Success { status: 200, body: meta })
        .unwrap();
    assert_eq!(url, b"https://example.com/cat.jpg".to_vec());

    let r = handle_request(FetchOutcome::Success { status: 200, body: tiny_jpeg() });
    assert_eq!(r.status, 200);
    assert_eq!(r.content_type, "text/html; charset=utf-8");
    assert!(r.body.contains("<pre>"));
}

#[test]
fn fifty_concurrent_requests_are_independent() {
    let rt = tokio::runtime::Builder::new_multi_thread()
        .worker_threads(4)
        .build()
        .unwrap();
    rt.block_on(async {
        let jpeg = tiny_jpeg();
        let mut handles = Vec::new();
        for k in 0..50u32 {
            let body = if k % 2 == 0 {
                jpeg.clone()
            } else {
                b"corrupt bytes".to_vec()
            };
            handles.push(tokio::spawn(async move {
                let r = handle_request(FetchOutcome::Success { status: 200, body });
                if k % 2 == 0 {
                    assert_eq!(r.status, 200);
                    assert!(!r.body.is_empty());
                } else {
                    assert_eq!(r.status, 500);
                    assert_eq!(r.body, "Something went wrong");
                }
            }));
        }
        for h in handles {
            h.await.unwrap();
        }
    });
}

#[test]
fn empty_metadata_scenario_gives_the_fixed_500() {
    let outcome = cat_image_url_from_fetch(FetchOutcome::Success {
        status: 200,
        body: b"[]".to_vec(),
    });
    let r = respond(Err(outcome.unwrap_err()));
    assert_eq!(r.status, 500);
    assert_eq!(r.body, "Something went wrong");
}
