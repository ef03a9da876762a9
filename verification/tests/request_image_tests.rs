use habr_reader::image_data::{article_image_or_blank, blank_image, decode_downloaded_image, should_download, DecodedImage};
use habr_reader::request::{article_details_request, articles_request, default_headers, hubs_request, setup_request};

fn pairs(v: &[(&str, &str)]) -> Vec<(String, String)> {
    v.iter().map(|(a, b)| (a.to_string(), b.to_string())).collect()
}

#[test]
fn client_headers_carry_the_language_cookie() {
    assert_eq!(default_headers(), pairs(&[("Cookie", "fl=ru; hl=ru;")]));
}

#[test]
fn setup_request_adds_language_parameters() {
    let r = setup_request("https://example.org/");
    assert_eq!(r.url, "https://example.org/");
    assert_eq!(r.query, pairs(&[("fl", "ru"), ("hl", "ru")]));
    assert!(r.headers.is_empty());
}

#[test]
fn articles_request_for_a_hub_page() {
    let r = articles_request("rust", 3);
    assert_eq!(r.url, "https://habr.com/kek/v2/articles/");
    assert_eq!(
        r.query,
        pairs(&[("fl", "ru"), ("hl", "ru"), ("page", "3"), ("hub", "rust"), ("sort", "all"), ("perPage", "15")])
    );
}

#[test]
fn article_details_request_for_an_id() {
    let r = article_details_request("123456");
    assert_eq!(r.url, "https://habr.com/kek/v2/articles/123456");
    assert_eq!(r.query, pairs(&[("fl", "ru"), ("hl", "ru")]));
}

#[test]
fn hubs_request_for_a_page() {
    let r = hubs_request(255);
    assert_eq!(r.url, "https://habr.com/kek/v2/hubs/");
    assert_eq!(r.query, pairs(&[("page", "255"), ("fl", "ru"), ("hl", "ru"), ("perPage", "30")]));
    assert_eq!(r.headers, pairs(&[("Cookie", "fl=ru; hl=ru;")]));
}

#[test]
fn empty_urls_are_not_downloaded() {
    assert!(!should_download(""));
    assert!(should_download("https://x/y.png"));
}

#[test]
fn blank_images_are_zero() {
    let b = blank_image(2, 3);
    assert_eq!((b.width, b.height), (2, 3));
    assert_eq!(b.rgba, vec![0u8; 24]);
}

fn png_bytes() -> Vec<u8> {
    let mut buf = image::RgbaImage::new(2, 1);
    buf.put_pixel(0, 0, image::Rgba([1, 2, 3, 4]));
    buf.put_pixel(1, 0, image::Rgba([250, 251, 252, 253]));
    let mut out = std::io::Cursor::new(Vec::new());
    image::DynamicImage::ImageRgba8(buf).write_to(&mut out, image::ImageFormat::Png).unwrap();
    out.into_inner()
}

#[test]
fn decodes_png_bytes() {
    let img = decode_downloaded_image(&png_bytes()).expect("a png");
    assert_eq!((img.width, img.height), (2, 1));
    assert_eq!(img.rgba, vec![1, 2, 3, 4, 250, 251, 252, 253]);
}

#[test]
fn refuses_bytes_that_hold_no_image() {
    assert!(decode_downloaded_image(b"<html>not an image</html>").is_none());
    assert!(decode_downloaded_image(&[]).is_none());
}

#[test]
fn article_image_falls_back_to_blank() {
    let blank = article_image_or_blank(None);
    assert_eq!((blank.width, blank.height), (480, 280));
    assert_eq!(blank.rgba.len(), 480 * 280 * 4);
    assert!(blank.rgba.iter().all(|b| *b == 0));
    let img = article_image_or_blank(Some(DecodedImage { width: 1, height: 1, rgba: vec![9, 9, 9, 9] }));
    assert_eq!(img.rgba, vec![9, 9, 9, 9]);
}
