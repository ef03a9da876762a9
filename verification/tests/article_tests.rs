use habr_reader::article::{
    article_data, article_details, articles_page, content_data, content_image_urls,
    preview_image_urls, ArticleData, ArticlePreviewResponse, ArticleResponse, ArticlesResponse,
    Author, ContentType, LeadData, Tag,
};
use habr_reader::content::{ArticleContent, DisplayTextType, TextType};
use habr_reader::image_data::blank_rgb_image;

fn preview(id: &str, published_at: &str, author: Option<&str>, complexity: Option<&str>, image: Option<&str>) -> ArticlePreviewResponse {
    ArticlePreviewResponse {
        id: id.to_string(),
        published_at: published_at.to_string(),
        title: "  A title \n".to_string(),
        lead_data: LeadData { description: "lead".to_string(), image_url: image.map(|s| s.to_string()) },
        tags: vec![Tag { title: "rust".to_string() }, Tag { title: "verus".to_string() }],
        complexity: complexity.map(|s| s.to_string()),
        reading_time: 12,
        author: author.map(|a| Author { id: "7".to_string(), alias: a.to_string() }),
    }
}

#[test]
fn article_data_maps_all_fields() {
    let d = article_data(preview("42", "x", Some("alice"), Some("easy"), Some("https://i/x.png")), "01.02.2024 03:04".to_string());
    assert_eq!(d.id, "42");
    assert_eq!(d.title, "A title");
    assert_eq!(d.author, "alice");
    assert_eq!(d.reading_time, 12);
    assert_eq!(d.published_at, "01.02.2024 03:04");
    assert_eq!(d.tags, vec!["rust".to_string(), "verus".to_string()]);
    assert_eq!(d.complexity, "easy");
    assert_eq!(d.image_url, "https://i/x.png");
    assert_eq!((d.image.width, d.image.height), (480, 280));
    assert_eq!(d.image.rgb, vec![0u8; 480 * 280 * 3]);
}

#[test]
fn article_data_fills_missing_fields_with_empty_text() {
    let d = article_data(preview("1", "x", None, None, None), String::new());
    assert_eq!(d.author, "");
    assert_eq!(d.complexity, "");
    assert_eq!(d.image_url, "");
}

fn is_list_time(s: &str) -> bool {
    let c: Vec<char> = s.chars().collect();
    c.len() == 16
        && c[2] == '.'
        && c[5] == '.'
        && c[10] == ' '
        && c[13] == ':'
        && c.iter().enumerate().all(|(i, ch)| [2, 5, 10, 13].contains(&i) || ch.is_ascii_digit())
}

#[test]
fn articles_page_keeps_order_and_renders_times() {
    let resp = ArticlesResponse {
        pages_count: 3,
        article_ids: vec!["\"1\"".to_string(), "\"2\"".to_string()],
        articles: vec![
            preview("1", "2024-01-02T03:04:05+03:00", Some("a"), None, None),
            preview("2", "2023-12-31T23:59:00Z", Some("b"), None, None),
        ],
    };
    let (list, pages) = articles_page(resp).expect("valid timestamps");
    assert_eq!(pages, 3);
    assert_eq!(list.iter().map(|d| d.id.clone()).collect::<Vec<_>>(), vec!["1", "2"]);
    for d in &list {
        assert!(is_list_time(&d.published_at), "{}", d.published_at);
        assert_ne!(d.published_at, "2024-01-02T03:04:05+03:00");
    }
    let expected = "2024-01-02T03:04:05+03:00"
        .parse::<chrono::DateTime<chrono::Local>>()
        .unwrap()
        .format("%d.%m.%Y %H:%M")
        .to_string();
    assert_eq!(list[0].published_at, expected);
}

#[test]
fn articles_page_refuses_an_unreadable_time() {
    let resp = ArticlesResponse {
        pages_count: 1,
        article_ids: vec![],
        articles: vec![
            preview("1", "2024-01-02T03:04:05Z", None, None, None),
            preview("2", "not a time", None, None, None),
        ],
    };
    assert!(articles_page(resp).is_none());
}

#[test]
fn articles_page_of_no_articles() {
    let resp = ArticlesResponse { pages_count: 0, article_ids: vec![], articles: vec![] };
    let (list, pages) = articles_page(resp).unwrap();
    assert!(list.is_empty());
    assert_eq!(pages, 0);
}

fn data(id: &str, image_url: &str, reading_time: usize) -> ArticleData {
    ArticleData {
        id: id.to_string(),
        title: "t".to_string(),
        tags: vec!["x".to_string()],
        complexity: "hard".to_string(),
        author: "bob".to_string(),
        published_at: "01.01.2024 00:00".to_string(),
        reading_time,
        image_url: image_url.to_string(),
        image: blank_rgb_image(2, 1),
    }
}

#[test]
fn preview_carries_fields_and_cuts_reading_time() {
    let p = data("5", "u", 15).into_preview();
    assert_eq!(p.id, "5");
    assert_eq!(p.img_url, "u");
    assert_eq!(p.reading_time, 15);
    assert_eq!(p.tags, vec!["x".to_string()]);
    assert_eq!((p.image.width, p.image.height), (2, 1));
    assert_eq!(p.image.rgb, vec![0u8; 6]);
    let big = data("6", "", 3_000_000_000).into_preview();
    assert_eq!(big.reading_time, 3_000_000_000usize as i32);
}

#[test]
fn preview_image_urls_in_list_order() {
    let list = vec![data("1", "a", 1), data("2", "", 1), data("3", "c", 1)];
    assert_eq!(preview_image_urls(&list), vec!["a".to_string(), "".to_string(), "c".to_string()]);
}

#[test]
fn article_details_parses_the_text() {
    let (title, content) = article_details(ArticleResponse {
        title: "Post".to_string(),
        text: "<h2>Part</h2><p>Body</p>".to_string(),
    });
    assert_eq!(title, "Post");
    assert_eq!(content.len(), 2);
    assert!(matches!(&content[0], ArticleContent::Text(t, TextType::Header(2)) if t == "Part"));
    assert!(matches!(&content[1], ArticleContent::Text(t, TextType::Common) if t == "Body"));
}

#[test]
fn content_data_numbers_images() {
    let contents = vec![
        ArticleContent::Image("i0".to_string()),
        ArticleContent::Text("p".to_string(), TextType::Common),
        ArticleContent::Image("i1".to_string()),
        ArticleContent::Text("h".to_string(), TextType::Header(3)),
    ];
    assert_eq!(content_image_urls(&contents), vec!["i0".to_string(), "i1".to_string()]);
    let d = content_data(&contents);
    assert_eq!(d.len(), 4);
    assert_eq!(d[0].content_type, ContentType::ContentImage);
    assert_eq!(d[0].image_url, "i0");
    assert_eq!(d[0].image_index, 0);
    assert_eq!(d[1].content_type, ContentType::ContentText);
    assert_eq!(d[1].text, "p");
    assert_eq!(d[1].text_type, DisplayTextType::Common);
    assert_eq!(d[2].image_index, 1);
    assert_eq!(d[3].text_type, DisplayTextType::H3);
    assert_eq!(d[3].image_url, "");
}
