use habr_reader::hub::{hub_icon_url, hubs_page, sort_hubs_by_title, HubItem, HubsResponse};

fn hub(id: &str, title: &str) -> HubItem {
    HubItem {
        id: id.to_string(),
        alias: format!("alias-{id}"),
        title: title.to_string(),
        description_html: format!("about {title}"),
        common_tags: vec!["tag".to_string()],
        image_url: format!("//img/{id}.png"),
    }
}

fn ids(hubs: &[HubItem]) -> Vec<String> {
    hubs.iter().map(|h| h.id.clone()).collect()
}

#[test]
fn hubs_are_sorted_by_title() {
    let hubs = vec![hub("1", "Rust"), hub("2", "Go"), hub("3", "Python"), hub("4", "C++")];
    let sorted = sort_hubs_by_title(hubs);
    assert_eq!(ids(&sorted), vec!["4", "2", "3", "1"]);
}

#[test]
fn equal_titles_keep_their_order() {
    let hubs = vec![hub("a", "Same"), hub("b", "Alpha"), hub("c", "Same"), hub("d", "Same")];
    let sorted = sort_hubs_by_title(hubs);
    assert_eq!(ids(&sorted), vec!["b", "a", "c", "d"]);
}

#[test]
fn sort_agrees_with_std_stable_sort() {
    let titles = ["Разработка", "Алгоритмы", "Java", "java", "", "Zeta", "Алгоритмы"];
    let hubs: Vec<HubItem> = titles.iter().enumerate().map(|(i, t)| hub(&i.to_string(), t)).collect();
    let mut expected: Vec<(String, String)> = hubs.iter().map(|h| (h.id.clone(), h.title.clone())).collect();
    expected.sort_by(|f, s| f.1.cmp(&s.1));
    let sorted = sort_hubs_by_title(hubs);
    assert_eq!(ids(&sorted), expected.into_iter().map(|e| e.0).collect::<Vec<_>>());
}

#[test]
fn sort_of_empty() {
    assert!(sort_hubs_by_title(Vec::new()).is_empty());
}

#[test]
fn hubs_page_sorts_and_counts() {
    let resp = HubsResponse {
        pages_count: 7,
        hub_ids: vec!["\"x\"".to_string()],
        hub_refs: vec![hub("x", "B"), hub("y", "A")],
    };
    let (hubs, pages) = hubs_page(resp);
    assert_eq!(pages, 7);
    assert_eq!(ids(&hubs), vec!["y", "x"]);
}

#[test]
fn hub_data_takes_alias_as_id() {
    let d = hub("9", "Security").into_hub_data();
    assert_eq!(d.id, "alias-9");
    assert_eq!(d.title, "Security");
    assert_eq!(d.description, "about Security");
    assert_eq!(d.image_url, "//img/9.png");
    assert_eq!((d.image.width, d.image.height), (96, 96));
    assert_eq!(d.image.rgba, vec![0u8; 96 * 96 * 4]);
}

#[test]
fn icon_url_gets_https_scheme() {
    assert_eq!(hub_icon_url("//habrastorage.org/x.png"), "https://habrastorage.org/x.png");
    assert_eq!(hub_icon_url(""), "https:");
}
