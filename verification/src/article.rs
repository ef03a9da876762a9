//! Articles: the API's article descriptions, the data that the article list
//! shows of each, and the content of an article page.
use vstd::prelude::*;

use crate::content::{
    contents_view, extract_content_from_html, fragment_contents, spec_display_text_type,
    ArticleContent, ContentView, DisplayTextType, TextType,
};
use crate::html::{clone_string, html_fragment_events, strings_view};
use crate::image_data::{blank_rgb_image, rgb_view, zeros, RgbImage};
use crate::text::{trim, trimmed};
use crate::time::{local_publication_time, parsed_instant, renders_local_minute};

verus! {

/// The lead of an article: its description and its optional image.
pub struct LeadData {
    pub description: String,
    pub image_url: Option<String>,
}

/// A tag of an article.
pub struct Tag {
    pub title: String,
}

/// The author of an article.
pub struct Author {
    pub id: String,
    pub alias: String,
}

/// An article as the article list of the API describes it.
pub struct ArticlePreviewResponse {
    pub id: String,
    pub published_at: String,
    pub title: String,
    pub lead_data: LeadData,
    pub tags: Vec<Tag>,
    pub complexity: Option<String>,
    pub reading_time: usize,
    pub author: Option<Author>,
}

/// A page of the article list as the API returns it: the number of pages, the
/// article identifiers (each as its JSON text), and the articles.
pub struct ArticlesResponse {
    pub pages_count: usize,
    pub article_ids: Vec<String>,
    pub articles: Vec<ArticlePreviewResponse>,
}

/// An article page as the API returns it: its title and its HTML text.
pub struct ArticleResponse {
    pub title: String,
    pub text: String,
}

/// What the article list shows of an article; the image is blank until the
/// lead image is fetched.
pub struct ArticleData {
    pub id: String,
    pub title: String,
    pub tags: Vec<String>,
    pub complexity: String,
    pub author: String,
    pub published_at: String,
    pub reading_time: usize,
    pub image_url: String,
    pub image: RgbImage,
}

/// The fields of an article preview in the form the list view takes them.
pub struct ArticlePreview {
    pub id: String,
    pub title: String,
    pub author: String,
    pub published_at: String,
    pub reading_time: i32,
    pub tags: Vec<String>,
    pub complexity: String,
    pub img_url: String,
    pub image: RgbImage,
}

pub open spec fn option_view(o: Option<String>) -> Option<Seq<char>> {
    match o {
        Some(s) => Some(s@),
        None => None,
    }
}

pub struct PreviewView {
    pub id: Seq<char>,
    pub published_at: Seq<char>,
    pub title: Seq<char>,
    pub lead_description: Seq<char>,
    pub lead_image_url: Option<Seq<char>>,
    pub tags: Seq<Seq<char>>,
    pub complexity: Option<Seq<char>>,
    pub reading_time: usize,
    pub author_id: Option<Seq<char>>,
    pub author_alias: Option<Seq<char>>,
}

impl View for ArticlePreviewResponse {
    type V = PreviewView;

    open spec fn view(&self) -> PreviewView {
        PreviewView {
            id: self.id@,
            published_at: self.published_at@,
            title: self.title@,
            lead_description: self.lead_data.description@,
            lead_image_url: option_view(self.lead_data.image_url),
            tags: self.tags@.map_values(|t: Tag| t.title@),
            complexity: option_view(self.complexity),
            reading_time: self.reading_time,
            author_id: match self.author {
                Some(a) => Some(a.id@),
                None => None,
            },
            author_alias: match self.author {
                Some(a) => Some(a.alias@),
                None => None,
            },
        }
    }
}

pub struct ArticleDataView {
    pub id: Seq<char>,
    pub title: Seq<char>,
    pub tags: Seq<Seq<char>>,
    pub complexity: Seq<char>,
    pub author: Seq<char>,
    pub published_at: Seq<char>,
    pub reading_time: usize,
    pub image_url: Seq<char>,
    pub image: (u32, u32, Seq<u8>),
}

impl View for ArticleData {
    type V = ArticleDataView;

    open spec fn view(&self) -> ArticleDataView {
        ArticleDataView {
            id: self.id@,
            title: self.title@,
            tags: strings_view(self.tags@),
            complexity: self.complexity@,
            author: self.author@,
            published_at: self.published_at@,
            reading_time: self.reading_time,
            image_url: self.image_url@,
            image: rgb_view(self.image),
        }
    }
}

pub struct ArticlePreviewView {
    pub id: Seq<char>,
    pub title: Seq<char>,
    pub author: Seq<char>,
    pub published_at: Seq<char>,
    pub reading_time: i32,
    pub tags: Seq<Seq<char>>,
    pub complexity: Seq<char>,
    pub img_url: Seq<char>,
    pub image: (u32, u32, Seq<u8>),
}

impl View for ArticlePreview {
    type V = ArticlePreviewView;

    open spec fn view(&self) -> ArticlePreviewView {
        ArticlePreviewView {
            id: self.id@,
            title: self.title@,
            author: self.author@,
            published_at: self.published_at@,
            reading_time: self.reading_time,
            tags: strings_view(self.tags@),
            complexity: self.complexity@,
            img_url: self.img_url@,
            image: rgb_view(self.image),
        }
    }
}

/// `o`'s text, or the empty text where there is none.
pub open spec fn text_or_empty(o: Option<Seq<char>>) -> Seq<char> {
    match o {
        Some(s) => s,
        None => Seq::empty(),
    }
}

/// The list data of an article, given the text of its publication time: the
/// title without surrounding whitespace, the author's alias (or nothing), the
/// tags' titles, the complexity (or nothing), the lead image URL (or nothing),
/// and a blank 480 by 280 image.
pub open spec fn spec_article_data(a: PreviewView, published_at: Seq<char>) -> ArticleDataView {
    ArticleDataView {
        id: a.id,
        title: trimmed(a.title),
        tags: a.tags,
        complexity: text_or_empty(a.complexity),
        author: text_or_empty(a.author_alias),
        published_at,
        reading_time: a.reading_time,
        image_url: text_or_empty(a.lead_image_url),
        image: (480, 280, zeros(403200)),
    }
}

fn string_or_empty(o: Option<String>) -> (r: String)
    ensures
        r@ == text_or_empty(option_view(o)),
{
    match o {
        Some(s) => s,
        None => String::new(),
    }
}

/// The list data of an article, with `published_at` as the text of its
/// publication time.
pub fn article_data(a: ArticlePreviewResponse, published_at: String) -> (r: ArticleData)
    ensures
        r@ == spec_article_data(a@, published_at@),
{
    let ghost av = a@;
    let title = trim(a.title.as_str());
    let author = match a.author {
        Some(au) => au.alias,
        None => String::new(),
    };
    let mut tags: Vec<String> = Vec::new();
    let mut rest = a.tags;
    let ghost all = av.tags;
    let ghost mut k: int = 0;
    while rest.len() > 0
        invariant
            0 <= k <= all.len(),
            rest@.len() + k == all.len(),
            forall|i: int| 0 <= i < rest@.len() ==> #[trigger] rest@[i].title@ == all[k + i],
            strings_view(tags@) == all.take(k),
        decreases rest@.len(),
    {
        let ghost before = rest@;
        let t = rest.remove(0);
        assert(t.title@ == all[k]);
        assert forall|i: int| 0 <= i < rest@.len() implies #[trigger] rest@[i].title@ == all[k + 1 + i] by {
            assert(rest@[i] == before[i + 1]);
        }
        let ghost tv = t.title@;
        let ghost old_tags = strings_view(tags@);
        tags.push(t.title);
        proof {
            assert(strings_view(tags@) =~= old_tags.push(tv));
            assert(all.take(k + 1) =~= all.take(k).push(tv));
            k = k + 1;
        }
    }
    assert(all.take(k) =~= all);
    ArticleData {
        id: a.id,
        title,
        tags,
        complexity: string_or_empty(a.complexity),
        author,
        published_at,
        reading_time: a.reading_time,
        image_url: string_or_empty(a.lead_data.image_url),
        image: blank_rgb_image(480, 280),
    }
}

pub open spec fn articles_data_view(s: Seq<ArticleData>) -> Seq<ArticleDataView> {
    s.map_values(|d: ArticleData| d@)
}

/// The list data of the articles of a page, in the order of the response, and
/// the number of pages; each publication time is shown to the minute in the
/// machine's time zone. `None` exactly where a publication time names no
/// instant.
pub fn articles_page(resp: ArticlesResponse) -> (r: Option<(Vec<ArticleData>, usize)>)
    ensures
        r is Some <==> forall|i: int|
            0 <= i < resp.articles@.len() ==> (#[trigger] parsed_instant(
                resp.articles@[i].published_at@,
            )) is Some,
        r matches Some((list, pages)) ==> {
            &&& pages == resp.pages_count
            &&& list@.len() == resp.articles@.len()
            &&& forall|i: int|
                0 <= i < list@.len() ==> {
                    &&& #[trigger] list@[i]@ == spec_article_data(
                        resp.articles@[i]@,
                        list@[i]@.published_at,
                    )
                    &&& renders_local_minute(
                        list@[i]@.published_at,
                        parsed_instant(resp.articles@[i].published_at@)->0 as int,
                    )
                }
        },
{
    let ghost all = resp.articles@;
    let mut rest = resp.articles;
    let mut list: Vec<ArticleData> = Vec::new();
    let ghost mut k: int = 0;
    while rest.len() > 0
        invariant
            0 <= k <= all.len(),
            all == resp.articles@,
            rest@.len() + k == all.len(),
            forall|i: int| 0 <= i < rest@.len() ==> #[trigger] rest@[i] == all[k + i],
            list@.len() == k,
            forall|i: int|
                0 <= i < k ==> (#[trigger] parsed_instant(all[i].published_at@)) is Some,
            forall|i: int|
                0 <= i < k ==> {
                    &&& #[trigger] list@[i]@ == spec_article_data(all[i]@, list@[i]@.published_at)
                    &&& renders_local_minute(
                        list@[i]@.published_at,
                        parsed_instant(all[i].published_at@)->0 as int,
                    )
                },
        decreases rest@.len(),
    {
        let ghost before = rest@;
        let a = rest.remove(0);
        assert(a == all[k]);
        assert forall|i: int| 0 <= i < rest@.len() implies #[trigger] rest@[i] == all[k + 1 + i] by {
            assert(rest@[i] == before[i + 1]);
        }
        let published_at = match local_publication_time(a.published_at.as_str()) {
            Some(p) => p,
            None => return None,
        };
        let d = article_data(a, published_at);
        list.push(d);
        proof {
            k = k + 1;
        }
    }
    Some((list, resp.pages_count))
}

/// The title of an article page and its content, in document order.
pub fn article_details(resp: ArticleResponse) -> (r: (String, Vec<ArticleContent>))
    ensures
        r.0@ == resp.title@,
        contents_view(r.1@) == fragment_contents(html_fragment_events(resp.text@)),
{
    let content = extract_content_from_html(resp.text.as_str());
    (resp.title, content)
}

impl ArticleData {
    /// The fields of this article in the form the list view takes them; the
    /// reading time is cut to 32 bits as an `as` cast does.
    pub fn into_preview(self) -> (r: ArticlePreview)
        ensures
            r@ == (ArticlePreviewView {
                id: self@.id,
                title: self@.title,
                author: self@.author,
                published_at: self@.published_at,
                reading_time: self.reading_time as i32,
                tags: self@.tags,
                complexity: self@.complexity,
                img_url: self@.image_url,
                image: self@.image,
            }),
    {
        ArticlePreview {
            id: self.id,
            title: self.title,
            author: self.author,
            published_at: self.published_at,
            reading_time: self.reading_time as i32,
            tags: self.tags,
            complexity: self.complexity,
            img_url: self.image_url,
            image: self.image,
        }
    }
}

/// The lead image URLs of the listed articles, in list order.
pub fn preview_image_urls(articles: &Vec<ArticleData>) -> (r: Vec<String>)
    ensures
        strings_view(r@) == articles_data_view(articles@).map_values(|d: ArticleDataView| d.image_url),
{
    let mut r: Vec<String> = Vec::new();
    let mut i: usize = 0;
    while i < articles.len()
        invariant
            i <= articles@.len(),
            r@.len() == i,
            forall|k: int| 0 <= k < i ==> #[trigger] r@[k]@ == articles@[k].image_url@,
        decreases articles@.len() - i,
    {
        r.push(clone_string(&articles[i].image_url));
        i = i + 1;
    }
    assert(strings_view(r@) =~= articles_data_view(articles@).map_values(|d: ArticleDataView| d.image_url));
    r
}

/// What a piece of article content is in the article view.
#[derive(Debug, Clone, Copy, PartialEq, Eq, Structural)]
pub enum ContentType {
    ContentImage,
    ContentText,
}

/// A piece of article content in the form the article view takes it; an
/// image carries its place among the article's images.
pub struct ContentData {
    pub content_type: ContentType,
    pub image_url: String,
    pub image_index: usize,
    pub text: String,
    pub text_type: DisplayTextType,
}

pub struct ContentDataView {
    pub content_type: ContentType,
    pub image_url: Seq<char>,
    pub image_index: usize,
    pub text: Seq<char>,
    pub text_type: DisplayTextType,
}

impl View for ContentData {
    type V = ContentDataView;

    open spec fn view(&self) -> ContentDataView {
        ContentDataView {
            content_type: self.content_type,
            image_url: self.image_url@,
            image_index: self.image_index,
            text: self.text@,
            text_type: self.text_type,
        }
    }
}

/// The number of images among `s`.
pub open spec fn image_count(s: Seq<ContentView>) -> nat
    decreases s.len(),
{
    if s.len() == 0 {
        0
    } else {
        image_count(s.drop_last()) + if s.last() is Image {
            1nat
        } else {
            0nat
        }
    }
}

/// The image URLs among `s`, in order.
pub open spec fn image_urls(s: Seq<ContentView>) -> Seq<Seq<char>>
    decreases s.len(),
{
    if s.len() == 0 {
        Seq::empty()
    } else {
        image_urls(s.drop_last()) + match s.last() {
            ContentView::Image(src) => seq![src],
            _ => Seq::empty(),
        }
    }
}

/// The article view's form of the content at position `i` of `s`.
pub open spec fn spec_content_data(s: Seq<ContentView>, i: int) -> ContentDataView {
    match s[i] {
        ContentView::Image(src) => ContentDataView {
            content_type: ContentType::ContentImage,
            image_url: src,
            image_index: image_count(s.take(i)) as usize,
            text: Seq::empty(),
            text_type: DisplayTextType::Common,
        },
        ContentView::Text(t, k) => ContentDataView {
            content_type: ContentType::ContentText,
            image_url: Seq::empty(),
            image_index: 0,
            text: t,
            text_type: spec_display_text_type(k),
        },
    }
}

/// The image URLs of an article's content, in document order: the images to
/// fetch for the article view.
pub fn content_image_urls(contents: &Vec<ArticleContent>) -> (r: Vec<String>)
    ensures
        strings_view(r@) == image_urls(contents_view(contents@)),
{
    let ghost cs = contents_view(contents@);
    let mut r: Vec<String> = Vec::new();
    let mut i: usize = 0;
    while i < contents.len()
        invariant
            cs == contents_view(contents@),
            i <= contents@.len(),
            strings_view(r@) == image_urls(cs.take(i as int)),
        decreases contents@.len() - i,
    {
        assert(cs.take(i + 1).drop_last() =~= cs.take(i as int));
        if let ArticleContent::Image(src) = &contents[i] {
            r.push(clone_string(src));
        }
        assert(strings_view(r@) =~= image_urls(cs.take(i + 1)));
        i = i + 1;
    }
    assert(cs.take(i as int) =~= cs);
    r
}

/// The article view's form of an article's content, in document order.
pub fn content_data(contents: &Vec<ArticleContent>) -> (r: Vec<ContentData>)
    ensures
        r@.len() == contents@.len(),
        forall|i: int|
            0 <= i < r@.len() ==> #[trigger] r@[i]@ == spec_content_data(contents_view(contents@), i),
{
    let ghost cs = contents_view(contents@);
    let mut r: Vec<ContentData> = Vec::new();
    let mut images: usize = 0;
    let mut i: usize = 0;
    while i < contents.len()
        invariant
            cs == contents_view(contents@),
            i <= contents@.len(),
            r@.len() == i,
            images == image_count(cs.take(i as int)),
            images <= i,
            forall|k: int| 0 <= k < i ==> #[trigger] r@[k]@ == spec_content_data(cs, k),
        decreases contents@.len() - i,
    {
        assert(cs.take(i + 1).drop_last() =~= cs.take(i as int));
        assert(cs[i as int] == contents@[i as int]@);
        match &contents[i] {
            ArticleContent::Image(src) => {
                r.push(
                    ContentData {
                        content_type: ContentType::ContentImage,
                        image_url: clone_string(src),
                        image_index: images,
                        text: String::new(),
                        text_type: DisplayTextType::Common,
                    },
                );
                images = images + 1;
            },
            ArticleContent::Text(t, k) => {
                r.push(
                    ContentData {
                        content_type: ContentType::ContentText,
                        image_url: String::new(),
                        image_index: 0,
                        text: clone_string(t),
                        text_type: k.into_display(),
                    },
                );
            },
        }
        i = i + 1;
    }
    r
}

/// Whether a piece of content is an image.
pub open spec fn is_image(c: ContentView) -> bool {
    c is Image
}

proof fn lemma_image_count_is_filter(s: Seq<ContentView>)
    ensures
        image_count(s) == s.filter(|c: ContentView| is_image(c)).len(),
        image_urls(s).len() == image_count(s),
    decreases s.len(),
{
    if s.len() > 0 {
        lemma_image_count_is_filter(s.drop_last());
        assert(s =~= s.drop_last().push(s.last()));
        s.drop_last().lemma_filter_push(s.last(), |c: ContentView| is_image(c));
    } else {
        reveal(Seq::filter);
    }
}

proof fn lemma_image_urls_add(a: Seq<ContentView>, b: Seq<ContentView>)
    ensures
        image_urls(a + b) == image_urls(a) + image_urls(b),
    decreases b.len(),
{
    if b.len() == 0 {
        assert(a + b =~= a);
        assert(image_urls(a) + image_urls(b) =~= image_urls(a));
    } else {
        lemma_image_urls_add(a, b.drop_last());
        assert((a + b).drop_last() =~= a + b.drop_last());
        assert((a + b).last() == b.last());
    }
}

/// An image in the article view is numbered by its place among the article's
/// images: its index is the number of images before it, and at that index the
/// list of images to fetch holds its own URL.
pub proof fn lemma_image_index(s: Seq<ContentView>, i: int)
    requires
        0 <= i < s.len(),
        s.len() <= usize::MAX,
        s[i] is Image,
    ensures
        spec_content_data(s, i).content_type == ContentType::ContentImage,
        spec_content_data(s, i).image_url == s[i]->Image_0,
        spec_content_data(s, i).image_index == s.take(i).filter(|c: ContentView| is_image(c)).len(),
        spec_content_data(s, i).image_index < image_urls(s).len(),
        image_urls(s)[spec_content_data(s, i).image_index as int] == s[i]->Image_0,
        image_urls(s).len() == s.filter(|c: ContentView| is_image(c)).len(),
{
    let pre = s.take(i);
    lemma_image_count_is_filter(pre);
    lemma_image_count_is_filter(s);
    assert(pre.len() == i);
    assert(pre.filter(|c: ContentView| is_image(c)).len() <= pre.len()) by {
        broadcast use vstd::seq_lib::group_filter_ensures;
    }
    let mid = seq![s[i]];
    let post = s.skip(i + 1);
    assert(s =~= pre + mid + post);
    lemma_image_urls_add(pre + mid, post);
    lemma_image_urls_add(pre, mid);
    assert(mid.drop_last() =~= Seq::<ContentView>::empty());
    assert(image_urls(mid.drop_last()) =~= Seq::<Seq<char>>::empty());
    assert(mid.last() == s[i]);
    assert(image_urls(mid) =~= seq![s[i]->Image_0]);
    let k = image_urls(pre).len();
    assert(image_urls(s) =~= image_urls(pre) + seq![s[i]->Image_0] + image_urls(post));
    assert(image_urls(s)[k as int] == s[i]->Image_0);
}

/// A text in the article view keeps its text, and shows its kind as
/// `spec_display_text_type` maps it.
pub proof fn lemma_text_item(s: Seq<ContentView>, i: int)
    requires
        0 <= i < s.len(),
        s[i] is Text,
    ensures
        spec_content_data(s, i).content_type == ContentType::ContentText,
        spec_content_data(s, i).text == s[i]->Text_0,
        spec_content_data(s, i).text_type == spec_display_text_type(s[i]->Text_1),
        spec_content_data(s, i).image_url.len() == 0,
{
}

/// The list data of an article carries the response's data unchanged, but
/// for the title, which loses its surrounding whitespace, and the missing
/// texts, which become empty: the same identifier, every tag title in order,
/// the author's alias, the complexity, the reading time, the lead image URL
/// and the given publication time.
pub proof fn lemma_article_data_fields(a: ArticlePreviewResponse, published_at: Seq<char>)
    ensures
        spec_article_data(a@, published_at).id == a.id@,
        spec_article_data(a@, published_at).title == trimmed(a.title@),
        spec_article_data(a@, published_at).tags == a.tags@.map_values(|t: Tag| t.title@),
        spec_article_data(a@, published_at).tags.len() == a.tags@.len(),
        forall|i: int|
            0 <= i < a.tags@.len() ==> #[trigger] spec_article_data(a@, published_at).tags[i]
                == a.tags@[i].title@,
        spec_article_data(a@, published_at).author == match a.author {
            Some(au) => au.alias@,
            None => Seq::<char>::empty(),
        },
        spec_article_data(a@, published_at).complexity == match a.complexity {
            Some(c) => c@,
            None => Seq::<char>::empty(),
        },
        spec_article_data(a@, published_at).image_url == match a.lead_data.image_url {
            Some(u) => u@,
            None => Seq::<char>::empty(),
        },
        spec_article_data(a@, published_at).reading_time == a.reading_time,
        spec_article_data(a@, published_at).published_at == published_at,
{
}

} // verus!
