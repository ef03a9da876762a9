//! Hubs: the topics of the site, as the hub list shows them.
use vstd::prelude::*;

use crate::image_data::{blank_image, zeros, DecodedImage};
use crate::text::{
    lemma_lex_lt_asymmetric, lemma_lex_lt_irreflexive, lemma_lex_lt_total,
    lemma_lex_lt_transitive, lex_lt, str_less,
};

verus! {

/// A hub as the API describes it.
pub struct HubItem {
    pub id: String,
    pub alias: String,
    pub title: String,
    pub description_html: String,
    pub common_tags: Vec<String>,
    pub image_url: String,
}

pub struct HubItemView {
    pub id: Seq<char>,
    pub alias: Seq<char>,
    pub title: Seq<char>,
    pub description_html: Seq<char>,
    pub common_tags: Seq<Seq<char>>,
    pub image_url: Seq<char>,
}

impl View for HubItem {
    type V = HubItemView;

    open spec fn view(&self) -> HubItemView {
        HubItemView {
            id: self.id@,
            alias: self.alias@,
            title: self.title@,
            description_html: self.description_html@,
            common_tags: self.common_tags@.map_values(|t: String| t@),
            image_url: self.image_url@,
        }
    }
}

pub open spec fn hubs_view(s: Seq<HubItem>) -> Seq<HubItemView> {
    s.map_values(|h: HubItem| h@)
}

/// A page of the hub list as the API returns it: the number of pages, the
/// hub identifiers (each as its JSON text), and the hubs.
pub struct HubsResponse {
    pub pages_count: usize,
    pub hub_ids: Vec<String>,
    pub hub_refs: Vec<HubItem>,
}

/// What the hub list shows of a hub; the image is a blank icon until the
/// hub's own icon is fetched.
pub struct HubData {
    pub id: String,
    pub title: String,
    pub description: String,
    pub image_url: String,
    pub image: DecodedImage,
}

impl HubItem {
    /// What the hub list shows of this hub: its alias as identifier, its
    /// title, its description, its icon URL, and a blank 96 by 96 icon.
    pub fn into_hub_data(self) -> (r: HubData)
        ensures
            r.id@ == self.alias@,
            r.title@ == self.title@,
            r.description@ == self.description_html@,
            r.image_url@ == self.image_url@,
            r.image.width == 96 && r.image.height == 96 && r.image.rgba@ == zeros(36864),
    {
        HubData {
            id: self.alias,
            title: self.title,
            description: self.description_html,
            image_url: self.image_url,
            image: blank_image(96, 96),
        }
    }
}

/// The URL of a hub's icon: the API gives it without a scheme.
pub fn hub_icon_url(image_url: &str) -> (r: String)
    ensures
        r@ == "https:"@ + image_url@,
{
    String::from_str("https:").concat(image_url)
}

/// Hubs ordered by title: no hub comes after one whose title is smaller.
pub open spec fn sorted_by_title(s: Seq<HubItemView>) -> bool {
    forall|i: int, j: int| 0 <= i < j < s.len() ==> !lex_lt(s[j].title, s[i].title)
}

/// The hubs of `s` whose title is `t`, in their order in `s`.
pub open spec fn with_title(s: Seq<HubItemView>, t: Seq<char>) -> Seq<HubItemView> {
    s.filter(|h: HubItemView| h.title == t)
}

proof fn lemma_with_title_single(x: HubItemView, t: Seq<char>)
    ensures
        with_title(seq![x], t) == if x.title == t {
            seq![x]
        } else {
            Seq::<HubItemView>::empty()
        },
{
    let e = Seq::<HubItemView>::empty();
    assert(seq![x] =~= e.push(x));
    e.lemma_filter_push(x, |h: HubItemView| h.title == t);
    reveal(Seq::filter);
    assert(e.filter(|h: HubItemView| h.title == t) =~= e);
}

proof fn lemma_insert_sorted(r: Seq<HubItemView>, p: int, x: HubItemView)
    requires
        sorted_by_title(r),
        0 <= p <= r.len(),
        forall|q: int| 0 <= q < p ==> !lex_lt(x.title, #[trigger] r[q].title),
        p < r.len() ==> lex_lt(x.title, r[p].title),
    ensures
        sorted_by_title(r.insert(p, x)),
        forall|t: Seq<char>|
            #[trigger] with_title(r.insert(p, x), t) == if x.title == t {
                with_title(r, t).push(x)
            } else {
                with_title(r, t)
            },
{
    let s = r.insert(p, x);
    assert forall|q: int| p <= q < r.len() implies lex_lt(x.title, #[trigger] r[q].title) by {
        if q > p {
            lemma_lex_lt_total(r[p].title, r[q].title);
            if lex_lt(r[p].title, r[q].title) {
                lemma_lex_lt_transitive(x.title, r[p].title, r[q].title);
            }
        }
    }
    assert forall|i: int, j: int| 0 <= i < j < s.len() implies !lex_lt(s[j].title, s[i].title) by {
        if i == p {
            lemma_lex_lt_asymmetric(x.title, r[j - 1].title);
        } else if j == p {
        } else if i < p && j > p {
            assert(s[j] == r[j - 1]);
        } else if i > p {
            assert(s[i] == r[i - 1] && s[j] == r[j - 1]);
        }
    }
    let front = r.take(p);
    let back = r.skip(p);
    assert(s =~= front + seq![x] + back);
    assert(r =~= front + back);
    assert forall|t: Seq<char>|
        #[trigger] with_title(r.insert(p, x), t) == if x.title == t {
            with_title(r, t).push(x)
        } else {
            with_title(r, t)
        } by {
        let pred = |h: HubItemView| h.title == t;
        Seq::filter_distributes_over_add(front + seq![x], back, pred);
        Seq::filter_distributes_over_add(front, seq![x], pred);
        Seq::filter_distributes_over_add(front, back, pred);
        lemma_with_title_single(x, t);
        if x.title == t {
            assert forall|q: int| 0 <= q < back.len() implies !pred(#[trigger] back[q]) by {
                assert(back[q] == r[p + q]);
                lemma_lex_lt_irreflexive(x.title);
            }
            back.lemma_all_neg_filter_empty(pred);
            assert(back.filter(pred) =~= Seq::<HubItemView>::empty());
            assert(with_title(s, t) =~= with_title(r, t).push(x));
        } else {
            assert(with_title(s, t) =~= with_title(r, t));
        }
    }
}

proof fn lemma_with_title_count(s: Seq<HubItemView>, x: HubItemView)
    ensures
        with_title(s, x.title).to_multiset().count(x) == s.to_multiset().count(x),
    decreases s.len(),
{
    broadcast use vstd::seq_lib::group_to_multiset_ensures;

    let pred = |h: HubItemView| h.title == x.title;
    if s.len() == 0 {
        reveal(Seq::filter);
        assert(with_title(s, x.title) =~= s);
    } else {
        let init = s.drop_last();
        lemma_with_title_count(init, x);
        assert(s =~= init.push(s.last()));
        init.lemma_filter_push(s.last(), pred);
    }
}

/// Sorting by title keeps the hubs: two lists that hold, for every title, the
/// same hubs with that title in the same order hold the same hubs, each as
/// often as the other.
pub proof fn lemma_sort_keeps_hubs(input: Seq<HubItemView>, output: Seq<HubItemView>)
    requires
        forall|t: Seq<char>| #[trigger] with_title(output, t) == with_title(input, t),
    ensures
        output.to_multiset() == input.to_multiset(),
        output.len() == input.len(),
{
    broadcast use vstd::seq_lib::group_to_multiset_ensures;

    assert forall|x: HubItemView| output.to_multiset().count(x) == input.to_multiset().count(x) by {
        lemma_with_title_count(output, x);
        lemma_with_title_count(input, x);
        assert(with_title(output, x.title) == with_title(input, x.title));
    }
    assert(output.to_multiset() =~= input.to_multiset());
    assert(output.to_multiset().len() == input.to_multiset().len());
}

/// Orders hubs by title. Hubs with equal titles keep their order: for every
/// title, the hubs with that title come out in the order they came in.
pub fn sort_hubs_by_title(hubs: Vec<HubItem>) -> (r: Vec<HubItem>)
    ensures
        sorted_by_title(hubs_view(r@)),
        forall|t: Seq<char>|
            #[trigger] with_title(hubs_view(r@), t) == with_title(hubs_view(hubs@), t),
{
    let ghost input = hubs_view(hubs@);
    let mut rest = hubs;
    let mut sorted: Vec<HubItem> = Vec::new();
    let ghost mut k: int = 0;
    proof {
        assert(input.skip(0) =~= input);
        assert forall|t: Seq<char>|
            #[trigger] with_title(hubs_view(sorted@), t) == with_title(input.take(0), t) by {
            reveal(Seq::filter);
            assert(hubs_view(sorted@) =~= input.take(0));
        }
    }
    while rest.len() > 0
        invariant
            0 <= k <= input.len(),
            rest@.len() + k == input.len(),
            hubs_view(rest@) == input.skip(k),
            sorted_by_title(hubs_view(sorted@)),
            forall|t: Seq<char>|
                #[trigger] with_title(hubs_view(sorted@), t) == with_title(input.take(k), t),
        decreases rest@.len(),
    {
        let ghost r = hubs_view(sorted@);
        assert(hubs_view(rest@)[0] == rest@[0]@);
        let ghost rest_before = rest@;
        let h = rest.remove(0);
        assert forall|i: int| 0 <= i < rest@.len() implies #[trigger] rest@[i]@ == input[k + 1 + i] by {
            assert(rest@[i] == rest_before[i + 1]);
            assert(hubs_view(rest_before)[i + 1] == input.skip(k)[i + 1]);
        }
        assert(h@ == input[k]);
        let mut p: usize = 0;
        while p < sorted.len() && !str_less(h.title.as_str(), sorted[p].title.as_str())
            invariant
                r == hubs_view(sorted@),
                p <= sorted@.len(),
                forall|q: int| 0 <= q < p ==> !lex_lt(h.title@, #[trigger] r[q].title),
            decreases sorted@.len() - p,
        {
            p = p + 1;
        }
        proof {
            lemma_insert_sorted(r, p as int, h@);
            assert(input.take(k + 1) =~= input.take(k).push(input[k]));
            assert forall|t: Seq<char>|
                #[trigger] with_title(input.take(k + 1), t) == if h@.title == t {
                    with_title(input.take(k), t).push(h@)
                } else {
                    with_title(input.take(k), t)
                } by {
                input.take(k).lemma_filter_push(input[k], |v: HubItemView| v.title == t);
            }
        }
        sorted.insert(p, h);
        proof {
            assert(hubs_view(sorted@) =~= r.insert(p as int, h@));
            assert(hubs_view(rest@) =~= input.skip(k + 1));
            k = k + 1;
        }
    }
    proof {
        assert(input.take(k) =~= input);
    }
    sorted
}

/// The hubs of a page of the hub list, ordered by title, and the number of
/// pages.
pub fn hubs_page(resp: HubsResponse) -> (r: (Vec<HubItem>, usize))
    ensures
        sorted_by_title(hubs_view(r.0@)),
        forall|t: Seq<char>|
            #[trigger] with_title(hubs_view(r.0@), t) == with_title(hubs_view(resp.hub_refs@), t),
        r.1 == resp.pages_count,
{
    (sort_hubs_by_title(resp.hub_refs), resp.pages_count)
}

/// Being ordered by title means that no hub comes after a hub whose title is
/// larger in code point order.
pub proof fn lemma_sorted_by_title(s: Seq<HubItemView>)
    ensures
        sorted_by_title(s) <==> forall|i: int, j: int|
            0 <= i <= j < s.len() ==> !lex_lt(#[trigger] s[j].title, #[trigger] s[i].title),
{
    if sorted_by_title(s) {
        assert forall|i: int, j: int| 0 <= i <= j < s.len() implies !lex_lt(
            #[trigger] s[j].title,
            #[trigger] s[i].title,
        ) by {
            if i == j {
                lemma_lex_lt_irreflexive(s[i].title);
            }
        }
    }
}

/// The hubs with a given title are taken in order: none from no hubs, and a
/// hub added at the end is added at the end exactly where it has that title.
pub proof fn lemma_with_title_push(s: Seq<HubItemView>, h: HubItemView, t: Seq<char>)
    ensures
        with_title(Seq::empty(), t) == Seq::<HubItemView>::empty(),
        with_title(s.push(h), t) == if h.title == t {
            with_title(s, t).push(h)
        } else {
            with_title(s, t)
        },
{
    reveal(Seq::filter);
    assert(with_title(Seq::empty(), t) =~= Seq::<HubItemView>::empty());
    s.lemma_filter_push(h, |v: HubItemView| v.title == t);
}

} // verus!
