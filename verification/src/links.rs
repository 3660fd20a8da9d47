//! Web addresses as the client reads them, and the rules that decide which
//! of them stay inside the site window, which go to the system and which
//! deep links lead where.

use vstd::prelude::*;

use crate::text::{
    chars_of, ends_with, has_char, same_text, split_chars, split_on, text_ends_with, views,
};

verus! {

/// A parsed absolute URL, held as the parts that the client reads.
#[derive(Clone, Debug)]
pub struct WebUrl {
    /// The whole serialization.
    pub href: String,
    /// The scheme, lower case, without `:`.
    pub scheme: String,
    /// The host, when the URL has one.
    pub host: Option<String>,
    /// The percent-encoded path.
    pub path: String,
    /// The percent-encoded query, without `?`.
    pub query: Option<String>,
    /// The query read as `application/x-www-form-urlencoded` pairs.
    pub query_pairs: Vec<(String, String)>,
}

/// The parts of a parsed URL, as text.
pub struct UrlView {
    pub href: Seq<char>,
    pub scheme: Seq<char>,
    pub host: Option<Seq<char>>,
    pub path: Seq<char>,
    pub query: Option<Seq<char>>,
    pub query_pairs: Seq<(Seq<char>, Seq<char>)>,
}

pub open spec fn opt_view(o: Option<String>) -> Option<Seq<char>> {
    match o {
        Some(s) => Some(s@),
        None => None,
    }
}

impl View for WebUrl {
    type V = UrlView;

    open spec fn view(&self) -> UrlView {
        UrlView {
            href: self.href@,
            scheme: self.scheme@,
            host: opt_view(self.host),
            path: self.path@,
            query: opt_view(self.query),
            query_pairs: self.query_pairs@.map_values(|p: (String, String)| (p.0@, p.1@)),
        }
    }
}

/// What `url::Url::parse` makes of a text: the parts of the URL, or the
/// text of the error.
pub uninterp spec fn parsed_url(input: Seq<char>) -> Result<UrlView, Seq<char>>;

/// `url::Url::parse`, read out into a [`WebUrl`]; an error is given as its
/// message. The parts are those that the URL's accessors return (`as_str`,
/// `scheme`, `host_str`, `path`, `query`, `query_pairs`); what they are for a
/// given text is left to the name [`parsed_url`].
#[verifier::external_body]
fn parse_with_url_crate(input: &str) -> (res: Result<WebUrl, String>)
    ensures
        match res {
            Ok(u) => parsed_url(input@) == Ok::<UrlView, Seq<char>>(u@),
            Err(e) => parsed_url(input@) == Err::<UrlView, Seq<char>>(e@),
        },
{
    let u = url::Url::parse(input).map_err(|e| e.to_string())?;
    let query_pairs = u.query_pairs().map(|(k, v)| (k.into_owned(), v.into_owned())).collect();
    Ok(WebUrl {
        href: u.as_str().to_owned(),
        scheme: u.scheme().to_owned(),
        host: u.host_str().map(str::to_owned),
        path: u.path().to_owned(),
        query: u.query().map(str::to_owned),
        query_pairs,
    })
}

impl WebUrl {
    /// Parses an absolute URL.
    pub fn parse(input: &str) -> (res: Result<WebUrl, String>)
        ensures
            match res {
                Ok(u) => parsed_url(input@) == Ok::<UrlView, Seq<char>>(u@),
                Err(e) => parsed_url(input@) == Err::<UrlView, Seq<char>>(e@),
            },
    {
        parse_with_url_crate(input)
    }
}

/// `http` or `https`.
pub open spec fn is_web_scheme(scheme: Seq<char>) -> bool {
    scheme == "https"@ || scheme == "http"@
}

/// The site itself or one of its subdomains.
pub open spec fn is_site_host(host: Seq<char>) -> bool {
    host == "eblo.id"@ || ends_with(host, ".eblo.id"@)
}

/// A page of the site, over HTTP(S).
pub open spec fn site_url(u: UrlView) -> bool {
    is_web_scheme(u.scheme) && match u.host {
        Some(h) => is_site_host(h),
        None => false,
    }
}

/// An address that the site window may load itself: a site page, or an
/// `about:`, `data:` or `blob:` address.
pub open spec fn embedded_navigation(u: UrlView) -> bool {
    site_url(u) || u.scheme == "about"@ || u.scheme == "data"@ || u.scheme == "blob"@
}

/// An address that the system may open: web pages, mail and phone links.
pub open spec fn system_link(u: UrlView) -> bool {
    is_web_scheme(u.scheme) || u.scheme == "mailto"@ || u.scheme == "tel"@
}

/// An address that the download manager may fetch.
pub open spec fn downloadable(u: UrlView) -> bool {
    is_web_scheme(u.scheme)
}

fn is_web_scheme_text(scheme: &str) -> (res: bool)
    ensures
        res == is_web_scheme(scheme@),
{
    same_text(scheme, "https") || same_text(scheme, "http")
}

/// Whether the URL is a page of the site.
pub fn is_ebloid_url(url: &WebUrl) -> (res: bool)
    ensures
        res == site_url(url@),
{
    if !is_web_scheme_text(url.scheme.as_str()) {
        return false;
    }
    match &url.host {
        Some(host) => same_text(host.as_str(), "eblo.id") || text_ends_with(host.as_str(), ".eblo.id"),
        None => false,
    }
}

/// Whether the site window may load the URL itself.
pub fn is_embedded_navigation(url: &WebUrl) -> (res: bool)
    ensures
        res == embedded_navigation(url@),
{
    is_ebloid_url(url) || same_text(url.scheme.as_str(), "about") || same_text(
        url.scheme.as_str(),
        "data",
    ) || same_text(url.scheme.as_str(), "blob")
}

/// Whether the system may open the URL.
pub fn is_system_link(url: &WebUrl) -> (res: bool)
    ensures
        res == system_link(url@),
{
    is_web_scheme_text(url.scheme.as_str()) || same_text(url.scheme.as_str(), "mailto")
        || same_text(url.scheme.as_str(), "tel")
}

/// Whether the download manager may fetch the URL.
pub fn is_downloadable_url(url: &WebUrl) -> (res: bool)
    ensures
        res == downloadable(url@),
{
    is_web_scheme_text(url.scheme.as_str())
}

} // verus!

verus! {

/// The `/`-separated segments of a path that starts with `/`; `None` for a
/// path that does not (a cannot-be-a-base URL).
pub open spec fn path_segments(path: Seq<char>) -> Option<Seq<Seq<char>>> {
    if path.len() > 0 && path[0] == '/' {
        Some(split_on(path.drop_first(), '/'))
    } else {
        None
    }
}

/// The last segment that is not empty.
pub open spec fn last_nonempty(segments: Seq<Seq<char>>) -> Option<Seq<char>>
    decreases segments.len(),
{
    if segments.len() == 0 {
        None
    } else if segments.last().len() > 0 {
        Some(segments.last())
    } else {
        last_nonempty(segments.drop_last())
    }
}

/// The name a download gets when the server names none: the last path
/// segment that is not empty, when it holds a `.`, else `ebloid-download`.
pub open spec fn suggested_name(u: UrlView) -> Seq<char> {
    match path_segments(u.path) {
        Some(segments) => match last_nonempty(segments) {
            Some(s) => if s.contains('.') {
                s
            } else {
                "ebloid-download"@
            },
            None => "ebloid-download"@,
        },
        None => "ebloid-download"@,
    }
}

fn last_nonempty_piece(pieces: &Vec<Vec<char>>) -> (res: Option<Vec<char>>)
    ensures
        res is Some <==> last_nonempty(views(pieces@)) is Some,
        res matches Some(r) ==> r@ == last_nonempty(views(pieces@)).unwrap(),
{
    let mut k = pieces.len();
    assert(views(pieces@).take(k as int) =~= views(pieces@));
    while k > 0
        invariant
            k <= pieces@.len(),
            last_nonempty(views(pieces@)) == last_nonempty(views(pieces@).take(k as int)),
        decreases k,
    {
        assert(views(pieces@).take(k as int).last() == pieces@[k - 1]@);
        assert(views(pieces@).take(k as int).drop_last() =~= views(pieces@).take(k - 1));
        if pieces[k - 1].len() > 0 {
            return Some(pieces[k - 1].clone());
        }
        k = k - 1;
    }
    None
}

/// The name to save a download under when the server names none: see
/// [`suggested_name`].
pub fn suggested_filename(url: &WebUrl) -> (res: String)
    ensures
        res@ == suggested_name(url@),
{
    let path = chars_of(url.path.as_str());
    if path.len() > 0 && path[0] == '/' {
        let rest = crate::text::chars_between(path.as_slice(), 1, path.len());
        assert(rest@ =~= path@.drop_first());
        let pieces = split_chars(rest.as_slice(), '/');
        match last_nonempty_piece(&pieces) {
            Some(name) => {
                if has_char(name.as_slice(), '.') {
                    return crate::text::string_of(name.as_slice());
                }
            },
            None => {},
        }
    }
    "ebloid-download".to_owned()
}

} // verus!

verus! {

/// The value of the first query pair with the given key.
pub open spec fn first_value_of(pairs: Seq<(Seq<char>, Seq<char>)>, key: Seq<char>) -> Option<
    Seq<char>,
>
    decreases pairs.len(),
{
    if pairs.len() == 0 {
        None
    } else if pairs[0].0 == key {
        Some(pairs[0].1)
    } else {
        first_value_of(pairs.drop_first(), key)
    }
}

/// The address text that an `ebloid:` link asks for: `ebloid://open?url=..`
/// names it in its `url` parameter; any other host but `share` stands for
/// that section of the site, with the link's path and query.
pub open spec fn deep_link_text(u: UrlView) -> Option<Seq<char>> {
    if u.scheme != "ebloid"@ || u.host == Some("share"@) {
        None
    } else if u.host == Some("open"@) {
        first_value_of(u.query_pairs, "url"@)
    } else {
        let host = match u.host {
            Some(h) => h,
            None => Seq::<char>::empty(),
        };
        let query = match u.query {
            Some(q) => seq!['?'] + q,
            None => Seq::<char>::empty(),
        };
        Some("https://eblo.id/"@ + host + u.path + query)
    }
}

/// A parsed address kept only when it is a page of the site.
pub open spec fn site_destination_of(parsed: Result<UrlView, Seq<char>>) -> Option<UrlView> {
    match parsed {
        Ok(d) => if site_url(d) {
            Some(d)
        } else {
            None
        },
        Err(_) => None,
    }
}

/// The site page that an `ebloid:` link leads to.
pub open spec fn deep_link_destination(u: UrlView) -> Option<UrlView> {
    match deep_link_text(u) {
        Some(t) => site_destination_of(parsed_url(t)),
        None => None,
    }
}

fn host_is(url: &WebUrl, name: &str) -> (res: bool)
    ensures
        res == (url@.host == Some(name@)),
{
    match &url.host {
        Some(h) => same_text(h.as_str(), name),
        None => false,
    }
}

/// The address text that an `ebloid:` link asks for: see [`deep_link_text`].
pub fn deep_link_target(url: &WebUrl) -> (res: Option<String>)
    ensures
        res is Some <==> deep_link_text(url@) is Some,
        res matches Some(t) ==> t@ == deep_link_text(url@).unwrap(),
{
    if !same_text(url.scheme.as_str(), "ebloid") || host_is(url, "share") {
        return None;
    }
    if host_is(url, "open") {
        let pairs = &url.query_pairs;
        let ghost all = url@.query_pairs;
        let n = pairs.len();
        assert(all.skip(0) =~= all);
        assert(deep_link_text(url@) == first_value_of(all, "url"@));
        for i in 0..n
            invariant
                n == pairs@.len(),
                deep_link_text(url@) == first_value_of(all, "url"@),
                all == pairs@.map_values(|p: (String, String)| (p.0@, p.1@)),
                first_value_of(all, "url"@) == first_value_of(all.skip(i as int), "url"@),
        {
            assert(all.skip(i as int)[0] == all[i as int]);
            assert(all.skip(i as int).drop_first() =~= all.skip(i + 1));
            if same_text(pairs[i].0.as_str(), "url") {
                assert(all[i as int].1 == pairs@[i as int].1@);
                return Some(pairs[i].1.clone());
            }
        }
        return None;
    }
    let mut text = "https://eblo.id/".to_owned();
    match &url.host {
        Some(h) => text.append(h.as_str()),
        None => {},
    }
    text.append(url.path.as_str());
    match &url.query {
        Some(q) => {
            text.append("?");
            text.append(q.as_str());
        },
        None => {},
    }
    proof {
        reveal_strlit("?");
    }
    assert(text@ =~= deep_link_text(url@).unwrap());
    Some(text)
}

/// Keeps a parsed address only when it is a page of the site.
pub fn site_destination(parsed: Result<WebUrl, String>) -> (res: Option<WebUrl>)
    ensures
        res is Some <==> site_destination_of(
            match parsed {
                Ok(u) => Ok::<UrlView, Seq<char>>(u@),
                Err(e) => Err::<UrlView, Seq<char>>(e@),
            },
        ) is Some,
        res matches Some(d) ==> parsed is Ok && d@ == parsed->Ok_0@ && site_url(d@),
{
    match parsed {
        Ok(d) => if is_ebloid_url(&d) {
            Some(d)
        } else {
            None
        },
        Err(_) => None,
    }
}

/// The site page that an `ebloid:` link leads to: see
/// [`deep_link_destination`].
pub fn destination_from_deep_link(url: &WebUrl) -> (res: Option<WebUrl>)
    ensures
        res is Some <==> deep_link_destination(url@) is Some,
        res matches Some(d) ==> d@ == deep_link_destination(url@).unwrap(),
{
    match deep_link_target(url) {
        Some(text) => site_destination(WebUrl::parse(text.as_str())),
        None => None,
    }
}

} // verus!

verus! {

/// Every site page is a web address, every web address may be downloaded
/// and opened by the system, and the site window loads site pages itself.
pub proof fn site_pages_are_web_links(u: UrlView)
    ensures
        site_url(u) ==> downloadable(u),
        downloadable(u) ==> system_link(u),
        site_url(u) ==> embedded_navigation(u),
{
}

/// A deep link never leads out of the site: whatever address it names, the
/// window is only sent to a page of the site.
pub proof fn deep_links_stay_on_site(u: UrlView)
    ensures
        deep_link_destination(u) matches Some(d) ==> site_url(d),
{
}

/// An `ebloid:` link to a section of the site (a host other than `share`
/// and `open`) asks for `https://eblo.id/`, then its host, its path, and,
/// whenever it has a query, `?` and the query, whatever the path is.
pub proof fn section_links_keep_path_and_query(u: UrlView)
    requires
        u.scheme == "ebloid"@,
        u.host != Some("share"@),
        u.host != Some("open"@),
    ensures
        deep_link_text(u) == Some(
            "https://eblo.id/"@ + match u.host {
                Some(h) => h,
                None => Seq::<char>::empty(),
            } + u.path + match u.query {
                Some(q) => seq!['?'] + q,
                None => Seq::<char>::empty(),
            },
        ),
        u.query matches Some(q) ==> deep_link_text(u).unwrap().subrange(
            deep_link_text(u).unwrap().len() - q.len() - 1,
            deep_link_text(u).unwrap().len() as int,
        ) == seq!['?'] + q,
{
    let t = deep_link_text(u).unwrap();
    if let Some(q) = u.query {
        assert(t.subrange(t.len() - q.len() - 1, t.len() as int) =~= seq!['?'] + q);
    }
}

/// An `ebloid://open` link asks for the value of its first `url` query
/// parameter, and a `share` link or a link of another scheme for nothing.
pub proof fn open_links_name_their_address(u: UrlView)
    ensures
        u.scheme == "ebloid"@ && u.host == Some("open"@) ==> deep_link_text(u) == first_value_of(
            u.query_pairs,
            "url"@,
        ),
        u.scheme != "ebloid"@ || u.host == Some("share"@) ==> deep_link_text(u) is None,
{
    reveal_strlit("open");
    reveal_strlit("share");
    assert("open"@ != "share"@) by {
        assert("open"@[0] != "share"@[0]);
    }
}

proof fn lemma_last_nonempty_at(segments: Seq<Seq<char>>, k: int)
    requires
        0 <= k < segments.len(),
        segments[k].len() > 0,
        forall|j: int| k < j < segments.len() ==> (#[trigger] segments[j]).len() == 0,
    ensures
        last_nonempty(segments) == Some(segments[k]),
    decreases segments.len(),
{
    if k < segments.len() - 1 {
        assert(segments.last().len() == 0) by {
            assert(segments[segments.len() - 1].len() == 0);
        }
        let d = segments.drop_last();
        assert forall|j: int| k < j < d.len() implies (#[trigger] d[j]).len() == 0 by {
            assert(d[j] == segments[j]);
        }
        lemma_last_nonempty_at(d, k);
    }
}

/// When a path starts with `/` and its last segment that is not empty holds
/// a `.`, the suggested name is exactly that segment, whatever else it
/// holds; when that segment holds no `.`, or every segment is empty, the
/// name is `ebloid-download`.
pub proof fn suggested_names_are_last_segments(u: UrlView, k: int)
    requires
        u.path.len() > 0,
        u.path[0] == '/',
        0 <= k < split_on(u.path.drop_first(), '/').len(),
        split_on(u.path.drop_first(), '/')[k].len() > 0,
        forall|j: int|
            k < j < split_on(u.path.drop_first(), '/').len() ==> (#[trigger] split_on(
                u.path.drop_first(),
                '/',
            )[j]).len() == 0,
    ensures
        split_on(u.path.drop_first(), '/')[k].contains('.') ==> suggested_name(u) == split_on(
            u.path.drop_first(),
            '/',
        )[k],
        !split_on(u.path.drop_first(), '/')[k].contains('.') ==> suggested_name(u)
            == "ebloid-download"@,
{
    lemma_last_nonempty_at(split_on(u.path.drop_first(), '/'), k);
}

/// A path that does not start with `/`, or whose segments are all empty,
/// suggests `ebloid-download`.
pub proof fn unnamed_paths_suggest_the_default(u: UrlView)
    ensures
        !(u.path.len() > 0 && u.path[0] == '/') ==> suggested_name(u) == "ebloid-download"@,
        u.path.len() > 0 && u.path[0] == '/' && (forall|j: int|
            0 <= j < split_on(u.path.drop_first(), '/').len() ==> (#[trigger] split_on(
                u.path.drop_first(),
                '/',
            )[j]).len() == 0) ==> suggested_name(u) == "ebloid-download"@,
{
    if u.path.len() > 0 && u.path[0] == '/' {
        lemma_no_nonempty(split_on(u.path.drop_first(), '/'));
    }
}

proof fn lemma_no_nonempty(segments: Seq<Seq<char>>)
    ensures
        (forall|j: int| 0 <= j < segments.len() ==> (#[trigger] segments[j]).len() == 0)
            ==> last_nonempty(segments) is None,
    decreases segments.len(),
{
    if segments.len() > 0 {
        let d = segments.drop_last();
        if forall|j: int| 0 <= j < segments.len() ==> (#[trigger] segments[j]).len() == 0 {
            assert(segments[segments.len() - 1].len() == 0);
            assert forall|j: int| 0 <= j < d.len() implies (#[trigger] d[j]).len() == 0 by {
                assert(d[j] == segments[j]);
            }
        }
        lemma_no_nonempty(d);
    }
}

/// The value of a key among query pairs is that of its first pair: the
/// value at `k` when the pair at `k` has the key and none before it does;
/// none when no pair has it.
pub proof fn first_pair_with_key_wins(pairs: Seq<(Seq<char>, Seq<char>)>, key: Seq<char>, k: int)
    ensures
        0 <= k < pairs.len() && pairs[k].0 == key && (forall|j: int|
            0 <= j < k ==> (#[trigger] pairs[j]).0 != key) ==> first_value_of(pairs, key) == Some(
            pairs[k].1,
        ),
        (forall|j: int| 0 <= j < pairs.len() ==> (#[trigger] pairs[j]).0 != key) ==> first_value_of(
            pairs,
            key,
        ) is None,
    decreases pairs.len(),
{
    if pairs.len() > 0 {
        let d = pairs.drop_first();
        first_pair_with_key_wins(d, key, k - 1);
        if 0 < k < pairs.len() && pairs[k].0 == key && (forall|j: int|
            0 <= j < k ==> (#[trigger] pairs[j]).0 != key) {
            assert(pairs[0].0 != key);
            assert(d[k - 1] == pairs[k]);
            assert forall|j: int| 0 <= j < k - 1 implies (#[trigger] d[j]).0 != key by {
                assert(d[j] == pairs[j + 1]);
            }
        }
        if forall|j: int| 0 <= j < pairs.len() ==> (#[trigger] pairs[j]).0 != key {
            assert(pairs[0].0 != key);
            assert forall|j: int| 0 <= j < d.len() implies (#[trigger] d[j]).0 != key by {
                assert(d[j] == pairs[j + 1]);
            }
        }
    }
}

} // verus!
