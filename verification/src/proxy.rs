//! The decisions of a caching HTTP proxy: which resources are blocked or
//! ignored, how a request is rewritten for the origin server, and the
//! table of cached resources with the files that hold them.

use vstd::prelude::*;
use vstd::string::{StrSliceExecFns, StringExecFns};
use crate::shell::str_eq;

verus! {

/// The resources the proxy refuses to fetch.
pub struct Config {
    pub blacklist: Vec<String>,
}

/// `entry` is on the blacklist.
pub open spec fn listed(blacklist: Seq<String>, entry: Seq<char>) -> bool {
    exists|i: int| 0 <= i < blacklist.len() && #[trigger] blacklist[i]@ == entry
}

/// A blacklist lists exactly its items, compared as whole texts: nothing is
/// on an empty list, adding an item lists that very text and nothing else
/// (a text that only begins with it, or is part of it, is not listed), and
/// whatever is listed equals one of the items.
pub proof fn lemma_listed_exactly_items(blacklist: Seq<String>, item: String, entry: Seq<char>)
    ensures
        !listed(Seq::<String>::empty(), entry),
        listed(blacklist.push(item), entry) <==> (listed(blacklist, entry) || item@ == entry),
        listed(blacklist, entry) ==> exists|i: int|
            0 <= i < blacklist.len() && #[trigger] blacklist[i]@ == entry,
        (forall|i: int| 0 <= i < blacklist.len() ==> #[trigger] blacklist[i]@ != entry) ==> !listed(
            blacklist,
            entry,
        ),
{
    let b2 = blacklist.push(item);
    if listed(b2, entry) {
        let i = choose|i: int| 0 <= i < b2.len() && #[trigger] b2[i]@ == entry;
        if i < blacklist.len() {
            assert(blacklist[i]@ == entry);
        }
    }
    if listed(blacklist, entry) {
        let i = choose|i: int| 0 <= i < blacklist.len() && #[trigger] blacklist[i]@ == entry;
        assert(b2[i]@ == entry);
    }
    if item@ == entry {
        assert(b2[blacklist.len() as int]@ == entry);
    }
}

/// A request for `host` and `path_and_query` is blocked: its host is
/// listed, or its host followed by its path and query is.
pub open spec fn blocked_spec(blacklist: Seq<String>, host: Option<Seq<char>>, path_and_query: Option<Seq<char>>) -> bool {
    match host {
        None => false,
        Some(h) => listed(blacklist, h) || match path_and_query {
            Some(p) => listed(blacklist, h + p),
            None => false,
        },
    }
}

pub open spec fn opt_view(s: Option<&str>) -> Option<Seq<char>> {
    match s {
        Some(t) => Some(t@),
        None => None,
    }
}

impl Config {
    pub fn new(blacklist: Vec<String>) -> (c: Self)
        ensures
            c.blacklist@ == blacklist@,
    {
        Config { blacklist }
    }

    pub fn blacklist_contains(&self, entry: &str) -> (r: bool)
        ensures
            r == listed(self.blacklist@, entry@),
    {
        let mut i: usize = 0;
        while i < self.blacklist.len()
            invariant
                i <= self.blacklist@.len(),
                forall|j: int| 0 <= j < i ==> #[trigger] self.blacklist@[j]@ != entry@,
            decreases self.blacklist@.len() - i,
        {
            if str_eq(self.blacklist[i].as_str(), entry) {
                return true;
            }
            i = i + 1;
        }
        false
    }

    pub fn host_blocked(&self, host: &str, path_and_query: Option<&str>) -> (r: bool)
        ensures
            r == blocked_spec(self.blacklist@, Some(host@), opt_view(path_and_query)),
    {
        if self.blacklist_contains(host) {
            return true;
        }
        match path_and_query {
            Some(p) => {
                let mut whole = String::from_str(host);
                whole.append(p);
                self.blacklist_contains(whole.as_str())
            },
            None => false,
        }
    }

    /// Whether a request for `host` and `path_and_query` is refused.
    pub fn blocked(&self, host: Option<&str>, path_and_query: Option<&str>) -> (r: bool)
        ensures
            r == blocked_spec(self.blacklist@, opt_view(host), opt_view(path_and_query)),
    {
        match host {
            Some(h) => self.host_blocked(h, path_and_query),
            None => false,
        }
    }
}

/// Whether a request for `host` is answered at once with an empty page:
/// browsers ask for these on their own.
pub open spec fn ignored_spec(host: Option<Seq<char>>) -> bool {
    match host {
        Some(h) => h == "favicon.ico"@ || h == "static"@,
        None => false,
    }
}

/// Whether a request for `host` is answered at once with an empty page:
/// browsers ask for these on their own.
pub fn ignore(host: Option<&str>) -> (r: bool)
    ensures
        r == ignored_spec(opt_view(host)),
{
    match host {
        Some(h) => str_eq(h, "favicon.ico") || str_eq(h, "static"),
        None => false,
    }
}

/// How the proxy answers a request.
#[derive(Clone, Copy, PartialEq, Eq, Structural, Debug)]
pub enum Route {
    /// At once, with an empty page (status 200).
    Ignore,
    /// With status 417 and "Resource is blocked".
    Blocked,
    /// From the cache or the origin server.
    Forward,
}

/// How a request for `host` and `path_and_query` is answered: what browsers
/// ask for on their own is ignored, then a blocked resource is refused, and
/// anything else is forwarded.
pub open spec fn route_spec(
    blacklist: Seq<String>,
    host: Option<Seq<char>>,
    path_and_query: Option<Seq<char>>,
) -> Route {
    if ignored_spec(host) {
        Route::Ignore
    } else if blocked_spec(blacklist, host, path_and_query) {
        Route::Blocked
    } else {
        Route::Forward
    }
}

impl Config {
    /// How a request for `host` and `path_and_query` is answered.
    pub fn route(&self, host: Option<&str>, path_and_query: Option<&str>) -> (r: Route)
        ensures
            r == route_spec(self.blacklist@, opt_view(host), opt_view(path_and_query)),
    {
        if ignore(host) {
            Route::Ignore
        } else if self.blocked(host, path_and_query) {
            Route::Blocked
        } else {
            Route::Forward
        }
    }
}

/// Under a blacklist of one item, a request that browsers do not ask for on
/// their own is refused exactly when the item is its host, or its host
/// followed by its path and query, letter for letter; any other request for
/// a host is forwarded, even one whose host begins with the item.
pub proof fn lemma_route_one_item(item: String, host: Seq<char>, path_and_query: Seq<char>)
    requires
        !ignored_spec(Some(host)),
    ensures
        route_spec(seq![item], Some(host), Some(path_and_query)) == (if item@ == host || item@ == host
            + path_and_query {
            Route::Blocked
        } else {
            Route::Forward
        }),
{
    let b = seq![item];
    assert(b == Seq::<String>::empty().push(item));
    lemma_listed_exactly_items(Seq::<String>::empty(), item, host);
    lemma_listed_exactly_items(Seq::<String>::empty(), item, host + path_and_query);
}

/// The status of the answer to a request routed as `route`, where
/// `forwarded` is the status that forwarding gave, or `None` where it
/// failed; a failure is answered with 400.
pub fn answer_status(route: Route, forwarded: Option<u16>) -> (status: u16)
    ensures
        status == (match route {
            Route::Ignore => 200,
            Route::Blocked => 417,
            Route::Forward => match forwarded {
                Some(s) => s,
                None => 400,
            },
        }),
{
    match route {
        Route::Ignore => 200,
        Route::Blocked => 417,
        Route::Forward => match forwarded {
            Some(s) => s,
            None => 400,
        },
    }
}

/// The address a proxied request names: the request's target after
/// `https:/`, so that `/example.com/a` stands for `https://example.com/a`.
pub fn absolute_uri(target: &str) -> (s: String)
    ensures
        s@ == "https:/"@ + target@,
{
    let mut s = String::from_str("https:/");
    s.append(target);
    s
}

/// The target sent to the origin server: the path and query, or `/`.
pub fn origin_target(path_and_query: Option<&str>) -> (s: &str)
    ensures
        s@ == (match path_and_query {
            Some(p) => p@,
            None => "/"@,
        }),
{
    match path_and_query {
        Some(p) => p,
        None => "/",
    }
}

/// The status and body of the answer to a blocked request.
pub fn resource_blocked() -> (r: (u16, &'static str))
    ensures
        r.0 == 417,
        r.1@ == "Resource is blocked"@,
{
    (417, "Resource is blocked")
}

/// What the origin server's answer to a revalidation means.
#[derive(Clone, Copy, PartialEq, Eq, Structural, Debug)]
pub enum Revalidated {
    /// 304: the cached copy is still good.
    Fresh,
    /// Anything else: the cached copy is dropped and the resource fetched.
    Stale,
}

pub fn revalidated(status: u16) -> (r: Revalidated)
    ensures
        r == (if status == 304 {
            Revalidated::Fresh
        } else {
            Revalidated::Stale
        }),
{
    if status == 304 {
        Revalidated::Fresh
    } else {
        Revalidated::Stale
    }
}

/// Whether a fetched answer is kept in the cache: only for `GET`, and only
/// when it has both an `ETag` and a `Last-Modified` header.
pub fn should_cache(is_get: bool, etag: Option<&str>, last_modified: Option<&str>) -> (r: bool)
    ensures
        r == (is_get && etag is Some && last_modified is Some),
{
    is_get && etag.is_some() && last_modified.is_some()
}

/// The name of the file that holds a resource: its entity tag without the
/// quotes around it.
pub fn tag_file_name(tag: &str) -> (name: String)
    requires
        tag@.len() >= 2,
    ensures
        name@ == tag@.subrange(1, tag@.len() - 1),
{
    let n = tag.unicode_len();
    String::from_str(tag.substring_char(1, n - 1))
}

/// What is known of a cached resource.
pub struct CachedResource {
    pub etag: String,
    pub time: String,
    /// The headers of the answer, as names and values.
    pub headers: Vec<(String, String)>,
}

impl CachedResource {
    pub fn new(tag: &str, time: &str, headers: Vec<(String, String)>) -> (c: Self)
        ensures
            c.etag@ == tag@,
            c.time@ == time@,
            c.headers@ == headers@,
    {
        CachedResource { etag: String::from_str(tag), time: String::from_str(time), headers }
    }
}

/// The headers of the request that asks the origin server whether the
/// cached copy `c` is still good: `If-Modified-Since` with the cached date,
/// then `If-None-Match` with the cached entity tag (names as `http` writes
/// them).
pub fn revalidation_headers(c: &CachedResource) -> (h: Vec<(String, String)>)
    ensures
        headers_view(h@) == seq![
            ("if-modified-since"@, c.time@),
            ("if-none-match"@, c.etag@),
        ],
{
    let mut h: Vec<(String, String)> = Vec::new();
    h.push((String::from_str("if-modified-since"), c.time.clone()));
    h.push((String::from_str("if-none-match"), c.etag.clone()));
    proof {
        assert(headers_view(h@) =~= seq![
            ("if-modified-since"@, c.time@),
            ("if-none-match"@, c.etag@),
        ]);
    }
    h
}

/// The status of an answer that went through the proxy: one served from the
/// cache (a fresh copy, or one just written to it) is sent as 200 with the
/// origin's headers; one not cached keeps the origin server's status.
pub fn cached_answer_status(cached: bool, origin: u16) -> (s: u16)
    ensures
        s == (if cached {
            200
        } else {
            origin
        }),
{
    if cached {
        200
    } else {
        origin
    }
}

/// Header names and values as text.
pub open spec fn headers_view(h: Seq<(String, String)>) -> Seq<(Seq<char>, Seq<char>)> {
    h.map_values(|p: (String, String)| (p.0@, p.1@))
}

/// What is known of a cached resource: its entity tag, its date and its
/// headers.
pub open spec fn resource_view(r: CachedResource) -> (Seq<char>, Seq<char>, Seq<(Seq<char>, Seq<char>)>) {
    (r.etag@, r.time@, headers_view(r.headers@))
}

/// The cached resources, by address.
pub struct Cache {
    tags: Vec<(String, CachedResource)>,
}

/// The address of each cached resource in `entries` appears once.
pub open spec fn unique_keys(entries: Seq<(String, CachedResource)>) -> bool {
    forall|i: int, j: int| 0 <= i < j < entries.len() ==> #[trigger] entries[i].0@ != #[trigger] entries[j].0@
}

/// What is known of each cached resource, by address.
pub open spec fn entries_map(entries: Seq<(String, CachedResource)>) -> Map<Seq<char>, (Seq<char>, Seq<char>, Seq<(Seq<char>, Seq<char>)>)>
    decreases entries.len(),
{
    if entries.len() == 0 {
        Map::empty()
    } else {
        let last = entries.last();
        entries_map(entries.drop_last()).insert(last.0@, resource_view(last.1))
    }
}

proof fn lemma_entries_map_dom(entries: Seq<(String, CachedResource)>)
    ensures
        forall|k: Seq<char>| #[trigger] entries_map(entries).contains_key(k) <==> exists|i: int|
            0 <= i < entries.len() && entries[i].0@ == k,
    decreases entries.len(),
{
    if entries.len() > 0 {
        let p = entries.drop_last();
        lemma_entries_map_dom(p);
        assert forall|k: Seq<char>| #[trigger] entries_map(entries).contains_key(k) <==> exists|i: int|
            0 <= i < entries.len() && entries[i].0@ == k by {
            if k == entries.last().0@ {
                assert(entries[entries.len() - 1].0@ == k);
            }
            let last = entries.last();
            assert(entries_map(entries) == entries_map(p).insert(last.0@, resource_view(last.1)));
            if entries_map(p).contains_key(k) {
                let i = choose|i: int| 0 <= i < p.len() && p[i].0@ == k;
                assert(entries[i] == p[i]);
            }
            if exists|i: int| 0 <= i < entries.len() && entries[i].0@ == k {
                let i = choose|i: int| 0 <= i < entries.len() && entries[i].0@ == k;
                if i < p.len() {
                    assert(entries[i] == p[i]);
                    assert(entries_map(p).contains_key(k));
                }
            }
        }
    }
}

proof fn lemma_entries_map_at(entries: Seq<(String, CachedResource)>, i: int)
    requires
        unique_keys(entries),
        0 <= i < entries.len(),
    ensures
        entries_map(entries).contains_key(entries[i].0@),
        entries_map(entries)[entries[i].0@] == resource_view(entries[i].1),
    decreases entries.len(),
{
    lemma_entries_map_dom(entries);
    let p = entries.drop_last();
    if i < entries.len() - 1 {
        assert(p[i] == entries[i]);
        assert(unique_keys(p));
        lemma_entries_map_at(p, i);
        assert(entries[i].0@ != entries.last().0@);
    }
}

proof fn lemma_entries_map_remove(entries: Seq<(String, CachedResource)>, i: int)
    requires
        unique_keys(entries),
        0 <= i < entries.len(),
    ensures
        unique_keys(entries.remove(i)),
        entries_map(entries.remove(i)) == entries_map(entries).remove(entries[i].0@),
    decreases entries.len(),
{
    let r = entries.remove(i);
    assert forall|a: int, b: int| 0 <= a < b < r.len() implies #[trigger] r[a].0@ != #[trigger] r[b].0@ by {
        let a2 = if a < i { a } else { a + 1 };
        let b2 = if b < i { b } else { b + 1 };
        assert(r[a] == entries[a2] && r[b] == entries[b2]);
    }
    let p = entries.drop_last();
    assert(unique_keys(p));
    if i == entries.len() - 1 {
        assert(r =~= p);
        lemma_entries_map_dom(p);
        assert forall|k: int| 0 <= k < p.len() implies p[k].0@ != entries[i].0@ by {
            assert(p[k] == entries[k]);
        }
        assert(entries_map(r) =~= entries_map(entries).remove(entries[i].0@));
    } else {
        lemma_entries_map_remove(p, i);
        assert(r.drop_last() =~= p.remove(i));
        assert(r.last() == entries.last());
        assert(entries_map(r) =~= entries_map(entries).remove(entries[i].0@));
    }
}

impl View for Cache {
    type V = Map<Seq<char>, (Seq<char>, Seq<char>, Seq<(Seq<char>, Seq<char>)>)>;

    closed spec fn view(&self) -> Map<Seq<char>, (Seq<char>, Seq<char>, Seq<(Seq<char>, Seq<char>)>)> {
        entries_map(self.tags@)
    }
}

impl Cache {
    /// Each address appears once.
    pub closed spec fn wf(&self) -> bool {
        unique_keys(self.tags@)
    }

    pub fn new() -> (c: Self)
        ensures
            c.wf(),
            c@ == Map::<Seq<char>, (Seq<char>, Seq<char>, Seq<(Seq<char>, Seq<char>)>)>::empty(),
    {
        Cache { tags: Vec::new() }
    }

    fn position(&self, uri: &str) -> (r: Option<usize>)
        ensures
            r matches Some(i) ==> i < self.tags@.len() && self.tags@[i as int].0@ == uri@,
            r is None ==> forall|j: int| 0 <= j < self.tags@.len() ==> #[trigger] self.tags@[j].0@ != uri@,
    {
        let mut i: usize = 0;
        while i < self.tags.len()
            invariant
                i <= self.tags@.len(),
                forall|j: int| 0 <= j < i ==> #[trigger] self.tags@[j].0@ != uri@,
            decreases self.tags@.len() - i,
        {
            if str_eq(self.tags[i].0.as_str(), uri) {
                return Some(i);
            }
            i = i + 1;
        }
        None
    }

    /// What is known of the cached resource at `uri`.
    pub fn tag(&self, uri: &str) -> (r: Option<&CachedResource>)
        requires
            self.wf(),
        ensures
            r is None <==> !self@.contains_key(uri@),
            r matches Some(t) ==> self@[uri@] == resource_view(*t),
    {
        proof {
            lemma_entries_map_dom(self.tags@);
        }
        match self.position(uri) {
            Some(i) => {
                proof {
                    lemma_entries_map_at(self.tags@, i as int);
                }
                Some(&self.tags[i].1)
            },
            None => None,
        }
    }

    /// Forgets the resource at `uri`.
    pub fn remove_entry(&mut self, uri: &str)
        requires
            old(self).wf(),
        ensures
            final(self).wf(),
            final(self)@ == old(self)@.remove(uri@),
    {
        proof {
            lemma_entries_map_dom(self.tags@);
        }
        match self.position(uri) {
            Some(i) => {
                proof {
                    lemma_entries_map_remove(self.tags@, i as int);
                }
                self.tags.remove(i);
            },
            None => {
                proof {
                    assert(self@.remove(uri@) =~= self@);
                }
            },
        }
    }

    /// Acts on the origin server's answer `status` to a revalidation of the
    /// resource cached at `uri`: on 304 the cached copy is served and the
    /// cache stays as it is; on anything else the entry is dropped and the
    /// resource fetched anew.
    pub fn after_revalidation(&mut self, uri: &str, status: u16) -> (r: Revalidated)
        requires
            old(self).wf(),
        ensures
            final(self).wf(),
            r == (if status == 304 {
                Revalidated::Fresh
            } else {
                Revalidated::Stale
            }),
            final(self)@ == (if status == 304 {
                old(self)@
            } else {
                old(self)@.remove(uri@)
            }),
    {
        let r = revalidated(status);
        match r {
            Revalidated::Fresh => {},
            Revalidated::Stale => self.remove_entry(uri),
        }
        r
    }

    /// Notes a resource fetched from `uri`, and returns the name of the
    /// file that will hold it.
    pub fn create_entry(&mut self, uri: &str, tag: &str, time: &str, headers: Vec<(String, String)>) -> (name: String)
        requires
            old(self).wf(),
            tag@.len() >= 2,
        ensures
            final(self).wf(),
            final(self)@ == old(self)@.insert(uri@, (tag@, time@, headers_view(headers@))),
            name@ == tag@.subrange(1, tag@.len() - 1),
    {
        self.remove_entry(uri);
        let ghost before = self.tags@;
        proof {
            lemma_entries_map_dom(before);
        }
        self.tags.push((String::from_str(uri), CachedResource::new(tag, time, headers)));
        proof {
            assert(self.tags@.drop_last() =~= before);
            assert forall|i: int, j: int| 0 <= i < j < self.tags@.len() implies #[trigger] self.tags@[i].0@
                != #[trigger] self.tags@[j].0@ by {
                if j == self.tags@.len() - 1 {
                    assert(self.tags@[i] == before[i]);
                    assert(self.tags@[j].0@ == uri@);
                    assert(!entries_map(before).contains_key(uri@));
                    if before[i].0@ == uri@ {
                        assert(exists|x: int| 0 <= x < before.len() && before[x].0@ == uri@);
                    }
                } else {
                    assert(self.tags@[i] == before[i] && self.tags@[j] == before[j]);
                }
            }
        }
        tag_file_name(tag)
    }
}

} // verus!
