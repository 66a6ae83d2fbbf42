use vstd::prelude::*;

use crate::error::YenError;
use crate::text::{all_digits, chars_of, ends_with, has_suffix, is_digit, parse_u32, value_of};
use crate::version::{is_field, precedes, Version};

verus! {

/// The tag that precedes the version in an archive's name.
pub open spec fn release_tag() -> Seq<char> {
    "cpython-"@
}

/// The end of the run of digits that starts at `j`.
pub open spec fn run_end(s: Seq<char>, j: int) -> int
    decreases s.len() - j,
{
    if 0 <= j < s.len() && is_digit(s[j]) {
        run_end(s, j + 1)
    } else {
        j
    }
}

/// The version spelled at `k` in `s`: three maximal runs of digits separated by single
/// dots, each a field of a version.
pub open spec fn version_from(s: Seq<char>, k: int) -> Option<Version> {
    let a1 = run_end(s, k);
    let b0 = a1 + 1;
    let b1 = run_end(s, b0);
    let c0 = b1 + 1;
    let c1 = run_end(s, c0);
    let fa = s.subrange(k, a1);
    let fb = s.subrange(b0, b1);
    let fc = s.subrange(c0, c1);
    if a1 < s.len() && s[a1] == '.' && b1 < s.len() && s[b1] == '.' && is_field(fa) && is_field(
        fb,
    ) && is_field(fc) {
        Some(Version { major: value_of(fa) as u32, minor: value_of(fb) as u32, patch: value_of(fc) as u32 })
    } else {
        None
    }
}

/// The version named at position `i` of `s`, after the release tag there.
pub open spec fn version_at(s: Seq<char>, i: int) -> Option<Version> {
    let t = release_tag();
    if 0 <= i && i + t.len() <= s.len() && s.subrange(i, i + t.len()) == t {
        version_from(s, i + t.len())
    } else {
        None
    }
}

/// The leftmost version named in `s` at or after position `i`.
pub open spec fn find_version(s: Seq<char>, i: int) -> Option<Version>
    decreases s.len() - i,
{
    if 0 <= i < s.len() {
        if version_at(s, i) is Some {
            version_at(s, i)
        } else {
            find_version(s, i + 1)
        }
    } else {
        None
    }
}

/// The version of the archive that `url` names, when it is built for the platform whose
/// archives end in `suffix`.
pub open spec fn release_of(url: Seq<char>, suffix: Seq<char>) -> Option<Version> {
    if ends_with(url, suffix) {
        find_version(url, 0)
    } else {
        None
    }
}

/// The catalog built from `urls` in order: each URL for the platform that names a version
/// is entered under it, a later one replacing an earlier.
pub open spec fn catalog_of(urls: Seq<Seq<char>>, suffix: Seq<char>) -> Map<Version, Seq<char>>
    decreases urls.len(),
{
    if urls.len() == 0 {
        Map::empty()
    } else {
        let m = catalog_of(urls.drop_last(), suffix);
        match release_of(urls.last(), suffix) {
            Some(v) => m.insert(v, urls.last()),
            None => m,
        }
    }
}

/// The views of a list of strings.
pub open spec fn views(urls: Seq<String>) -> Seq<Seq<char>> {
    urls.map_values(|u: String| u@)
}

fn digit_run_end(d: &Vec<char>, from: usize) -> (r: usize)
    requires
        from <= d.len(),
    ensures
        r == run_end(d@, from as int),
        from <= r <= d.len(),
        all_digits(d@.subrange(from as int, r as int)),
{
    let mut k: usize = from;
    while k < d.len() && char_is_digit(d[k])
        invariant
            from <= k <= d.len(),
            run_end(d@, k as int) == run_end(d@, from as int),
            forall|j: int| from <= j < k ==> is_digit(d@[j]),
        decreases d.len() - k,
    {
        k = k + 1;
    }
    assert(all_digits(d@.subrange(from as int, k as int))) by {
        assert forall|j: int| 0 <= j < k - from implies is_digit(
            #[trigger] d@.subrange(from as int, k as int)[j],
        ) by {
            assert(d@.subrange(from as int, k as int)[j] == d@[from + j]);
        }
    }
    k
}

fn char_is_digit(c: char) -> (r: bool)
    ensures
        r == is_digit(c),
{
    match crate::text::char_to_digit(c) {
        Some(_) => true,
        None => false,
    }
}

fn version_from_exec(d: &Vec<char>, k: usize) -> (r: Option<Version>)
    requires
        k <= d.len(),
    ensures
        r == version_from(d@, k as int),
{
    let a1 = digit_run_end(d, k);
    if a1 >= d.len() || d[a1] != '.' {
        return None;
    }
    let b1 = digit_run_end(d, a1 + 1);
    if b1 >= d.len() || d[b1] != '.' {
        return None;
    }
    let c1 = digit_run_end(d, b1 + 1);
    let major = parse_u32(d, k, a1);
    let minor = parse_u32(d, a1 + 1, b1);
    let patch = parse_u32(d, b1 + 1, c1);
    match (major, minor, patch) {
        (Some(major), Some(minor), Some(patch)) => Some(Version { major, minor, patch }),
        _ => None,
    }
}

fn version_at_exec(d: &Vec<char>, tag: &Vec<char>, i: usize) -> (r: Option<Version>)
    requires
        i <= d.len(),
        tag@ == release_tag(),
    ensures
        r == version_at(d@, i as int),
{
    if tag.len() > d.len() - i {
        return None;
    }
    let mut k: usize = 0;
    while k < tag.len()
        invariant
            i + tag.len() <= d.len(),
            tag@ == release_tag(),
            k <= tag.len(),
            forall|j: int| 0 <= j < k ==> d@[i + j] == tag@[j],
        decreases tag.len() - k,
    {
        if d[i + k] != tag[k] {
            proof {
                let w = d@.subrange(i as int, i + tag.len());
                assert(w[k as int] == d@[i + k]);
                if w == release_tag() {
                    assert(w[k as int] == tag@[k as int]);
                }
            }
            return None;
        }
        k = k + 1;
    }
    assert(d@.subrange(i as int, i + tag.len()) =~= tag@);
    version_from_exec(d, i + tag.len())
}

/// The leftmost version that `url` names after the release tag.
pub fn version_in_url(url: &str) -> (r: Option<Version>)
    ensures
        r == find_version(url@, 0),
{
    let d = chars_of(url);
    let tag = chars_of("cpython-");
    let mut i: usize = 0;
    while i < d.len()
        invariant
            i <= d.len(),
            d@ == url@,
            tag@ == release_tag(),
            find_version(d@, i as int) == find_version(d@, 0),
        decreases d.len() - i,
    {
        let v = version_at_exec(&d, &tag, i);
        if v.is_some() {
            return v;
        }
        i = i + 1;
    }
    None
}

/// The version of the archive that `url` names, when its name ends in `suffix`.
pub fn release_version(url: &str, suffix: &str) -> (r: Option<Version>)
    ensures
        r == release_of(url@, suffix@),
{
    let d = chars_of(url);
    let s = chars_of(suffix);
    if has_suffix(&d, &s) {
        version_in_url(url)
    } else {
        None
    }
}

/// Entries strictly ascending by version.
pub open spec fn sorted(e: Seq<(Version, String)>) -> bool {
    forall|i: int, j: int| 0 <= i < j < e.len() ==> precedes(#[trigger] e[i].0, #[trigger] e[j].0)
}

/// Whether some entry has version `v`.
pub open spec fn has_entry(e: Seq<(Version, String)>, v: Version) -> bool {
    exists|i: int| 0 <= i < e.len() && #[trigger] e[i].0 == v
}

/// Entries as a map from version to URL.
pub open spec fn entries_map(e: Seq<(Version, String)>) -> Map<Version, Seq<char>> {
    Map::new(
        |v: Version| has_entry(e, v),
        |v: Version| e[choose|i: int| 0 <= i < e.len() && #[trigger] e[i].0 == v].1@,
    )
}

proof fn lemma_entry(e: Seq<(Version, String)>, i: int)
    requires
        sorted(e),
        0 <= i < e.len(),
    ensures
        entries_map(e).contains_key(e[i].0),
        entries_map(e)[e[i].0] == e[i].1@,
{
    let v = e[i].0;
    assert(has_entry(e, v));
    let j = choose|j: int| 0 <= j < e.len() && #[trigger] e[j].0 == v;
    if j < i {
        assert(precedes(e[j].0, e[i].0));
    } else if i < j {
        assert(precedes(e[i].0, e[j].0));
    }
}

proof fn lemma_map_replaced(b: Seq<(Version, String)>, p: int, x: (Version, String))
    requires
        sorted(b),
        sorted(b.update(p, x)),
        0 <= p < b.len(),
        b[p].0 == x.0,
    ensures
        entries_map(b.update(p, x)) == entries_map(b).insert(x.0, x.1@),
{
    let a = b.update(p, x);
    let m = entries_map(b).insert(x.0, x.1@);
    lemma_entry(a, p);
    assert forall|k: Version| entries_map(a).contains_key(k) <==> m.contains_key(k) by {
        if has_entry(a, k) {
            let i = choose|i: int| 0 <= i < a.len() && #[trigger] a[i].0 == k;
            if i != p {
                assert(b[i].0 == k);
            }
        }
        if has_entry(b, k) {
            let j = choose|j: int| 0 <= j < b.len() && #[trigger] b[j].0 == k;
            assert(a[j].0 == k);
        }
    }
    assert forall|k: Version| #[trigger] m.contains_key(k) implies entries_map(a)[k] == m[k] by {
        if k != x.0 {
            let j = choose|j: int| 0 <= j < b.len() && #[trigger] b[j].0 == k;
            lemma_entry(b, j);
            lemma_entry(a, j);
        }
    }
    assert(entries_map(a) =~= m);
}

proof fn lemma_map_inserted(b: Seq<(Version, String)>, p: int, x: (Version, String))
    requires
        sorted(b),
        sorted(b.insert(p, x)),
        0 <= p <= b.len(),
        !has_entry(b, x.0),
    ensures
        entries_map(b.insert(p, x)) == entries_map(b).insert(x.0, x.1@),
{
    let a = b.insert(p, x);
    let m = entries_map(b).insert(x.0, x.1@);
    lemma_entry(a, p);
    assert forall|k: Version| entries_map(a).contains_key(k) <==> m.contains_key(k) by {
        if has_entry(a, k) {
            let i = choose|i: int| 0 <= i < a.len() && #[trigger] a[i].0 == k;
            if i < p {
                assert(b[i].0 == k);
            } else if i > p {
                assert(b[i - 1].0 == k);
            }
        }
        if has_entry(b, k) {
            let j = choose|j: int| 0 <= j < b.len() && #[trigger] b[j].0 == k;
            if j < p {
                assert(a[j].0 == k);
            } else {
                assert(a[j + 1].0 == k);
            }
        }
    }
    assert forall|k: Version| #[trigger] m.contains_key(k) implies entries_map(a)[k] == m[k] by {
        if k != x.0 {
            let j = choose|j: int| 0 <= j < b.len() && #[trigger] b[j].0 == k;
            lemma_entry(b, j);
            if j < p {
                lemma_entry(a, j);
            } else {
                lemma_entry(a, j + 1);
            }
        }
    }
    assert(entries_map(a) =~= m);
}

/// The available releases for one platform: one download URL per version, kept in
/// ascending order of version.
pub struct Catalog {
    entries: Vec<(Version, String)>,
}

impl View for Catalog {
    type V = Map<Version, Seq<char>>;

    /// The catalog as a map from version to download URL.
    closed spec fn view(&self) -> Map<Version, Seq<char>> {
        entries_map(self.entries@)
    }
}

impl Catalog {
    /// The entries are in strictly ascending order of version.
    pub closed spec fn wf(&self) -> bool {
        sorted(self.entries@)
    }

    /// An empty catalog.
    pub fn new() -> (r: Catalog)
        ensures
            r.wf(),
            r@ == Map::<Version, Seq<char>>::empty(),
    {
        let r = Catalog { entries: Vec::new() };
        assert(r@ =~= Map::<Version, Seq<char>>::empty());
        r
    }

    /// How many versions the catalog holds.
    pub fn len(&self) -> (r: usize)
        requires
            self.wf(),
        ensures
            r == self@.dom().len(),
    {
        proof {
            self.lemma_dom_len();
        }
        self.entries.len()
    }

    proof fn lemma_dom_len(&self)
        requires
            self.wf(),
        ensures
            self@.dom().finite(),
            self@.dom().len() == self.entries@.len(),
    {
        let keys = self.entries@.map_values(|e: (Version, String)| e.0);
        assert(self@.dom() =~= keys.to_set()) by {
            assert forall|v: Version| self@.dom().contains(v) implies keys.to_set().contains(v) by {
                let i = choose|i: int| 0 <= i < self.entries@.len() && #[trigger] self.entries@[i].0 == v;
                assert(keys[i] == v);
            }
            assert forall|v: Version| keys.to_set().contains(v) implies self@.dom().contains(v) by {
                let i = choose|i: int| 0 <= i < keys.len() && keys[i] == v;
                assert(self.entries@[i].0 == v);
            }
        }
        assert(keys.no_duplicates()) by {
            assert forall|i: int, j: int| 0 <= i < keys.len() && 0 <= j < keys.len() && i != j
                implies keys[i] != keys[j] by {
                if i < j {
                    assert(precedes(self.entries@[i].0, self.entries@[j].0));
                } else {
                    assert(precedes(self.entries@[j].0, self.entries@[i].0));
                }
            }
        }
        keys.unique_seq_to_set();
    }

    /// Enters `url` under `version`, replacing the URL that the version had.
    pub fn insert(&mut self, version: Version, url: String)
        requires
            old(self).wf(),
        ensures
            final(self).wf(),
            final(self)@ == old(self)@.insert(version, url@),
    {
        let ghost before = self.entries@;
        let mut p: usize = 0;
        while p < self.entries.len() && self.entries[p].0 < version
            invariant
                p <= self.entries@.len(),
                self.entries@ == before,
                forall|i: int| 0 <= i < p ==> precedes(#[trigger] self.entries@[i].0, version),
            decreases self.entries@.len() - p,
        {
            p = p + 1;
        }
        if p < self.entries.len() && self.entries[p].0 == version {
            self.entries.set(p, (version, url));
            proof {
                assert(self.wf()) by {
                    assert forall|i: int, j: int| 0 <= i < j < self.entries@.len() implies precedes(
                        #[trigger] self.entries@[i].0,
                        #[trigger] self.entries@[j].0,
                    ) by {
                        assert(precedes(before[i].0, before[j].0));
                    }
                }
                lemma_map_replaced(before, p as int, self.entries@[p as int]);
            }
        } else {
            proof {
                if p < before.len() {
                    lemma_not_before(before[p as int].0, version);
                }
            }
            self.entries.insert(p, (version, url));
            proof {
                assert(self.wf()) by {
                    assert forall|i: int, j: int| 0 <= i < j < self.entries@.len() implies precedes(
                        #[trigger] self.entries@[i].0,
                        #[trigger] self.entries@[j].0,
                    ) by {
                        if j < p {
                            assert(precedes(before[i].0, before[j].0));
                        } else if j == p {
                        } else if i < p {
                            assert(precedes(before[i].0, before[j - 1].0));
                        } else if i == p {
                            if j - 1 > p {
                                assert(precedes(before[p as int].0, before[j - 1].0));
                                lemma_precedes_trans(version, before[p as int].0, before[j - 1].0);
                            }
                        } else {
                            assert(precedes(before[i - 1].0, before[j - 1].0));
                        }
                    }
                }
                lemma_map_inserted(before, p as int, self.entries@[p as int]);
            }
        }
    }

    /// The URL entered under `version`, if any.
    pub fn get(&self, version: &Version) -> (r: Option<String>)
        requires
            self.wf(),
        ensures
            r matches Some(u) ==> self@.contains_key(*version) && u@ == self@[*version],
            r is None ==> !self@.contains_key(*version),
    {
        let mut i: usize = 0;
        while i < self.entries.len()
            invariant
                self.wf(),
                i <= self.entries@.len(),
                forall|j: int| 0 <= j < i ==> #[trigger] self.entries@[j].0 != *version,
            decreases self.entries@.len() - i,
        {
            if self.entries[i].0 == *version {
                proof {
                    lemma_entry(self.entries@, i as int);
                }
                return Some(self.entries[i].1.clone());
            }
            i = i + 1;
        }
        None
    }

    /// The greatest version and its URL, if the catalog is not empty.
    pub fn latest(&self) -> (r: Option<(Version, String)>)
        requires
            self.wf(),
        ensures
            r is None <==> self@.dom().is_empty(),
            r matches Some((v, u)) ==> self@.contains_key(v) && u@ == self@[v] && forall|k: Version|
                #[trigger] self@.contains_key(k) ==> k == v || precedes(k, v),
    {
        let n = self.entries.len();
        if n == 0 {
            assert(self@.dom() =~= Set::<Version>::empty());
            return None;
        }
        let e = &self.entries[n - 1];
        proof {
            lemma_entry(self.entries@, n - 1);
            assert forall|k: Version| #[trigger] self@.contains_key(k) implies k == e.0 || precedes(k, e.0) by {
                let i = choose|i: int| 0 <= i < self.entries@.len() && #[trigger] self.entries@[i].0 == k;
                if i < n - 1 {
                    assert(precedes(self.entries@[i].0, self.entries@[n - 1].0));
                }
            }
            assert(self@.contains_key(e.0));
        }
        Some((e.0, e.1.clone()))
    }

    /// The versions in the catalog, ascending.
    pub fn versions(&self) -> (r: Vec<Version>)
        requires
            self.wf(),
        ensures
            forall|k: Version| self@.contains_key(k) <==> r@.contains(k),
            forall|i: int, j: int| 0 <= i < j < r@.len() ==> precedes(#[trigger] r@[i], #[trigger] r@[j]),
    {
        let mut r: Vec<Version> = Vec::new();
        for i in 0..self.entries.len()
            invariant
                self.wf(),
                r@.len() == i,
                forall|j: int| 0 <= j < i ==> #[trigger] r@[j] == self.entries@[j].0,
        {
            r.push(self.entries[i].0);
        }
        proof {
            assert forall|k: Version| self@.contains_key(k) implies r@.contains(k) by {
                let i = choose|i: int| 0 <= i < self.entries@.len() && #[trigger] self.entries@[i].0 == k;
                assert(r@[i] == k);
            }
            assert forall|k: Version| r@.contains(k) implies self@.contains_key(k) by {
                let i = choose|i: int| 0 <= i < r@.len() && r@[i] == k;
                assert(self.entries@[i].0 == k);
            }
            assert forall|i: int, j: int| 0 <= i < j < r@.len() implies precedes(#[trigger] r@[i], #[trigger] r@[j]) by {
                assert(precedes(self.entries@[i].0, self.entries@[j].0));
            }
        }
        r
    }
}

proof fn lemma_not_before(a: Version, b: Version)
    requires
        !precedes(a, b),
        a != b,
    ensures
        precedes(b, a),
{
}

proof fn lemma_precedes_trans(a: Version, b: Version, c: Version)
    requires
        precedes(a, b),
        precedes(b, c),
    ensures
        precedes(a, c),
{
}

/// The catalog of the archives among `urls` that are built for the platform whose archive
/// names end in `suffix`, each under the version its name gives. A URL that does not end in
/// the suffix, or names no version, is skipped; of two URLs with one version the later wins.
pub fn catalog_from_urls(urls: &Vec<String>, suffix: &str) -> (r: Catalog)
    ensures
        r.wf(),
        r@ == catalog_of(views(urls@), suffix@),
{
    let mut r = Catalog::new();
    for i in 0..urls.len()
        invariant
            r.wf(),
            r@ == catalog_of(views(urls@.take(i as int)), suffix@),
    {
        let u = &urls[i];
        let found = release_version(u.as_str(), suffix);
        proof {
            assert(views(urls@.take(i + 1)).drop_last() =~= views(urls@.take(i as int)));
            assert(views(urls@.take(i + 1)).last() == u@);
        }
        match found {
            Some(v) => r.insert(v, u.clone()),
            None => {},
        }
    }
    assert(urls@.take(urls.len() as int) =~= urls@);
    r
}

/// What was asked for: the newest release, or one exact version.
#[derive(PartialEq, Eq, Structural, Clone, Copy, Debug)]
pub enum Request {
    Latest,
    Exact(Version),
}

/// Whether `v` is the greatest version of `m`.
pub open spec fn is_greatest(m: Map<Version, Seq<char>>, v: Version) -> bool {
    m.contains_key(v) && forall|k: Version| #[trigger] m.contains_key(k) ==> k == v || precedes(k, v)
}

impl Request {
    /// Reads a request: `latest`, or a version `major.minor.patch`.
    pub fn parse(s: &str) -> (r: Result<Request, crate::version::VersionParseError>)
        ensures
            s@ == "latest"@ ==> r == Ok::<Request, crate::version::VersionParseError>(Request::Latest),
            s@ != "latest"@ ==> (r matches Ok(Request::Exact(v)) ==> crate::version::parses_as(s@, v)),
            s@ != "latest"@ ==> (r is Err ==> forall|v: Version| !crate::version::parses_as(s@, v)),
            s@ != "latest"@ ==> r != Ok::<Request, crate::version::VersionParseError>(Request::Latest),
    {
        let d = chars_of(s);
        let l = chars_of("latest");
        if crate::text::same_chars(&d, &l) {
            Ok(Request::Latest)
        } else {
            match Version::from_str(s) {
                Ok(v) => Ok(Request::Exact(v)),
                Err(e) => Err(e),
            }
        }
    }
}

/// Picks the release that `request` asks for: for `Latest` the greatest version in the
/// catalog, for an exact version that very entry. Nothing else is substituted.
pub fn resolve(request: &Request, catalog: &Catalog) -> (r: Result<(Version, String), YenError>)
    requires
        catalog.wf(),
    ensures
        match *request {
            Request::Latest => match r {
                Ok((v, u)) => is_greatest(catalog@, v) && u@ == catalog@[v],
                Err(e) => e == YenError::NoRelease && catalog@.dom().is_empty(),
            },
            Request::Exact(w) => match r {
                Ok((v, u)) => v == w && catalog@.contains_key(w) && u@ == catalog@[w],
                Err(e) => e == YenError::VersionNotAvailable(w) && !catalog@.contains_key(w),
            },
        },
{
    match request {
        Request::Latest => match catalog.latest() {
            Some(found) => Ok(found),
            None => Err(YenError::NoRelease),
        },
        Request::Exact(w) => match catalog.get(w) {
            Some(u) => Ok((*w, u)),
            None => Err(YenError::VersionNotAvailable(*w)),
        },
    }
}

/// A catalog has at most one greatest version.
pub proof fn lemma_greatest_unique(m: Map<Version, Seq<char>>, v: Version, w: Version)
    requires
        is_greatest(m, v),
        is_greatest(m, w),
    ensures
        v == w,
{
    if v != w {
        assert(precedes(v, w));
        assert(precedes(w, v));
    }
}

/// Of several URLs that name one version for the platform, the catalog keeps the last.
pub proof fn lemma_last_url_wins(urls: Seq<Seq<char>>, suffix: Seq<char>, i: int, v: Version)
    requires
        0 <= i < urls.len(),
        release_of(urls[i], suffix) == Some(v),
        forall|j: int| i < j < urls.len() ==> release_of(#[trigger] urls[j], suffix) != Some(v),
    ensures
        catalog_of(urls, suffix).contains_key(v),
        catalog_of(urls, suffix)[v] == urls[i],
    decreases urls.len(),
{
    if i < urls.len() - 1 {
        let p = urls.drop_last();
        assert forall|j: int| i < j < p.len() implies release_of(#[trigger] p[j], suffix) != Some(v) by {
            assert(p[j] == urls[j]);
        }
        lemma_last_url_wins(p, suffix, i, v);
        assert(release_of(urls[urls.len() - 1], suffix) != Some(v));
    }
}

/// A URL that does not end in the platform's suffix never enters the catalog, whatever
/// version its name gives.
pub proof fn lemma_foreign_url_skipped(urls: Seq<Seq<char>>, suffix: Seq<char>, u: Seq<char>)
    requires
        !ends_with(u, suffix),
    ensures
        catalog_of(urls.push(u), suffix) == catalog_of(urls, suffix),
{
    assert(urls.push(u).drop_last() =~= urls);
}

/// Every URL in a catalog ends in the platform's suffix and names the version it is
/// entered under.
pub proof fn lemma_catalog_urls_match(urls: Seq<Seq<char>>, suffix: Seq<char>, v: Version)
    requires
        catalog_of(urls, suffix).contains_key(v),
    ensures
        ends_with(catalog_of(urls, suffix)[v], suffix),
        find_version(catalog_of(urls, suffix)[v], 0) == Some(v),
    decreases urls.len(),
{
    if urls.len() > 0 {
        let p = urls.drop_last();
        if release_of(urls.last(), suffix) != Some(v) {
            lemma_catalog_urls_match(p, suffix, v);
        }
    }
}

} // verus!
