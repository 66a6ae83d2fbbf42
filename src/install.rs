use vstd::prelude::*;

use crate::catalog::{is_greatest, resolve, Catalog, Request};
use crate::error::YenError;
use crate::text::{push_char, push_str};
use crate::version::{version_text, Version};

verus! {

/// Where provisioning of one interpreter stands: each step names the work to do next.
#[derive(PartialEq, Eq, Structural, Clone, Copy, Debug)]
pub enum Step {
    /// Make sure the installs root exists.
    CreateRoot,
    /// Look whether the interpreter of this version is already unpacked.
    Probe(Version),
    /// Fetch the release catalog.
    FetchCatalog,
    /// Create the version's directory.
    Prepare(Version),
    /// Download the archive into the version's directory.
    Download(Version),
    /// Unpack the downloaded archive.
    Extract(Version),
    /// The interpreter of this version is in place.
    Done(Version),
    /// Provisioning stopped.
    Failed(YenError),
}

/// Whether no further work follows `s`.
pub open spec fn is_terminal(s: Step) -> bool {
    s is Done || s is Failed
}

/// The step after the work of `s` has finished.
pub open spec fn after_done(request: Request, s: Step) -> Step {
    match s {
        Step::CreateRoot => match request {
            Request::Exact(v) => Step::Probe(v),
            Request::Latest => Step::FetchCatalog,
        },
        Step::Prepare(v) => Step::Download(v),
        Step::Download(v) => Step::Extract(v),
        Step::Extract(v) => Step::Done(v),
        _ => s,
    }
}

/// The step after a probe found the interpreter (`exists`) or not; `resolved` says whether the
/// catalog was already consulted.
pub open spec fn after_probe(s: Step, resolved: bool, exists: bool) -> Step {
    match s {
        Step::Probe(v) => if exists {
            Step::Done(v)
        } else if resolved {
            Step::Prepare(v)
        } else {
            Step::FetchCatalog
        },
        _ => s,
    }
}

/// The URL of a string option, as characters.
pub open spec fn url_view(u: Option<String>) -> Option<Seq<char>> {
    match u {
        Some(s) => Some(s@),
        None => None,
    }
}

/// The decisions of provisioning one interpreter: what to do next, given what the last
/// piece of work reported. A requested exact version is looked for on disk before any
/// network access; the catalog is fetched only when it is missing, or when the newest
/// release is asked for.
pub struct Installer {
    pub request: Request,
    pub step: Step,
    pub url: Option<String>,
}

impl Installer {
    /// Provisioning for `request`, before any work.
    pub fn new(request: Request) -> (r: Installer)
        ensures
            r.request == request,
            r.step == Step::CreateRoot,
            r.url is None,
    {
        Installer { request, step: Step::CreateRoot, url: None }
    }

    /// The work of the current step finished.
    pub fn on_done(&mut self)
        ensures
            final(self).request == old(self).request,
            final(self).step == after_done(old(self).request, old(self).step),
            url_view(final(self).url) == url_view(old(self).url),
    {
        self.step = match self.step {
            Step::CreateRoot => match self.request {
                Request::Exact(v) => Step::Probe(v),
                Request::Latest => Step::FetchCatalog,
            },
            Step::Prepare(v) => Step::Download(v),
            Step::Download(v) => Step::Extract(v),
            Step::Extract(v) => Step::Done(v),
            s => s,
        };
    }

    /// A probe reported whether the interpreter exists.
    pub fn on_probe(&mut self, exists: bool)
        ensures
            final(self).request == old(self).request,
            final(self).step == after_probe(old(self).step, old(self).url is Some, exists),
            url_view(final(self).url) == url_view(old(self).url),
    {
        if let Step::Probe(v) = self.step {
            self.step = if exists {
                Step::Done(v)
            } else if self.url.is_some() {
                Step::Prepare(v)
            } else {
                Step::FetchCatalog
            };
        }
    }

    /// The catalog was fetched: resolve the request against it. For an exact version,
    /// which was probed already, go on to install it; for the newest release, probe it.
    pub fn on_catalog(&mut self, catalog: &Catalog)
        requires
            catalog.wf(),
        ensures
            final(self).request == old(self).request,
            old(self).step != Step::FetchCatalog ==> final(self).step == old(self).step
                && url_view(final(self).url) == url_view(old(self).url),
            old(self).step == Step::FetchCatalog ==> match old(self).request {
                Request::Latest => if catalog@.dom().is_empty() {
                    final(self).step == Step::Failed(YenError::NoRelease)
                } else {
                    exists|v: Version|
                        is_greatest(catalog@, v) && final(self).step == Step::Probe(v) && url_view(
                            final(self).url,
                        ) == Some(catalog@[v])
                },
                Request::Exact(w) => if catalog@.contains_key(w) {
                    final(self).step == Step::Prepare(w) && url_view(final(self).url) == Some(
                        catalog@[w],
                    )
                } else {
                    final(self).step == Step::Failed(YenError::VersionNotAvailable(w))
                },
            },
    {
        if self.step != Step::FetchCatalog {
            return;
        }
        match resolve(&self.request, catalog) {
            Ok((v, u)) => {
                self.step = match self.request {
                    Request::Exact(_) => Step::Prepare(v),
                    Request::Latest => Step::Probe(v),
                };
                self.url = Some(u);
            },
            Err(e) => {
                self.step = Step::Failed(e);
            },
        }
    }

    /// The work of the current step failed with `e`; a finished run stays as it is.
    pub fn on_error(&mut self, e: YenError)
        ensures
            final(self).request == old(self).request,
            final(self).step == (if is_terminal(old(self).step) {
                old(self).step
            } else {
                Step::Failed(e)
            }),
            url_view(final(self).url) == url_view(old(self).url),
    {
        match self.step {
            Step::Done(_) | Step::Failed(_) => {},
            _ => {
                self.step = Step::Failed(e);
            },
        }
    }
}

/// An exact version that is already unpacked is found by one probe after the root is in
/// place, and provisioning ends there: the catalog is never fetched and nothing is
/// downloaded.
pub proof fn lemma_cached_exact_is_offline(v: Version)
    ensures
        after_done(Request::Exact(v), Step::CreateRoot) == Step::Probe(v),
        after_probe(Step::Probe(v), false, true) == Step::Done(v),
        is_terminal(Step::Done(v)),
{
}

/// The directory of the installs root that holds version `v`.
pub open spec fn install_dir_text(root: Seq<char>, v: Version) -> Seq<char> {
    root + seq!['/'] + version_text(v)
}

/// The interpreter binary within the directory of version `v`.
pub open spec fn python_bin_text(root: Seq<char>, v: Version) -> Seq<char> {
    install_dir_text(root, v) + "/python/bin/python3"@
}

/// The directory of the installs root `root` that holds version `v`.
pub fn install_dir(root: &str, v: &Version) -> (r: String)
    ensures
        r@ == install_dir_text(root@, *v),
{
    let mut r = String::new();
    push_str(&mut r, root);
    push_char(&mut r, '/');
    let t = v.to_string();
    push_str(&mut r, t.as_str());
    assert(r@ =~= install_dir_text(root@, *v));
    r
}

/// The path of the interpreter of version `v` under the installs root `root`.
pub fn python_bin_path(root: &str, v: &Version) -> (r: String)
    ensures
        r@ == python_bin_text(root@, *v),
{
    let mut r = install_dir(root, v);
    push_str(&mut r, "/python/bin/python3");
    r
}

} // verus!
