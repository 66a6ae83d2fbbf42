use vstd::prelude::*;

use crate::catalog::views;

verus! {

/// One downloadable file of a release.
#[derive(Clone, Debug)]
pub struct Asset {
    pub browser_download_url: String,
}

/// The part of a release description that provisioning reads: its files.
#[derive(Clone, Debug)]
pub struct GithubResp {
    pub assets: Vec<Asset>,
}

/// The download URLs of a list of assets, in order.
pub open spec fn asset_urls(assets: Seq<Asset>) -> Seq<Seq<char>> {
    assets.map_values(|a: Asset| a.browser_download_url@)
}

impl GithubResp {
    /// The download URLs of the release's files, in order.
    pub fn download_urls(&self) -> (r: Vec<String>)
        ensures
            views(r@) == asset_urls(self.assets@),
    {
        let mut r: Vec<String> = Vec::new();
        for i in 0..self.assets.len()
            invariant
                views(r@) == asset_urls(self.assets@.take(i as int)),
        {
            r.push(self.assets[i].browser_download_url.clone());
            assert(asset_urls(self.assets@.take(i + 1)) =~= asset_urls(self.assets@.take(i as int)).push(
                self.assets@[i as int].browser_download_url@,
            ));
            assert(views(r@) =~= asset_urls(self.assets@.take(i + 1)));
        }
        assert(self.assets@.take(self.assets.len() as int) =~= self.assets@);
        r
    }
}

} // verus!
