//! Assets that the renderer serves: which ones a build writes, how web
//! paths are normalised, and where each one can be found locally.

use vstd::prelude::*;
use vstd::string::{StrSliceExecFns, StringExecFns};
use crate::codec::{bytes_from_symbol, bytes_of_hex, is_hex_text, FromStringError};
use crate::table::{contains_key, distinct_keys, index_of, insert, keys_of};

verus! {

/// Which assets a build writes.
#[derive(Clone, Copy, PartialEq, Eq, Structural)]
pub enum AssetKind {
    /// Only those fetched from elsewhere.
    Remote,
    /// Only those on the local disk.
    Local,
    /// All of them.
    All,
}

impl Default for AssetKind {
    fn default() -> (r: AssetKind)
        ensures
            r == AssetKind::All,
    {
        AssetKind::All
    }
}

/// How assets are written.
pub struct AssetsLoaderWriteOptions {
    pub kind: AssetKind,
    pub hash_url: bool,
}

impl Default for AssetsLoaderWriteOptions {
    fn default() -> (r: AssetsLoaderWriteOptions)
        ensures
            r.kind == AssetKind::All,
            !r.hash_url,
    {
        AssetsLoaderWriteOptions { kind: AssetKind::All, hash_url: false }
    }
}

/// Whether an asset whose address has the `file` scheme (`is_file`) or
/// another one is written for `kind`.
pub open spec fn scheme_allowed(kind: AssetKind, is_file: bool) -> bool {
    match kind {
        AssetKind::All => true,
        AssetKind::Local => is_file,
        AssetKind::Remote => !is_file,
    }
}

/// Decides whether an asset is written under `options`.
pub fn allows_scheme(options: &AssetsLoaderWriteOptions, is_file: bool) -> (r: bool)
    ensures
        r == scheme_allowed(options.kind, is_file),
{
    let allow_all_schemes = options.kind == AssetKind::All;
    let allow_file_scheme = allow_all_schemes || options.kind == AssetKind::Local;
    let allow_other_schemes = allow_all_schemes || options.kind == AssetKind::Remote;
    if is_file {
        allow_file_scheme
    } else {
        allow_other_schemes
    }
}

/// A web path with every leading and trailing `/` removed and one `/` put
/// in front.
pub open spec fn normalized(path: Seq<char>) -> Seq<char>
    decreases path.len(),
{
    if path.len() > 0 && path[0] == '/' {
        normalized(path.drop_first())
    } else if path.len() > 0 && path.last() == '/' {
        normalized(path.drop_last())
    } else {
        seq!['/'] + path
    }
}

/// Normalises a web path: `a/b/`, `/a/b` and `//a/b//` all become `/a/b`.
pub fn normalize_web_path(path: &str) -> (r: String)
    ensures
        r@ == normalized(path@),
    decreases path@.len(),
{
    let n = path.unicode_len();
    if n > 0 && path.get_char(0) == '/' {
        let rest = path.substring_char(1, n);
        assert(rest@ =~= path@.drop_first());
        normalize_web_path(rest)
    } else if n > 0 && path.get_char(n - 1) == '/' {
        let rest = path.substring_char(0, n - 1);
        assert(rest@ =~= path@.drop_last());
        normalize_web_path(rest)
    } else {
        let r = String::from_str("/").concat(path);
        proof {
            reveal_strlit("/");
            assert(r@ =~= seq!['/'] + path@);
        }
        r
    }
}

/// An asset of an index: the digest its content must have, where it is
/// fetched from, and the web path it is served at.
pub struct Asset {
    pub sha256: Vec<u8>,
    pub url: String,
    pub is_file: bool,
    pub web_path: String,
}

impl Asset {
    /// An asset from the fields of an index entry: the digest as hexadecimal
    /// text, the resolved address, whether that address is a local file,
    /// and the web path, which is normalised.
    pub fn from_parts(sha256: &str, url: String, is_file: bool, web_path: &str) -> (r: Result<
        Asset,
        FromStringError,
    >)
        ensures
            r is Ok <==> is_hex_text(sha256@),
            r matches Ok(a) ==> a.sha256@ == bytes_of_hex(sha256@) && a.url@ == url@ && a.is_file
                == is_file && a.web_path@ == normalized(web_path@),
    {
        match bytes_from_symbol(sha256) {
            Ok(digest) => Ok(Asset { sha256: digest, url, is_file, web_path: normalize_web_path(web_path) }),
            Err(e) => Err(e),
        }
    }

    /// Whether a file whose digest is `actual` holds this asset.
    pub fn matches_digest(&self, actual: &Vec<u8>) -> (r: bool)
        ensures
            r == (self.sha256@ == actual@),
    {
        if self.sha256.len() != actual.len() {
            return false;
        }
        let mut i: usize = 0;
        while i < actual.len()
            invariant
                self.sha256@.len() == actual@.len(),
                i <= actual@.len(),
                forall|j: int| 0 <= j < i ==> self.sha256@[j] == actual@[j],
            decreases actual@.len() - i,
        {
            if self.sha256[i] != actual[i] {
                return false;
            }
            i = i + 1;
        }
        assert(self.sha256@ =~= actual@);
        true
    }
}

/// The assets of all registered indexes, at most one per web path.
pub struct AssetsLoader {
    indexes: Vec<String>,
    web_paths: Vec<(String, ())>,
    assets: Vec<Asset>,
}

impl AssetsLoader {
    /// The web paths are those of the assets, in order, and occur once.
    pub closed spec fn wf(&self) -> bool {
        &&& distinct_keys(self.web_paths@)
        &&& self.web_paths@.len() == self.assets@.len()
        &&& forall|i: int| 0 <= i < self.assets@.len() ==> (#[trigger] self.assets@[i]).web_path@ == self.web_paths@[i].0@
    }

    /// The addresses of the registered indexes.
    pub closed spec fn indexes_view(&self) -> Seq<Seq<char>> {
        keys_of(self.indexes@.map_values(|u: String| (u, ())))
    }

    /// The accepted assets, in order.
    pub closed spec fn assets_view(&self) -> Seq<Asset> {
        self.assets@
    }

    /// A loader with no index and no asset.
    pub fn new() -> (r: AssetsLoader)
        ensures
            r.wf(),
            r.indexes_view().len() == 0,
            r.assets_view().len() == 0,
    {
        let r = AssetsLoader { indexes: Vec::new(), web_paths: Vec::new(), assets: Vec::new() };
        assert(keys_of(r.web_paths@) =~= Seq::<Seq<char>>::empty());
        r
    }

    /// Registers the address of an index to load.
    pub fn register_index_url(&mut self, url: String)
        ensures
            final(self).indexes_view() == old(self).indexes_view().push(url@),
            final(self).assets_view() == old(self).assets_view(),
            final(self).wf() == old(self).wf(),
    {
        self.indexes.push(url);
        assert(keys_of(self.indexes@.map_values(|u: String| (u, ()))) =~= keys_of(
            old(self).indexes@.map_values(|u: String| (u, ())),
        ).push(url@));
    }

    /// Accepts an asset of a loaded index unless its web path is taken
    /// already; says whether it was accepted.
    pub fn add_asset(&mut self, asset: Asset) -> (r: bool)
        requires
            old(self).wf(),
        ensures
            final(self).wf(),
            final(self).indexes_view() == old(self).indexes_view(),
            r == !(exists|i: int|
                0 <= i < old(self).assets_view().len() && (#[trigger] old(self).assets_view()[i]).web_path@
                    == asset.web_path@),
            r ==> final(self).assets_view() == old(self).assets_view().push(asset),
            !r ==> final(self).assets_view() == old(self).assets_view(),
    {
        if contains_key(&self.web_paths, asset.web_path.as_str()) {
            proof {
                let j = choose|j: int|
                    0 <= j < keys_of(self.web_paths@).len() && keys_of(self.web_paths@)[j]
                        == asset.web_path@;
                assert(self.web_paths@[j].0@ == asset.web_path@);
                assert(self.assets@[j].web_path@ == asset.web_path@);
                assert(old(self).assets_view()[j].web_path@ == asset.web_path@);
            }
            return false;
        }
        proof {
            if exists|i: int|
                0 <= i < self.assets@.len() && (#[trigger] self.assets@[i]).web_path@ == asset.web_path@ {
                let i = choose|i: int|
                    0 <= i < self.assets@.len() && (#[trigger] self.assets@[i]).web_path@
                        == asset.web_path@;
                assert(keys_of(self.web_paths@)[i] == asset.web_path@);
            }
        }
        let ghost before = self.web_paths@;
        insert(&mut self.web_paths, asset.web_path.clone(), ());
        self.assets.push(asset);
        proof {
            assert forall|i: int| 0 <= i < self.assets@.len() implies (#[trigger] self.assets@[i]).web_path@
                == self.web_paths@[i].0@ by {
                if i < before.len() {
                    assert(self.assets@[i] == old(self).assets@[i]);
                }
            }
        }
        true
    }

    /// The accepted assets, in order.
    pub fn assets(&self) -> (r: &Vec<Asset>)
        ensures
            r@ == self.assets_view(),
    {
        &self.assets
    }

    /// The addresses of the registered indexes.
    pub fn indexes(&self) -> (r: &Vec<String>)
        ensures
            keys_of(r@.map_values(|u: String| (u, ()))) == self.indexes_view(),
    {
        &self.indexes
    }
}

/// Whether a write under `options` considers `asset`: its address must be
/// of an allowed scheme.
pub fn should_write(options: &AssetsLoaderWriteOptions, asset: &Asset) -> (r: bool)
    ensures
        r == scheme_allowed(options.kind, asset.is_file),
{
    allows_scheme(options, asset.is_file)
}

/// Where each served asset can be found locally, by web path.
pub struct AccessibleAssets {
    index: Vec<(String, String)>,
}

impl AccessibleAssets {
    /// Every web path occurs once.
    pub closed spec fn wf(&self) -> bool {
        distinct_keys(self.index@)
    }

    /// The web paths, in order.
    pub closed spec fn web_paths(&self) -> Seq<Seq<char>> {
        keys_of(self.index@)
    }

    /// The local path of `web_path`, if it is known.
    pub closed spec fn local_path_of(&self, web_path: Seq<char>) -> Option<Seq<char>> {
        if exists|i: int| 0 <= i < self.index@.len() && self.index@[i].0@ == web_path {
            let i = choose|i: int| 0 <= i < self.index@.len() && self.index@[i].0@ == web_path;
            Some(self.index@[i].1@)
        } else {
            None
        }
    }

    /// No asset yet.
    pub fn new() -> (r: AccessibleAssets)
        ensures
            r.wf(),
            r.web_paths().len() == 0,
    {
        let r = AccessibleAssets { index: Vec::new() };
        assert(keys_of(r.index@) =~= Seq::<Seq<char>>::empty());
        r
    }

    /// Records that the asset served at `web_path` is at `local_path`.
    pub fn insert(&mut self, web_path: String, local_path: String)
        requires
            old(self).wf(),
        ensures
            final(self).wf(),
            final(self).local_path_of(web_path@) == Some(local_path@),
            forall|w: Seq<char>| w != web_path@ ==> #[trigger] final(self).local_path_of(w) == old(
                self,
            ).local_path_of(w),
    {
        let ghost w0 = web_path@;
        let ghost l0 = local_path@;
        insert(&mut self.index, web_path, local_path);
        assert(exists|i: int| 0 <= i < self.index@.len() && self.index@[i].0@ == w0 && self.index@[i].1@ == l0);
        proof {
            let e = self.index@;
            let o = old(self).index@;
            let i = choose|i: int| 0 <= i < e.len() && e[i].0@ == w0 && e[i].1@ == l0;
            assert forall|j: int| 0 <= j < e.len() && e[j].0@ == w0 implies j == i by {
                assert(keys_of(e)[j] == keys_of(e)[i]);
            }
            assert forall|w: Seq<char>| w != w0 implies #[trigger] self.local_path_of(w)
                == old(self).local_path_of(w) by {
                if exists|j: int| 0 <= j < o.len() && o[j].0@ == w {
                    let a = choose|j: int| 0 <= j < o.len() && o[j].0@ == w;
                    assert(keys_of(o).contains(w)) by {
                        assert(keys_of(o)[a] == w);
                    }
                    assert(keys_of(e).contains(w));
                    let c = choose|j: int| 0 <= j < keys_of(e).len() && keys_of(e)[j] == w;
                    assert(e[c].0@ == w);
                    let b = choose|j: int| 0 <= j < e.len() && e[j].0@ == w;
                    assert(e[b] == o[b]);
                    assert(keys_of(o)[a] == keys_of(o)[b]);
                }
                if exists|j: int| 0 <= j < e.len() && e[j].0@ == w {
                    let b = choose|j: int| 0 <= j < e.len() && e[j].0@ == w;
                    assert(e[b] == o[b]);
                }
            }
        }
    }

    /// The local path of the asset served at `web_path`.
    pub fn get_local_path(&self, web_path: &str) -> (r: Option<&str>)
        requires
            self.wf(),
        ensures
            match r {
                Some(p) => self.local_path_of(web_path@) == Some(p@),
                None => self.local_path_of(web_path@) is None,
            },
    {
        match index_of(&self.index, web_path) {
            Some(i) => {
                proof {
                    let e = self.index@;
                    let c = choose|j: int| 0 <= j < e.len() && e[j].0@ == web_path@;
                    assert(keys_of(e)[c] == keys_of(e)[i as int]);
                }
                Some(self.index[i].1.as_str())
            },
            None => {
                proof {
                    if exists|j: int| 0 <= j < self.index@.len() && self.index@[j].0@ == web_path@ {
                        let j = choose|j: int|
                            0 <= j < self.index@.len() && self.index@[j].0@ == web_path@;
                        assert(keys_of(self.index@)[j] == web_path@);
                    }
                }
                None
            },
        }
    }
}

} // verus!
