//! The in-memory asset store the text machinery resolves font bytes from.
//!
//! Reading files from disk happens outside this crate; loaded bytes are
//! handed in through [`Loader::insert_asset`].

use vstd::prelude::*;

use crate::error::UiError;

verus! {

/// A loaded asset: its raw bytes.
pub struct Asset {
    pub bytes: Vec<u8>,
}

impl Clone for Asset {
    /// A clone holds the same bytes.
    fn clone(&self) -> (r: Asset)
        ensures
            r.bytes@ == self.bytes@,
    {
        let mut bytes: Vec<u8> = Vec::new();
        let mut i: usize = 0;
        while i < self.bytes.len()
            invariant
                i <= self.bytes@.len(),
                bytes@ =~= self.bytes@.take(i as int),
            decreases self.bytes@.len() - i,
        {
            bytes.push(self.bytes[i]);
            i = i + 1;
        }
        proof {
            assert(bytes@ =~= self.bytes@);
        }
        Asset { bytes }
    }
}

/// A map from asset paths to loaded assets.
pub struct Loader {
    assets: Vec<(String, Asset)>,
}

impl Loader {
    /// The bytes stored under each path, first entry winning.
    pub closed spec fn spec_assets(self) -> Seq<(String, Asset)> {
        self.assets@
    }

    /// First asset stored under `path`, if any.
    pub open spec fn spec_lookup(assets: Seq<(String, Asset)>, path: Seq<char>) -> Option<Asset>
        decreases assets.len(),
    {
        if assets.len() == 0 {
            None
        } else if assets[0].0@ == path {
            Some(assets[0].1)
        } else {
            Self::spec_lookup(assets.drop_first(), path)
        }
    }

    pub fn new() -> (r: Loader)
        ensures
            r.spec_assets() == Seq::<(String, Asset)>::empty(),
    {
        Loader { assets: Vec::new() }
    }

    /// Store `bytes` under `path`. Newer entries shadow older ones with the
    /// same path.
    pub fn insert_asset(&mut self, path: String, bytes: Vec<u8>)
        ensures
            final(self).spec_assets() == old(self).spec_assets().insert(0, (path, Asset { bytes })),
    {
        self.assets.insert(0, (path, Asset { bytes }));
    }

    /// The font asset registered under the fixed path `"/"`; fails with
    /// [`UiError::StyleNotFound`] when no font has been registered.
    ///
    /// The lookup deliberately takes no family name: the interface keys a
    /// single font under one well-known path, so every family resolves to
    /// it. A by-name store would be a different public signature.
    pub fn get_font_by_family(&self) -> (r: Result<Asset, UiError>)
        ensures
            ({
                let looked = Self::spec_lookup(self.spec_assets(), "/"@);
                match r {
                    Ok(a) => looked matches Some(x) && x.bytes@ == a.bytes@,
                    Err(e) => looked is None && e == UiError::StyleNotFound,
                }
            }),
    {
        let path: String = "/".to_owned();
        let mut i: usize = 0;
        proof {
            assert(self.assets@.skip(0int) =~= self.assets@);
        }
        while i < self.assets.len()
            invariant
                i <= self.assets@.len(),
                path@ == "/"@,
                Self::spec_lookup(self.assets@, path@) == Self::spec_lookup(
                    self.assets@.skip(i as int),
                    path@,
                ),
            decreases self.assets@.len() - i,
        {
            proof {
                assert(self.assets@.skip(i as int).drop_first() =~= self.assets@.skip(i + 1));
            }
            if self.assets[i].0.eq(&path) {
                proof {
                    assert(self.assets@.skip(i as int)[0] == self.assets@[i as int]);
                }
                return Ok(self.assets[i].1.clone());
            }
            i = i + 1;
        }
        proof {
            assert(self.assets@.skip(self.assets@.len() as int) =~= Seq::<(String, Asset)>::empty());
        }
        Err(UiError::StyleNotFound)
    }
}

} // verus!
