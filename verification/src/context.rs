//! The shared state a layout pass reads: the asset loader and the computed
//! text styles, keyed by style handle.
//!
//! Styles are computed (rasterized) outside a layout pass and registered
//! here; a pass only looks them up.

use vstd::prelude::*;

use crate::loader::Loader;
use crate::text_style::{TextStyleComputed, TextStyleHandle};

verus! {

/// The shared context of one widget tree.
pub struct Context {
    pub loader: Loader,
    text_styles: Vec<(TextStyleHandle, TextStyleComputed)>,
}

impl Context {
    /// The registered computed styles, first entry winning.
    pub closed spec fn spec_styles(self) -> Seq<(TextStyleHandle, TextStyleComputed)> {
        self.text_styles@
    }

    /// The asset loader.
    pub closed spec fn spec_loader(self) -> Loader {
        self.loader
    }

    /// First computed style registered under `h`, if any.
    pub open spec fn spec_style_of(
        styles: Seq<(TextStyleHandle, TextStyleComputed)>,
        h: TextStyleHandle,
    ) -> Option<TextStyleComputed>
        decreases styles.len(),
    {
        if styles.len() == 0 {
            None
        } else if styles[0].0 == h {
            Some(styles[0].1)
        } else {
            Self::spec_style_of(styles.drop_first(), h)
        }
    }

    pub fn new(loader: Loader) -> (r: Context)
        ensures
            r.spec_styles() == Seq::<(TextStyleHandle, TextStyleComputed)>::empty(),
            r.spec_loader() == loader,
    {
        Context { loader, text_styles: Vec::new() }
    }

    /// Register a computed style under its handle. Newer entries shadow
    /// older ones with the same handle.
    pub fn insert_style(&mut self, h: TextStyleHandle, computed: TextStyleComputed)
        ensures
            final(self).spec_styles() == old(self).spec_styles().insert(0, (h, computed)),
            final(self).spec_loader() == old(self).spec_loader(),
    {
        self.text_styles.insert(0, (h, computed));
    }

    /// Look up a computed style by handle.
    pub fn get_style(&self, h: &TextStyleHandle) -> (r: Option<&TextStyleComputed>)
        ensures
            match r {
                Some(computed) => Self::spec_style_of(self.spec_styles(), *h) == Some(*computed),
                None => Self::spec_style_of(self.spec_styles(), *h) is None,
            },
    {
        let mut i: usize = 0;
        proof {
            assert(self.text_styles@.skip(0int) =~= self.text_styles@);
        }
        while i < self.text_styles.len()
            invariant
                i <= self.text_styles@.len(),
                Self::spec_style_of(self.spec_styles(), *h) == Self::spec_style_of(
                    self.text_styles@.skip(i as int),
                    *h,
                ),
            decreases self.text_styles@.len() - i,
        {
            proof {
                assert(self.text_styles@.skip(i as int).drop_first() =~= self.text_styles@.skip(
                    i + 1,
                ));
            }
            if self.text_styles[i].0 == *h {
                proof {
                    assert(self.text_styles@.skip(i as int)[0] == self.text_styles@[i as int]);
                }
                return Some(&self.text_styles[i].1);
            }
            i = i + 1;
        }
        proof {
            assert(self.text_styles@.skip(self.text_styles@.len() as int) =~= Seq::<(
                TextStyleHandle,
                TextStyleComputed,
            )>::empty());
        }
        None
    }
}

} // verus!
