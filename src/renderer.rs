use vstd::prelude::*;

use std::collections::HashMap;

use crate::drawable::{Drawable, EffectParams, Mat4Bits};
use crate::effects::EffectBits;
use crate::silhouette::{Silhouette, SilhouetteError, SilhouetteID};
use crate::{DrawableID, F32Bits, ID_NONE};

verus! {

/// The registries of drawables and silhouettes, keyed by id. A drawable refers to its
/// silhouette by id, looked up at query time.
pub struct SoftwareRenderer {
    pub drawables: HashMap<DrawableID, Drawable>,
    pub silhouettes: HashMap<SilhouetteID, Silhouette>,
}

/// `m` holds sixteen zero entries.
pub open spec fn is_zero_matrix(m: Mat4Bits) -> bool {
    forall|i: int| 0 <= i < 16 ==> m@[i] == 0
}

/// `fx` holds seven zero parameters.
pub open spec fn is_zero_effects(fx: EffectParams) -> bool {
    forall|i: int| 0 <= i < 7 ==> fx@[i] == 0
}

/// `d` is `prev` (or, when there is none, a fresh drawable with a zero matrix, zero
/// effect parameters and the "none" silhouette) with the given fields written over it.
pub open spec fn is_patched(
    d: Drawable,
    prev: Option<Drawable>,
    id: DrawableID,
    inverse_matrix: Option<Mat4Bits>,
    silhouette: Option<SilhouetteID>,
    effects: Option<EffectParams>,
    effect_bits: EffectBits,
    use_nearest_neighbor: bool,
) -> bool {
    &&& d.id == id
    &&& d.effect_bits == effect_bits
    &&& d.use_nearest_neighbor == use_nearest_neighbor
    &&& match inverse_matrix {
        Some(m) => d.inverse_matrix == m,
        None => match prev {
            Some(p) => d.inverse_matrix == p.inverse_matrix,
            None => is_zero_matrix(d.inverse_matrix),
        },
    }
    &&& match silhouette {
        Some(s) => d.silhouette == s,
        None => match prev {
            Some(p) => d.silhouette == p.silhouette,
            None => d.silhouette == ID_NONE,
        },
    }
    &&& match effects {
        Some(fx) => d.effects == fx,
        None => match prev {
            Some(p) => d.effects == p.effects,
            None => is_zero_effects(d.effects),
        },
    }
}

impl SoftwareRenderer {
    /// Every silhouette is well formed, and each entry is stored under its own id.
    pub open spec fn wf(&self) -> bool {
        &&& forall|id: SilhouetteID| #[trigger]
            self.silhouettes@.contains_key(id) ==> self.silhouettes@[id].wf()
                && self.silhouettes@[id].id == id
        &&& forall|id: DrawableID| #[trigger]
            self.drawables@.contains_key(id) ==> self.drawables@[id].id == id
    }

    /// No drawables, and the empty "none" silhouette.
    pub fn new() -> (r: SoftwareRenderer)
        ensures
            r.wf(),
            r.drawables@ == Map::<DrawableID, Drawable>::empty(),
            r.silhouettes@.dom() == set![ID_NONE],
            r.silhouettes@[ID_NONE].id == ID_NONE,
            r.silhouettes@[ID_NONE].width == 0,
            r.silhouettes@[ID_NONE].height == 0,
            r.silhouettes@[ID_NONE].nominal_size@ == seq![0u32, 0u32],
            r.silhouettes@[ID_NONE].pixels() == Seq::<u8>::empty(),
    {
        let mut silhouettes: HashMap<SilhouetteID, Silhouette> = HashMap::new();
        silhouettes.insert(ID_NONE, Silhouette::new(ID_NONE));
        let r = SoftwareRenderer { drawables: HashMap::new(), silhouettes };
        assert(r.silhouettes@.dom() =~= set![ID_NONE]);
        r
    }

    /// Create the drawable `id` or update it: the fields given as `Some` are written, the
    /// others keep their value (on creation: a zero matrix, zero effect parameters and the
    /// "none" silhouette). Effect bits and sampling mode are always written.
    pub fn set_drawable(
        &mut self,
        id: DrawableID,
        inverse_matrix: Option<Mat4Bits>,
        silhouette: Option<SilhouetteID>,
        effects: Option<EffectParams>,
        effect_bits: EffectBits,
        use_nearest_neighbor: bool,
    )
        requires
            old(self).wf(),
        ensures
            final(self).wf(),
            final(self).silhouettes@ == old(self).silhouettes@,
            final(self).drawables@.dom() == old(self).drawables@.dom().insert(id),
            forall|other: DrawableID|
                other != id ==> #[trigger] final(self).drawables@.get(other) == old(self).drawables@.get(
                    other,
                ),
            is_patched(
                final(self).drawables@[id],
                old(self).drawables@.get(id),
                id,
                inverse_matrix,
                silhouette,
                effects,
                effect_bits,
                use_nearest_neighbor,
            ),
    {
        let ghost prev = self.drawables@.get(id);
        let mut d = match self.drawables.remove(&id) {
            Some(d) => d,
            None => {
                let d = Drawable {
                    id,
                    inverse_matrix: [0; 16],
                    silhouette: ID_NONE,
                    effects: [0; 7],
                    effect_bits: 0,
                    use_nearest_neighbor,
                };
                assert(is_zero_matrix(d.inverse_matrix));
                assert(is_zero_effects(d.effects));
                d
            },
        };
        if let Some(m) = inverse_matrix {
            d.inverse_matrix = m;
        }
        if let Some(s) = silhouette {
            d.silhouette = s;
        }
        if let Some(fx) = effects {
            d.effects = fx;
        }
        d.effect_bits = effect_bits;
        d.use_nearest_neighbor = use_nearest_neighbor;
        self.drawables.insert(id, d);
        assert(self.drawables@.dom() =~= old(self).drawables@.dom().insert(id));
    }

    /// Delete the drawable `id`; nothing happens when there is none.
    pub fn remove_drawable(&mut self, id: DrawableID)
        requires
            old(self).wf(),
        ensures
            final(self).wf(),
            final(self).drawables@ == old(self).drawables@.remove(id),
            final(self).silhouettes@ == old(self).silhouettes@,
    {
        self.drawables.remove(&id);
    }

    /// Create the silhouette `id` or replace its pixels, as [`Silhouette::set_data`] does.
    /// A buffer of the wrong size is rejected and nothing changes.
    pub fn set_silhouette(
        &mut self,
        id: SilhouetteID,
        w: u32,
        h: u32,
        data: Vec<u8>,
        nominal_size: [F32Bits; 2],
        premultiplied: bool,
    ) -> (r: Result<(), SilhouetteError>)
        requires
            old(self).wf(),
        ensures
            final(self).wf(),
            final(self).drawables@ == old(self).drawables@,
            r is Err <==> data@.len() != w as int * h as int * 4,
            r is Err ==> r == Err::<(), SilhouetteError>(SilhouetteError::BadSize)
                && final(self).silhouettes@ == old(self).silhouettes@,
            r is Ok ==> {
                &&& final(self).silhouettes@.dom() == old(self).silhouettes@.dom().insert(id)
                &&& forall|other: SilhouetteID|
                    other != id ==> #[trigger] final(self).silhouettes@.get(other)
                        == old(self).silhouettes@.get(other)
                &&& final(self).silhouettes@[id].width == w
                &&& final(self).silhouettes@[id].height == h
                &&& final(self).silhouettes@[id].nominal_size == nominal_size
                &&& final(self).silhouettes@[id].pixels() == (if premultiplied {
                    data@
                } else {
                    crate::silhouette::premultiplied_pixels(data@)
                })
            },
    {
        if !crate::silhouette::size_matches(w, h, data.len()) {
            return Err(SilhouetteError::BadSize);
        }
        let mut s = match self.silhouettes.remove(&id) {
            Some(s) => s,
            None => Silhouette::new(id),
        };
        let r = s.set_data(w, h, data, nominal_size, premultiplied);
        self.silhouettes.insert(id, s);
        assert(self.silhouettes@.dom() =~= old(self).silhouettes@.dom().insert(id));
        r
    }

    /// Delete the silhouette `id`; nothing happens when there is none.
    pub fn remove_silhouette(&mut self, id: SilhouetteID)
        requires
            old(self).wf(),
        ensures
            final(self).wf(),
            final(self).silhouettes@ == old(self).silhouettes@.remove(id),
            final(self).drawables@ == old(self).drawables@,
    {
        self.silhouettes.remove(&id);
    }

    /// The drawable `id`, if there is one.
    pub fn drawable(&self, id: DrawableID) -> (r: Option<&Drawable>)
        ensures
            match r {
                Some(d) => self.drawables@.contains_key(id) && *d == self.drawables@[id],
                None => !self.drawables@.contains_key(id),
            },
    {
        self.drawables.get(&id)
    }

    /// The silhouette `id`, if there is one.
    pub fn silhouette(&self, id: SilhouetteID) -> (r: Option<&Silhouette>)
        ensures
            match r {
                Some(s) => self.silhouettes@.contains_key(id) && *s == self.silhouettes@[id],
                None => !self.silhouettes@.contains_key(id),
            },
    {
        self.silhouettes.get(&id)
    }
}

} // verus!
