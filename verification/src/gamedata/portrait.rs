//! Portrait overlays.

use crate::gamedata::facetype::FaceType;
use vstd::prelude::*;

verus! {

/// A portrait overlay: a screen-space coordinate (as if on the handheld's
/// screen; the renderer places it), the owning actor id, and which face of
/// the actor to show.
#[derive(Debug)]
pub struct Portrait {
    pub coord: (i64, i64),
    pub actor: String,
    pub facetype: FaceType,
}

/// Mathematical image of a [`Portrait`].
pub struct PortraitModel {
    pub coord: (i64, i64),
    pub actor: Seq<char>,
    pub facetype: FaceType,
}

impl View for Portrait {
    type V = PortraitModel;

    open spec fn view(&self) -> PortraitModel {
        PortraitModel { coord: self.coord, actor: self.actor@, facetype: self.facetype }
    }
}

impl Clone for Portrait {
    fn clone(&self) -> (p: Portrait)
        ensures
            p == *self,
    {
        Portrait { coord: (self.coord.0, self.coord.1), actor: self.actor.clone(), facetype: self.facetype }
    }
}

} // verus!
