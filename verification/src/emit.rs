use vstd::prelude::*;
use crate::transform::TransformSet;
use crate::order::{DrawUi, ZEntry, zs_current};

verus! {

/// The visual layers of one element as they resolved this frame: the
/// texture of its image, and the rendered texture of its text, each
/// present only where the element has that layer and the texture
/// store resolved it.
#[derive(Clone, Copy, PartialEq, Eq, Structural, Debug)]
pub struct ElementVisuals {
    pub id: u32,
    pub image_texture: Option<u64>,
    pub text_texture: Option<u64>,
}

/// Which visual layer a draw operation renders.
#[derive(Clone, Copy, PartialEq, Eq, Structural, Debug)]
pub enum Layer {
    Image,
    Text,
}

/// One draw operation: the element it belongs to, its position and
/// size for the vertex arguments, the texture to bind, and the layer
/// drawn. The screen-space projection is the backend's to add.
#[derive(Clone, Copy, PartialEq, Eq, Structural, Debug)]
pub struct DrawCall {
    pub id: u32,
    pub x: i64,
    pub y: i64,
    pub width: u32,
    pub height: u32,
    pub texture: u64,
    pub layer: Layer,
}

/// No element identifier appears twice among the visuals.
pub open spec fn vis_distinct(vs: Seq<ElementVisuals>) -> bool {
    forall|i: int, j: int| 0 <= i < j < vs.len() ==> vs[i].id != vs[j].id
}

/// Whether some visuals entry belongs to the element.
pub open spec fn vis_has(vs: Seq<ElementVisuals>, id: u32) -> bool {
    exists|i: int| 0 <= i < vs.len() && vs[i].id == id
}

/// The visuals entry of an element known to have one.
pub open spec fn vis_for(vs: Seq<ElementVisuals>, id: u32) -> ElementVisuals {
    let i = choose|i: int| 0 <= i < vs.len() && vs[i].id == id;
    vs[i]
}

/// The draw operations one ordered entry contributes: its image
/// layer, then its text layer, each only where a texture resolved.
pub open spec fn layer_calls(
    e: ZEntry,
    t: crate::transform::UiTransform,
    v: ElementVisuals,
) -> Seq<DrawCall> {
    let image_part = match v.image_texture {
        Some(tex) => seq![
            (DrawCall {
                id: e.id,
                x: t.x,
                y: t.y,
                width: t.width,
                height: t.height,
                texture: tex,
                layer: Layer::Image,
            }),
        ],
        None => Seq::<DrawCall>::empty(),
    };
    let text_part = match v.text_texture {
        Some(tex) => seq![
            (DrawCall {
                id: e.id,
                x: t.x,
                y: t.y,
                width: t.width,
                height: t.height,
                texture: tex,
                layer: Layer::Text,
            }),
        ],
        None => Seq::<DrawCall>::empty(),
    };
    image_part + text_part
}

/// The draw operations one ordered entry contributes, given the
/// frame's transforms and resolved visuals: none where the element
/// has no visuals entry.
pub open spec fn elem_calls(
    e: ZEntry,
    ts: TransformSet,
    vs: Seq<ElementVisuals>,
) -> Seq<DrawCall> {
    if vis_has(vs, e.id) {
        layer_calls(e, ts.spec_at(e.id), vis_for(vs, e.id))
    } else {
        Seq::<DrawCall>::empty()
    }
}

/// The draw operations a frame issues: those of each ordered entry in
/// turn, strictly in the cache's order.
pub open spec fn spec_emit(
    ordered: Seq<ZEntry>,
    ts: TransformSet,
    vs: Seq<ElementVisuals>,
) -> Seq<DrawCall>
    decreases ordered.len(),
{
    if ordered.len() == 0 {
        Seq::<DrawCall>::empty()
    } else {
        spec_emit(ordered.drop_last(), ts, vs) + elem_calls(ordered.last(), ts, vs)
    }
}

/// Looks the visuals of one element up.
#[verifier::loop_isolation(false)]
fn find_visual(vs: &Vec<ElementVisuals>, id: u32) -> (r: Option<ElementVisuals>)
    requires
        vis_distinct(vs@),
    ensures
        r is Some <==> vis_has(vs@, id),
        r is Some ==> r->0 == vis_for(vs@, id),
{
    let n = vs.len();
    let mut i: usize = 0;
    while i < n
        invariant
            0 <= i <= n,
            forall|k: int| 0 <= k < i ==> vs@[k].id != id,
        decreases n - i,
    {
        if vs[i].id == id {
            proof {
                let j = choose|j: int| 0 <= j < vs@.len() && vs@[j].id == id;
                if j < i {
                    assert(vs@[j].id != vs@[i as int].id);
                } else if i < j {
                    assert(vs@[i as int].id != vs@[j].id);
                }
            }
            return Some(vs[i]);
        }
        i += 1;
    }
    None
}

impl DrawUi {
    /// Walks the ordered draw list once and issues the frame's draw
    /// operations strictly in that order: per element its image
    /// layer, then its text layer, each only where a texture
    /// resolved, and an element without visuals contributes none. A
    /// frame whose shared unit-quad mesh has not resolved draws
    /// nothing at all.
    #[verifier::loop_isolation(false)]
    pub fn emit(&self, ts: &TransformSet, visuals: &Vec<ElementVisuals>, mesh_ready: bool) -> (r:
        Vec<DrawCall>)
        requires
            ts.wf(),
            vis_distinct(visuals@),
            zs_current(self.ordered_seq(), *ts),
        ensures
            !mesh_ready ==> r@.len() == 0,
            mesh_ready ==> r@ == spec_emit(self.ordered_seq(), *ts, visuals@),
    {
        let mut r: Vec<DrawCall> = Vec::new();
        if !mesh_ready {
            return r;
        }
        let ordered = self.ordered();
        let n = ordered.len();
        let mut i: usize = 0;
        proof {
            assert(self.ordered_seq().take(0) =~= Seq::<ZEntry>::empty());
        }
        while i < n
            invariant
                0 <= i <= n,
                n == self.ordered_seq().len(),
                ordered@ == self.ordered_seq(),
                r@ == spec_emit(self.ordered_seq().take(i as int), *ts, visuals@),
            decreases n - i,
        {
            let e = ordered[i];
            let ghost rpre = r@;
            let t = ts.get(e.id).unwrap();
            match find_visual(visuals, e.id) {
                Some(v) => {
                    if let Some(tex) = v.image_texture {
                        r.push(
                            DrawCall {
                                id: e.id,
                                x: t.x,
                                y: t.y,
                                width: t.width,
                                height: t.height,
                                texture: tex,
                                layer: Layer::Image,
                            },
                        );
                    }
                    if let Some(tex) = v.text_texture {
                        r.push(
                            DrawCall {
                                id: e.id,
                                x: t.x,
                                y: t.y,
                                width: t.width,
                                height: t.height,
                                texture: tex,
                                layer: Layer::Text,
                            },
                        );
                    }
                    proof {
                        assert(r@ =~= rpre + layer_calls(e, ts.spec_at(e.id), v));
                    }
                },
                None => {
                    proof {
                        assert(r@ =~= rpre + elem_calls(e, *ts, visuals@));
                    }
                },
            }
            proof {
                let s1 = self.ordered_seq().take(i + 1);
                assert(s1.drop_last() =~= self.ordered_seq().take(i as int));
                assert(s1.last() == e);
                assert(r@ == spec_emit(s1, *ts, visuals@));
            }
            i += 1;
        }
        proof {
            assert(self.ordered_seq().take(n as int) =~= self.ordered_seq());
        }
        r
    }
}

} // verus!
