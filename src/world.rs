//! The per-frame protocol: three passes of the scene through the sequencer,
//! and the proof that masked draws stay inside their aperture.

use vstd::prelude::*;

use crate::sequencer::{
    draw_op, enter_ops, exit_ops, lemma_call_marks, lemma_stencil_append, spec_mesh_params,
    stencil_after, PairCall, PairState, Render, RenderOp, ViewCamera,
};

verus! {

/// The scene draws of one pass, made in state `s`.
pub open spec fn scene_ops<P, D>(s: PairState<P>, scene: Seq<D>) -> Seq<RenderOp<P, D>> {
    scene.map_values(|d: D| draw_op(s, d))
}

/// The operations of one frame from state `s`. With a linked pair (a, b):
/// the scene through a's aperture seen from b, then through b's aperture seen
/// from a, then the plain scene; with none, only the plain scene.
pub open spec fn frame_ops<P, D>(s: PairState<P>, portals: Option<(P, P)>, scene: Seq<D>) -> Seq<
    RenderOp<P, D>,
> {
    match portals {
        Some((a, b)) => enter_ops(s, a) + scene_ops(PairState::Active(a, b), scene) + enter_ops(
            PairState::Active(a, b),
            b,
        ) + scene_ops(PairState::Active(b, a), scene) + exit_ops(PairState::Active(b, a))
            + scene_ops(PairState::Inactive, scene),
        None => exit_ops(s) + scene_ops(PairState::Inactive, scene),
    }
}

/// Draws every item of the scene once, in order, through the sequencer.
pub fn render_iter<P: Copy, D: Copy>(r: &Render<P>, out: &mut Vec<RenderOp<P, D>>, scene: &Vec<D>)
    requires
        r.wf(),
    ensures
        final(out)@ == old(out)@ + scene_ops(r.state, scene@),
{
    let ghost out0 = out@;
    let mut i: usize = 0;
    while i < scene.len()
        invariant
            r.wf(),
            i <= scene.len(),
            out@ == out0 + scene_ops(r.state, scene@.subrange(0, i as int)),
        decreases scene.len() - i,
    {
        r.draw_mesh(out, scene[i]);
        proof {
            assert(scene@.subrange(0, i + 1) =~= scene@.subrange(0, i as int).push(scene@[i as int]));
            assert(scene_ops(r.state, scene@.subrange(0, i + 1)) =~= scene_ops(
                r.state,
                scene@.subrange(0, i as int),
            ).push(draw_op(r.state, scene@[i as int])));
        }
        i += 1;
    }
    assert(scene@.subrange(0, i as int) =~= scene@);
}

/// Renders one frame: with a linked pair (a, b), enters (a, b) and draws the
/// scene, enters (b, a) and draws it again; then leaves the pair and draws the
/// scene with the base camera.
pub fn render_world<P: Copy, D: Copy>(
    r: &mut Render<P>,
    out: &mut Vec<RenderOp<P, D>>,
    portals: Option<(P, P)>,
    scene: &Vec<D>,
)
    requires
        old(r).wf(),
    ensures
        final(out)@ == old(out)@ + frame_ops(old(r).state, portals, scene@),
        final(r).wf(),
        final(r).state == PairState::<P>::Inactive,
        final(r).camera == ViewCamera::<P>::Base,
{
    let ghost out0 = out@;
    let ghost s0 = r.state;
    if let Some((a, b)) = portals {
        r.set_portals(out, a, b);
        render_iter(&*r, out, scene);
        r.set_portals(out, b, a);
        render_iter(&*r, out, scene);
    }
    r.unset_portals(out);
    render_iter(&*r, out, scene);
    proof {
        match portals {
            Some((a, b)) => {
                assert(out@ =~= out0 + frame_ops(s0, portals, scene@));
            },
            None => {
                assert(out@ =~= out0 + frame_ops(s0, portals, scene@));
            },
        }
    }
}

/// Scene draws never change the stencil.
pub proof fn lemma_scene_keeps_marks<P, D>(m: Seq<P>, s: PairState<P>, scene: Seq<D>, k: int)
    requires
        0 <= k <= scene.len(),
    ensures
        stencil_after(m, scene_ops(s, scene).take(k)) == m,
    decreases k,
{
    if k > 0 {
        let ops = scene_ops(s, scene).take(k);
        assert(ops.drop_last() =~= scene_ops(s, scene).take(k - 1));
        lemma_scene_keeps_marks(m, s, scene, k - 1);
    }
}

/// Within a run of operations, every scene draw made with a camera carried
/// through (from, to) is stencil-masked and made while the only marked
/// aperture is that of `from`; every scene draw with the base camera is
/// unmasked. `m` holds the marks before the run.
pub open spec fn masked_draws_confined<P, D>(m: Seq<P>, ops: Seq<RenderOp<P, D>>) -> bool {
    forall|i: int|
        0 <= i < ops.len() ==> match #[trigger] ops[i] {
            RenderOp::DrawMesh { camera: ViewCamera::Through(from, _), params, .. } => params
                == spec_mesh_params(true) && stencil_after(m, ops.take(i)) == seq![from],
            RenderOp::DrawMesh { camera: ViewCamera::Base, params, .. } => params
                == spec_mesh_params(false),
            _ => true,
        }
}

proof fn lemma_draw_in_pass<P, D>(
    m: Seq<P>,
    pre: Seq<RenderOp<P, D>>,
    s: PairState<P>,
    scene: Seq<D>,
    rest: Seq<RenderOp<P, D>>,
    j: int,
)
    requires
        0 <= j < scene.len(),
    ensures
        ({
            let ops = pre + scene_ops(s, scene) + rest;
            &&& ops[pre.len() + j] == draw_op(s, scene[j])
            &&& stencil_after(m, ops.take(pre.len() + j)) == stencil_after(m, pre)
        }),
{
    let sc = scene_ops(s, scene);
    let ops = pre + sc + rest;
    assert(ops.take(pre.len() + j) =~= pre + sc.take(j));
    lemma_stencil_append(m, pre, sc.take(j));
    lemma_scene_keeps_marks(stencil_after(m, pre), s, scene, j);
}

proof fn lemma_no_draw<P, D>(
    pre: Seq<RenderOp<P, D>>,
    mid: Seq<RenderOp<P, D>>,
    rest: Seq<RenderOp<P, D>>,
    j: int,
)
    requires
        0 <= j < mid.len(),
        forall|k: int| 0 <= k < mid.len() ==> !(mid[k] is DrawMesh),
    ensures
        !((pre + mid + rest)[pre.len() + j] is DrawMesh),
{
    assert((pre + mid + rest)[pre.len() + j] == mid[j]);
}

/// Stencil exclusivity over a whole frame: from any well-formed sequencer,
/// in the operations of a frame with a linked pair, each draw of the first
/// pass is confined to the aperture of `a` and each draw of the second pass
/// to the aperture of `b`, while the third pass draws unmasked.
pub proof fn lemma_frame_exclusive<P, D>(r: Render<P>, a: P, b: P, scene: Seq<D>)
    requires
        r.wf(),
    ensures
        masked_draws_confined(r.stencil@, frame_ops(r.state, Some((a, b)), scene)),
{
    let m = r.stencil@;
    let ab = PairState::Active(a, b);
    let ba = PairState::Active(b, a);
    let e1 = enter_ops::<P, D>(r.state, a);
    let sc1 = scene_ops(ab, scene);
    let e2 = enter_ops::<P, D>(ab, b);
    let sc2 = scene_ops(ba, scene);
    let x = exit_ops::<P, D>(ba);
    let sc3 = scene_ops(PairState::<P>::Inactive, scene);
    let ops = frame_ops(r.state, Some((a, b)), scene);
    let n = scene.len() as int;
    lemma_call_marks::<P, D>(r.state, m, PairCall::Enter(a, b));
    lemma_stencil_append(m, e1, sc1);
    lemma_scene_keeps_marks(stencil_after(m, e1), ab, scene, n);
    assert(sc1.take(n as int) =~= sc1);
    lemma_stencil_append(m, e1 + sc1, e2);
    lemma_call_marks::<P, D>(ab, seq![a], PairCall::Enter(b, a));
    assert(stencil_after(m, e1 + sc1 + e2) == seq![b]);
    assert(forall|k: int| 0 <= k < e1.len() ==> !(#[trigger] e1[k] is DrawMesh));
    assert(forall|k: int| 0 <= k < e2.len() ==> !(#[trigger] e2[k] is DrawMesh));
    assert(forall|k: int| 0 <= k < x.len() ==> !(#[trigger] x[k] is DrawMesh));
    assert forall|i: int| 0 <= i < ops.len() implies match #[trigger] ops[i] {
        RenderOp::DrawMesh { camera: ViewCamera::Through(from, _), params, .. } => params
            == spec_mesh_params(true) && stencil_after(m, ops.take(i)) == seq![from],
        RenderOp::DrawMesh { camera: ViewCamera::Base, params, .. } => params == spec_mesh_params(
            false,
        ),
        _ => true,
    } by {
        let l1 = e1.len();
        let l2 = l1 + n;
        let l3 = l2 + e2.len();
        let l4 = l3 + n;
        let l5 = l4 + x.len();
        if i < l1 {
            assert(ops =~= seq![] + e1 + (sc1 + e2 + sc2 + x + sc3));
            lemma_no_draw(seq![], e1, sc1 + e2 + sc2 + x + sc3, i);
        } else if i < l2 {
            assert(ops =~= e1 + sc1 + (e2 + sc2 + x + sc3));
            lemma_draw_in_pass(m, e1, ab, scene, e2 + sc2 + x + sc3, i - l1);
        } else if i < l3 {
            assert(ops =~= (e1 + sc1) + e2 + (sc2 + x + sc3));
            lemma_no_draw(e1 + sc1, e2, sc2 + x + sc3, i - l2);
        } else if i < l4 {
            assert(ops =~= (e1 + sc1 + e2) + sc2 + (x + sc3));
            lemma_draw_in_pass(m, e1 + sc1 + e2, ba, scene, x + sc3, i - l3);
        } else if i < l5 {
            assert(ops =~= (e1 + sc1 + e2 + sc2) + x + sc3);
            lemma_no_draw(e1 + sc1 + e2 + sc2, x, sc3, i - l4);
        } else {
            assert(ops =~= (e1 + sc1 + e2 + sc2 + x) + sc3 + seq![]);
            lemma_draw_in_pass(m, e1 + sc1 + e2 + sc2 + x, PairState::<P>::Inactive, scene, seq![], i - l5);
        }
    }
}

} // verus!
