//! The stencil render sequencer: a state machine over the active portal pair
//! that emits, in order, the stencil clears and draw calls that composite the
//! view through a portal into the frame, with a model of the stencil marks.

use vstd::prelude::*;

verus! {

/// How a draw call tests fragments against the depth buffer.
#[derive(Clone, Copy, Debug, PartialEq, Eq, Structural)]
pub enum DepthTest {
    /// Every fragment passes.
    Overwrite,
    /// A fragment passes when it is nearer than or as near as the stored depth.
    IfLessOrEqual,
}

/// How a draw call tests fragments against the stencil buffer.
#[derive(Clone, Copy, Debug, PartialEq, Eq, Structural)]
pub enum StencilTest {
    /// No stencil test: every fragment passes.
    AlwaysPass,
    /// A fragment passes only where the stencil value equals the reference value.
    IfEqual,
}

/// What a draw call writes into the stencil buffer where a fragment passes
/// both tests.
#[derive(Clone, Copy, Debug, PartialEq, Eq, Structural)]
pub enum StencilOp {
    /// The stencil value is left as it is.
    Keep,
    /// The stencil value becomes the reference value.
    Replace,
}

/// The fixed-function state of one draw call.
#[derive(Clone, Copy, Debug, PartialEq, Eq, Structural)]
pub struct DrawParams {
    pub depth_test: DepthTest,
    pub depth_write: bool,
    pub stencil_test: StencilTest,
    pub stencil_reference: u32,
    pub stencil_pass_op: StencilOp,
    pub color_write: bool,
}

/// Which camera a draw call is made with: the base camera, or the base camera
/// carried through a portal pair (from, to). The camera itself is always
/// derived from the current base camera when the call is made.
#[derive(Clone, Copy, Debug, PartialEq, Eq, Structural)]
pub enum ViewCamera<P> {
    Base,
    Through(P, P),
}

/// Whether a portal pair is being rendered, and in which direction.
#[derive(Clone, Copy, Debug, PartialEq, Eq, Structural)]
pub enum PairState<P> {
    Inactive,
    Active(P, P),
}

/// One operation on the output frame, in the order the GPU must execute it.
/// `P` stands for a portal and `D` for a mesh draw of the scene.
#[derive(Clone, Copy, Debug, PartialEq, Eq)]
pub enum RenderOp<P, D> {
    /// Set every stencil value to 0.
    ClearStencil,
    /// Draw the quad of a portal.
    DrawPortal { portal: P, camera: ViewCamera<P>, params: DrawParams },
    /// Draw a mesh of the scene.
    DrawMesh { item: D, camera: ViewCamera<P>, params: DrawParams },
}

/// A call on the sequencer that changes its portal state.
#[derive(Clone, Copy, Debug, PartialEq, Eq, Structural)]
pub enum PairCall<P> {
    Enter(P, P),
    Exit,
}

/// Stencil reference value that marks a portal aperture.
pub const APERTURE_MARK: u32 = 1;

/// The draw parameters of a portal quad, as a table of its two switches.
pub open spec fn spec_portal_params(write_depth: bool, write_stencil: bool) -> DrawParams {
    DrawParams {
        depth_test: if write_depth { DepthTest::Overwrite } else { DepthTest::IfLessOrEqual },
        depth_write: write_depth,
        stencil_test: StencilTest::AlwaysPass,
        stencil_reference: APERTURE_MARK,
        stencil_pass_op: if write_stencil { StencilOp::Replace } else { StencilOp::Keep },
        color_write: false,
    }
}

/// The draw parameters of a scene mesh, masked to the aperture or not.
pub open spec fn spec_mesh_params(masked: bool) -> DrawParams {
    DrawParams {
        depth_test: DepthTest::IfLessOrEqual,
        depth_write: true,
        stencil_test: if masked { StencilTest::IfEqual } else { StencilTest::AlwaysPass },
        stencil_reference: if masked { APERTURE_MARK } else { 0 },
        stencil_pass_op: StencilOp::Keep,
        color_write: true,
    }
}

/// Parameters for drawing a portal quad: never writes colour; writes depth
/// unconditionally when `write_depth`; marks the stencil with the aperture
/// value where the depth test passes when `write_stencil`.
pub fn portal_params(write_depth: bool, write_stencil: bool) -> (r: DrawParams)
    ensures
        r == spec_portal_params(write_depth, write_stencil),
{
    DrawParams {
        depth_test: if write_depth { DepthTest::Overwrite } else { DepthTest::IfLessOrEqual },
        depth_write: write_depth,
        stencil_test: StencilTest::AlwaysPass,
        stencil_reference: APERTURE_MARK,
        stencil_pass_op: if write_stencil { StencilOp::Replace } else { StencilOp::Keep },
        color_write: false,
    }
}

/// Parameters for drawing a scene mesh: the standard depth test with depth
/// writes, and, when `masked`, a stencil test confined to the aperture mark.
pub fn mesh_params(masked: bool) -> (r: DrawParams)
    ensures
        r == spec_mesh_params(masked),
{
    DrawParams {
        depth_test: DepthTest::IfLessOrEqual,
        depth_write: true,
        stencil_test: if masked { StencilTest::IfEqual } else { StencilTest::AlwaysPass },
        stencil_reference: if masked { APERTURE_MARK } else { 0 },
        stencil_pass_op: StencilOp::Keep,
        color_write: true,
    }
}

/// The camera that goes with a portal state.
pub open spec fn camera_for<P>(s: PairState<P>) -> ViewCamera<P> {
    match s {
        PairState::Inactive => ViewCamera::Base,
        PairState::Active(from, to) => ViewCamera::Through(from, to),
    }
}

/// Commits the depth of the aperture of the pair being left: clears the
/// stencil and redraws the `from` quad writing depth only.
pub open spec fn commit_ops<P, D>(s: PairState<P>) -> Seq<RenderOp<P, D>> {
    match s {
        PairState::Inactive => seq![],
        PairState::Active(from, _) => seq![
            RenderOp::ClearStencil,
            RenderOp::DrawPortal {
                portal: from,
                camera: ViewCamera::Base,
                params: spec_portal_params(true, false),
            },
        ],
    }
}

/// The operations of `set_portals(from, to)` in state `s`.
pub open spec fn enter_ops<P, D>(s: PairState<P>, from: P) -> Seq<RenderOp<P, D>> {
    commit_ops(s) + seq![
        RenderOp::ClearStencil,
        RenderOp::DrawPortal {
            portal: from,
            camera: ViewCamera::Base,
            params: spec_portal_params(false, true),
        },
    ]
}

/// The operations of `unset_portals` in state `s`.
pub open spec fn exit_ops<P, D>(s: PairState<P>) -> Seq<RenderOp<P, D>> {
    commit_ops(s)
}

/// The operation of `draw_mesh(item)` in state `s`.
pub open spec fn draw_op<P, D>(s: PairState<P>, item: D) -> RenderOp<P, D> {
    RenderOp::DrawMesh {
        item,
        camera: camera_for(s),
        params: spec_mesh_params(s is Active),
    }
}

/// The operations of a call in state `s`.
pub open spec fn call_ops<P, D>(s: PairState<P>, c: PairCall<P>) -> Seq<RenderOp<P, D>> {
    match c {
        PairCall::Enter(from, _) => enter_ops(s, from),
        PairCall::Exit => exit_ops(s),
    }
}

/// The portal state after a call.
pub open spec fn next_state<P>(s: PairState<P>, c: PairCall<P>) -> PairState<P> {
    match c {
        PairCall::Enter(from, to) => PairState::Active(from, to),
        PairCall::Exit => PairState::Inactive,
    }
}

/// The portals whose quads have marked the stencil buffer since it was last
/// cleared, after one operation. Every mark writes `APERTURE_MARK`, and a
/// cleared buffer holds 0, so the pixels that hold `APERTURE_MARK` are those
/// covered by the marked quads.
pub open spec fn stencil_after_op<P, D>(marks: Seq<P>, op: RenderOp<P, D>) -> Seq<P> {
    match op {
        RenderOp::ClearStencil => seq![],
        RenderOp::DrawPortal { portal, params, .. } => if params.stencil_pass_op is Replace {
            marks.push(portal)
        } else {
            marks
        },
        RenderOp::DrawMesh { .. } => marks,
    }
}

/// The stencil marks after a sequence of operations.
pub open spec fn stencil_after<P, D>(marks: Seq<P>, ops: Seq<RenderOp<P, D>>) -> Seq<P>
    decreases ops.len(),
{
    if ops.len() == 0 {
        marks
    } else {
        stencil_after_op(stencil_after(marks, ops.drop_last()), ops.last())
    }
}

/// The stencil render sequencer: the portal state, the camera draw calls are
/// made with, and (as a model) the portals marked in the stencil buffer.
pub struct Render<P> {
    pub state: PairState<P>,
    pub camera: ViewCamera<P>,
    pub stencil: Ghost<Seq<P>>,
}

/// The stencil marks after a call: entering a pair leaves only the `from`
/// aperture marked; leaving an active pair clears them.
pub open spec fn marks_after_call<P>(s: PairState<P>, marks: Seq<P>, c: PairCall<P>) -> Seq<P> {
    match c {
        PairCall::Enter(from, _) => seq![from],
        PairCall::Exit => if s is Active {
            seq![]
        } else {
            marks
        },
    }
}

/// The sequencer after a call, as a model.
pub open spec fn after_call<P>(r: Render<P>, c: PairCall<P>) -> Render<P> {
    let s = next_state(r.state, c);
    Render {
        state: s,
        camera: camera_for(s),
        stencil: Ghost(marks_after_call(r.state, r.stencil@, c)),
    }
}

impl<P> Render<P> {
    /// The camera always matches the state, and while a pair (from, to) is
    /// active the only aperture marked in the stencil is that of `from`.
    pub open spec fn wf(&self) -> bool {
        &&& self.camera == camera_for(self.state)
        &&& (self.state matches PairState::Active(from, _) ==> self.stencil@ == seq![from])
    }
}

impl<P: Copy> Render<P> {
    /// A sequencer with no portal pair.
    pub fn new() -> (r: Self)
        ensures
            r.wf(),
            r.state == PairState::<P>::Inactive,
            r.camera == ViewCamera::<P>::Base,
    {
        Render { state: PairState::Inactive, camera: ViewCamera::Base, stencil: Ghost(Seq::empty()) }
    }

    /// Draws the quad of portal `p` with the current camera, writing depth and
    /// stencil as asked and never colour.
    pub fn draw_portal_stencil<D>(
        &self,
        out: &mut Vec<RenderOp<P, D>>,
        p: P,
        write_depth: bool,
        write_stencil: bool,
    )
        ensures
            final(out)@ == old(out)@.push(
                RenderOp::DrawPortal {
                    portal: p,
                    camera: self.camera,
                    params: spec_portal_params(write_depth, write_stencil),
                },
            ),
    {
        let params = portal_params(write_depth, write_stencil);
        out.push(RenderOp::DrawPortal { portal: p, camera: self.camera, params });
    }

    /// Begins rendering through the pair (from, to): commits the depth of the
    /// aperture of the pair being left, if any, marks the `from` aperture in a
    /// cleared stencil, and switches to the camera carried through the pair.
    pub fn set_portals<D>(&mut self, out: &mut Vec<RenderOp<P, D>>, from: P, to: P)
        ensures
            final(out)@ == old(out)@ + enter_ops::<P, D>(old(self).state, from),
            *final(self) == after_call(*old(self), PairCall::Enter(from, to)),
            final(self).wf(),
    {
        let ghost out0 = out@;
        if let PairState::Active(old_from, _) = self.state {
            out.push(RenderOp::ClearStencil);
            self.camera = ViewCamera::Base;
            self.draw_portal_stencil(out, old_from, true, false);
        }
        assert(out@ == out0 + commit_ops::<P, D>(self.state));
        self.camera = ViewCamera::Base;
        out.push(RenderOp::ClearStencil);
        self.draw_portal_stencil(out, from, false, true);
        self.state = PairState::Active(from, to);
        self.camera = ViewCamera::Through(from, to);
        self.stencil = Ghost(Seq::empty().push(from));
        assert(self.stencil@ =~= seq![from]);
        assert(out@ =~= out0 + enter_ops::<P, D>(old(self).state, from));
    }

    /// Leaves the active pair, if any, committing the depth of its `from`
    /// aperture, and returns to the base camera.
    pub fn unset_portals<D>(&mut self, out: &mut Vec<RenderOp<P, D>>)
        ensures
            final(out)@ == old(out)@ + exit_ops::<P, D>(old(self).state),
            *final(self) == after_call(*old(self), PairCall::Exit),
            final(self).wf(),
    {
        let ghost out0 = out@;
        if let PairState::Active(from, _) = self.state {
            out.push(RenderOp::ClearStencil);
            self.camera = ViewCamera::Base;
            self.draw_portal_stencil(out, from, true, false);
            self.stencil = Ghost(Seq::empty());
            assert(self.stencil@ =~= seq![]);
        }
        assert(out@ =~= out0 + exit_ops::<P, D>(old(self).state));
        self.state = PairState::Inactive;
        self.camera = ViewCamera::Base;
    }

    /// Draws a scene mesh with the current camera; while a pair is active the
    /// draw is confined to the marked aperture.
    pub fn draw_mesh<D>(&self, out: &mut Vec<RenderOp<P, D>>, item: D)
        requires
            self.wf(),
        ensures
            final(out)@ == old(out)@.push(draw_op(self.state, item)),
    {
        let masked = match self.state {
            PairState::Active(_, _) => true,
            PairState::Inactive => false,
        };
        let params = mesh_params(masked);
        out.push(RenderOp::DrawMesh { item, camera: self.camera, params });
    }
}

/// The sequencer after a series of calls, as a model.
pub open spec fn after_calls<P>(r: Render<P>, calls: Seq<PairCall<P>>) -> Render<P>
    decreases calls.len(),
{
    if calls.len() == 0 {
        r
    } else {
        after_call(after_calls(r, calls.drop_last()), calls.last())
    }
}

/// Stencil marks compose over consecutive runs of operations.
pub proof fn lemma_stencil_append<P, D>(m: Seq<P>, x: Seq<RenderOp<P, D>>, y: Seq<RenderOp<P, D>>)
    ensures
        stencil_after(m, x + y) == stencil_after(stencil_after(m, x), y),
    decreases y.len(),
{
    if y.len() == 0 {
        assert(x + y =~= x);
    } else {
        assert((x + y).drop_last() =~= x + y.drop_last());
        assert((x + y).last() == y.last());
        lemma_stencil_append(m, x, y.drop_last());
    }
}

/// The marks that the model keeps for a call are exactly what the operations
/// the call emits do to the stencil buffer.
pub proof fn lemma_call_marks<P, D>(s: PairState<P>, marks: Seq<P>, c: PairCall<P>)
    ensures
        stencil_after(marks, call_ops::<P, D>(s, c)) == marks_after_call(s, marks, c),
{
    let commit = commit_ops::<P, D>(s);
    match s {
        PairState::Active(old_from, _) => {
            let m1 = stencil_after(marks, commit.drop_last());
            assert(commit.drop_last().drop_last() =~= seq![]);
            assert(m1 == Seq::<P>::empty());
        },
        PairState::Inactive => {},
    }
    let cleared = stencil_after(marks, commit);
    match c {
        PairCall::Enter(from, _) => {
            let tail = seq![
                RenderOp::<P, D>::ClearStencil,
                RenderOp::DrawPortal {
                    portal: from,
                    camera: ViewCamera::Base,
                    params: spec_portal_params(false, true),
                },
            ];
            lemma_stencil_append(marks, commit, tail);
            assert(tail.drop_last().drop_last() =~= seq![]);
            assert(stencil_after(cleared, tail.drop_last()) == Seq::<P>::empty());
            assert(seq![].push(from) =~= seq![from]);
        },
        PairCall::Exit => {},
    }
}

/// Closure of the state machine: from a well-formed sequencer, any sequence of
/// `set_portals` / `unset_portals` calls leaves it well-formed (so with the
/// camera derived from its state: the base camera when inactive, the base
/// camera carried through (from, to) when active), in the state of the last
/// call.
pub proof fn lemma_state_closure<P>(r: Render<P>, calls: Seq<PairCall<P>>)
    requires
        r.wf(),
    ensures
        after_calls(r, calls).wf(),
        calls.len() == 0 ==> after_calls(r, calls) == r,
        calls.len() > 0 ==> after_calls(r, calls).state == match calls.last() {
            PairCall::Enter(from, to) => PairState::Active(from, to),
            PairCall::Exit => PairState::Inactive,
        },
    decreases calls.len(),
{
    if calls.len() > 0 {
        lemma_state_closure(r, calls.drop_last());
    }
}

/// Stencil exclusivity: while the pair (from, to) is active, a scene draw is
/// made with the camera carried through (from, to), passes only where the
/// stencil holds the aperture mark, leaves the stencil unchanged, and the only
/// quad that has marked the stencil since it was cleared is that of `from`.
/// So the draw touches no pixel outside the footprint of `from`'s aperture.
pub proof fn lemma_stencil_exclusive<P, D>(r: Render<P>, from: P, to: P, item: D)
    requires
        r.wf(),
        r.state == PairState::Active(from, to),
    ensures
        ({
            let op = draw_op(r.state, item);
            &&& op == RenderOp::<P, D>::DrawMesh {
                item,
                camera: ViewCamera::Through(from, to),
                params: spec_mesh_params(true),
            }
            &&& spec_mesh_params(true).stencil_test == StencilTest::IfEqual
            &&& spec_mesh_params(true).stencil_reference == APERTURE_MARK
            &&& spec_portal_params(false, true).stencil_reference == APERTURE_MARK
            &&& stencil_after_op(r.stencil@, op) == r.stencil@
            &&& r.stencil@ == seq![from]
        }),
{
}

} // verus!
