use portal::sequencer::{
    mesh_params, portal_params, DepthTest, PairState, Render, RenderOp, StencilOp, StencilTest,
    ViewCamera,
};
use portal::world::{render_iter, render_world};

/// A one-row screen: each portal quad covers a span of pixels at some depth;
/// every scene mesh covers the whole row.
const WIDTH: usize = 12;

#[derive(Clone, Copy, Debug, PartialEq)]
struct Pixel {
    color: Option<(char, ViewCamera<u8>)>,
    depth: f32,
    stencil: u32,
}

fn footprint(p: u8) -> (usize, usize, f32) {
    match p {
        0 => (2, 5, 0.8),
        _ => (7, 10, 0.7),
    }
}

fn mesh_depth(_item: char) -> f32 {
    0.9
}

fn execute(screen: &mut Vec<Pixel>, op: &RenderOp<u8, char>) {
    let (lo, hi, depth, params, color) = match *op {
        RenderOp::ClearStencil => {
            for px in screen.iter_mut() {
                px.stencil = 0;
            }
            return;
        }
        RenderOp::DrawPortal { portal, params, .. } => {
            let (lo, hi, d) = footprint(portal);
            (lo, hi, d, params, None)
        }
        RenderOp::DrawMesh { item, camera, params } => {
            (0, WIDTH, mesh_depth(item), params, Some((item, camera)))
        }
    };
    for px in screen[lo..hi].iter_mut() {
        if params.stencil_test == StencilTest::IfEqual && px.stencil != params.stencil_reference {
            continue;
        }
        let depth_ok = match params.depth_test {
            DepthTest::Overwrite => true,
            DepthTest::IfLessOrEqual => depth <= px.depth,
        };
        if !depth_ok {
            continue;
        }
        if params.depth_write {
            px.depth = depth;
        }
        if params.stencil_pass_op == StencilOp::Replace {
            px.stencil = params.stencil_reference;
        }
        if params.color_write {
            px.color = color;
        }
    }
}

fn blank() -> Vec<Pixel> {
    vec![Pixel { color: None, depth: 1.0, stencil: 0 }; WIDTH]
}

#[test]
fn masked_draw_touches_only_the_from_aperture() {
    let mut r: Render<u8> = Render::new();
    let mut out: Vec<RenderOp<u8, char>> = Vec::new();
    r.set_portals(&mut out, 0, 1);
    let mut screen = blank();
    for op in out.iter() {
        execute(&mut screen, op);
    }
    let before = screen.clone();
    let mut draws: Vec<RenderOp<u8, char>> = Vec::new();
    r.draw_mesh(&mut draws, 'M');
    for op in draws.iter() {
        execute(&mut screen, op);
    }
    let (lo, hi, _) = footprint(0);
    for i in 0..WIDTH {
        if i < lo || i >= hi {
            assert_eq!(screen[i], before[i], "pixel {} outside the aperture changed", i);
        } else {
            assert_eq!(screen[i].color, Some(('M', ViewCamera::Through(0, 1))));
        }
    }
}

#[test]
fn frame_composites_both_views_and_the_plain_scene() {
    let mut r: Render<u8> = Render::new();
    let mut out: Vec<RenderOp<u8, char>> = Vec::new();
    render_world(&mut r, &mut out, Some((0, 1)), &vec!['M']);
    let mut screen = blank();
    let mut pass_one_done = false;
    for (k, op) in out.iter().enumerate() {
        let snapshot = screen.clone();
        execute(&mut screen, op);
        if let RenderOp::DrawMesh { camera: ViewCamera::Through(from, _), .. } = *op {
            let (lo, hi, _) = footprint(from);
            for i in (0..lo).chain(hi..WIDTH) {
                assert_eq!(screen[i], snapshot[i], "op {} leaked outside the aperture", k);
            }
            pass_one_done = true;
        }
    }
    assert!(pass_one_done);
    assert_eq!(r.state, PairState::Inactive);
    assert_eq!(r.camera, ViewCamera::Base);
    // Each aperture keeps the view through its pair, since its committed
    // depth is nearer than the scene; everything else shows the plain scene.
    let (a_lo, a_hi, _) = footprint(0);
    let (b_lo, b_hi, _) = footprint(1);
    for (i, px) in screen.iter().enumerate() {
        let expected = if a_lo <= i && i < a_hi {
            ViewCamera::Through(0, 1)
        } else if b_lo <= i && i < b_hi {
            ViewCamera::Through(1, 0)
        } else {
            ViewCamera::Base
        };
        assert_eq!(px.color, Some(('M', expected)), "pixel {}", i);
    }
}

#[test]
fn frame_op_sequence_with_a_pair() {
    let mut r: Render<u8> = Render::new();
    let mut out: Vec<RenderOp<u8, char>> = Vec::new();
    render_world(&mut r, &mut out, Some((0, 1)), &vec!['a', 'b']);
    let stencil_only = portal_params(false, true);
    let depth_only = portal_params(true, false);
    let masked = mesh_params(true);
    let plain = mesh_params(false);
    let ab = ViewCamera::Through(0, 1);
    let ba = ViewCamera::Through(1, 0);
    let expected = vec![
        RenderOp::ClearStencil,
        RenderOp::DrawPortal { portal: 0, camera: ViewCamera::Base, params: stencil_only },
        RenderOp::DrawMesh { item: 'a', camera: ab, params: masked },
        RenderOp::DrawMesh { item: 'b', camera: ab, params: masked },
        RenderOp::ClearStencil,
        RenderOp::DrawPortal { portal: 0, camera: ViewCamera::Base, params: depth_only },
        RenderOp::ClearStencil,
        RenderOp::DrawPortal { portal: 1, camera: ViewCamera::Base, params: stencil_only },
        RenderOp::DrawMesh { item: 'a', camera: ba, params: masked },
        RenderOp::DrawMesh { item: 'b', camera: ba, params: masked },
        RenderOp::ClearStencil,
        RenderOp::DrawPortal { portal: 1, camera: ViewCamera::Base, params: depth_only },
        RenderOp::DrawMesh { item: 'a', camera: ViewCamera::Base, params: plain },
        RenderOp::DrawMesh { item: 'b', camera: ViewCamera::Base, params: plain },
    ];
    assert_eq!(out, expected);
}

#[test]
fn frame_without_a_pair_draws_plainly() {
    let mut r: Render<u8> = Render::new();
    let mut out: Vec<RenderOp<u8, char>> = Vec::new();
    render_world(&mut r, &mut out, None, &vec!['a']);
    assert_eq!(
        out,
        vec![RenderOp::DrawMesh { item: 'a', camera: ViewCamera::Base, params: mesh_params(false) }]
    );
}

#[test]
fn state_follows_the_last_call() {
    let mut r: Render<u8> = Render::new();
    let mut out: Vec<RenderOp<u8, char>> = Vec::new();
    r.unset_portals(&mut out);
    assert!(out.is_empty());
    assert_eq!(r.state, PairState::Inactive);
    r.set_portals(&mut out, 1, 0);
    r.set_portals(&mut out, 0, 1);
    assert_eq!(r.state, PairState::Active(0, 1));
    assert_eq!(r.camera, ViewCamera::Through(0, 1));
    r.unset_portals(&mut out);
    r.unset_portals(&mut out);
    assert_eq!(r.state, PairState::Inactive);
    assert_eq!(r.camera, ViewCamera::Base);
    // entering twice commits the first aperture's depth before re-marking
    assert_eq!(out.len(), 2 + 4 + 2);
}

#[test]
fn render_iter_draws_each_item_in_order() {
    let mut r: Render<u8> = Render::new();
    let mut out: Vec<RenderOp<u8, char>> = Vec::new();
    r.set_portals(&mut out, 1, 0);
    let mut draws: Vec<RenderOp<u8, char>> = Vec::new();
    render_iter(&r, &mut draws, &vec!['x', 'y', 'z']);
    let items: Vec<char> = draws
        .iter()
        .map(|op| match *op {
            RenderOp::DrawMesh { item, camera, params } => {
                assert_eq!(camera, ViewCamera::Through(1, 0));
                assert_eq!(params.stencil_test, StencilTest::IfEqual);
                assert_eq!(params.stencil_reference, 1);
                item
            }
            _ => panic!("not a mesh draw"),
        })
        .collect();
    assert_eq!(items, vec!['x', 'y', 'z']);
}

#[test]
fn portal_and_mesh_parameters() {
    let p = portal_params(true, false);
    assert_eq!(p.depth_test, DepthTest::Overwrite);
    assert!(p.depth_write && !p.color_write);
    assert_eq!(p.stencil_pass_op, StencilOp::Keep);
    let s = portal_params(false, true);
    assert_eq!(s.depth_test, DepthTest::IfLessOrEqual);
    assert!(!s.depth_write);
    assert_eq!(s.stencil_pass_op, StencilOp::Replace);
    assert_eq!(s.stencil_reference, 1);
    let m = mesh_params(false);
    assert_eq!(m.stencil_test, StencilTest::AlwaysPass);
    assert!(m.depth_write && m.color_write);
}

#[test]
fn portal_quad_uses_the_current_camera() {
    let mut r: Render<u8> = Render::new();
    let mut out: Vec<RenderOp<u8, char>> = Vec::new();
    r.draw_portal_stencil(&mut out, 0, true, false);
    r.set_portals(&mut out, 0, 1);
    r.draw_portal_stencil(&mut out, 1, true, false);
    let cameras: Vec<ViewCamera<u8>> = out
        .iter()
        .filter_map(|op| match *op {
            RenderOp::DrawPortal { camera, .. } => Some(camera),
            _ => None,
        })
        .collect();
    assert_eq!(cameras, vec![ViewCamera::Base, ViewCamera::Base, ViewCamera::Through(0, 1)]);
}
