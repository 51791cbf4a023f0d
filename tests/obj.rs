use portal::obj::{
    complete_faces, parse_mtl_command, parse_obj_command, parse_texture_args, process_index_info, share_corners,
    validate_faces, IndexInfo, MtlLine, ObjLine, PreIndexInfo, TextureRef,
};
use portal::parse::{ParseState, Tokens};

fn state() -> ParseState {
    ParseState::new(String::from("f"), 3, String::from("/m/cube.obj"), String::from("res/cube.obj"))
}

const ERR: &str = "Invalid command format `f` at /m/cube.obj:3";

fn corner(s: &str) -> Result<PreIndexInfo, String> {
    process_index_info(&state(), s, 10, 5, 4).0
}

#[test]
fn corners_with_all_forms() {
    assert_eq!(corner("1"), Ok(PreIndexInfo::new(0, None, None)));
    assert_eq!(corner("3/2"), Ok(PreIndexInfo::new(2, Some(1), None)));
    assert_eq!(corner("3/2/4"), Ok(PreIndexInfo::new(2, Some(1), Some(3))));
    assert_eq!(corner("7//1"), Ok(PreIndexInfo::new(6, None, Some(0))));
    assert_eq!(corner("+2"), Ok(PreIndexInfo::new(1, None, None)));
}

#[test]
fn negative_corners_count_from_the_end() {
    assert_eq!(corner("-1"), Ok(PreIndexInfo::new(9, None, None)));
    assert_eq!(corner("-10/-5/-4"), Ok(PreIndexInfo::new(0, Some(0), Some(0))));
}

#[test]
fn malformed_corners() {
    for bad in ["", "0", "-11", "1/2/3/", "a", "1/x", "1//-5", "-", "99999999999999999999999"] {
        assert_eq!(corner(bad), Err(String::from(ERR)), "corner {:?}", bad);
    }
    // a position beyond those read is left to validation
    assert_eq!(corner("11"), Ok(PreIndexInfo::new(10, None, None)));
}

#[test]
fn validation_names_the_first_faulty_index() {
    let ok = PreIndexInfo::new(0, Some(0), Some(0));
    let faces = vec![[ok, ok, ok], [ok, PreIndexInfo::new(1, Some(7), None), PreIndexInfo::new(9, None, None)]];
    assert_eq!(
        validate_faces("res/cube.obj", &faces, 3, 2, 1).0,
        Err(String::from("Invalid obj file (res/cube.obj): Invalid face (index 1) uv index: 7"))
    );
    assert_eq!(
        validate_faces("res/cube.obj", &faces, 3, 8, 1).0,
        Err(String::from("Invalid obj file (res/cube.obj): Invalid face (index 1) vertex index: 9"))
    );
    assert_eq!(validate_faces("res/cube.obj", &faces, 10, 8, 1).0, Ok(()));
    let bad_norm = vec![[PreIndexInfo::new(0, None, Some(4)), ok, ok]];
    assert_eq!(
        validate_faces("x.obj", &bad_norm, 1, 1, 1).0,
        Err(String::from("Invalid obj file (x.obj): Invalid face (index 0) normal index: 4"))
    );
    assert_eq!(validate_faces("x.obj", &vec![], 0, 0, 0).0, Ok(()));
}

#[test]
fn index_info_fields() {
    let i = IndexInfo::new(1, 2, 3);
    assert_eq!((i.vert, i.uv, i.norm), (1, 2, 3));
}

#[test]
fn shared_corners_in_order_of_first_use() {
    let a = IndexInfo::new(0, 0, 0);
    let b = IndexInfo::new(1, 0, 0);
    let c = IndexInfo::new(0, 1, 0);
    let corners = vec![a, b, c, b, a, IndexInfo::new(0, 0, 1)];
    let (shared, indices) = share_corners(&corners);
    assert_eq!(shared, vec![a, b, c, IndexInfo::new(0, 0, 1)]);
    assert_eq!(indices, vec![0, 1, 2, 1, 0, 3]);
    let (s0, i0) = share_corners(&vec![]);
    assert!(s0.is_empty() && i0.is_empty());
}

fn number(s: &String) -> Option<f32> {
    s.parse().ok()
}

fn obj(command: &str, args: &[&str]) -> Result<ObjLine<f32>, String> {
    let st = ParseState::new(command.to_string(), 7, String::from("/m/a.obj"), String::from("res/a.obj"));
    let mut it = Tokens::new(args.iter().map(|a| a.to_string()).collect());
    parse_obj_command(&st, &mut it, "res/a.obj", 4, 2, 1, &number).0
}

const OBJ_ERR: &str = "Invalid command format `v` at /m/a.obj:7";

#[test]
fn obj_commands() {
    assert_eq!(obj("v", &["1", "2.5", "-3"]), Ok(ObjLine::Vertex(1.0, 2.5, -3.0)));
    assert_eq!(obj("v", &["1", "2"]), Err(String::from(OBJ_ERR)));
    assert_eq!(obj("v", &["1", "2", "x"]), Err(String::from(OBJ_ERR)));
    assert_eq!(obj("vt", &["0.5", "1"]), Ok(ObjLine::Uv(0.5, 1.0)));
    assert_eq!(obj("vn", &["0", "0", "2"]), Ok(ObjLine::Normal(0.0, 0.0, 2.0)));
    assert_eq!(obj("o", &["cube"]), Ok(ObjLine::Name(String::from("cube"))));
    assert!(obj("o", &["cube", "two"]).is_err());
    assert_eq!(obj("usemtl", &["wood"]), Ok(ObjLine::UseMtl(String::from("wood"))));
    assert_eq!(obj("mtllib", &["a.mtl", "extra"]), Ok(ObjLine::MtlLib(String::from("a.mtl"))));
    assert!(obj("mtllib", &[]).is_err());
    assert_eq!(obj("s", &["off"]), Ok(ObjLine::Smoothing));
    assert_eq!(
        obj("f", &["1/1/1", "2//1", "-1"]),
        Ok(ObjLine::Face(
            PreIndexInfo::new(0, Some(0), Some(0)),
            PreIndexInfo::new(1, None, Some(0)),
            PreIndexInfo::new(3, None, None)
        ))
    );
    assert_eq!(obj("f", &["1", "2"]), Err(String::from("Invalid command format `f` at /m/a.obj:7")));
    assert_eq!(obj("g", &["group"]), Err(String::from("Unrecognized command `g` at res/a.obj:7")));
}

fn mtl(command: &str, args: &[&str]) -> Result<MtlLine<f32>, String> {
    let st = ParseState::new(command.to_string(), 2, String::from("/m/a.mtl"), String::from("res/mesh/a.mtl"));
    let mut it = Tokens::new(args.iter().map(|a| a.to_string()).collect());
    parse_mtl_command(&st, &mut it, &number).0
}

#[test]
fn mtl_commands() {
    assert_eq!(mtl("newmtl", &["wood"]), Ok(MtlLine::NewMtl(String::from("wood"))));
    assert_eq!(mtl("Ns", &["10"]), Ok(MtlLine::Ns(10.0)));
    assert_eq!(mtl("d", &["0.5"]), Ok(MtlLine::D(0.5)));
    assert_eq!(mtl("Ka", &["1", "0", "0"]), Ok(MtlLine::Ka(1.0, 0.0, 0.0)));
    assert_eq!(mtl("Kd", &["0", "1", "0"]), Ok(MtlLine::Kd(0.0, 1.0, 0.0)));
    assert_eq!(mtl("Ks", &["0", "0", "1"]), Ok(MtlLine::Ks(0.0, 0.0, 1.0)));
    assert_eq!(mtl("Ke", &["1", "1", "1"]), Ok(MtlLine::Ke(1.0, 1.0, 1.0)));
    assert_eq!(mtl("Ni", &["1.45"]), Ok(MtlLine::Ignored));
    assert_eq!(mtl("illum", &["2"]), Ok(MtlLine::Ignored));
    assert_eq!(mtl("Ka", &["1", "0"]), Err(String::from("Invalid command format `Ka` at /m/a.mtl:2")));
    assert_eq!(mtl("bump", &["x.png"]), Err(String::from("Unrecognized command `bump` at /m/a.mtl:2")));
    assert_eq!(
        mtl("map_Kd", &["tex/wood.png"]),
        Ok(MtlLine::MapKd(TextureRef { id: String::from("res/mesh/tex/wood.png"), uv_scale: None }))
    );
}

#[test]
fn texture_options() {
    let st = ParseState::new(String::from("map_Ka"), 4, String::from("/m/a.mtl"), String::from("res/a.mtl"));
    let run = |args: &[&str]| {
        let mut it = Tokens::new(args.iter().map(|a| a.to_string()).collect());
        parse_texture_args(&st, &mut it, &number).0
    };
    assert_eq!(
        run(&["-s", "2", "3", "1", "w.png"]),
        Ok(TextureRef { id: String::from("res/w.png"), uv_scale: Some((2.0, Some(3.0))) })
    );
    assert_eq!(
        run(&["-s", "2", "w.png"]),
        Ok(TextureRef { id: String::from("res/w.png"), uv_scale: Some((2.0, None)) })
    );
    assert_eq!(
        run(&["-s", "2", "-s", "5", "6", "w.png"]),
        Ok(TextureRef { id: String::from("res/w.png"), uv_scale: Some((2.0, None)) })
    );
    let base = "Invalid command format `map_Ka` at /m/a.mtl:4";
    assert_eq!(run(&[]), Err(String::from(base)));
    assert_eq!(run(&["-s"]), Err(String::from(base)));
    assert_eq!(run(&["a.png", "b.png"]), Err(String::from(base)));
    assert_eq!(run(&["-s", "2"]), Err(String::from(base)));
    assert_eq!(run(&["-o", "1", "a.png"]), Err(format!("{}: Unknown texture option `-o`", base)));
}

#[test]
fn completed_faces_number_generated_items_in_order() {
    let full = PreIndexInfo::new(0, Some(1), Some(2));
    let bare = PreIndexInfo::new(1, None, None);
    let uv_only = PreIndexInfo::new(2, Some(0), None);
    let pre = vec![[full, full, full], [bare, full, uv_only], [full, bare, bare]];
    let done = complete_faces(&pre, 5, 3);
    assert_eq!(done.normal_faces, vec![1, 2]);
    assert_eq!(done.uv_corners, vec![(1, 0), (2, 1), (2, 2)]);
    assert_eq!(done.faces[0], [IndexInfo::new(0, 1, 2); 3]);
    assert_eq!(
        done.faces[1],
        [IndexInfo::new(1, 5, 3), IndexInfo::new(0, 1, 2), IndexInfo::new(2, 0, 3)]
    );
    assert_eq!(
        done.faces[2],
        [IndexInfo::new(0, 1, 2), IndexInfo::new(1, 6, 4), IndexInfo::new(1, 7, 4)]
    );
    let none = complete_faces(&vec![], 0, 0);
    assert!(none.faces.is_empty() && none.normal_faces.is_empty() && none.uv_corners.is_empty());
}
