use portal::parse::{
    parse1, parse1_only, parse1_opt, parseN, parseN_only, parse_texture_path, ParseState, Tokens,
};

fn state() -> ParseState {
    ParseState::new(
        String::from("vt"),
        12,
        String::from("/game/res/mesh/box.obj"),
        String::from("res/mesh/box.mtl"),
    )
}

fn tokens(words: &[&str]) -> Tokens {
    Tokens::new(words.iter().map(|w| String::from(*w)).collect())
}

fn integer(s: &String) -> Option<i64> {
    s.parse().ok()
}

const ERR: &str = "Invalid command format `vt` at /game/res/mesh/box.obj:12";

#[test]
fn to_error_message() {
    assert_eq!(state().to_error(), ERR);
    let s = ParseState::new(String::new(), 0, String::from("x"), String::new());
    assert_eq!(s.to_error(), "Invalid command format `` at x:0");
}

#[test]
fn parse1_reads_and_fails() {
    let st = state();
    let mut it = tokens(&["4", "x"]);
    assert_eq!(parse1(&st, &mut it, &integer).0, Ok(4));
    assert_eq!(parse1(&st, &mut it, &integer).0, Err(String::from(ERR)));
    assert_eq!(it.pos, 2);
    assert_eq!(parse1(&st, &mut it, &integer).0, Err(String::from(ERR)));
    assert_eq!(it.pos, 2);
}

#[test]
fn parse1_only_rejects_trailing_argument() {
    let st = state();
    let mut it = tokens(&["4", "5"]);
    assert_eq!(parse1_only(&st, &mut it, &integer).0, Err(String::from(ERR)));
    assert_eq!(it.pos, 1);
    assert_eq!(parse1_only(&st, &mut it, &integer).0, Ok(5));
}

#[test]
fn parse1_opt_consumes_only_on_success() {
    let mut it = tokens(&["a", "3"]);
    assert_eq!(parse1_opt(&mut it, &integer), None);
    assert_eq!(it.pos, 0);
    it.pos = 1;
    assert_eq!(parse1_opt(&mut it, &integer), Some(3));
    assert_eq!(it.pos, 2);
    assert_eq!(parse1_opt(&mut it, &integer), None);
}

#[test]
fn parse_n_and_only() {
    let st = state();
    let mut it = tokens(&["1", "2", "3"]);
    assert_eq!(parseN(&st, 2, &mut it, &integer).0, Ok(vec![1, 2]));
    assert_eq!(it.pos, 2);
    let mut it = tokens(&["1", "2", "3"]);
    assert_eq!(parseN_only(&st, 3, &mut it, &integer).0, Ok(vec![1, 2, 3]));
    let mut it = tokens(&["1", "2", "3"]);
    assert!(parseN_only(&st, 2, &mut it, &integer).0.is_err());
    let mut it = tokens(&["1"]);
    assert!(parseN(&st, 2, &mut it, &integer).0.is_err());
    let mut it = tokens(&["1", "y", "3"]);
    assert_eq!(parseN(&st, 3, &mut it, &integer).0, Err(String::from(ERR)));
}

#[test]
fn texture_path_beside_material_file() {
    let st = state();
    assert_eq!(parse_texture_path(&st, "tex/wood.png"), "res/mesh/tex/wood.png");
    assert_eq!(parse_texture_path(&st, "../tex/wood.png"), "res/tex/wood.png");
    assert_eq!(parse_texture_path(&st, "/abs/wood.png"), "/abs/wood.png");
    let bare = ParseState::new(String::new(), 1, String::new(), String::new());
    assert_eq!(parse_texture_path(&bare, "wood.png"), "../wood.png");
}
