use bleepscript::error::ParseErrorKind;
use bleepscript::resolver::Resolver;

fn chars(s: &str) -> Vec<char> {
    s.chars().collect()
}

#[test]
fn slots_count_the_names_of_a_scope() {
    let mut r = Resolver::new();
    assert_eq!(r.declare(chars("a")), Ok(0));
    assert_eq!(r.declare(chars("b")), Ok(1));
    r.enter_scope();
    assert_eq!(r.declare(chars("c")), Ok(0));
    assert_eq!(r.resolve(&chars("c")), Ok((0, 0)));
    assert_eq!(r.resolve(&chars("b")), Ok((1, 1)));
    assert_eq!(r.resolve(&chars("a")), Ok((1, 0)));
}

#[test]
fn depth_counts_the_scopes_between_use_and_declaration() {
    let mut r = Resolver::new();
    r.declare(chars("x")).unwrap();
    assert_eq!(r.resolve(&chars("x")), Ok((0, 0)));
    r.enter_scope();
    assert_eq!(r.resolve(&chars("x")), Ok((1, 0)));
    r.enter_scope();
    r.declare(chars("y")).unwrap();
    assert_eq!(r.resolve(&chars("x")), Ok((2, 0)));
    r.enter_scope();
    assert_eq!(r.resolve(&chars("x")), Ok((3, 0)));
    assert_eq!(r.resolve(&chars("y")), Ok((1, 0)));
}

#[test]
fn redeclaration_in_a_scope_between_shortens_the_depth() {
    let mut r = Resolver::new();
    r.declare(chars("x")).unwrap();
    r.enter_scope();
    r.declare(chars("pad")).unwrap();
    assert_eq!(r.declare(chars("x")), Ok(1));
    r.enter_scope();
    assert_eq!(r.resolve(&chars("x")), Ok((1, 1)));
    r.leave_scope();
    assert_eq!(r.resolve(&chars("x")), Ok((0, 1)));
    r.leave_scope();
    assert_eq!(r.resolve(&chars("x")), Ok((0, 0)));
}

#[test]
fn name_is_declared_once_in_a_scope() {
    let mut r = Resolver::new();
    assert_eq!(r.declare(chars("x")), Ok(0));
    assert_eq!(r.declare(chars("x")), Err(ParseErrorKind::DuplicateDeclaration));
    assert_eq!(r.declare(chars("y")), Ok(1));
    r.enter_scope();
    assert_eq!(r.declare(chars("x")), Ok(0));
    assert_eq!(r.declare(chars("x")), Err(ParseErrorKind::DuplicateDeclaration));
}

#[test]
fn undeclared_name_does_not_resolve() {
    let mut r = Resolver::new();
    assert_eq!(r.resolve(&chars("x")), Err(ParseErrorKind::UndeclaredVariable));
    r.enter_scope();
    r.declare(chars("x")).unwrap();
    r.leave_scope();
    assert_eq!(r.resolve(&chars("x")), Err(ParseErrorKind::UndeclaredVariable));
    assert_eq!(r.resolve(&chars("")), Err(ParseErrorKind::UndeclaredVariable));
}

#[test]
fn outermost_scope_is_never_closed() {
    let mut r = Resolver::new();
    r.declare(chars("x")).unwrap();
    r.leave_scope();
    r.leave_scope();
    assert_eq!(r.resolve(&chars("x")), Ok((0, 0)));
    assert_eq!(r.declare(chars("y")), Ok(1));
}

#[test]
fn outermost_scope_is_reached_from_inside() {
    let mut r = Resolver::with_names(vec![chars("a"), chars("b")]);
    r.enter_scope();
    assert_eq!(r.declare_outer(chars("c")), Ok(2));
    assert_eq!(r.declare_outer(chars("a")), Err(ParseErrorKind::DuplicateDeclaration));
    assert_eq!(r.find_outer(&chars("b")), Some(1));
    assert_eq!(r.find_outer(&chars("z")), None);
    assert_eq!(r.outer_len(), 3);
    assert_eq!(r.resolve(&chars("c")), Ok((1, 2)));
}
