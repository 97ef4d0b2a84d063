use lsymc::lsymc::Lsymc;

#[test]
fn render_atoms() {
    assert_eq!(Lsymc::Nil.render(), "nil");
    assert_eq!(Lsymc::Bool(true).render(), "true");
    assert_eq!(Lsymc::Bool(false).render(), "false");
    assert_eq!(Lsymc::Int(0).render(), "0");
    assert_eq!(Lsymc::Int(42).render(), "42");
    assert_eq!(Lsymc::Int(-42).render(), "-42");
    assert_eq!(Lsymc::Int(i64::MIN).render(), "-9223372036854775808");
    assert_eq!(Lsymc::Int(i64::MAX).render(), "9223372036854775807");
    assert_eq!(Lsymc::Float("4.123".to_owned()).render(), "4.123");
    assert_eq!(Lsymc::String("hi".to_owned()).render(), "hi");
    assert_eq!(Lsymc::Ident("x".to_owned()).render(), "x");
}

#[test]
fn render_keywords() {
    assert_eq!(Lsymc::Def.render(), "def");
    assert_eq!(Lsymc::Defn.render(), "defn");
    assert_eq!(Lsymc::If.render(), "if");
    assert_eq!(Lsymc::Else.render(), "else");
    assert_eq!(Lsymc::Plus.render(), "+");
    assert_eq!(Lsymc::Minus.render(), "-");
    assert_eq!(Lsymc::Astrisk.render(), "*");
    assert_eq!(Lsymc::Slash.render(), "/");
    assert_eq!(Lsymc::LT.render(), "<");
    assert_eq!(Lsymc::GT.render(), ">");
    assert_eq!(Lsymc::Equal.render(), "=");
    assert_eq!(Lsymc::NotEqual.render(), "!");
}

#[test]
fn render_lists() {
    assert_eq!(Lsymc::List(vec![]).render(), "[]");
    assert_eq!(
        Lsymc::List(vec![Lsymc::Int(1), Lsymc::Int(2), Lsymc::Int(3)]).render(),
        "[1,2,3]"
    );
    assert_eq!(
        Lsymc::List(vec![
            Lsymc::Def,
            Lsymc::List(vec![Lsymc::Int(1)]),
            Lsymc::Nil,
        ])
        .render(),
        "[def,[1],nil]"
    );
}

#[test]
fn clone_is_deep_equal() {
    let v = Lsymc::List(vec![
        Lsymc::Ident("x".to_owned()),
        Lsymc::List(vec![Lsymc::Int(1), Lsymc::Float("1.5".to_owned())]),
    ]);
    assert_eq!(v.clone(), v);
}
