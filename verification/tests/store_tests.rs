use lsymc::lsymc::Lsymc;
use lsymc::store::Store;

#[test]
fn set_then_get() {
    let mut st = Store::new();
    assert_eq!(st.get("x"), None);
    st.set("x", Lsymc::Int(1));
    assert_eq!(st.get("x"), Some(Lsymc::Int(1)));
}

#[test]
fn set_overrides_in_same_scope() {
    let mut st = Store::new();
    st.set("x", Lsymc::Int(1));
    st.set("x", Lsymc::Int(2));
    assert_eq!(st.get("x"), Some(Lsymc::Int(2)));
}

#[test]
fn child_shadows_parent_and_parent_is_untouched() {
    let mut st = Store::new();
    st.set("x", Lsymc::Int(1));
    st.extend();
    st.set("x", Lsymc::Int(2));
    assert_eq!(st.get("x"), Some(Lsymc::Int(2)));
    st.retract();
    assert_eq!(st.get("x"), Some(Lsymc::Int(1)));
}

#[test]
fn child_falls_back_to_parent() {
    let mut st = Store::new();
    st.set("x", Lsymc::Int(1));
    st.extend();
    assert_eq!(st.get("x"), Some(Lsymc::Int(1)));
    assert_eq!(st.get("y"), None);
}

#[test]
fn update_installs_scratch_bindings() {
    let mut scratch = Store::new();
    scratch.set("a", Lsymc::Int(1));
    scratch.set("b", Lsymc::Int(2));
    let mut st = Store::new();
    st.set("a", Lsymc::Int(0));
    st.extend();
    st.update(&scratch);
    assert_eq!(st.get("a"), Some(Lsymc::Int(1)));
    assert_eq!(st.get("b"), Some(Lsymc::Int(2)));
    st.retract();
    assert_eq!(st.get("a"), Some(Lsymc::Int(0)));
    assert_eq!(st.get("b"), None);
}
