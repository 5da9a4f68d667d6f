use lsp_core::func::bind_by_ref;

#[test]
fn bind_by_ref_lends_argument() {
    let len = bind_by_ref(|s: &String| s.len());
    assert_eq!(len(String::from("abcd")), 4);
    let describe = bind_by_ref(|n: &u32| format!("<{n}>"));
    assert_eq!(describe(7), "<7>");
}
