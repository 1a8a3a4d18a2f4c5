use fleet_top_core::head::Head;

#[test]
fn a_branch_keeps_its_name_verbatim() {
    let head = Head::Branch(String::from("feat/login"));
    assert_eq!(head, Head::Branch(String::from("feat/login")));
    assert_ne!(head, Head::Detached);
}
