use vaffelbot::oracle::{holds_role, oracle_role, Role};

fn role(id: u64, name: &str) -> Role {
    Role { id, name: name.to_string() }
}

#[test]
fn the_oracle_role_is_found_by_its_name() {
    let roles = vec![role(1, "@everyone"), role(2, "orakel"), role(3, "baker")];
    assert_eq!(oracle_role(&roles), Some(2));
}

#[test]
fn capitals_do_not_matter() {
    assert_eq!(oracle_role(&vec![role(7, "Orakel")]), Some(7));
    assert_eq!(oracle_role(&vec![role(8, "ORAKEL")]), Some(8));
}

#[test]
fn the_first_role_of_that_name_counts() {
    let roles = vec![role(1, "orakelet"), role(5, "OrAkEl"), role(6, "orakel")];
    assert_eq!(oracle_role(&roles), Some(5));
}

#[test]
fn a_guild_may_have_no_oracle_role() {
    assert_eq!(oracle_role(&vec![]), None);
    assert_eq!(oracle_role(&vec![role(1, "oracle"), role(2, " orakel")]), None);
}

#[test]
fn an_oracle_holds_the_role() {
    assert!(holds_role(&vec![4, 9, 2], 2));
    assert!(!holds_role(&vec![4, 9, 2], 3));
    assert!(!holds_role(&vec![], 3));
}
