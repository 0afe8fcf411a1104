//! Who may serve: the members who hold the guild's oracle role.

use vstd::prelude::*;

verus! {

/// A role of a guild.
pub struct Role {
    pub id: u64,
    pub name: String,
}

/// `text` in lower case, as Unicode maps it.
pub uninterp spec fn lowercase(text: Seq<char>) -> Seq<char>;

/// `str::to_lowercase`: the text in lower case. The same text gives the same
/// result.
#[verifier::external_body]
fn to_lowercase(text: &str) -> (lower: String)
    ensures
        lower@ == lowercase(text@),
{
    text.to_lowercase()
}

/// Whether a role of this name is the oracle role: its name is "orakel", in
/// capitals or not.
pub open spec fn names_oracle(role_name: Seq<char>) -> bool {
    lowercase(role_name) == "orakel"@
}

/// The role at `at` is the first of `roles` that is named as the oracle role
/// is.
pub open spec fn is_first_oracle_role(roles: Seq<Role>, at: int) -> bool {
    &&& 0 <= at < roles.len()
    &&& names_oracle(roles[at].name@)
    &&& forall|j: int| 0 <= j < at ==> !names_oracle(roles[j].name@)
}

/// The id of the oracle role among `roles`: of the first of them that is named
/// so. `None` when the guild has no such role.
pub fn oracle_role(roles: &Vec<Role>) -> (found: Option<u64>)
    ensures
        match found {
            Some(id) => exists|i: int| #[trigger]
                is_first_oracle_role(roles@, i) && roles@[i].id == id,
            None => forall|j: int| 0 <= j < roles@.len() ==> !names_oracle(roles@[j].name@),
        },
{
    let wanted = String::from_str("orakel");
    let mut i: usize = 0;
    while i < roles.len()
        invariant
            i <= roles.len(),
            wanted@ == "orakel"@,
            forall|j: int| 0 <= j < i ==> !names_oracle(roles@[j].name@),
        decreases roles.len() - i,
    {
        if to_lowercase(roles[i].name.as_str()) == wanted {
            assert(is_first_oracle_role(roles@, i as int));
            return Some(roles[i].id);
        }
        i = i + 1;
    }
    None
}

/// Whether a member with the roles `member_roles` is an oracle of a guild
/// whose oracle role is `oracle_role`.
pub fn holds_role(member_roles: &Vec<u64>, oracle_role: u64) -> (held: bool)
    ensures
        held == member_roles@.contains(oracle_role),
{
    let mut i: usize = 0;
    while i < member_roles.len()
        invariant
            i <= member_roles.len(),
            forall|j: int| 0 <= j < i ==> member_roles@[j] != oracle_role,
        decreases member_roles.len() - i,
    {
        if member_roles[i] == oracle_role {
            return true;
        }
        i = i + 1;
    }
    false
}

} // verus!
