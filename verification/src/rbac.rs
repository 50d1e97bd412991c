//! Organization-level access control: the subject, its roles and the
//! permissions a policy engine decides over.

use vstd::prelude::*;
use vstd::string::StringSliceAdditionalSpecFns;

use crate::model::bytes_eq;

verus! {

pub const MEMBER_ROLE: &'static str = "member";

pub const LEADER_ROLE: &'static str = "leader";

/// The organization a role or permission applies to.
#[derive(Clone, Debug)]
pub struct Organization {
    pub uuid: String,
}

/// A member's role within an organization.
#[derive(Clone, Copy, PartialEq, Eq, Structural, Debug)]
pub enum Role {
    Member,
    Leader,
}

impl Role {
    /// The stable string identifier of this role.
    pub fn as_str(&self) -> (r: &'static str)
        ensures
            *self == Role::Member ==> r@ == MEMBER_ROLE@,
            *self == Role::Leader ==> r@ == LEADER_ROLE@,
    {
        match self {
            Role::Member => MEMBER_ROLE,
            Role::Leader => LEADER_ROLE,
        }
    }
}

impl Role {
    /// The inverse of the stable identifier: exactly `member` and
    /// `leader` parse; anything else is handed back as the error.
    pub fn parse_role(s: &str) -> (r: Result<Role, String>)
        ensures
            s.spec_bytes() == MEMBER_ROLE.spec_bytes() ==> r == Result::<Role, String>::Ok(
                Role::Member,
            ),
            s.spec_bytes() != MEMBER_ROLE.spec_bytes() && s.spec_bytes()
                == LEADER_ROLE.spec_bytes() ==> r == Result::<Role, String>::Ok(Role::Leader),
            r is Ok <==> (s.spec_bytes() == MEMBER_ROLE.spec_bytes() || s.spec_bytes()
                == LEADER_ROLE.spec_bytes()),
            r matches Result::Err(e) ==> e@ == s@,
    {
        if bytes_eq(s.as_bytes(), MEMBER_ROLE.as_bytes()) {
            Ok(Role::Member)
        } else if bytes_eq(s.as_bytes(), LEADER_ROLE.as_bytes()) {
            Ok(Role::Leader)
        } else {
            Err(s.to_owned())
        }
    }
}

impl core::str::FromStr for Role {
    type Err = String;

    /// The trait spelling of [`Role::parse_role`].
    fn from_str(s: &str) -> Result<Self, String> {
        Role::parse_role(s)
    }
}

/// An action a policy can allow within an organization.
#[derive(Clone, Copy, PartialEq, Eq, Structural, Debug)]
pub enum Permission {
    Read,
    CreateProjects,
    ListProjects,
    CreateRoleAssignments,
    ListRoleAssignments,
    UpdateRoleAssignments,
    DeleteRoleAssignments,
}

impl Permission {
    /// The stable string identifier of this permission.
    pub fn as_str(&self) -> (r: &'static str)
        ensures
            *self == Permission::Read ==> r@ == "read"@,
            *self == Permission::CreateProjects ==> r@ == "create_projects"@,
            *self == Permission::ListProjects ==> r@ == "list_projects"@,
            *self == Permission::CreateRoleAssignments ==> r@ == "create_role_assignments"@,
            *self == Permission::ListRoleAssignments ==> r@ == "list_role_assignments"@,
            *self == Permission::UpdateRoleAssignments ==> r@ == "update_role_assignments"@,
            *self == Permission::DeleteRoleAssignments ==> r@ == "delete_role_assignments"@,
    {
        match self {
            Permission::Read => "read",
            Permission::CreateProjects => "create_projects",
            Permission::ListProjects => "list_projects",
            Permission::CreateRoleAssignments => "create_role_assignments",
            Permission::ListRoleAssignments => "list_role_assignments",
            Permission::UpdateRoleAssignments => "update_role_assignments",
            Permission::DeleteRoleAssignments => "delete_role_assignments",
        }
    }
}

} // verus!
