//! Canonical Sapphillon message types: permissions, workflow code and
//! results, plugin metadata.
use vstd::prelude::*;

verus! {

/// The category of a permission grant.
#[derive(Clone, Copy, Debug, PartialEq, Eq, Hash, Structural)]
pub enum PermissionType {
    Unspecified,
    /// Grants everything; collapses all other grants.
    AllowAll,
    FilesystemRead,
    FilesystemWrite,
    NetworkAccess,
}

impl PermissionType {
    /// The wire value of each permission type.
    pub open spec fn spec_to_i32(self) -> i32 {
        match self {
            PermissionType::Unspecified => 0,
            PermissionType::AllowAll => 1,
            PermissionType::FilesystemRead => 4,
            PermissionType::FilesystemWrite => 5,
            PermissionType::NetworkAccess => 6,
        }
    }

    /// The permission type of a wire value; unknown values are `Unspecified`.
    pub open spec fn spec_from_i32(v: i32) -> PermissionType {
        if v == 1 {
            PermissionType::AllowAll
        } else if v == 4 {
            PermissionType::FilesystemRead
        } else if v == 5 {
            PermissionType::FilesystemWrite
        } else if v == 6 {
            PermissionType::NetworkAccess
        } else {
            PermissionType::Unspecified
        }
    }

    /// Decode a wire value; values other than 1, 4, 5 and 6 are `Unspecified`.
    pub fn from_i32(v: i32) -> (r: Self)
        ensures
            r == Self::spec_from_i32(v),
    {
        match v {
            1 => PermissionType::AllowAll,
            4 => PermissionType::FilesystemRead,
            5 => PermissionType::FilesystemWrite,
            6 => PermissionType::NetworkAccess,
            _ => PermissionType::Unspecified,
        }
    }

    /// The wire value of this permission type.
    pub fn to_i32(self) -> (r: i32)
        ensures
            r == self.spec_to_i32(),
    {
        match self {
            PermissionType::Unspecified => 0,
            PermissionType::AllowAll => 1,
            PermissionType::FilesystemRead => 4,
            PermissionType::FilesystemWrite => 5,
            PermissionType::NetworkAccess => 6,
        }
    }
}

/// A single permission grant. `resource` carries the path or URL relevant to
/// the type (empty for `AllowAll`).
#[derive(Clone, PartialEq, Debug)]
pub struct Permission {
    /// Numeric value of [`PermissionType`].
    pub permission_type: i32,
    /// Path (for filesystem) or origin/URL (for network).
    pub resource: String,
}

/// The permission type that a grant's wire value stands for.
pub open spec fn kind_of(p: Permission) -> PermissionType {
    PermissionType::spec_from_i32(p.permission_type)
}

impl Permission {
    /// A grant of `permission_type` on `resource`.
    pub fn new(permission_type: PermissionType, resource: &str) -> (r: Self)
        ensures
            r.permission_type == permission_type.spec_to_i32(),
            r.resource@ == resource@,
            kind_of(r) == permission_type,
    {
        Permission { permission_type: permission_type.to_i32(), resource: resource.to_owned() }
    }

    /// The permission type of this grant.
    pub fn kind(&self) -> (r: PermissionType)
        ensures
            r == kind_of(*self),
    {
        PermissionType::from_i32(self.permission_type)
    }
}

/// A copy of a grant.
pub fn copy_permission(p: &Permission) -> (r: Permission)
    ensures
        r == *p,
{
    Permission { permission_type: p.permission_type, resource: p.resource.clone() }
}

/// Decoding a type's wire value gives the type back.
pub proof fn law_permission_type_roundtrip(t: PermissionType)
    ensures
        PermissionType::spec_from_i32(t.spec_to_i32()) == t,
{
}

/// Wire values that decode to a type other than `Unspecified` are exactly
/// that type's wire value.
pub proof fn law_permission_type_decode_encode(v: i32)
    ensures
        PermissionType::spec_from_i32(v) != PermissionType::Unspecified ==> PermissionType::spec_from_i32(v).spec_to_i32() == v,
{
}

/// A workflow's source code and identity.
#[derive(Clone, PartialEq, Debug)]
pub struct WorkflowCode {
    pub id: String,
    pub code: String,
    pub code_revision: i32,
}

/// The outcome of a workflow run.
#[derive(Clone, Copy, Debug, PartialEq, Eq, Structural)]
pub enum WorkflowStatus {
    Succeeded,
    Error,
}

impl WorkflowStatus {
    /// The wire value of each status.
    pub open spec fn spec_to_i32(self) -> i32 {
        match self {
            WorkflowStatus::Succeeded => 0,
            WorkflowStatus::Error => 1,
        }
    }

    /// The wire value of this status.
    pub fn to_i32(self) -> (r: i32)
        ensures
            r == self.spec_to_i32(),
    {
        match self {
            WorkflowStatus::Succeeded => 0,
            WorkflowStatus::Error => 1,
        }
    }
}

/// The record of one workflow run.
#[derive(Clone, PartialEq, Debug)]
pub struct WorkflowResult {
    /// Numeric value of [`WorkflowStatus`].
    pub status: i32,
    /// Captured stdout joined into a single string.
    pub stdout: String,
    /// Wall-clock execution time in milliseconds.
    pub duration_ms: i64,
    /// Human-readable error message, empty on success.
    pub error_message: String,
}

/// Plugin package metadata.
#[derive(Clone, PartialEq, Debug)]
pub struct PluginPackage {
    pub id: String,
    pub name: String,
}

/// Plugin function metadata.
#[derive(Clone, PartialEq, Debug)]
pub struct PluginFunction {
    pub id: String,
    pub name: String,
    pub description: String,
}

} // verus!
