use vstd::prelude::*;

use crate::config::{Amount, Payment};

verus! {

pub const ADDRESS_LEN: usize = 32;

/// The address made of zero bytes only.
pub open spec fn is_zero_address(a: Seq<u8>) -> bool {
    a.len() == ADDRESS_LEN && forall|i: int| 0 <= i < a.len() ==> a[i] == 0
}

/// The zero address.
pub fn zero_address() -> (r: Vec<u8>)
    ensures
        is_zero_address(r@),
{
    let mut r: Vec<u8> = Vec::new();
    let mut i: usize = 0;
    while i < ADDRESS_LEN
        invariant
            0 <= i <= ADDRESS_LEN,
            r@.len() == i,
            forall|j: int| 0 <= j < i ==> r@[j] == 0,
        decreases ADDRESS_LEN - i,
    {
        r.push(0u8);
        i = i + 1;
    }
    r
}

/// What an action must look like to be covered by a permission. A field
/// that is not set does not constrain the action.
#[derive(Debug)]
pub struct PermissionDetails {
    /// Most native value the action may carry.
    pub value: Option<Amount>,
    pub destination: Option<Vec<u8>>,
    pub endpoint: Option<Vec<u8>>,
    /// Arguments the action's arguments must start with.
    pub arguments: Option<Vec<Vec<u8>>>,
    /// Most of each token the action may carry.
    pub payments: Option<Vec<Payment>>,
}

impl PermissionDetails {
    pub open spec fn is_wildcard_spec(&self) -> bool {
        &&& self.value is None
        &&& self.destination is None
        &&& self.endpoint is None
        &&& self.arguments is None
        &&& self.payments is None
    }

    pub open spec fn is_noop_spec(&self) -> bool {
        &&& self.value == Some(0u128)
        &&& self.destination is Some && is_zero_address(self.destination->0@)
        &&& self.endpoint is Some && self.endpoint->0@.len() == 0
        &&& self.arguments is Some && self.arguments->0@.len() == 0
        &&& self.payments is Some && self.payments->0@.len() == 0
    }

    /// The permission that constrains nothing.
    pub fn wildcard() -> (r: Self)
        ensures
            r.is_wildcard_spec(),
    {
        PermissionDetails { value: None, destination: None, endpoint: None, arguments: None, payments: None }
    }

    /// The permission whose every field holds its zero value.
    pub fn noop() -> (r: Self)
        ensures
            r.is_noop_spec(),
    {
        PermissionDetails {
            value: Some(0),
            destination: Some(zero_address()),
            endpoint: Some(Vec::new()),
            arguments: Some(Vec::new()),
            payments: Some(Vec::new()),
        }
    }

    /// Whether every field holds its zero value.
    pub fn is_noop(&self) -> (r: bool)
        ensures
            r == self.is_noop_spec(),
    {
        let value_zero = match self.value {
            Some(v) => v == 0,
            None => false,
        };
        let destination_zero = match &self.destination {
            Some(d) => is_zero(d),
            None => false,
        };
        let endpoint_empty = match &self.endpoint {
            Some(e) => e.len() == 0,
            None => false,
        };
        let arguments_empty = match &self.arguments {
            Some(a) => a.len() == 0,
            None => false,
        };
        let payments_empty = match &self.payments {
            Some(p) => p.len() == 0,
            None => false,
        };
        value_zero && destination_zero && endpoint_empty && arguments_empty && payments_empty
    }

    /// Whether no field is set.
    pub fn is_wildcard(&self) -> (r: bool)
        ensures
            r == self.is_wildcard_spec(),
    {
        self.value.is_none() && self.destination.is_none() && self.endpoint.is_none()
            && self.arguments.is_none() && self.payments.is_none()
    }
}

/// Tells whether `a` is the zero address.
pub fn is_zero(a: &Vec<u8>) -> (r: bool)
    ensures
        r == is_zero_address(a@),
{
    if a.len() != ADDRESS_LEN {
        return false;
    }
    let mut i: usize = 0;
    while i < a.len()
        invariant
            0 <= i <= a.len(),
            forall|j: int| 0 <= j < i ==> a@[j] == 0,
        decreases a.len() - i,
    {
        if a[i] != 0 {
            return false;
        }
        i = i + 1;
    }
    true
}

/// How a role's members satisfy a permission.
#[derive(Clone, Copy, PartialEq, Eq, Debug, Structural)]
pub enum PolicyMethod {
    /// Token-weighted vote.
    Weight,
    /// The proposer's own signature.
    One,
    /// Every member's signature.
    All,
    /// A fixed number of signatures.
    Quorum,
    /// More than half of the members' signatures.
    Majority,
}

impl PolicyMethod {
    pub open spec fn name_spec(&self) -> Seq<char> {
        match self {
            PolicyMethod::Weight => "weight"@,
            PolicyMethod::One => "one"@,
            PolicyMethod::All => "all"@,
            PolicyMethod::Quorum => "quorum"@,
            PolicyMethod::Majority => "majority"@,
        }
    }

    /// The name the method is listed under.
    pub fn to_name(&self) -> (r: &'static str)
        ensures
            r@ == self.name_spec(),
    {
        match self {
            PolicyMethod::Weight => "weight",
            PolicyMethod::One => "one",
            PolicyMethod::All => "all",
            PolicyMethod::Quorum => "quorum",
            PolicyMethod::Majority => "majority",
        }
    }
}

/// Binds a role to a permission.
#[derive(Clone, Copy, PartialEq, Eq, Debug, Structural)]
pub struct Policy {
    pub method: PolicyMethod,
    /// Token weight (method Weight) or signer count (method Quorum) to reach.
    pub quorum: Amount,
    pub voting_period_minutes: usize,
}

/// A permission stored under its name.
#[derive(Debug)]
pub struct PermissionEntry {
    pub name: Vec<u8>,
    pub details: PermissionDetails,
}

/// The policy that binds `role` to `permission`.
#[derive(Debug)]
pub struct PolicyEntry {
    pub role: Vec<u8>,
    pub permission: Vec<u8>,
    pub policy: Policy,
}

/// No two permissions share a name.
pub open spec fn unique_permission_names(perms: Seq<PermissionEntry>) -> bool {
    forall|i: int, j: int|
        0 <= i < perms.len() && 0 <= j < perms.len() && i != j ==> #[trigger] perms[i].name@
            != #[trigger] perms[j].name@
}

pub open spec fn permission_exists(perms: Seq<PermissionEntry>, name: Seq<u8>) -> bool {
    exists|j: int| 0 <= j < perms.len() && #[trigger] perms[j].name@ == name
}

/// Where the permission called `name` is stored, if it is.
pub fn find_permission(perms: &Vec<PermissionEntry>, name: &Vec<u8>) -> (r: Option<usize>)
    ensures
        r is Some ==> r->0 < perms@.len() && perms@[r->0 as int].name@ == name@,
        r is None <==> !permission_exists(perms@, name@),
{
    let mut i: usize = 0;
    while i < perms.len()
        invariant
            0 <= i <= perms.len(),
            forall|j: int| 0 <= j < i ==> perms@[j].name@ != name@,
        decreases perms.len() - i,
    {
        if crate::bytes::bytes_eq(&perms[i].name, name) {
            return Some(i);
        }
        i = i + 1;
    }
    None
}

} // verus!
