//! Actions: what an agent asks the load balancer to do in reply to a NOTIFY.

use vstd::prelude::*;
use crate::error::ProtocolError;
use crate::types::{TypedData, TypedDataView};

verus! {

/// The wire identifier of the set-var action.
pub const ACTION_SET_VAR: u8 = 1;

/// The wire identifier of the unset-var action.
pub const ACTION_UNSET_VAR: u8 = 2;

/// The lifetime of a variable.
#[derive(Debug, Clone, Copy, PartialEq, Eq, Structural)]
pub enum VarScope {
    Process,
    Session,
    Transaction,
    Request,
    Response,
}

impl VarScope {
    /// The wire identifier of the scope.
    pub open spec fn spec_to_u8(self) -> u8 {
        match self {
            VarScope::Process => 0,
            VarScope::Session => 1,
            VarScope::Transaction => 2,
            VarScope::Request => 3,
            VarScope::Response => 4,
        }
    }

    /// The scope with wire identifier `value`, if there is one.
    pub open spec fn spec_from_u8(value: u8) -> Option<VarScope> {
        if value == 0 {
            Some(VarScope::Process)
        } else if value == 1 {
            Some(VarScope::Session)
        } else if value == 2 {
            Some(VarScope::Transaction)
        } else if value == 3 {
            Some(VarScope::Request)
        } else if value == 4 {
            Some(VarScope::Response)
        } else {
            None
        }
    }

    /// The wire identifier of the scope.
    pub fn to_u8(&self) -> (res: u8)
        ensures
            res == self.spec_to_u8(),
    {
        match self {
            Self::Process => 0,
            Self::Session => 1,
            Self::Transaction => 2,
            Self::Request => 3,
            Self::Response => 4,
        }
    }

    /// Maps a wire identifier to its scope.
    pub fn from_u8(value: u8) -> (res: Result<Self, ProtocolError>)
        ensures
            match res {
                Ok(s) => Self::spec_from_u8(value) == Some(s),
                Err(e) => Self::spec_from_u8(value) is None && e == ProtocolError::UnknownScope(
                    value,
                ),
            },
    {
        match value {
            0 => Ok(Self::Process),
            1 => Ok(Self::Session),
            2 => Ok(Self::Transaction),
            3 => Ok(Self::Request),
            4 => Ok(Self::Response),
            _ => Err(ProtocolError::UnknownScope(value)),
        }
    }
}

/// The identifier of a scope maps back to that scope.
pub proof fn lemma_scope_roundtrip(s: VarScope)
    ensures
        VarScope::spec_from_u8(s.spec_to_u8()) == Some(s),
{
}

/// One instruction carried by an ACK frame.
#[derive(Debug, PartialEq, Eq)]
pub enum Action {
    /// Give the variable `name` in `scope` the value `value`.
    SetVar { scope: VarScope, name: String, value: TypedData },
    /// Remove the variable `name` in `scope`.
    UnSetVar { scope: VarScope, name: String },
}

/// Mathematical counterpart of [`Action`].
pub enum ActionView {
    SetVar { scope: VarScope, name: Seq<char>, value: TypedDataView },
    UnSetVar { scope: VarScope, name: Seq<char> },
}

impl View for Action {
    type V = ActionView;

    open spec fn view(&self) -> ActionView {
        match *self {
            Action::SetVar { scope, name, value } => ActionView::SetVar {
                scope,
                name: name@,
                value: value@,
            },
            Action::UnSetVar { scope, name } => ActionView::UnSetVar { scope, name: name@ },
        }
    }
}

impl Clone for Action {
    fn clone(&self) -> (res: Self)
        ensures
            res@ == self@,
    {
        match self {
            Action::SetVar { scope, name, value } => Action::SetVar {
                scope: *scope,
                name: name.clone(),
                value: value.clone(),
            },
            Action::UnSetVar { scope, name } => Action::UnSetVar {
                scope: *scope,
                name: name.clone(),
            },
        }
    }
}

/// The views of a vector of actions, in order.
pub open spec fn actions_view(v: Seq<Action>) -> Seq<ActionView> {
    v.map_values(|a: Action| a@)
}

/// Copies a list of actions.
pub fn clone_actions(actions: &Vec<Action>) -> (res: Vec<Action>)
    ensures
        actions_view(res@) == actions_view(actions@),
{
    let mut out: Vec<Action> = Vec::new();
    let mut i: usize = 0;
    while i < actions.len()
        invariant
            0 <= i <= actions@.len(),
            out@.len() == i,
            forall|k: int| 0 <= k < i ==> (#[trigger] out@[k])@ == actions@[k]@,
        decreases actions@.len() - i,
    {
        out.push(actions[i].clone());
        i = i + 1;
    }
    assert(actions_view(out@) =~= actions_view(actions@));
    out
}

} // verus!
