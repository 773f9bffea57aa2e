use vstd::prelude::*;

use crate::text;

verus! {

/// All actions an agent may submit.
#[derive(Clone, Copy, Debug, PartialEq, Eq, Structural)]
pub enum Action {
    Fold,
    Check,
    Call,
    /// Raise to this total bet size.
    Raise(u32),
    AllIn,
}

impl Action {
    /// The action's name, with the size in brackets for a raise.
    pub open spec fn name(self) -> Seq<char> {
        match self {
            Action::Fold => "Fold"@,
            Action::Check => "Check"@,
            Action::Call => "Call"@,
            Action::Raise(n) => "Raise("@ + text::decimal(n as nat) + ")"@,
            Action::AllIn => "AllIn"@,
        }
    }

    /// Appends the action's name.
    pub fn push_name(self, s: &mut String)
        ensures
            final(s)@ == old(s)@ + self.name(),
    {
        match self {
            Action::Fold => s.append("Fold"),
            Action::Check => s.append("Check"),
            Action::Call => s.append("Call"),
            Action::Raise(n) => {
                s.append("Raise(");
                text::push_decimal(s, n as u64);
                s.append(")");
                assert(s@ =~= old(s)@ + self.name());
            },
            Action::AllIn => s.append("AllIn"),
        }
    }
}

/// The set of actions that are currently legal for the acting player.
#[derive(Clone, Copy, Debug, PartialEq, Eq, Structural)]
pub struct LegalActions {
    pub can_check: bool,
    pub can_call: bool,
    pub call_amount: u32,
    pub can_raise: bool,
    pub min_raise: u32,
    pub max_raise: u32,
    /// All-in is always legal when a player has chips.
    pub all_in_amount: u32,
}

impl LegalActions {
    /// `action` is one of the legal ones.
    pub open spec fn allows(self, action: Action) -> bool {
        match action {
            Action::Fold => true,
            Action::Check => self.can_check,
            Action::Call => self.can_call,
            Action::Raise(amount) => self.can_raise && self.min_raise <= amount <= self.max_raise,
            Action::AllIn => self.all_in_amount > 0,
        }
    }

    pub fn is_legal(&self, action: Action) -> (r: bool)
        ensures
            r == self.allows(action),
    {
        match action {
            Action::Fold => true,
            Action::Check => self.can_check,
            Action::Call => self.can_call,
            Action::Raise(amount) => {
                self.can_raise && amount >= self.min_raise && amount <= self.max_raise
            },
            Action::AllIn => self.all_in_amount > 0,
        }
    }
}

#[derive(Debug)]
pub enum ActionError {
    Illegal(Action, &'static str),
    NoActingPlayer,
}

impl ActionError {
    /// The error in words.
    pub open spec fn text(self) -> Seq<char> {
        match self {
            ActionError::Illegal(action, why) => "illegal action "@ + action.name() + ": "@ + why@,
            ActionError::NoActingPlayer => "no player to act"@,
        }
    }

    /// The error in words.
    pub fn to_text(&self) -> (s: String)
        ensures
            s@ == self.text(),
    {
        let mut s = String::new();
        match self {
            ActionError::Illegal(action, why) => {
                s.append("illegal action ");
                action.push_name(&mut s);
                s.append(": ");
                s.append(why);
                assert(s@ =~= self.text());
            },
            ActionError::NoActingPlayer => {
                s.append("no player to act");
                assert(s@ =~= self.text());
            },
        }
        s
    }
}

} // verus!
