//! Local platform facts: operating system and architecture.
//!
//! Rule predicates are evaluated against an explicit `Platform` value
//! rather than a process-wide constant, so that rule evaluation is a
//! pure function of its inputs.
use vstd::prelude::*;

verus! {

/// Operating-system family that a rule or a native artifact may name.
#[derive(Debug, Clone, Copy, PartialEq, Eq, Structural)]
pub enum OsName {
    Windows,
    Linux,
    Osx,
}

/// Processor architecture that a rule may name.
#[derive(Debug, Clone, Copy, PartialEq, Eq, Structural)]
pub enum Arch {
    X86,
    X86_64,
    ARM64,
}

/// The facts about the machine the launch will happen on.
#[derive(Debug, Clone, Copy, PartialEq, Eq, Structural)]
pub struct Platform {
    pub os: OsName,
    pub arch: Arch,
}

/// An OS predicate attached to a rule: each absent field matches anything.
#[derive(Debug, Clone, PartialEq, Eq, Structural)]
pub struct Os {
    pub name: Option<OsName>,
    pub arch: Option<Arch>,
}

impl Os {
    /// Whether this predicate accepts the given platform.
    pub open spec fn spec_matches(&self, p: Platform) -> bool {
        (self.name is None || self.name == Some(p.os)) && (self.arch is None || self.arch
            == Some(p.arch))
    }

    /// A predicate matches when every present field equals the platform's fact.
    pub fn matches(&self, p: &Platform) -> (r: bool)
        ensures
            r == self.spec_matches(*p),
    {
        (match self.name {
            None => true,
            Some(n) => n == p.os,
        }) && (match self.arch {
            None => true,
            Some(a) => a == p.arch,
        })
    }
}

} // verus!
