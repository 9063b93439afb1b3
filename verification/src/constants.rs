//! Kinds of symbols and build phases.
use vstd::prelude::*;

verus! {

/// The kind tag of a symbol.
#[derive(Clone, Copy, Debug, PartialEq, Eq, Structural)]
pub enum SymType {
    Root,
    Namespace,
    Package,
    File,
    Compiled,
    Class,
    Function,
    Variable,
}

/// Progress of one build phase on one symbol.
#[derive(Clone, Copy, Debug, PartialEq, Eq, Structural)]
pub enum BuildStatus {
    Pending,
    InProgress,
    Done,
}

/// The build phases, in the order in which they run.
#[derive(Clone, Copy, Debug, PartialEq, Eq, Structural)]
pub enum BuildSteps {
    Arch,
    ArchEval,
    Odoo,
    Validation,
}

impl BuildStatus {
    /// Position in the order `Pending < InProgress < Done`.
    pub open spec fn rank(self) -> nat {
        match self {
            BuildStatus::Pending => 0,
            BuildStatus::InProgress => 1,
            BuildStatus::Done => 2,
        }
    }
}

impl SymType {
    /// Kinds that hold named children: package, module, class, function.
    pub open spec fn is_container(self) -> bool {
        self == SymType::Package || self == SymType::File || self == SymType::Class
            || self == SymType::Function
    }

    /// Kinds that stand for one source file: package and module.
    pub open spec fn is_file(self) -> bool {
        self == SymType::Package || self == SymType::File
    }
}

} // verus!

verus! {

/// The status of each build phase on one symbol.
#[derive(Clone, Copy, Debug, PartialEq, Eq, Structural)]
pub struct BuildProgress {
    pub arch: BuildStatus,
    pub arch_eval: BuildStatus,
    pub odoo: BuildStatus,
    pub validation: BuildStatus,
}

impl BuildProgress {
    /// Every phase still to run.
    pub open spec fn spec_pending() -> BuildProgress {
        BuildProgress {
            arch: BuildStatus::Pending,
            arch_eval: BuildStatus::Pending,
            odoo: BuildStatus::Pending,
            validation: BuildStatus::Pending,
        }
    }

    pub open spec fn spec_get(self, step: BuildSteps) -> BuildStatus {
        match step {
            BuildSteps::Arch => self.arch,
            BuildSteps::ArchEval => self.arch_eval,
            BuildSteps::Odoo => self.odoo,
            BuildSteps::Validation => self.validation,
        }
    }

    pub open spec fn spec_with(self, step: BuildSteps, status: BuildStatus) -> BuildProgress {
        match step {
            BuildSteps::Arch => BuildProgress { arch: status, ..self },
            BuildSteps::ArchEval => BuildProgress { arch_eval: status, ..self },
            BuildSteps::Odoo => BuildProgress { odoo: status, ..self },
            BuildSteps::Validation => BuildProgress { validation: status, ..self },
        }
    }

    /// The progress of a symbol on which no phase has run.
    pub fn pending() -> (p: BuildProgress)
        ensures
            p == Self::spec_pending(),
    {
        BuildProgress {
            arch: BuildStatus::Pending,
            arch_eval: BuildStatus::Pending,
            odoo: BuildStatus::Pending,
            validation: BuildStatus::Pending,
        }
    }

    /// The status of phase `step`.
    pub fn get(&self, step: BuildSteps) -> (status: BuildStatus)
        ensures
            status == self.spec_get(step),
    {
        match step {
            BuildSteps::Arch => self.arch,
            BuildSteps::ArchEval => self.arch_eval,
            BuildSteps::Odoo => self.odoo,
            BuildSteps::Validation => self.validation,
        }
    }

    /// Records `status` for phase `step` and leaves the other phases.
    pub fn set(&mut self, step: BuildSteps, status: BuildStatus)
        ensures
            *final(self) == old(self).spec_with(step, status),
    {
        match step {
            BuildSteps::Arch => {
                self.arch = status;
            },
            BuildSteps::ArchEval => {
                self.arch_eval = status;
            },
            BuildSteps::Odoo => {
                self.odoo = status;
            },
            BuildSteps::Validation => {
                self.validation = status;
            },
        }
    }
}

} // verus!
