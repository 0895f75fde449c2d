//! The ways in which resolving a configuration can fail.

use vstd::prelude::*;

verus! {

/// One step on the way from the root of a value to one of its parts.
#[derive(Debug, Clone, PartialEq, Eq)]
pub enum PathStep {
    /// Into the member of an object that has this key.
    Key(String),
    /// Into the element of an array at this index.
    Index(usize),
}

/// A `PathStep` as contracts see it.
pub enum Step {
    Key(Seq<char>),
    Index(nat),
}

impl View for PathStep {
    type V = Step;

    open spec fn view(&self) -> Step {
        match self {
            PathStep::Key(k) => Step::Key(k@),
            PathStep::Index(i) => Step::Index(*i as nat),
        }
    }
}

/// The steps of a path as contracts see them.
pub open spec fn path_view(path: Seq<PathStep>) -> Seq<Step> {
    path.map_values(|s: PathStep| s@)
}

/// Why a configuration was refused.
#[derive(Debug, Clone, PartialEq, Eq)]
pub enum ConfigError {
    /// The document is not of the expected structure; the text says how.
    Parse(String),
    /// A placeholder names a variable that is not defined where it is used.
    UndefinedVariable(String),
    /// The text behind a typed-literal prefix is not of the type that the
    /// prefix asks for. `path` leads from the value that was cast to the leaf.
    TypeCast { text: String, reason: String, path: Vec<PathStep> },
    /// Two requests have this name.
    DuplicateName(String),
}

/// A `ConfigError` as contracts see it.
pub enum Fault {
    Parse(Seq<char>),
    UndefinedVariable(Seq<char>),
    TypeCast { text: Seq<char>, reason: Seq<char>, path: Seq<Step> },
    DuplicateName(Seq<char>),
}

impl View for ConfigError {
    type V = Fault;

    open spec fn view(&self) -> Fault {
        match self {
            ConfigError::Parse(m) => Fault::Parse(m@),
            ConfigError::UndefinedVariable(n) => Fault::UndefinedVariable(n@),
            ConfigError::TypeCast { text, reason, path } => Fault::TypeCast {
                text: text@,
                reason: reason@,
                path: path_view(path@),
            },
            ConfigError::DuplicateName(n) => Fault::DuplicateName(n@),
        }
    }
}

/// The failure to cast `text`, at the leaf itself.
pub open spec fn cast_fault(text: Seq<char>, reason: Seq<char>) -> Fault {
    Fault::TypeCast { text, reason, path: Seq::empty() }
}

/// `fault` as seen from one step further up: the step is put in front of the
/// path of a failed cast, and any other fault stays as it is.
pub open spec fn under(step: Step, fault: Fault) -> Fault {
    match fault {
        Fault::TypeCast { text, reason, path } => Fault::TypeCast {
            text,
            reason,
            path: seq![step] + path,
        },
        _ => fault,
    }
}

/// The message of a fault.
pub open spec fn fault_message(fault: Fault) -> Seq<char> {
    match fault {
        Fault::Parse(m) => m,
        Fault::UndefinedVariable(n) => "variable `"@ + n + "` is not defined"@,
        Fault::TypeCast { reason, .. } => reason,
        Fault::DuplicateName(n) => "two or more entries have the same name: "@ + n,
    }
}

impl ConfigError {
    /// The failure to cast `text`, at the leaf itself.
    pub fn cast_failure(text: String, reason: String) -> (e: ConfigError)
        ensures
            e@ == cast_fault(text@, reason@),
    {
        let path: Vec<PathStep> = Vec::new();
        proof {
            assert(path_view(path@) =~= Seq::<Step>::empty());
        }
        ConfigError::TypeCast { text, reason, path }
    }

    /// The error as seen from one step further up.
    pub fn under(self, step: PathStep) -> (e: ConfigError)
        ensures
            e@ == under(step@, self@),
    {
        match self {
            ConfigError::TypeCast { text, reason, path } => {
                let mut path = path;
                let ghost before = path_view(path@);
                path.insert(0, step);
                proof {
                    assert(path_view(path@) =~= seq![step@] + before);
                }
                ConfigError::TypeCast { text, reason, path }
            },
            other => other,
        }
    }

    /// The message to show to the user.
    pub fn to_string(&self) -> (message: String)
        ensures
            message@ == fault_message(self@),
    {
        match self {
            ConfigError::Parse(m) => m.clone(),
            ConfigError::UndefinedVariable(n) => {
                let mut out = String::from_str("variable `");
                out.append(n.as_str());
                out.append("` is not defined");
                out
            },
            ConfigError::TypeCast { reason, .. } => reason.clone(),
            ConfigError::DuplicateName(n) => {
                let mut out = String::from_str("two or more entries have the same name: ");
                out.append(n.as_str());
                out
            },
        }
    }
}

} // verus!
