use vstd::prelude::*;
use crate::method::{Method, MethodModel, spec_token};

verus! {

/// Why the matcher refused to insert a pattern.
#[derive(Debug)]
pub enum ConflictError {
    /// The walked pattern shape already stores a controller at its terminal
    /// node: the two patterns are indistinguishable at every position.
    Duplicate { existing_controller: String },
    /// At some position the node already has a parameter edge under another
    /// name, so the two patterns would be ambiguous there.
    Ambiguous { existing_name: String },
}

/// Mathematical model of a [`ConflictError`].
pub ghost enum ConflictModel {
    Duplicate(Seq<char>),
    Ambiguous(Seq<char>),
}

impl View for ConflictError {
    type V = ConflictModel;

    open spec fn view(&self) -> ConflictModel {
        match self {
            ConflictError::Duplicate { existing_controller } => ConflictModel::Duplicate(
                existing_controller@,
            ),
            ConflictError::Ambiguous { existing_name } => ConflictModel::Ambiguous(existing_name@),
        }
    }
}

/// The error a table build fails with: the first conflicting route entry,
/// reported with its method and path so it reads as a configuration error.
#[derive(Debug)]
pub enum RouterError {
    Conflict { method: Method, path: String, detail: ConflictError },
}

/// Mathematical model of a [`RouterError`].
pub ghost enum RouterErrorModel {
    Conflict { method: MethodModel, path: Seq<char>, detail: ConflictModel },
}

impl View for RouterError {
    type V = RouterErrorModel;

    open spec fn view(&self) -> RouterErrorModel {
        match self {
            RouterError::Conflict { method, path, detail } => RouterErrorModel::Conflict {
                method: method@,
                path: path@,
                detail: detail@,
            },
        }
    }
}

/// The diagnostic text of a [`RouterError`]: the conflicting route followed by
/// the name already registered at the conflicting position.
pub open spec fn spec_error_message(e: RouterErrorModel) -> Seq<char> {
    match e {
        RouterErrorModel::Conflict { method, path, detail } => "conflicting route "@ + spec_token(
            method,
        ) + " "@ + path + (match detail {
            ConflictModel::Duplicate(c) => ": pattern already registered to '"@ + c + "'"@,
            ConflictModel::Ambiguous(n) => ": ambiguous with parameter ':"@ + n + "'"@,
        }),
    }
}

impl RouterError {
    /// Renders the error for a log line or a startup failure report.
    pub fn message(&self) -> (r: String)
        ensures
            r@ == spec_error_message(self@),
    {
        match self {
            RouterError::Conflict { method, path, detail } => {
                let mut s = "conflicting route ".to_owned();
                s.append(method.as_str().as_str());
                s.append(" ");
                s.append(path.as_str());
                match detail {
                    ConflictError::Duplicate { existing_controller } => {
                        s.append(": pattern already registered to '");
                        s.append(existing_controller.as_str());
                        s.append("'");
                    },
                    ConflictError::Ambiguous { existing_name } => {
                        s.append(": ambiguous with parameter ':");
                        s.append(existing_name.as_str());
                        s.append("'");
                    },
                }
                s
            },
        }
    }
}

} // verus!
