use vstd::prelude::*;

use crate::paths::{path_text, EntryPath, PathView};

verus! {

/// The workspace operations that act on one entry and may be refused.
#[derive(Debug, Clone, Copy, PartialEq, Eq, Structural)]
pub enum Operation {
    Rename,
    Delete,
    Copy,
    Move,
    Import,
}

/// Why an entry name is refused.
#[derive(Debug, Clone, Copy, PartialEq, Eq, Structural)]
pub enum NameError {
    /// The name is empty once surrounding whitespace is removed.
    Empty,
    /// The name ends with a space or a period.
    TrailingSpaceOrPeriod,
    /// The name holds a control character or one of `< > : " / \ | ? *`.
    InvalidCharacters,
    /// The part before the first period is a reserved device name.
    ReservedDeviceName,
}

/// The errors of the workspace core.
#[derive(Debug, PartialEq, Eq)]
pub enum CoreError {
    /// No workspace root is set.
    RootNotSet,
    /// The path given as workspace root does not exist.
    PathMissing(EntryPath),
    /// The path given as workspace root is not a directory.
    NotADirectory(EntryPath),
    /// The workspace root could not be canonicalized.
    CanonicalizeFailed(EntryPath, String),
    /// The workspace root can no longer be reached.
    RootInaccessible,
    /// The operation needs a selection and there is none.
    NothingSelected(Operation),
    /// The operation may not act on the workspace root itself.
    RootProtected(Operation),
    /// The selected path has no parent.
    NoParent(EntryPath),
    /// The target of a copy, move or import is not a directory.
    TargetNotDirectory(Operation, EntryPath),
    /// An entry name is refused.
    InvalidName(NameError),
    /// A path (first) lies outside the workspace root (second).
    OutsideRoot(EntryPath, EntryPath),
    /// A path to be created has no parent directory.
    NoParentForNewPath(EntryPath),
    /// The workspace root itself may not go to the trash.
    RootTrashRefused,
    /// No listing was supplied for a directory that the tree reaches.
    Unlisted(EntryPath),
    /// Another entry already has the path that a rename would give.
    NameTaken(EntryPath),
    /// A filesystem operation failed, with its message.
    Fs(String),
}

/// The mathematical value of a [`CoreError`].
pub enum CoreErrorView {
    RootNotSet,
    PathMissing(PathView),
    NotADirectory(PathView),
    CanonicalizeFailed(PathView, Seq<char>),
    RootInaccessible,
    NothingSelected(Operation),
    RootProtected(Operation),
    NoParent(PathView),
    TargetNotDirectory(Operation, PathView),
    InvalidName(NameError),
    OutsideRoot(PathView, PathView),
    NoParentForNewPath(PathView),
    RootTrashRefused,
    Unlisted(PathView),
    NameTaken(PathView),
    Fs(Seq<char>),
}

impl View for CoreError {
    type V = CoreErrorView;

    open spec fn view(&self) -> CoreErrorView {
        match self {
            CoreError::RootNotSet => CoreErrorView::RootNotSet,
            CoreError::PathMissing(p) => CoreErrorView::PathMissing(p@),
            CoreError::NotADirectory(p) => CoreErrorView::NotADirectory(p@),
            CoreError::CanonicalizeFailed(p, m) => CoreErrorView::CanonicalizeFailed(p@, m@),
            CoreError::RootInaccessible => CoreErrorView::RootInaccessible,
            CoreError::NothingSelected(op) => CoreErrorView::NothingSelected(*op),
            CoreError::RootProtected(op) => CoreErrorView::RootProtected(*op),
            CoreError::NoParent(p) => CoreErrorView::NoParent(p@),
            CoreError::TargetNotDirectory(op, p) => CoreErrorView::TargetNotDirectory(*op, p@),
            CoreError::InvalidName(e) => CoreErrorView::InvalidName(*e),
            CoreError::OutsideRoot(p, r) => CoreErrorView::OutsideRoot(p@, r@),
            CoreError::NoParentForNewPath(p) => CoreErrorView::NoParentForNewPath(p@),
            CoreError::RootTrashRefused => CoreErrorView::RootTrashRefused,
            CoreError::Unlisted(p) => CoreErrorView::Unlisted(p@),
            CoreError::NameTaken(p) => CoreErrorView::NameTaken(p@),
            CoreError::Fs(m) => CoreErrorView::Fs(m@),
        }
    }
}

/// The verb of an operation, as the messages use it.
pub open spec fn operation_word(op: Operation) -> Seq<char> {
    match op {
        Operation::Rename => "rename"@,
        Operation::Delete => "delete"@,
        Operation::Copy => "copy"@,
        Operation::Move => "move"@,
        Operation::Import => "import"@,
    }
}

/// Why a name is refused, in words.
pub open spec fn name_error_text(e: NameError) -> Seq<char> {
    match e {
        NameError::Empty => "name cannot be empty"@,
        NameError::TrailingSpaceOrPeriod => "name cannot end with a space or period on Windows"@,
        NameError::InvalidCharacters => "name contains invalid characters"@,
        NameError::ReservedDeviceName => "name is a reserved device identifier on Windows"@,
    }
}

/// The message shown for an error; paths are written with `sep` between
/// their components.
pub open spec fn error_text(e: CoreErrorView, sep: Seq<char>) -> Seq<char> {
    match e {
        CoreErrorView::RootNotSet => "workspace root not set"@,
        CoreErrorView::PathMissing(p) => "workspace path does not exist: "@ + path_text(p, sep),
        CoreErrorView::NotADirectory(p) => "workspace path is not a directory: "@ + path_text(p, sep),
        CoreErrorView::CanonicalizeFailed(p, m) => "failed to canonicalize workspace root "@ + path_text(p, sep)
            + ": "@ + m,
        CoreErrorView::RootInaccessible => "workspace root is no longer accessible"@,
        CoreErrorView::NothingSelected(op) => "nothing selected for "@ + operation_word(op),
        CoreErrorView::RootProtected(op) => "cannot "@ + operation_word(op) + " workspace root"@,
        CoreErrorView::NoParent(p) => "selected path has no parent: "@ + path_text(p, sep),
        CoreErrorView::TargetNotDirectory(op, p) => operation_word(op) + " target is not a directory: "@ + path_text(
            p,
            sep,
        ),
        CoreErrorView::InvalidName(ne) => name_error_text(ne),
        CoreErrorView::OutsideRoot(c, r) => "path "@ + path_text(c, sep) + " is outside workspace root "@ + path_text(
            r,
            sep,
        ),
        CoreErrorView::NoParentForNewPath(p) => "cannot resolve parent directory for path "@ + path_text(p, sep),
        CoreErrorView::RootTrashRefused => "refusing to delete workspace root"@,
        CoreErrorView::Unlisted(p) => "directory was not listed: "@ + path_text(p, sep),
        CoreErrorView::NameTaken(p) => "an entry already exists at "@ + path_text(p, sep),
        CoreErrorView::Fs(m) => m,
    }
}

impl Operation {
    pub fn word(self) -> (r: &'static str)
        ensures
            r@ == operation_word(self),
    {
        match self {
            Operation::Rename => "rename",
            Operation::Delete => "delete",
            Operation::Copy => "copy",
            Operation::Move => "move",
            Operation::Import => "import",
        }
    }
}

impl NameError {
    pub fn text(self) -> (r: &'static str)
        ensures
            r@ == name_error_text(self),
    {
        match self {
            NameError::Empty => "name cannot be empty",
            NameError::TrailingSpaceOrPeriod => "name cannot end with a space or period on Windows",
            NameError::InvalidCharacters => "name contains invalid characters",
            NameError::ReservedDeviceName => "name is a reserved device identifier on Windows",
        }
    }
}

impl CoreError {
    /// The message shown for the error, with `separator` (the platform's
    /// path separator) between the components of the paths it names.
    pub fn message(&self, separator: &str) -> (r: String)
        ensures
            r@ == error_text(self@, separator@),
    {
        let r = match self {
            CoreError::RootNotSet => String::from_str("workspace root not set"),
            CoreError::PathMissing(p) => String::from_str("workspace path does not exist: ").concat(
                p.text(separator).as_str(),
            ),
            CoreError::NotADirectory(p) => String::from_str("workspace path is not a directory: ").concat(
                p.text(separator).as_str(),
            ),
            CoreError::CanonicalizeFailed(p, m) => String::from_str("failed to canonicalize workspace root ").concat(
                p.text(separator).as_str(),
            ).concat(": ").concat(m.as_str()),
            CoreError::RootInaccessible => String::from_str("workspace root is no longer accessible"),
            CoreError::NothingSelected(op) => String::from_str("nothing selected for ").concat(op.word()),
            CoreError::RootProtected(op) => String::from_str("cannot ").concat(op.word()).concat(" workspace root"),
            CoreError::NoParent(p) => String::from_str("selected path has no parent: ").concat(
                p.text(separator).as_str(),
            ),
            CoreError::TargetNotDirectory(op, p) => String::from_str(op.word()).concat(
                " target is not a directory: ",
            ).concat(p.text(separator).as_str()),
            CoreError::InvalidName(ne) => String::from_str(ne.text()),
            CoreError::OutsideRoot(c, root) => String::from_str("path ").concat(c.text(separator).as_str()).concat(
                " is outside workspace root ",
            ).concat(root.text(separator).as_str()),
            CoreError::NoParentForNewPath(p) => String::from_str("cannot resolve parent directory for path ").concat(
                p.text(separator).as_str(),
            ),
            CoreError::RootTrashRefused => String::from_str("refusing to delete workspace root"),
            CoreError::Unlisted(p) => String::from_str("directory was not listed: ").concat(
                p.text(separator).as_str(),
            ),
            CoreError::NameTaken(p) => String::from_str("an entry already exists at ").concat(
                p.text(separator).as_str(),
            ),
            CoreError::Fs(m) => m.clone(),
        };
        proof {
            assert(r@ =~= error_text(self@, separator@));
        }
        r
    }
}

} // verus!
