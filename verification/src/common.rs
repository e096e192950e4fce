//! Types shared by every part of the navigator.

use vstd::prelude::*;

verus! {

/// Why an operation of the navigator failed.
#[derive(Debug)]
pub enum AppError {
    /// A failure described by its message alone; an inconsistency inside the
    /// navigator is reported this way.
    StrError(String),
    /// A path could not be resolved: what went wrong, and the path or the
    /// component at which it did.
    PathError(String, String),
    /// Reading a directory failed; the message is the system's.
    IoError(String),
}

/// An `AppError` as a mathematical value.
pub enum ErrorModel {
    StrError(Seq<char>),
    PathError(Seq<char>, Seq<char>),
    IoError(Seq<char>),
}

impl View for AppError {
    type V = ErrorModel;

    open spec fn view(&self) -> ErrorModel {
        match self {
            AppError::StrError(m) => ErrorModel::StrError(m@),
            AppError::PathError(what, at) => ErrorModel::PathError(what@, at@),
            AppError::IoError(m) => ErrorModel::IoError(m@),
        }
    }
}

/// The failure that an outcome reports, if it reports one.
pub open spec fn failure<T>(r: Result<T, AppError>) -> Option<ErrorModel> {
    match r {
        Ok(_) => None,
        Err(e) => Some(e@),
    }
}

impl AppError {
    /// Whether this is a plain failure with the message `m`.
    pub open spec fn is_str(self, m: Seq<char>) -> bool {
        match self {
            AppError::StrError(s) => s@ == m,
            _ => false,
        }
    }

    /// Whether this is a path failure of the kind `what` at `at`.
    pub open spec fn is_path(self, what: Seq<char>, at: Seq<char>) -> bool {
        match self {
            AppError::PathError(w, a) => w@ == what && a@ == at,
            _ => false,
        }
    }

    /// Whether this is a failed directory read with the message `m`.
    pub open spec fn is_io(self, m: Seq<char>) -> bool {
        match self {
            AppError::IoError(s) => s@ == m,
            _ => false,
        }
    }

    /// The text shown for this error.
    pub open spec fn text(self) -> Seq<char> {
        match self {
            AppError::StrError(m) => m@,
            AppError::PathError(what, at) => "Path error: "@ + what@ + " ('"@ + at@ + "')"@,
            AppError::IoError(m) => "Błąd IO: "@ + m@,
        }
    }

    /// Renders the error for display.
    pub fn to_string(&self) -> (r: String)
        ensures
            r@ == self.text(),
    {
        match self {
            AppError::StrError(m) => m.clone(),
            AppError::PathError(what, at) => {
                let mut r: String = String::from_str("Path error: ");
                r.append(what.as_str());
                r.append(" ('");
                r.append(at.as_str());
                r.append("')");
                r
            },
            AppError::IoError(m) => {
                let mut r: String = String::from_str("Błąd IO: ");
                r.append(m.as_str());
                r
            },
        }
    }
}

/// The extent of a rectangular region of the terminal, in character cells.
#[derive(Clone, Copy, Debug, PartialEq, Eq, Structural)]
pub struct Size {
    pub height: i32,
    pub width: i32,
}

impl Size {
    /// A region `width` cells wide and `height` cells high.
    pub fn new(width: i32, height: i32) -> (r: Size)
        ensures
            r.width == width,
            r.height == height,
    {
        Size { width, height }
    }
}

/// The keys that a pane answers to.
#[derive(Clone, Copy, Debug, PartialEq, Eq, Structural)]
pub enum Key {
    Up,
    Down,
    Left,
    Right,
    Enter,
    Backspace,
    Tab,
    /// The key that ends the session and confirms the current directory.
    Quit,
    /// The key that abandons the session.
    Escape,
    /// Any other key.
    Other,
}

} // verus!
