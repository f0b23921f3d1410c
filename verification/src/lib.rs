//! Core of a level/entity editor for a 2D tactics game.
//!
//! The crate owns the structured document model (a TOML-like text schema
//! with a verified parser and renderer), the map grid with its units and
//! spawn points, the generic entity-list editors with dirty tracking, and
//! the integer viewport math that turns pointer input into grid actions.
//! Window plumbing, widget drawing, GPU texture upload and file I/O are
//! external collaborators and live outside this crate.

use vstd::prelude::*;

pub mod classes;
pub mod config;
pub mod document;
pub mod editors;
pub mod map;
pub mod viewport;
pub mod parse;
pub mod roundtrip;
pub mod text;
pub mod tileset;

verus! {

/// Classifies an editor failure so that callers can react to it:
/// malformed document text, a missing or mistyped field, a file-system
/// failure reported by the caller, or invalid data at save time.
#[derive(Clone, Copy, Debug, PartialEq, Eq, Structural)]
pub enum ErrorKind {
    Parse,
    Schema,
    Io,
    Validation,
}

/// The single recoverable error that every load/save boundary returns.
#[derive(Debug)]
pub struct FeError {
    pub kind: ErrorKind,
    pub msg: String,
}

impl FeError {
    /// Builds an error of the given kind around a message.
    pub fn new(kind: ErrorKind, msg: String) -> (r: FeError)
        ensures
            r.kind == kind,
            r.msg@ == msg@,
    {
        FeError { kind, msg }
    }

    /// The human-readable description of the failure.
    pub fn message(&self) -> (r: &String)
        ensures
            r@ == self.msg@,
    {
        &self.msg
    }
}

impl From<String> for FeError {
    fn from(s: String) -> (r: Self) {
        FeError { kind: ErrorKind::Io, msg: s }
    }
}

impl vstd::std_specs::convert::FromSpecImpl<String> for FeError {
    open spec fn obeys_from_spec() -> bool {
        true
    }

    open spec fn from_spec(s: String) -> Self {
        FeError { kind: ErrorKind::Io, msg: s }
    }
}

/// Tracks whether the session's data has reached disk: `saved` is cleared
/// by any unsaved change, and `autosaved` remembers a successful autosave
/// since that change.
pub struct SaveState {
    saved: bool,
    autosaved: bool,
}

impl SaveState {
    /// Whether a manual save covers every change (specification view).
    pub closed spec fn spec_saved(&self) -> bool {
        self.saved
    }

    /// Whether an autosave or a manual save covers every change
    /// (specification view).
    pub closed spec fn spec_autosaved(&self) -> bool {
        self.autosaved || self.saved
    }

    /// A fresh session starts out saved.
    pub fn new() -> (r: Self)
        ensures
            r.spec_saved(),
            r.spec_autosaved(),
    {
        SaveState { saved: true, autosaved: false }
    }

    /// Records a change that has not reached disk in any form.
    pub fn mark_unsaved(&mut self)
        ensures
            !final(self).spec_saved(),
            !final(self).spec_autosaved(),
    {
        self.saved = false;
        self.autosaved = false;
    }

    /// Records a successful autosave; a manual save is still pending.
    pub fn mark_autosaved(&mut self)
        ensures
            final(self).spec_saved() == old(self).spec_saved(),
            final(self).spec_autosaved(),
    {
        self.autosaved = true;
    }

    /// Records a successful manual save.
    pub fn mark_saved(&mut self)
        ensures
            final(self).spec_saved(),
            final(self).spec_autosaved(),
    {
        self.saved = true;
    }

    /// Whether a manual save covers every change.
    pub fn is_saved(&self) -> (r: bool)
        ensures
            r == self.spec_saved(),
    {
        self.saved
    }

    /// Whether at least an autosave covers every change.
    pub fn is_autosaved(&self) -> (r: bool)
        ensures
            r == self.spec_autosaved(),
    {
        self.autosaved || self.saved
    }
}

/// Remembers a request to open a modal popup until the host widget layer
/// draws it; the host resets the capsule at the start of each frame.
pub struct ModalCapsule {
    should_open: bool,
}

impl ModalCapsule {
    /// Whether a draw of the popup is pending (specification view).
    pub closed spec fn spec_should_open(&self) -> bool {
        self.should_open
    }

    /// A capsule that has not been asked to open.
    pub fn new() -> (r: Self)
        ensures
            !r.spec_should_open(),
    {
        ModalCapsule { should_open: false }
    }

    /// Requests that the popup be opened on the next draw.
    pub fn open(&mut self)
        ensures
            final(self).spec_should_open(),
    {
        self.should_open = true;
    }

    /// Clears any pending open request.
    pub fn reset(&mut self)
        ensures
            !final(self).spec_should_open(),
    {
        self.should_open = false;
    }

    /// Whether a draw of the popup is pending.
    pub fn should_open(&self) -> (r: bool)
        ensures
            r == self.spec_should_open(),
    {
        self.should_open
    }
}

} // verus!
