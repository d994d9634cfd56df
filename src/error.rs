//! Why a render, or the validation before it, fails.

use vstd::prelude::*;

verus! {

/// The failures of a render.
#[derive(Debug, Clone)]
pub enum ExportError {
    /// The timeline holds no clips.
    EmptyTimeline,
    /// A clip's source file is absent; carries its path.
    SourceMissing(String),
    /// A clip's window is empty or reversed; carries the clip id.
    InvalidDuration(u32),
    /// A transition joins clips that are not neighbours, is not shorter than
    /// both of them, or repeats a pair; carries the transition id.
    InvalidTransition(u32),
    /// A transition kind that has no xfade counterpart; carries the kind.
    UnknownTransitionKind(String),
    /// A multi-track timeline without any clip on the base track.
    NoBaseTrack,
    /// The transcoder exited with failure during a stage.
    ToolchainFailure { stage: String, stderr: String },
    /// A file-system operation on an intermediate failed.
    IoFailure(String),
    /// The progress channel could not be entered.
    LockFailure,
}

/// The human-readable form of an error.
pub open spec fn error_message(e: ExportError) -> Seq<char> {
    match e {
        ExportError::EmptyTimeline => "No clips to export"@,
        ExportError::SourceMissing(p) => "Source file not found: "@ + p@,
        ExportError::InvalidDuration(id) => "Clip "@ + crate::text::nat_digits(id as nat)
            + " has invalid duration"@,
        ExportError::InvalidTransition(id) => "Invalid transition "@ + crate::text::nat_digits(
            id as nat,
        ),
        ExportError::UnknownTransitionKind(k) => "Unsupported transition type: "@ + k@,
        ExportError::NoBaseTrack => "Multi-track export requires at least one clip on track 0 (base)"@,
        ExportError::ToolchainFailure { stage, stderr } => "FFmpeg failed during "@ + stage@ + ": "@
            + stderr@,
        ExportError::IoFailure(m) => "I/O failure: "@ + m@,
        ExportError::LockFailure => "Failed to lock FFmpeg"@,
    }
}

impl ExportError {
    /// The human-readable form of this error.
    pub fn message(&self) -> (r: String)
        ensures
            r@ == error_message(*self),
    {
        match self {
            ExportError::EmptyTimeline => String::from_str("No clips to export"),
            ExportError::SourceMissing(p) => {
                let mut r = String::from_str("Source file not found: ");
                r.append(p.as_str());
                r
            },
            ExportError::InvalidDuration(id) => {
                let mut r = String::from_str("Clip ");
                crate::text::push_nat(&mut r, *id as u128);
                r.append(" has invalid duration");
                r
            },
            ExportError::InvalidTransition(id) => {
                let mut r = String::from_str("Invalid transition ");
                crate::text::push_nat(&mut r, *id as u128);
                r
            },
            ExportError::UnknownTransitionKind(k) => {
                let mut r = String::from_str("Unsupported transition type: ");
                r.append(k.as_str());
                r
            },
            ExportError::NoBaseTrack => String::from_str(
                "Multi-track export requires at least one clip on track 0 (base)",
            ),
            ExportError::ToolchainFailure { stage, stderr } => {
                let mut r = String::from_str("FFmpeg failed during ");
                r.append(stage.as_str());
                r.append(": ");
                r.append(stderr.as_str());
                r
            },
            ExportError::IoFailure(m) => {
                let mut r = String::from_str("I/O failure: ");
                r.append(m.as_str());
                r
            },
            ExportError::LockFailure => String::from_str("Failed to lock FFmpeg"),
        }
    }
}

} // verus!
