//! What can go wrong while reading a `.smv` file.
use vstd::prelude::*;

use crate::formats::smv::lex::Span;

verus! {

/// A section that a `.smv` file must hold.
#[derive(Debug, Clone, Copy, PartialEq, Eq)]
pub enum SectionName {
    Title,
    FdsVersion,
    Endf,
    Inpf,
    Revision,
    Chid,
    NMeshes,
    HrrpuvCut,
    ViewTimes,
    Albedo,
    IBlank,
    GVec,
    Ramp,
    Outline,
    SurfDef,
    TOffset,
}

/// A sub-section that a mesh must hold, in this order.
#[derive(Debug, Clone, Copy, PartialEq, Eq)]
pub enum SubSectionName {
    Pdim,
    Trnx,
    Trny,
    Trnz,
    Obst,
    Vent,
    Cvent,
}

/// The kind of key that a reference names.
#[derive(Debug, Clone, Copy, PartialEq, Eq)]
pub enum KeyType {
    /// A device, referred to by a `DEVICE_ACT` section.
    DeviceAct,
}

/// A parsing error encountered while reading a `.smv` file. Spans count characters from the
/// start of the file.
#[derive(Debug, Clone, Copy, PartialEq, Eq)]
pub enum SmvError {
    /// The text does not have the expected shape; the span covers the first word from where
    /// reading failed.
    Syntax { location: Span },
    /// The text does not have the expected shape at this character position; this is turned
    /// into [`SmvError::Syntax`] before it is returned.
    SyntaxNonDiagnostic { position: usize },
    /// A mesh lacks the sub-section `name`, or holds another line where it should stand.
    MissingSubSection { parent: Span, name: SubSectionName, found: Option<Span> },
    /// The file lacks a section.
    MissingSection { name: SectionName },
    /// A reference to something that was not defined before.
    InvalidKey { key: Span, key_type: KeyType },
    /// An index within a sub-section is not the one expected at its place.
    SuspiciousIndex { inside_subsection: Span, index: Span, expected: usize },
    /// An obstruction id of a sign other than -1 or 1.
    UnexpectedObstIdSign { number: Span, signum: i32 },
    /// An obstruction has an RGB colour though its colour index is not -3, or lacks one though
    /// it is.
    InvalidObstColor { color_index: Span, color: Option<Span> },
    /// A texture origin is missing on a vent that is no dummy, or given on a dummy vent.
    VentTextureOrigin {
        vent: Span,
        num_vents_total: usize,
        num_non_dummies: usize,
        vent_line_number: usize,
        texture_origin: Option<Span>,
    },
    /// A section that is not understood (reported as a warning).
    UnknownSection { section: Span },
    /// The number of meshes differs from what `NMESHES` announced.
    WrongNumberOfMeshes { expected: usize, found: usize },
    /// A number that must be zero is not.
    InvalidFloatConstant { span: Span },
    /// An integer that must have the value `expected` has another.
    InvalidIntConstant { span: Span, expected: i32 },
    /// The file ended where a section needed more lines.
    UnexpectedEndOfInput { span: Span },
}

} // verus!
