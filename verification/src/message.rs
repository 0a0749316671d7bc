//! Diagnostic messages with annotated source locations.

use crate::source::Location;
use vstd::prelude::*;

verus! {

/// Kind of an annotation.
#[derive(Clone, Copy, Debug, Eq, PartialEq, Structural)]
pub enum AnnotationType {
    /// An error.
    Error,
    /// A warning.
    Warning,
    /// Supplementary information.
    Info,
}

/// A label attached to a source location.
#[derive(Debug, Eq, PartialEq)]
pub struct Annotation {
    /// Kind of the annotation.
    pub annotation_type: AnnotationType,
    /// Text of the annotation.
    pub label: String,
    /// Location the annotation points at.
    pub location: Location,
}

impl Clone for Annotation {
    fn clone(&self) -> (r: Self)
        ensures
            r == *self,
    {
        Annotation {
            annotation_type: self.annotation_type,
            label: self.label.clone(),
            location: self.location.clone(),
        }
    }
}

impl Annotation {
    /// Creates an annotation.
    pub fn new(annotation_type: AnnotationType, label: String, location: &Location) -> (r:
        Annotation)
        ensures
            r.annotation_type == annotation_type,
            r.label == label,
            r.location == *location,
    {
        Annotation { annotation_type, label, location: location.clone() }
    }
}

/// A diagnostic message: a title and any number of annotations.
#[derive(Debug, Eq, PartialEq)]
pub struct Message {
    /// Kind of the message as a whole.
    pub message_type: AnnotationType,
    /// Main text of the message.
    pub title: String,
    /// Annotated locations.
    pub annotations: Vec<Annotation>,
}

} // verus!
