use vstd::prelude::*;

verus! {

/// A capturable target (a monitor or a window) as one enumeration reported
/// it. This is a descriptor, not a handle to live resources: the `id` is
/// stable only within the session that produced it, and `display_id` is the
/// associated monitor, or -1 for a plain window.
pub struct CaptureSource {
    pub id: u64,
    pub title: String,
    pub display_id: i64,
}

impl CaptureSource {
    /// Builds a descriptor from the plain values the backend reports.
    pub fn new(id: u64, title: String, display_id: i64) -> (s: Self)
        ensures
            s.id == id,
            s.title == title,
            s.display_id == display_id,
    {
        CaptureSource { id, title, display_id }
    }

    /// The source's id, stable within one session.
    pub fn id(&self) -> (r: u64)
        ensures
            r == self.id,
    {
        self.id
    }

    /// The human-readable title of the source.
    pub fn title(&self) -> (r: String)
        ensures
            r == self.title,
    {
        self.title.clone()
    }

    /// The monitor this source is associated with, or -1 for a window.
    pub fn display_id(&self) -> (r: i64)
        ensures
            r == self.display_id,
    {
        self.display_id
    }
}

impl Clone for CaptureSource {
    /// A descriptor is a value: its clone is equal to it.
    fn clone(&self) -> (r: Self)
        ensures
            r == *self,
    {
        CaptureSource { id: self.id, title: self.title.clone(), display_id: self.display_id }
    }
}

} // verus!
