//! Results from a worker that a session holds until the windows pick them up.
use vstd::prelude::*;

use crate::proto::Eol;

verus! {

/// What one session holds for the windows.
pub struct SessionPending {
    /// Files that were read: request, path, content, encoding, line ends, modification time.
    pub open: Vec<(u64, String, String, String, Eol, u32)>,
    /// Files that were saved: request, path, new modification time.
    pub saved: Vec<(u64, String, u32)>,
    /// How far a save is: path, bytes done, bytes in all.
    pub save_progress: Vec<(String, u64, u64)>,
    /// New bytes of followed files: path, bytes, new offset, whether the file was cut.
    pub tail: Vec<(String, Vec<u8>, u64, bool)>,
    /// Page counts: request, pages.
    pub pdf_info: Vec<(u64, u32)>,
    /// Rendered pages: path, page, image bytes.
    pub pdf_page: Vec<(String, u32, Vec<u8>)>,
    /// Search results: path, hits, failure.
    pub pdf_search: Vec<(String, Vec<(u32, String)>, Option<String>)>,
    /// Raw documents: request, bytes.
    pub doc: Vec<(u64, Vec<u8>)>,
    /// Saves that met a change from outside: request, path.
    pub conflict: Vec<(u64, String)>,
    /// Saves that failed: request, path, reason.
    pub save_failed: Vec<(u64, String, String)>,
    /// Warnings to show.
    pub warn: Vec<String>,
    /// Files that turned out too large: request, path, size.
    pub too_large: Vec<(u64, String, u64)>,
    /// Editor tabs to create: request, path.
    pub placeholder: Vec<(u64, String)>,
    /// How far a load is: request, bytes done, bytes in all.
    pub load_progress: Vec<(u64, u64, u64)>,
    /// Loads that failed: request, reason.
    pub load_fail: Vec<(u64, String)>,
    /// Images to show: path, bytes.
    pub image: Vec<(String, Vec<u8>)>,
}

impl SessionPending {
    /// Nothing is held.
    pub open spec fn holds_nothing(self) -> bool {
        &&& self.open@.len() == 0
        &&& self.saved@.len() == 0
        &&& self.save_progress@.len() == 0
        &&& self.tail@.len() == 0
        &&& self.pdf_info@.len() == 0
        &&& self.pdf_page@.len() == 0
        &&& self.pdf_search@.len() == 0
        &&& self.doc@.len() == 0
        &&& self.conflict@.len() == 0
        &&& self.save_failed@.len() == 0
        &&& self.warn@.len() == 0
        &&& self.too_large@.len() == 0
        &&& self.placeholder@.len() == 0
        &&& self.load_progress@.len() == 0
        &&& self.load_fail@.len() == 0
        &&& self.image@.len() == 0
    }

    /// Decides whether nothing is held.
    pub fn is_empty(&self) -> (r: bool)
        ensures
            r == self.holds_nothing(),
    {
        self.open.len() == 0 && self.saved.len() == 0 && self.save_progress.len() == 0
            && self.tail.len() == 0 && self.pdf_info.len() == 0 && self.pdf_page.len() == 0
            && self.pdf_search.len() == 0 && self.doc.len() == 0 && self.conflict.len() == 0
            && self.save_failed.len() == 0 && self.warn.len() == 0 && self.too_large.len() == 0
            && self.placeholder.len() == 0 && self.load_progress.len() == 0
            && self.load_fail.len() == 0 && self.image.len() == 0
    }
}

impl Default for SessionPending {
    fn default() -> (r: SessionPending)
        ensures
            r.holds_nothing(),
    {
        SessionPending {
            open: Vec::new(),
            saved: Vec::new(),
            save_progress: Vec::new(),
            tail: Vec::new(),
            pdf_info: Vec::new(),
            pdf_page: Vec::new(),
            pdf_search: Vec::new(),
            doc: Vec::new(),
            conflict: Vec::new(),
            save_failed: Vec::new(),
            warn: Vec::new(),
            too_large: Vec::new(),
            placeholder: Vec::new(),
            load_progress: Vec::new(),
            load_fail: Vec::new(),
            image: Vec::new(),
        }
    }
}

} // verus!
