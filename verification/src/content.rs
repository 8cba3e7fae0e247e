use vstd::prelude::*;

use crate::text::{chars_eq, chars_of, to_lowercase, lowercase_of};

verus! {

/// What the commands read of one node of a course's content tree.
pub struct ContentSummary {
    pub id: String,
    pub title: String,
    /// The lower-case kind name, such as `document` or `assignment`.
    pub kind: String,
    pub has_link: bool,
    pub descriptions: Vec<String>,
    pub attachment_count: usize,
}

/// The contents of one course, with the course's position in the course list.
pub struct CourseContents {
    pub course_index: usize,
    pub course_title: String,
    pub contents: Vec<ContentSummary>,
}

/// A content node passes the optional kind filter (compared with the
/// lower-cased filter text).
pub open spec fn kind_passes(c: ContentSummary, kind: Option<Seq<char>>) -> bool {
    match kind {
        Some(k) => c.kind@ == lowercase_of(k),
        None => true,
    }
}

/// The kind filter, lower-cased once.
pub fn lowercase_filter(kind: Option<&str>) -> (r: Option<Vec<char>>)
    ensures
        match kind {
            Some(k) => r matches Some(v) && v@ == lowercase_of(k@),
            None => r is None,
        },
{
    match kind {
        Some(k) => Some(chars_of(to_lowercase(k).as_str())),
        None => None,
    }
}

/// Whether a content node passes the lower-cased kind filter.
pub fn passes_filter(c: &ContentSummary, kind_lc: &Option<Vec<char>>) -> (r: bool)
    ensures
        r == match kind_lc {
            Some(v) => c.kind@ == v@,
            None => true,
        },
{
    match kind_lc {
        Some(v) => chars_eq(&chars_of(c.kind.as_str()), v),
        None => true,
    }
}

/// A copy of a string with the same text.
pub fn copy_string(s: &String) -> (r: String)
    ensures
        r@ == s@,
{
    s.clone()
}

} // verus!
