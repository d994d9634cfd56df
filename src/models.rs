//! Records of the project catalog.

use vstd::prelude::*;

verus! {

/// Relies on `chrono::Utc::now` and `DateTime::to_rfc3339`: the current
/// time as an RFC 3339 string. Nothing is promised of its value.
#[verifier::external_body]
fn now_rfc3339() -> (r: String) {
    chrono::Utc::now().to_rfc3339()
}

/// A saved project: its name, its timeline as JSON, and when it was made,
/// changed and last opened (RFC 3339 times).
#[derive(Debug, Clone)]
pub struct Project {
    pub id: Option<i64>,
    pub name: String,
    pub timeline_json: Option<String>,
    pub created_at: String,
    pub updated_at: String,
    pub last_opened_at: Option<String>,
}

impl Project {
    /// A project not yet stored, without a timeline, created and changed now.
    pub fn new(name: String) -> (r: Self)
        ensures
            r.id is None,
            r.name == name,
            r.timeline_json is None,
            r.created_at@ == r.updated_at@,
            r.last_opened_at is None,
    {
        let now = now_rfc3339();
        Project {
            id: None,
            name,
            timeline_json: None,
            created_at: now.clone(),
            updated_at: now,
            last_opened_at: None,
        }
    }
}

} // verus!
