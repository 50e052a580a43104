use vstd::prelude::*;

verus! {

/// Lifecycle state of an invoice or a debit note.
#[derive(Clone, Copy, Debug, PartialEq, Eq, Structural)]
pub enum DocumentStatus {
    Issued,
    Received,
    Accepted,
    Rejected,
    Failed,
    Settled,
    Cancelled,
}

/// Text under which a document status is stored and exchanged.
pub open spec fn status_text(s: DocumentStatus) -> Seq<char> {
    match s {
        DocumentStatus::Issued => "ISSUED"@,
        DocumentStatus::Received => "RECEIVED"@,
        DocumentStatus::Accepted => "ACCEPTED"@,
        DocumentStatus::Rejected => "REJECTED"@,
        DocumentStatus::Failed => "FAILED"@,
        DocumentStatus::Settled => "SETTLED"@,
        DocumentStatus::Cancelled => "CANCELLED"@,
    }
}

impl DocumentStatus {
    pub fn to_text(&self) -> (r: String)
        ensures
            r@ == status_text(*self),
    {
        match self {
            DocumentStatus::Issued => "ISSUED".to_string(),
            DocumentStatus::Received => "RECEIVED".to_string(),
            DocumentStatus::Accepted => "ACCEPTED".to_string(),
            DocumentStatus::Rejected => "REJECTED".to_string(),
            DocumentStatus::Failed => "FAILED".to_string(),
            DocumentStatus::Settled => "SETTLED".to_string(),
            DocumentStatus::Cancelled => "CANCELLED".to_string(),
        }
    }

    /// Reads a stored status; `None` for any other text.
    pub fn from_text(s: &str) -> (r: Option<DocumentStatus>)
        ensures
            r matches Some(st) ==> status_text(st) == s@,
            r is None ==> forall|st: DocumentStatus| status_text(st) != s@,
    {
        proof {
            reveal_strlit("ISSUED");
            reveal_strlit("RECEIVED");
            reveal_strlit("ACCEPTED");
            reveal_strlit("REJECTED");
            reveal_strlit("FAILED");
            reveal_strlit("SETTLED");
            reveal_strlit("CANCELLED");
        }
        let t = s.to_string();
        if t == "ISSUED".to_string() {
            Some(DocumentStatus::Issued)
        } else if t == "RECEIVED".to_string() {
            Some(DocumentStatus::Received)
        } else if t == "ACCEPTED".to_string() {
            Some(DocumentStatus::Accepted)
        } else if t == "REJECTED".to_string() {
            Some(DocumentStatus::Rejected)
        } else if t == "FAILED".to_string() {
            Some(DocumentStatus::Failed)
        } else if t == "SETTLED".to_string() {
            Some(DocumentStatus::Settled)
        } else if t == "CANCELLED".to_string() {
            Some(DocumentStatus::Cancelled)
        } else {
            None
        }
    }
}

/// Side of an agreement that a record belongs to.
#[derive(Clone, Copy, Debug, PartialEq, Eq, Structural)]
pub enum Role {
    Provider,
    Requestor,
}

pub open spec fn role_text(r: Role) -> Seq<char> {
    match r {
        Role::Provider => "P"@,
        Role::Requestor => "R"@,
    }
}

impl Role {
    pub fn to_text(&self) -> (r: String)
        ensures
            r@ == role_text(*self),
    {
        match self {
            Role::Provider => "P".to_string(),
            Role::Requestor => "R".to_string(),
        }
    }
}

} // verus!
