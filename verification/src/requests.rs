//! What requests to the server carry, and the choices made on them.

use crate::document::{document_views, texts, Document, DocumentBlock, DocumentView};
use vstd::prelude::*;

verus! {

/// The query parameters of a request to create an index.
#[derive(Clone, Copy, Debug, PartialEq, Eq, Structural)]
pub struct CreateIndexQueryParams {
    /// Whether an index of the same name is replaced.  Absent means no.
    pub override_if_exists: Option<bool>,
}

impl CreateIndexQueryParams {
    /// Whether an index of the same name is replaced.
    pub fn overrides(&self) -> (yes: bool)
        ensures
            yes == (self.override_if_exists == Some(true)),
    {
        match self.override_if_exists {
            Some(yes) => yes,
            None => false,
        }
    }
}

/// The query parameters of a request that writes to an index.
#[derive(Clone, Copy, Debug, PartialEq, Eq, Structural)]
pub struct PendingQueries {
    /// Whether the response waits until all operations are submitted.
    /// Absent means yes, which gives the caller backpressure.
    pub wait: Option<bool>,
}

impl PendingQueries {
    /// Whether the response waits until all operations are submitted.
    pub fn waits(&self) -> (yes: bool)
        ensures
            yes == (self.wait != Some(false)),
    {
        match self.wait {
            Some(yes) => yes,
            None => true,
        }
    }

    /// What a successful upload answers: that the documents were added, or,
    /// where the response did not wait, that they were submitted.
    pub fn upload_message(&self) -> (message: &'static str)
        ensures
            message@ == if self.wait != Some(false) {
                "added documents"@
            } else {
                "submitted documents"@
            },
    {
        if self.waits() {
            "added documents"
        } else {
            "submitted documents"
        }
    }
}

/// The possible formats for uploading documents.
#[derive(Debug, PartialEq, Eq)]
pub enum DocumentOptions {
    /// A singular document.
    Single(Document),
    /// An array of documents acting as a bulk insertion.
    Many(Vec<Document>),
}

impl DocumentOptions {
    /// The documents of the upload as plain sequences, in order.
    pub open spec fn documents(self) -> Seq<DocumentView> {
        match self {
            DocumentOptions::Single(doc) => seq![doc@],
            DocumentOptions::Many(docs) => document_views(docs@),
        }
    }

    /// The uploaded documents as one block over the given field names.
    pub fn into_block(self, field_mapping: Vec<String>) -> (block: DocumentBlock)
        ensures
            block@.field_mapping == texts(field_mapping@),
            block@.docs == self.documents(),
    {
        match self {
            DocumentOptions::Single(doc) => {
                let mut docs: Vec<Document> = Vec::new();
                docs.push(doc);
                assert(document_views(docs@) =~= seq![doc@]);
                DocumentBlock::new(field_mapping, docs)
            },
            DocumentOptions::Many(docs) => DocumentBlock::new(field_mapping, docs),
        }
    }
}

/// The message that replaces the body of a response with the given status,
/// if any.
pub open spec fn status_message_spec(status: u16) -> Option<Seq<char>> {
    if status == 404 {
        Some("route not found"@)
    } else if status == 405 {
        Some("method not allowed"@)
    } else if status == 500 {
        Some("internal server error while handling request"@)
    } else {
        None
    }
}

/// The message that replaces the body of a response with the given status:
/// responses with status 404, 405 and 500 get one, others are left alone.
pub fn status_message(status: u16) -> (message: Option<&'static str>)
    ensures
        match status_message_spec(status) {
            Some(text) => message is Some && message->0@ == text,
            None => message is None,
        },
{
    if status == 404 {
        Some("route not found")
    } else if status == 405 {
        Some("method not allowed")
    } else if status == 500 {
        Some("internal server error while handling request")
    } else {
        None
    }
}

} // verus!
