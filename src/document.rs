use vstd::prelude::*;

verus! {

/// Identifier of a document: the 128-bit value of a UUID.
pub type DocumentId = u128;

/// A stored document: its identifier, its opaque payload and its version counter.
///
/// A freshly created document has version 0; every successful update adds one.
#[derive(Debug, Clone, PartialEq, Eq)]
pub struct Document {
    pub id: DocumentId,
    pub payload: Vec<u8>,
    pub version: usize,
}

/// The mathematical value of a [`Document`].
pub struct DocumentModel {
    pub id: DocumentId,
    pub payload: Seq<u8>,
    pub version: usize,
}

impl View for Document {
    type V = DocumentModel;

    open spec fn view(&self) -> DocumentModel {
        DocumentModel { id: self.id, payload: self.payload@, version: self.version }
    }
}

/// Relies on uuid::Uuid::new_v4: a random version-4 UUID, handed over as its 128-bit value.
#[verifier::external_body]
fn random_id() -> (r: DocumentId) {
    uuid::Uuid::new_v4().as_u128()
}

/// The hyphenated lower-case text of the UUID whose 128-bit value is `id`.
pub uninterp spec fn uuid_text(id: u128) -> Seq<char>;

/// Relies on uuid::Uuid::from_u128 and its `Display`: the hyphenated form, 36 characters long.
#[verifier::external_body]
pub(crate) fn id_text(id: DocumentId) -> (r: String)
    ensures
        r@ == uuid_text(id),
        r@.len() == 36,
{
    uuid::Uuid::from_u128(id).to_string()
}

impl Document {
    /// A new document with a random identifier, the given payload and version 0.
    pub fn new(payload: Vec<u8>) -> (r: Document)
        ensures
            r.payload@ == payload@,
            r.version == 0,
    {
        let id = random_id();
        Document { id, payload, version: 0 }
    }

    /// A copy of this document.
    pub fn duplicate(&self) -> (r: Document)
        ensures
            r@ == self@,
    {
        Document { id: self.id, payload: self.payload.clone(), version: self.version }
    }

    /// Replaces the payload and counts one more version.
    pub fn put(&mut self, new_payload: Vec<u8>)
        requires
            old(self).version < usize::MAX,
        ensures
            final(self).id == old(self).id,
            final(self).payload@ == new_payload@,
            final(self).version == old(self).version + 1,
    {
        self.payload = new_payload;
        self.version = self.version + 1;
    }
}

/// The kind of operation that an undo record reverses.
#[derive(Debug, Clone, Copy, PartialEq, Eq, Structural)]
pub enum ActionType {
    Get,
    Put,
    Post,
    Remove,
}

/// What a state machine remembers of one applied operation so that it can be undone:
/// the target document, the kind of operation, and the document as it stood before
/// (payload and version), if there was one.
#[derive(Debug, Clone)]
pub struct DocumentRecord {
    id: DocumentId,
    path: String,
    pub method: ActionType,
    old: Option<Vec<u8>>,
    old_version: usize,
}

/// The mathematical value of a [`DocumentRecord`]: target, kind and prior document.
pub struct RecordModel {
    pub id: DocumentId,
    pub method: ActionType,
    pub prior: Option<DocumentModel>,
}

impl View for DocumentRecord {
    type V = RecordModel;

    closed spec fn view(&self) -> RecordModel {
        RecordModel {
            id: self.id,
            method: self.method,
            prior: match self.old {
                Some(p) => Some(DocumentModel { id: self.id, payload: p@, version: self.old_version }),
                None => None,
            },
        }
    }
}

impl DocumentRecord {
    /// A record of `method` on `id`, stored under `path`, with no prior document.
    pub fn new(id: DocumentId, path: String, method: ActionType) -> (r: DocumentRecord)
        ensures
            r@.id == id,
            r@.method == method,
            r@.prior is None,
            r.path()@ == path@,
    {
        DocumentRecord { id, path, method, old: None, old_version: 0 }
    }

    /// The record of `method` on the document `prior`, which it captures.
    pub fn capture(prior: &Document, path: String, method: ActionType) -> (r: DocumentRecord)
        ensures
            r@.id == prior.id,
            r@.method == method,
            r@.prior == Some(prior@),
            r.path()@ == path@,
    {
        DocumentRecord {
            id: prior.id,
            path,
            method,
            old: Some(prior.payload.clone()),
            old_version: prior.version,
        }
    }

    /// Where the record's document is kept.
    pub closed spec fn path(&self) -> String {
        self.path
    }

    /// Sets the prior payload; the prior version stays as it was, or is 0 when the record
    /// held no prior document.
    pub fn set_old_payload(&mut self, prior: Vec<u8>)
        ensures
            final(self)@.id == old(self)@.id,
            final(self)@.method == old(self)@.method,
            final(self)@.prior == Some(
                DocumentModel {
                    id: old(self)@.id,
                    payload: prior@,
                    version: match old(self)@.prior {
                        Some(d) => d.version,
                        None => 0,
                    },
                },
            ),
            final(self).path() == old(self).path(),
    {
        if self.old.is_none() {
            self.old_version = 0;
        }
        self.old = Some(prior);
    }

    pub fn get_id(&self) -> (r: DocumentId)
        ensures
            r == self@.id,
    {
        self.id
    }

    pub fn get_method(&self) -> (r: ActionType)
        ensures
            r == self@.method,
    {
        self.method
    }

    /// The prior payload, if the record holds one.
    pub fn get_old_payload(&self) -> (r: Option<Vec<u8>>)
        ensures
            r is Some == self@.prior is Some,
            r is Some ==> r->0@ == self@.prior->0.payload,
    {
        match &self.old {
            Some(p) => Some(p.clone()),
            None => None,
        }
    }

    /// The prior document of a record is a document of the record's target, whose payload
    /// fits in memory.
    pub proof fn lemma_prior(&self)
        ensures
            self@.prior is Some ==> self@.prior->0.id == self@.id
                && self@.prior->0.payload.len() <= usize::MAX,
    {
        if let Some(p) = self.old {
            assert(p.len() == p@.len());
        }
    }

    /// The document as it stood before the recorded operation, if there was one.
    pub fn prior_document(&self) -> (r: Option<Document>)
        ensures
            r is Some == self@.prior is Some,
            r is Some ==> r->0@ == self@.prior->0 && r->0.id == self@.id,
    {
        match &self.old {
            Some(p) => Some(Document { id: self.id, payload: p.clone(), version: self.old_version }),
            None => None,
        }
    }
}

} // verus!
