//! The document state machine: applies committed operations to the document collection,
//! answers queries, undoes operations through undo records, and images the collection as
//! bytes for storage and for peers that lag behind.
//!
//! Every applied operation that changes the collection leaves an undo record that holds
//! the document as it stood before. The records of the open transaction are the last
//! `open` ones; a rollback undoes them newest first, a commit closes the transaction and
//! leaves the records as history.
use vstd::prelude::*;
use std::collections::HashMap;
use vstd::std_specs::hash::spec_hash_map_iter;
use vstd::std_specs::iter::IteratorSpec;
use crate::codec::{
    collection_bytes, decode_collection, document_bytes, documents_view, encodable,
    encode_collection, lemma_collection_round_trip, parse_collection, read_u64, read_u64_at,
    u64_field, write_u64,
};
use crate::document::{
    id_text, uuid_text, ActionType, Document, DocumentId, DocumentModel, DocumentRecord,
    RecordModel,
};
use crate::message::{parse_message, Message, MessageModel};
use crate::undo::{
    lemma_read_records_none, lemma_undo_round_trip, parse_undo, read_record_at, read_records, record_encodable,
    records_bytes, undo_bytes, write_record,
};

verus! {

broadcast use vstd::std_specs::hash::group_hash_axioms;

/// The failures of the state machine.
#[derive(Debug, Clone, Copy, PartialEq, Eq, Structural)]
pub enum StateMachineError {
    /// The bytes do not encode an operation.
    Deserialization,
    /// The operation's document, or the record to undo, is absent.
    NotFound,
    /// The operation is not one that this call takes, or it cannot be carried out.
    InvalidOperation,
    /// The storage could not be read or written.
    Io,
}

/// The documents of a sequence hold pairwise distinct identifiers.
pub open spec fn unique_ids(ds: Seq<DocumentModel>) -> bool {
    forall|i: int, j: int| 0 <= i < j < ds.len() ==> (#[trigger] ds[i]).id != (#[trigger] ds[j]).id
}

pub open spec fn contains_id(ds: Seq<DocumentModel>, id: DocumentId) -> bool {
    exists|i: int| 0 <= i < ds.len() && (#[trigger] ds[i]).id == id
}

/// The collection that a sequence of documents holds, each under its identifier.
pub open spec fn docs_map(ds: Seq<DocumentModel>) -> Map<DocumentId, DocumentModel>
    decreases ds.len(),
{
    if ds.len() == 0 {
        Map::empty()
    } else {
        docs_map(ds.drop_last()).insert(ds.last().id, ds.last())
    }
}

/// The collection that snapshot bytes hold: none for bytes that do not encode a collection
/// of distinct identifiers.
pub open spec fn snapshot_collection(s: Seq<u8>) -> Map<DocumentId, DocumentModel> {
    match parse_collection(s) {
        Some(ds) => if unique_ids(ds) {
            docs_map(ds)
        } else {
            Map::empty()
        },
        None => Map::empty(),
    }
}

/// The mathematical state of a state machine: the collection, the undo records oldest
/// first, and how many of the last records belong to the open transaction.
pub struct MachineModel {
    pub docs: Map<DocumentId, DocumentModel>,
    pub undo: Seq<RecordModel>,
    pub open: nat,
}

pub open spec fn model_wf(s: MachineModel) -> bool {
    s.open <= s.undo.len()
}

/// The collection after the record `rec` is undone: its prior document stands again, or
/// the document goes if there was none.
pub open spec fn undo_step(docs: Map<DocumentId, DocumentModel>, rec: RecordModel) -> Map<
    DocumentId,
    DocumentModel,
> {
    match rec.prior {
        Some(d) => docs.insert(rec.id, d),
        None => docs.remove(rec.id),
    }
}

pub open spec fn prior_of(docs: Map<DocumentId, DocumentModel>, id: DocumentId) -> Option<
    DocumentModel,
> {
    if docs.contains_key(id) {
        Some(docs[id])
    } else {
        None
    }
}

/// What a read returns.
pub open spec fn query_model(docs: Map<DocumentId, DocumentModel>, m: MessageModel) -> Result<
    Seq<u8>,
    StateMachineError,
> {
    match m {
        MessageModel::Get(id) => if docs.contains_key(id) {
            Ok(document_bytes(docs[id]))
        } else {
            Err(StateMachineError::NotFound)
        },
        _ => Err(StateMachineError::InvalidOperation),
    }
}

/// The state after `rec` is appended to the records of the open transaction.
pub open spec fn with_record(s: MachineModel, docs: Map<DocumentId, DocumentModel>, rec: RecordModel) -> MachineModel {
    MachineModel { docs, undo: s.undo.push(rec), open: s.open + 1 }
}

/// What applying `m` does: the next state and the result.
pub open spec fn apply_model(s: MachineModel, m: MessageModel) -> (MachineModel, Result<
    Seq<u8>,
    StateMachineError,
>) {
    match m {
        MessageModel::Get(_) => (s, query_model(s.docs, m)),
        MessageModel::Post(d) => (
            with_record(
                s,
                s.docs.insert(d.id, d),
                RecordModel { id: d.id, method: ActionType::Post, prior: prior_of(s.docs, d.id) },
            ),
            Ok(document_bytes(d)),
        ),
        MessageModel::Remove(id) => if s.docs.contains_key(id) {
            (
                with_record(
                    s,
                    s.docs.remove(id),
                    RecordModel { id, method: ActionType::Remove, prior: Some(s.docs[id]) },
                ),
                Ok(Seq::empty()),
            )
        } else {
            (s, Err(StateMachineError::NotFound))
        },
        MessageModel::Put(id, p) => if !s.docs.contains_key(id) {
            (s, Err(StateMachineError::NotFound))
        } else if s.docs[id].version == usize::MAX {
            (s, Err(StateMachineError::InvalidOperation))
        } else {
            let nd = DocumentModel { id, payload: p, version: (s.docs[id].version + 1) as usize };
            (
                with_record(
                    s,
                    s.docs.insert(id, nd),
                    RecordModel { id, method: ActionType::Put, prior: Some(s.docs[id]) },
                ),
                Ok(document_bytes(nd)),
            )
        },
    }
}

/// The position of the newest record of `kind` on `id`.
pub open spec fn newest_record(undo: Seq<RecordModel>, id: DocumentId, kind: ActionType) -> Option<
    int,
>
    decreases undo.len(),
{
    if undo.len() == 0 {
        None
    } else if undo.last().id == id && undo.last().method == kind {
        Some(undo.len() - 1)
    } else {
        newest_record(undo.drop_last(), id, kind)
    }
}

/// The target and kind of a changing operation.
pub open spec fn target_of(m: MessageModel) -> (DocumentId, ActionType) {
    match m {
        MessageModel::Get(id) => (id, ActionType::Get),
        MessageModel::Post(d) => (d.id, ActionType::Post),
        MessageModel::Remove(id) => (id, ActionType::Remove),
        MessageModel::Put(id, _) => (id, ActionType::Put),
    }
}

/// The state after the record at position `i` is undone and dropped.
pub open spec fn undo_at(s: MachineModel, i: int) -> MachineModel {
    MachineModel {
        docs: undo_step(s.docs, s.undo[i]),
        undo: s.undo.remove(i),
        open: if i >= s.undo.len() - s.open {
            (s.open - 1) as nat
        } else {
            s.open
        },
    }
}

/// What reverting `m` does: the newest record of the same kind on the same document is
/// undone and dropped.
pub open spec fn revert_model(s: MachineModel, m: MessageModel) -> (MachineModel, Result<
    (),
    StateMachineError,
>) {
    match m {
        MessageModel::Get(_) => (s, Err(StateMachineError::InvalidOperation)),
        _ => match newest_record(s.undo, target_of(m).0, target_of(m).1) {
            Some(i) => (undo_at(s, i), Ok(())),
            None => (s, Err(StateMachineError::NotFound)),
        },
    }
}

/// What a rollback does: the records of the open transaction are undone newest first.
pub open spec fn rollback_model(s: MachineModel) -> MachineModel
    decreases s.open,
{
    if s.open == 0 || s.undo.len() == 0 {
        MachineModel { docs: s.docs, undo: s.undo, open: 0 }
    } else {
        rollback_model(
            MachineModel {
                docs: undo_step(s.docs, s.undo.last()),
                undo: s.undo.drop_last(),
                open: (s.open - 1) as nat,
            },
        )
    }
}

pub open spec fn bytes_result(r: Result<Vec<u8>, StateMachineError>) -> Result<
    Seq<u8>,
    StateMachineError,
> {
    match r {
        Ok(v) => Ok(v@),
        Err(e) => Err(e),
    }
}

/// The state after each of `ops` is applied in turn, if each succeeds.
pub open spec fn apply_all(s: MachineModel, ops: Seq<MessageModel>) -> Option<MachineModel>
    decreases ops.len(),
{
    if ops.len() == 0 {
        Some(s)
    } else {
        match apply_all(s, ops.drop_last()) {
            Some(s1) => if apply_model(s1, ops.last()).1 is Ok {
                Some(apply_model(s1, ops.last()).0)
            } else {
                None
            },
            None => None,
        }
    }
}

/// The state after each of `ops` is reverted, the last first.
pub open spec fn revert_all(s: MachineModel, ops: Seq<MessageModel>) -> MachineModel
    decreases ops.len(),
{
    if ops.len() == 0 {
        s
    } else {
        revert_all(revert_model(s, ops.last()).0, ops.drop_last())
    }
}

proof fn lemma_unique_prefix(ds: Seq<DocumentModel>)
    requires
        unique_ids(ds),
        ds.len() > 0,
    ensures
        unique_ids(ds.drop_last()),
        !contains_id(ds.drop_last(), ds.last().id),
{
    let init = ds.drop_last();
    assert forall|i: int, j: int| 0 <= i < j < init.len() implies (#[trigger] init[i]).id != (
    #[trigger] init[j]).id by {
        assert(init[i] == ds[i] && init[j] == ds[j]);
    }
    if contains_id(init, ds.last().id) {
        let i = choose|i: int| 0 <= i < init.len() && (#[trigger] init[i]).id == ds.last().id;
        assert(ds[i] == init[i]);
        assert(ds[ds.len() - 1] == ds.last());
    }
}

/// Under distinct identifiers, the collection holds exactly the identifiers of the
/// sequence, each with its document.
pub proof fn lemma_docs_map(ds: Seq<DocumentModel>)
    requires
        unique_ids(ds),
    ensures
        docs_map(ds).dom().finite(),
        forall|k: DocumentId| #[trigger] docs_map(ds).contains_key(k) <==> contains_id(ds, k),
        forall|i: int| 0 <= i < ds.len() ==> docs_map(ds)[(#[trigger] ds[i]).id] == ds[i],
    decreases ds.len(),
{
    if ds.len() > 0 {
        let init = ds.drop_last();
        let d = ds.last();
        lemma_unique_prefix(ds);
        lemma_docs_map(init);
        assert forall|k: DocumentId| #[trigger] docs_map(ds).contains_key(k) <==> contains_id(
            ds,
            k,
        ) by {
            if contains_id(ds, k) && k != d.id {
                let i = choose|i: int| 0 <= i < ds.len() && (#[trigger] ds[i]).id == k;
                if i == ds.len() - 1 {
                    assert(ds[i] == d);
                } else {
                    assert(init[i] == ds[i]);
                }
            }
            if contains_id(init, k) {
                let i = choose|i: int| 0 <= i < init.len() && (#[trigger] init[i]).id == k;
                assert(ds[i] == init[i]);
            }
            if k == d.id {
                assert(ds[ds.len() - 1] == d);
            }
        }
        assert forall|i: int| 0 <= i < ds.len() implies docs_map(ds)[(#[trigger] ds[i]).id]
            == ds[i] by {
            if i < ds.len() - 1 {
                assert(init[i] == ds[i]);
                assert(ds[i].id != d.id);
            }
        }
    }
}

/// Applying an operation keeps the open records within the undo records.
pub proof fn lemma_apply_keeps_wf(s: MachineModel, m: MessageModel)
    requires
        model_wf(s),
    ensures
        model_wf(apply_model(s, m).0),
{
}

/// Reverting an operation right after applying it successfully restores the whole state:
/// the collection, the undo records and the open transaction.
pub proof fn lemma_revert_undoes_apply(s: MachineModel, m: MessageModel)
    requires
        model_wf(s),
        apply_model(s, m).1 is Ok,
    ensures
        revert_model(apply_model(s, m).0, m).0 == s,
{
    let s2 = apply_model(s, m).0;
    match m {
        MessageModel::Get(_) => {},
        _ => {
            let (id, kind) = target_of(m);
            assert(s2.undo.last().id == id && s2.undo.last().method == kind);
            assert(newest_record(s2.undo, id, kind) == Some(s.undo.len() as int));
            let s3 = revert_model(s2, m).0;
            assert(s3.undo =~= s.undo);
            assert(s3.docs =~= s.docs);
        },
    }
}

/// Operations that were applied one after another, each successfully, and are then
/// reverted in the reverse order leave the state machine as it was before them.
pub proof fn lemma_revert_all_undoes_apply_all(s: MachineModel, ops: Seq<MessageModel>)
    requires
        model_wf(s),
        apply_all(s, ops) is Some,
    ensures
        revert_all(apply_all(s, ops)->0, ops) == s,
        model_wf(apply_all(s, ops)->0),
    decreases ops.len(),
{
    if ops.len() > 0 {
        let init = ops.drop_last();
        lemma_revert_all_undoes_apply_all(s, init);
        let s1 = apply_all(s, init)->0;
        lemma_apply_keeps_wf(s1, ops.last());
        lemma_revert_undoes_apply(s1, ops.last());
    }
}

/// An update of a document that is not stored fails with `NotFound` and changes nothing.
pub proof fn lemma_put_absent_not_found(s: MachineModel, id: DocumentId, payload: Seq<u8>)
    requires
        !s.docs.contains_key(id),
    ensures
        apply_model(s, MessageModel::Put(id, payload)) == (s, Err::<Seq<u8>, StateMachineError>(
            StateMachineError::NotFound,
        )),
{
}

/// A query takes only a `Get`, and a `Get` cannot be reverted: both fail with
/// `InvalidOperation`.
pub proof fn lemma_wrong_operation_refused(s: MachineModel, m: MessageModel, id: DocumentId)
    requires
        !(m is Get),
    ensures
        query_model(s.docs, m) == Err::<Seq<u8>, StateMachineError>(
            StateMachineError::InvalidOperation,
        ),
        revert_model(s, MessageModel::Get(id)) == (s, Err::<(), StateMachineError>(
            StateMachineError::InvalidOperation,
        )),
{
}

/// A successful update stores the new payload with a version one higher, and returns
/// the bytes of that document.
pub proof fn lemma_put_increments_version(s: MachineModel, id: DocumentId, payload: Seq<u8>)
    requires
        apply_model(s, MessageModel::Put(id, payload)).1 is Ok,
    ensures
        s.docs.contains_key(id),
        apply_model(s, MessageModel::Put(id, payload)).0.docs[id] == (DocumentModel {
            id,
            payload,
            version: (s.docs[id].version + 1) as usize,
        }),
        apply_model(s, MessageModel::Put(id, payload)).0.docs[id].version == s.docs[id].version + 1,
        apply_model(s, MessageModel::Put(id, payload)).1 == Ok::<Seq<u8>, StateMachineError>(
            document_bytes(apply_model(s, MessageModel::Put(id, payload)).0.docs[id]),
        ),
{
}

/// The newest record of a kind on a document is one of the records, of that kind and on
/// that document, and no later record is.
pub proof fn lemma_newest_record(undo: Seq<RecordModel>, id: DocumentId, kind: ActionType)
    ensures
        match newest_record(undo, id, kind) {
            Some(i) => 0 <= i < undo.len() && undo[i].id == id && undo[i].method == kind
                && forall|j: int| i < j < undo.len() ==> !((#[trigger] undo[j]).id == id && undo[j].method == kind),
            None => forall|j: int| 0 <= j < undo.len() ==> !((#[trigger] undo[j]).id == id && undo[j].method == kind),
        },
    decreases undo.len(),
{
    if undo.len() > 0 {
        let init = undo.drop_last();
        lemma_newest_record(init, id, kind);
        let last = undo.len() - 1;
        assert(undo[last] == undo.last());
        if !(undo.last().id == id && undo.last().method == kind) {
            match newest_record(init, id, kind) {
                Some(i) => {
                    assert(undo[i] == init[i]);
                    assert forall|j: int| i < j < undo.len() implies !((#[trigger] undo[j]).id == id
                        && undo[j].method == kind) by {
                        if j < last {
                            assert(undo[j] == init[j]);
                        }
                    }
                },
                None => {
                    assert forall|j: int| 0 <= j < undo.len() implies !((#[trigger] undo[j]).id == id
                        && undo[j].method == kind) by {
                        if j < last {
                            assert(undo[j] == init[j]);
                        }
                    }
                },
            }
        }
    }
}

/// Whether the documents hold distinct identifiers.
fn distinct_ids(docs: &Vec<Document>) -> (r: bool)
    ensures
        r == unique_ids(documents_view(docs@)),
{
    let ghost ds = documents_view(docs@);
    let len = docs.len();
    let mut i: usize = 0;
    while i < len
        invariant
            len == docs@.len(),
            ds == documents_view(docs@),
            0 <= i <= len,
            forall|a: int, b: int| 0 <= a < b < len && a < i ==> (#[trigger] ds[a]).id != (#[trigger] ds[b]).id,
        decreases len - i,
    {
        let mut j: usize = i + 1;
        while j < len
            invariant
                len == docs@.len(),
                ds == documents_view(docs@),
                0 <= i < len,
                i + 1 <= j <= len,
                forall|b: int| i < b < j ==> ds[i as int].id != (#[trigger] ds[b]).id,
            decreases len - j,
        {
            if docs[i].id == docs[j].id {
                assert(ds[i as int].id == ds[j as int].id);
                return false;
            }
            j = j + 1;
        }
        i = i + 1;
    }
    true
}

/// The state machine of one consensus group's documents.
#[derive(Debug, Clone)]
pub struct DocumentStateMachine {
    log: Vec<DocumentRecord>,
    map: HashMap<DocumentId, Document>,
    volume: String,
    transaction_offset: usize,
}

impl View for DocumentStateMachine {
    type V = MachineModel;

    closed spec fn view(&self) -> MachineModel {
        MachineModel {
            docs: self.map@.map_values(|d: Document| d@),
            undo: self.log@.map_values(|r: DocumentRecord| r@),
            open: self.transaction_offset as nat,
        }
    }
}

impl DocumentStateMachine {
    /// Each document is stored under its identifier, and the open transaction lies within
    /// the undo records.
    pub closed spec fn wf(&self) -> bool {
        &&& forall|k: DocumentId| #[trigger] self.map@.contains_key(k) ==> self.map@[k].id == k
        &&& self.transaction_offset <= self.log@.len()
    }

    /// The directory that the state machine is stored in.
    pub closed spec fn volume(&self) -> Seq<char> {
        self.volume@
    }

    /// An empty state machine stored under `volume`.
    pub fn new(volume: &str) -> (r: DocumentStateMachine)
        ensures
            r.wf(),
            r@.docs == Map::<DocumentId, DocumentModel>::empty(),
            r@.undo == Seq::<RecordModel>::empty(),
            r@.open == 0,
            r.volume() == volume@,
    {
        let r = DocumentStateMachine {
            log: Vec::new(),
            map: HashMap::new(),
            volume: volume.to_owned(),
            transaction_offset: 0,
        };
        assert(r@.docs =~= Map::<DocumentId, DocumentModel>::empty());
        assert(r@.undo =~= Seq::<RecordModel>::empty());
        r
    }

    /// The stored document with identifier `id`, if there is one.
    fn lookup(&self, id: DocumentId) -> (r: Option<&Document>)
        requires
            self.wf(),
        ensures
            match r {
                Some(d) => self@.docs.contains_key(id) && d@ == self@.docs[id] && d.id == id,
                None => !self@.docs.contains_key(id),
            },
    {
        self.map.get(&id)
    }

    /// Whether a document with this identifier is stored.
    pub fn has_document(&self, did: &DocumentId) -> (r: bool)
        ensures
            r == self@.docs.contains_key(*did),
    {
        self.map.contains_key(did)
    }

    /// Copies of the stored documents, each once.
    fn documents(&self) -> (r: Vec<Document>)
        requires
            self.wf(),
        ensures
            unique_ids(documents_view(r@)),
            docs_map(documents_view(r@)) == self@.docs,
            r@.len() <= u64::MAX,
            forall|i: int| 0 <= i < r@.len() ==> encodable(#[trigger] documents_view(r@)[i]),
    {
        let ghost pairs = spec_hash_map_iter(&self.map).remaining();
        let mut out: Vec<Document> = Vec::new();
        for (k, v) in it: self.map.iter()
            invariant
                self.wf(),
                it.seq() == pairs,
                pairs == spec_hash_map_iter(&self.map).remaining(),
                out@.len() == it.index(),
                forall|j: int|
                    0 <= j < it.index() ==> (#[trigger] out@[j])@ == (*pairs[j].1)@,
        {
            out.push(v.duplicate());
        }
        proof {
            let ds = documents_view(out@);
            let m = self.map@;
            assert(ds.len() == pairs.len());
            assert forall|j: int| 0 <= j < ds.len() implies m.contains_key(*pairs[j].0) && (
            #[trigger] ds[j]) == m[*pairs[j].0]@ && ds[j].id == *pairs[j].0 by {
                assert(ds[j] == out@[j]@);
            }
            assert forall|a: int, b: int| 0 <= a < b < ds.len() implies (#[trigger] ds[a]).id != (
            #[trigger] ds[b]).id by {
                if ds[a].id == ds[b].id {
                    assert(pairs[a] == pairs[b]);
                }
            }
            lemma_docs_map(ds);
            assert forall|k: DocumentId| docs_map(ds).contains_key(k) <==> self@.docs.contains_key(
                k,
            ) by {
                if m.contains_key(k) {
                    assert(pairs.contains((&k, &m[k])));
                    let j = choose|j: int| 0 <= j < pairs.len() && pairs[j] == (&k, &m[k]);
                    assert(ds[j].id == k);
                }
                if contains_id(ds, k) {
                    let j = choose|j: int| 0 <= j < ds.len() && (#[trigger] ds[j]).id == k;
                    assert(m.contains_key(*pairs[j].0));
                }
            }
            assert forall|k: DocumentId| #[trigger] docs_map(ds).contains_key(k) implies docs_map(
                ds,
            )[k] == self@.docs[k] by {
                let j = choose|j: int| 0 <= j < ds.len() && (#[trigger] ds[j]).id == k;
                assert(docs_map(ds)[ds[j].id] == ds[j]);
            }
            assert(docs_map(ds) =~= self@.docs);
            assert(out.len() == out@.len());
            assert forall|i: int| 0 <= i < ds.len() implies encodable(#[trigger] ds[i]) by {
                let p = out@[i].payload;
                assert(p.len() == p@.len());
            }
        }
        out
    }

    /// The identifiers of the stored documents, each once.
    pub fn get_documents(&self) -> (r: Vec<DocumentId>)
        requires
            self.wf(),
        ensures
            r@.no_duplicates(),
            forall|k: DocumentId| r@.contains(k) <==> self@.docs.contains_key(k),
    {
        let docs = self.documents();
        let ghost ds = documents_view(docs@);
        proof {
            lemma_docs_map(ds);
        }
        let mut out: Vec<DocumentId> = Vec::new();
        let len = docs.len();
        let mut i: usize = 0;
        while i < len
            invariant
                len == docs@.len(),
                ds == documents_view(docs@),
                0 <= i <= len,
                out@.len() == i,
                forall|j: int| 0 <= j < i ==> out@[j] == (#[trigger] ds[j]).id,
            decreases len - i,
        {
            out.push(docs[i].id);
            i = i + 1;
        }
        proof {
            assert forall|a: int, b: int| 0 <= a < b < out@.len() implies out@[a] != out@[b] by {
                assert(out@[a] == ds[a].id && out@[b] == ds[b].id);
            }
            assert forall|k: DocumentId| out@.contains(k) <==> self@.docs.contains_key(k) by {
                if out@.contains(k) {
                    let j = choose|j: int| 0 <= j < out@.len() && out@[j] == k;
                    assert(ds[j].id == k);
                }
                if self@.docs.contains_key(k) {
                    let j = choose|j: int| 0 <= j < ds.len() && (#[trigger] ds[j]).id == k;
                    assert(out@[j] == k);
                }
            }
        }
        out
    }

    /// The position of the newest undo record of `kind` on `id`.
    fn find_record(&self, id: DocumentId, kind: ActionType) -> (r: Option<usize>)
        ensures
            match r {
                Some(i) => newest_record(self@.undo, id, kind) == Some(i as int),
                None => newest_record(self@.undo, id, kind) is None,
            },
    {
        let ghost undo = self@.undo;
        let mut i: usize = self.log.len();
        assert(undo.subrange(0, i as int) =~= undo);
        while i > 0
            invariant
                i <= self.log@.len(),
                undo == self@.undo,
                newest_record(undo, id, kind) == newest_record(undo.subrange(0, i as int), id, kind),
            decreases i,
        {
            let rec = &self.log[i - 1];
            assert(undo[i - 1] == rec@);
            if rec.get_id() == id && rec.get_method() == kind {
                return Some(i - 1);
            }
            assert(undo.subrange(0, i as int).drop_last() =~= undo.subrange(0, i - 1));
            i = i - 1;
        }
        None
    }

    /// Where the records of the document `id` are kept: `<volume>/<document id>`.
    fn record_path(&self, id: DocumentId) -> (r: String)
        ensures
            r@ == self.volume() + seq!['/'] + uuid_text(id),
    {
        let mut path = self.volume.clone();
        path.append("/");
        let text = id_text(id);
        path.append(text.as_str());
        proof {
            reveal_strlit("/");
        }
        assert(path@ =~= self.volume() + seq!['/'] + uuid_text(id));
        path
    }

    /// Appends `record` to the records of the open transaction.
    fn push_record(&mut self, record: DocumentRecord)
        requires
            old(self).wf(),
        ensures
            final(self).log@.map_values(|r: DocumentRecord| r@) == old(self)@.undo.push(record@),
            final(self).transaction_offset == old(self).transaction_offset + 1,
            final(self).transaction_offset <= final(self).log@.len(),
            final(self).map == old(self).map,
            final(self).volume == old(self).volume,
    {
        self.log.push(record);
        let n = self.log.len();
        assert(self.transaction_offset < n);
        self.transaction_offset = self.transaction_offset + 1;
        assert(self.log@.map_values(|r: DocumentRecord| r@) =~= old(self)@.undo.push(record@));
    }

    /// Stores `d` in place of the document with its identifier, or adds it.
    fn store(&mut self, d: Document)
        requires
            old(self).wf(),
        ensures
            final(self).wf(),
            final(self)@.docs == old(self)@.docs.insert(d.id, d@),
            final(self).log == old(self).log,
            final(self).transaction_offset == old(self).transaction_offset,
            final(self).volume == old(self).volume,
    {
        let ghost dv = d@;
        self.map.insert(d.id, d);
        assert(self@.docs =~= old(self)@.docs.insert(dv.id, dv));
    }

    /// Drops the document with identifier `id`, if one is stored.
    fn discard(&mut self, id: DocumentId)
        requires
            old(self).wf(),
        ensures
            final(self).wf(),
            final(self)@.docs == old(self)@.docs.remove(id),
            final(self).log == old(self).log,
            final(self).transaction_offset == old(self).transaction_offset,
            final(self).volume == old(self).volume,
    {
        self.map.remove(&id);
        assert(self@.docs =~= old(self)@.docs.remove(id));
    }

    /// Stores `document` under its identifier, replacing any document stored there, and
    /// returns its bytes.
    fn post(&mut self, document: Document) -> (r: Vec<u8>)
        requires
            old(self).wf(),
        ensures
            final(self).wf(),
            final(self)@ == apply_model(old(self)@, MessageModel::Post(document@)).0,
            r@ == document_bytes(document@),
    {
        let path = self.record_path(document.id);
        let record = match self.lookup(document.id) {
            Some(prior) => DocumentRecord::capture(prior, path, ActionType::Post),
            None => DocumentRecord::new(document.id, path, ActionType::Post),
        };
        assert(record@.prior == prior_of(old(self)@.docs, document.id));
        self.push_record(record);
        let bytes = document.encode();
        self.store(document);
        bytes
    }

    /// Drops the document `id` and returns no bytes; fails if it is absent.
    fn remove(&mut self, id: DocumentId) -> (r: Result<Vec<u8>, StateMachineError>)
        requires
            old(self).wf(),
        ensures
            final(self).wf(),
            final(self)@ == apply_model(old(self)@, MessageModel::Remove(id)).0,
            bytes_result(r) == apply_model(old(self)@, MessageModel::Remove(id)).1,
    {
        let path = self.record_path(id);
        let record = match self.lookup(id) {
            Some(prior) => DocumentRecord::capture(prior, path, ActionType::Remove),
            None => return Err(StateMachineError::NotFound),
        };
        self.push_record(record);
        self.discard(id);
        let out: Vec<u8> = Vec::new();
        assert(out@ =~= Seq::<u8>::empty());
        Ok(out)
    }

    /// Replaces the payload of the document `id`, counts one more version, and returns the
    /// updated document's bytes; fails if it is absent or its version cannot grow.
    fn put(&mut self, id: DocumentId, new_payload: Vec<u8>) -> (r: Result<
        Vec<u8>,
        StateMachineError,
    >)
        requires
            old(self).wf(),
        ensures
            final(self).wf(),
            final(self)@ == apply_model(old(self)@, MessageModel::Put(id, new_payload@)).0,
            bytes_result(r) == apply_model(old(self)@, MessageModel::Put(id, new_payload@)).1,
    {
        let path = self.record_path(id);
        let (record, version) = match self.lookup(id) {
            Some(prior) => {
                if prior.version == usize::MAX {
                    return Err(StateMachineError::InvalidOperation);
                }
                (DocumentRecord::capture(prior, path, ActionType::Put), prior.version)
            },
            None => return Err(StateMachineError::NotFound),
        };
        self.push_record(record);
        let updated = Document { id, payload: new_payload, version: version + 1 };
        let bytes = updated.encode();
        self.store(updated);
        Ok(bytes)
    }

    /// Applies the operation that `new_value` encodes. A `Get` is answered as a query.
    pub fn apply(&mut self, new_value: &[u8]) -> (r: Result<Vec<u8>, StateMachineError>)
        requires
            old(self).wf(),
        ensures
            final(self).wf(),
            match parse_message(new_value@) {
                Some(m) => final(self)@ == apply_model(old(self)@, m).0 && bytes_result(r)
                    == apply_model(old(self)@, m).1,
                None => final(self)@ == old(self)@ && bytes_result(r) == Err::<Seq<u8>, StateMachineError>(
                    StateMachineError::Deserialization,
                ),
            },
    {
        let message = match Message::decode(new_value) {
            Some(m) => m,
            None => return Err(StateMachineError::Deserialization),
        };
        match message {
            Message::Get(_) => self.query(new_value),
            Message::Post(document) => Ok(self.post(document)),
            Message::Remove(id) => self.remove(id),
            Message::Put(id, new_payload) => self.put(id, new_payload),
        }
    }

    /// Answers the `Get` that `query` encodes with the document's bytes.
    pub fn query(&self, query: &[u8]) -> (r: Result<Vec<u8>, StateMachineError>)
        requires
            self.wf(),
        ensures
            match parse_message(query@) {
                Some(m) => bytes_result(r) == query_model(self@.docs, m),
                None => bytes_result(r) == Err::<Seq<u8>, StateMachineError>(
                    StateMachineError::Deserialization,
                ),
            },
    {
        let message = match Message::decode(query) {
            Some(m) => m,
            None => return Err(StateMachineError::Deserialization),
        };
        match message {
            Message::Get(id) => match self.lookup(id) {
                Some(d) => Ok(d.encode()),
                None => Err(StateMachineError::NotFound),
            },
            _ => Err(StateMachineError::InvalidOperation),
        }
    }

    /// Undoes the operation that `command` encodes: the newest undo record of the same kind
    /// on the same document is undone and dropped. A `Get` cannot be undone.
    pub fn revert(&mut self, command: &[u8]) -> (r: Result<(), StateMachineError>)
        requires
            old(self).wf(),
        ensures
            final(self).wf(),
            match parse_message(command@) {
                Some(m) => final(self)@ == revert_model(old(self)@, m).0 && r == revert_model(
                    old(self)@,
                    m,
                ).1,
                None => final(self)@ == old(self)@ && r == Err::<(), StateMachineError>(
                    StateMachineError::Deserialization,
                ),
            },
    {
        let message = match Message::decode(command) {
            Some(m) => m,
            None => return Err(StateMachineError::Deserialization),
        };
        let (id, kind) = match &message {
            Message::Get(_) => return Err(StateMachineError::InvalidOperation),
            Message::Post(d) => (d.id, ActionType::Post),
            Message::Remove(id) => (*id, ActionType::Remove),
            Message::Put(id, _) => (*id, ActionType::Put),
        };
        assert((id, kind) == target_of(message@));
        let i = match self.find_record(id, kind) {
            Some(i) => i,
            None => return Err(StateMachineError::NotFound),
        };
        proof {
            lemma_newest_record(self@.undo, id, kind);
        }
        let len = self.log.len();
        let rec = self.log.remove(i);
        assert(self.log@.map_values(|r: DocumentRecord| r@) =~= old(self)@.undo.remove(i as int));
        if i >= len - self.transaction_offset {
            self.transaction_offset = self.transaction_offset - 1;
        }
        self.undo_record(&rec);
        Ok(())
    }

    /// Undoes the records of the open transaction, newest first, and closes it.
    pub fn rollback(&mut self)
        requires
            old(self).wf(),
        ensures
            final(self).wf(),
            final(self)@ == rollback_model(old(self)@),
    {
        while self.transaction_offset > 0
            invariant
                self.wf(),
                rollback_model(self@) == rollback_model(old(self)@),
            decreases self.transaction_offset,
        {
            let ghost before = self@;
            let rec = self.log.pop().unwrap();
            assert(self.log@.map_values(|r: DocumentRecord| r@) =~= before.undo.drop_last());
            assert(rec@ == before.undo.last());
            self.transaction_offset = self.transaction_offset - 1;
            self.undo_record(&rec);
        }
    }

    /// Closes the open transaction: its records stay as history.
    pub fn commit(&mut self)
        requires
            old(self).wf(),
        ensures
            final(self).wf(),
            final(self)@ == (MachineModel { docs: old(self)@.docs, undo: old(self)@.undo, open: 0 }),
    {
        self.transaction_offset = 0;
    }

    /// The bytes of the whole collection, its documents in the order that the map yields.
    pub fn snapshot(&self) -> (r: Vec<u8>)
        requires
            self.wf(),
        ensures
            exists|ds: Seq<DocumentModel>|
                unique_ids(ds) && docs_map(ds) == self@.docs && r@ == collection_bytes(ds),
            snapshot_collection(r@) == self@.docs,
    {
        let docs = self.documents();
        let r = encode_collection(&docs);
        proof {
            let ds = documents_view(docs@);
            lemma_collection_round_trip(ds);
        }
        r
    }

    /// Replaces the collection with the one that `snap_map` holds; bytes that do not hold
    /// one give an empty collection. The undo records are dropped.
    pub fn restore_snapshot(&mut self, snap_map: Vec<u8>)
        requires
            old(self).wf(),
        ensures
            final(self).wf(),
            final(self)@ == (MachineModel {
                docs: snapshot_collection(snap_map@),
                undo: Seq::empty(),
                open: 0,
            }),
            parse_collection(snap_map@) is None ==> final(self)@.docs == Map::<
                DocumentId,
                DocumentModel,
            >::empty(),
    {
        let mut map: HashMap<DocumentId, Document> = HashMap::new();
        let ghost target = snapshot_collection(snap_map@);
        match decode_collection(snap_map.as_slice()) {
            Some(docs) => {
                if distinct_ids(&docs) {
                    let ghost ds = documents_view(docs@);
                    let len = docs.len();
                    let mut i: usize = 0;
                    while i < len
                        invariant
                            len == docs@.len(),
                            ds == documents_view(docs@),
                            0 <= i <= len,
                            forall|k: DocumentId| #[trigger] map@.contains_key(k) ==> map@[k].id == k,
                            map@.map_values(|d: Document| d@) == docs_map(ds.subrange(0, i as int)),
                        decreases len - i,
                    {
                        let d = docs[i].duplicate();
                        let ghost before = map@;
                        map.insert(d.id, d);
                        proof {
                            assert(ds.subrange(0, i + 1).drop_last() =~= ds.subrange(0, i as int));
                            assert(ds[i as int] == docs@[i as int]@);
                        }
                        assert(map@.map_values(|d: Document| d@) =~= docs_map(ds.subrange(0, i + 1)));
                        i = i + 1;
                    }
                    assert(ds.subrange(0, len as int) =~= ds);
                }
            },
            None => {},
        }
        self.map = map;
        self.log = Vec::new();
        self.transaction_offset = 0;
        assert(self@.docs =~= target);
        assert(self@.undo =~= Seq::<RecordModel>::empty());
    }

    /// The bytes of the undo records and of the open transaction's size.
    pub fn snapshot_log(&self) -> (r: Vec<u8>)
        requires
            self.wf(),
        ensures
            r@ == undo_bytes(self@.undo, self@.open),
            parse_undo(r@) == Some((self@.undo, self@.open)),
    {
        let mut out: Vec<u8> = Vec::new();
        let len = self.log.len();
        write_u64(&mut out, self.transaction_offset as u64);
        write_u64(&mut out, len as u64);
        let ghost undo = self@.undo;
        let mut i: usize = 0;
        while i < len
            invariant
                len == self.log@.len(),
                undo == self@.undo,
                0 <= i <= len,
                out@ == u64_field(self.transaction_offset as u64)
                    + u64_field(len as u64) + records_bytes(
                    undo.subrange(0, i as int),
                ),
            decreases len - i,
        {
            write_record(&mut out, &self.log[i]);
            proof {
                assert(undo.subrange(0, i + 1).drop_last() =~= undo.subrange(0, i as int));
                assert(undo[i as int] == self.log@[i as int]@);
            }
            assert(out@ =~= u64_field(self.transaction_offset as u64)
                + u64_field(len as u64) + records_bytes(
                undo.subrange(0, i + 1),
            ));
            i = i + 1;
        }
        proof {
            assert(undo.subrange(0, len as int) =~= undo);
            assert(self.log.len() == self.log@.len());
            assert forall|j: int| 0 <= j < undo.len() implies record_encodable(#[trigger] undo[j]) by {
                self.log@[j].lemma_prior();
            }
            lemma_undo_round_trip(undo, self@.open);
        }
        out
    }

    /// Replaces the undo records and the open transaction with those that `snap_log`
    /// stores; bytes that store none give no records and no open transaction.
    pub fn restore_snapshot_log(&mut self, snap_log: Vec<u8>)
        requires
            old(self).wf(),
        ensures
            final(self).wf(),
            final(self)@.docs == old(self)@.docs,
            match parse_undo(snap_log@) {
                Some((u, o)) => final(self)@.undo == u && final(self)@.open == o,
                None => final(self)@.undo == Seq::<RecordModel>::empty() && final(self)@.open == 0,
            },
    {
        match self.decode_records(snap_log.as_slice()) {
            Some((records, open)) => {
                self.log = records;
                self.transaction_offset = open;
            },
            None => {
                self.log = Vec::new();
                self.transaction_offset = 0;
                assert(self@.undo =~= Seq::<RecordModel>::empty());
            },
        }
    }

    /// The undo records and the open transaction's size that `s` stores.
    fn decode_records(&self, s: &[u8]) -> (r: Option<(Vec<DocumentRecord>, usize)>)
        ensures
            match (r, parse_undo(s@)) {
                (Some((rs, o)), Some((u, so))) => rs@.map_values(|x: DocumentRecord| x@) == u
                    && o == so && o <= rs@.len(),
                (None, None) => true,
                _ => false,
            },
    {
        let len = s.len();
        let open = match read_u64_at(s, 0) {
            Some(n) => n,
            None => return None,
        };
        let count = match read_u64_at(s, 8) {
            Some(n) => n,
            None => return None,
        };
        let mut records: Vec<DocumentRecord> = Vec::new();
        let mut at: usize = 16;
        let mut k: u64 = 0;
        while k < count
            invariant
                len == s@.len(),
                read_u64(s@, 0) == Some(open),
                read_u64(s@, 8) == Some(count),
                k <= count,
                records@.len() == k,
                read_records(s@, 16, k as nat) == Some(
                    (records@.map_values(|x: DocumentRecord| x@), at as int),
                ),
            decreases count - k,
        {
            let ghost before = records@.map_values(|x: DocumentRecord| x@);
            match read_record_at(s, at) {
                Some((id, kind, prior, e)) => {
                    let path = self.record_path(id);
                    let rec = match prior {
                        Some(d) => DocumentRecord::capture(&d, path, kind),
                        None => DocumentRecord::new(id, path, kind),
                    };
                    records.push(rec);
                    assert(records@.map_values(|x: DocumentRecord| x@) =~= before.push(rec@));
                    at = e;
                    k = k + 1;
                },
                None => {
                    proof {
                        lemma_read_records_none(s@, 16, (k + 1) as nat, count as nat);
                    }
                    return None;
                },
            }
        }
        if at != len || open > count {
            return None;
        }
        assert(records.len() == records@.len());
        Some((records, open as usize))
    }

    /// Undoes `rec` on the collection.
    fn undo_record(&mut self, rec: &DocumentRecord)
        requires
            old(self).wf(),
        ensures
            final(self).wf(),
            final(self)@.docs == undo_step(old(self)@.docs, rec@),
            final(self).log == old(self).log,
            final(self).transaction_offset == old(self).transaction_offset,
            final(self).volume == old(self).volume,
    {
        match rec.prior_document() {
            Some(d) => self.store(d),
            None => self.discard(rec.get_id()),
        }
    }
}

} // verus!
