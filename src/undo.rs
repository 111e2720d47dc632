//! The byte format of undo records: the target's identifier, a byte for the kind of
//! operation (0 `Get`, 1 `Put`, 2 `Post`, 3 `Remove`), then a 0 byte, or a 1 byte followed
//! by the prior payload as a byte string and the prior version. The records of a state
//! machine are stored as the size of the open transaction, the number of records, and the
//! records oldest first.
use vstd::prelude::*;
use vstd::bytes::*;
use crate::codec::{
    bytes_field, id_field, lemma_read_bytes, lemma_read_id, lemma_read_u64, read_bytes,
    read_bytes_at, read_id, read_id_at, read_u64, read_u64_at, u64_field, write_bytes, write_id,
    write_u64,
};
use crate::document::{ActionType, Document, DocumentId, DocumentModel, DocumentRecord, RecordModel};

verus! {

pub open spec fn action_tag(a: ActionType) -> u8 {
    match a {
        ActionType::Get => 0,
        ActionType::Put => 1,
        ActionType::Post => 2,
        ActionType::Remove => 3,
    }
}

pub open spec fn action_of_tag(t: u8) -> Option<ActionType> {
    if t == 0 {
        Some(ActionType::Get)
    } else if t == 1 {
        Some(ActionType::Put)
    } else if t == 2 {
        Some(ActionType::Post)
    } else if t == 3 {
        Some(ActionType::Remove)
    } else {
        None
    }
}

pub open spec fn prior_bytes(prior: Option<DocumentModel>) -> Seq<u8> {
    match prior {
        Some(d) => seq![1u8] + bytes_field(d.payload) + u64_field(d.version as u64),
        None => seq![0u8],
    }
}

pub open spec fn record_bytes(r: RecordModel) -> Seq<u8> {
    id_field(r.id) + seq![action_tag(r.method)] + prior_bytes(r.prior)
}

pub open spec fn records_bytes(rs: Seq<RecordModel>) -> Seq<u8>
    decreases rs.len(),
{
    if rs.len() == 0 {
        Seq::empty()
    } else {
        records_bytes(rs.drop_last()) + record_bytes(rs.last())
    }
}

/// The bytes of the undo records `rs`, the last `open` of which form the open transaction.
pub open spec fn undo_bytes(rs: Seq<RecordModel>, open: nat) -> Seq<u8> {
    u64_field(open as u64) + u64_field(rs.len() as u64) + records_bytes(rs)
}

/// The prior document of a record of `id` at `at`, and the position after it.
pub open spec fn read_prior(s: Seq<u8>, at: int, id: DocumentId) -> Option<(Option<DocumentModel>, int)> {
    if 0 <= at < s.len() && s[at] == 0 {
        Some((None, at + 1))
    } else if 0 <= at < s.len() && s[at] == 1 {
        match read_bytes(s, at + 1) {
            Some((p, e)) => match read_u64(s, e) {
                Some(v) => if v <= usize::MAX {
                    Some((Some(DocumentModel { id, payload: p, version: v as usize }), e + 8))
                } else {
                    None
                },
                None => None,
            },
            None => None,
        }
    } else {
        None
    }
}

pub open spec fn read_record(s: Seq<u8>, at: int) -> Option<(RecordModel, int)> {
    match read_id(s, at) {
        Some(id) => if at + 16 < s.len() {
            match action_of_tag(s[at + 16]) {
                Some(k) => match read_prior(s, at + 17, id) {
                    Some((prior, e)) => Some((RecordModel { id, method: k, prior }, e)),
                    None => None,
                },
                None => None,
            }
        } else {
            None
        },
        None => None,
    }
}

pub open spec fn read_records(s: Seq<u8>, at: int, count: nat) -> Option<(Seq<RecordModel>, int)>
    decreases count,
{
    if count == 0 {
        Some((Seq::empty(), at))
    } else {
        match read_records(s, at, (count - 1) as nat) {
            Some((rs, e)) => match read_record(s, e) {
                Some((r, e2)) => Some((rs.push(r), e2)),
                None => None,
            },
            None => None,
        }
    }
}

/// Once `count` records cannot be read from `at`, no more of them can.
pub proof fn lemma_read_records_none(s: Seq<u8>, at: int, count: nat, more: nat)
    requires
        read_records(s, at, count) is None,
        count <= more,
    ensures
        read_records(s, at, more) is None,
    decreases more - count,
{
    if count < more {
        lemma_read_records_none(s, at, count, (more - 1) as nat);
    }
}

/// The undo records that `s` stores and the size of the open transaction, with no byte
/// left over and the open transaction within the records.
pub open spec fn parse_undo(s: Seq<u8>) -> Option<(Seq<RecordModel>, nat)> {
    match (read_u64(s, 0), read_u64(s, 8)) {
        (Some(open), Some(n)) => match read_records(s, 16, n as nat) {
            Some((rs, e)) => if e == s.len() && open <= n {
                Some((rs, open as nat))
            } else {
                None
            },
            None => None,
        },
        _ => None,
    }
}

/// A record fits the byte format: its prior document is one of its target, with a payload
/// whose length fits in a length field.
pub open spec fn record_encodable(r: RecordModel) -> bool {
    r.prior is Some ==> r.prior->0.id == r.id && r.prior->0.payload.len() <= u64::MAX
}

pub proof fn lemma_read_record(p: Seq<u8>, rec: RecordModel, r: Seq<u8>)
    requires
        record_encodable(rec),
    ensures
        read_record(p + record_bytes(rec) + r, p.len() as int) == Some(
            (rec, (p.len() + record_bytes(rec).len()) as int),
        ),
{
    lemma_auto_spec_u64_to_from_le_bytes();
    lemma_auto_spec_u128_to_from_le_bytes();
    let s = p + record_bytes(rec) + r;
    let tail = seq![action_tag(rec.method)] + prior_bytes(rec.prior) + r;
    assert(s =~= p + id_field(rec.id) + tail);
    lemma_read_id(p, rec.id, tail);
    let at = p.len() as int;
    assert(s[at + 16] == action_tag(rec.method));
    let p2 = p + id_field(rec.id) + seq![action_tag(rec.method)];
    assert(s =~= p2 + prior_bytes(rec.prior) + r);
    match rec.prior {
        Some(d) => {
            assert(s[at + 17] == 1);
            let p3 = p2 + seq![1u8];
            assert(s =~= p3 + bytes_field(d.payload) + (u64_field(d.version as u64) + r));
            lemma_read_bytes(p3, d.payload, u64_field(d.version as u64) + r);
            let p4 = p3 + bytes_field(d.payload);
            assert(s =~= p4 + u64_field(d.version as u64) + r);
            lemma_read_u64(p4, d.version as u64, r);
        },
        None => {
            assert(s[at + 17] == 0);
        },
    }
}

pub proof fn lemma_read_records(p: Seq<u8>, rs: Seq<RecordModel>, r: Seq<u8>)
    requires
        forall|i: int| 0 <= i < rs.len() ==> record_encodable(#[trigger] rs[i]),
    ensures
        read_records(p + records_bytes(rs) + r, p.len() as int, rs.len()) == Some(
            (rs, (p.len() + records_bytes(rs).len()) as int),
        ),
    decreases rs.len(),
{
    let s = p + records_bytes(rs) + r;
    if rs.len() == 0 {
        assert(rs =~= Seq::<RecordModel>::empty());
    } else {
        let init = rs.drop_last();
        let x = rs.last();
        assert(s =~= p + records_bytes(init) + (record_bytes(x) + r));
        lemma_read_records(p, init, record_bytes(x) + r);
        let p2 = p + records_bytes(init);
        assert(s =~= p2 + record_bytes(x) + r);
        lemma_read_record(p2, x, r);
        assert(init.push(x) =~= rs);
    }
}

/// The bytes of undo records decode back to them and to the open transaction's size.
pub proof fn lemma_undo_round_trip(rs: Seq<RecordModel>, open: nat)
    requires
        open <= rs.len() <= u64::MAX,
        forall|i: int| 0 <= i < rs.len() ==> record_encodable(#[trigger] rs[i]),
    ensures
        parse_undo(undo_bytes(rs, open)) == Some((rs, open)),
{
    lemma_auto_spec_u64_to_from_le_bytes();
    let s = undo_bytes(rs, open);
    lemma_read_u64(Seq::empty(), open as u64, u64_field(rs.len() as u64) + records_bytes(rs));
    assert(Seq::<u8>::empty() + u64_field(open as u64) + (u64_field(rs.len() as u64)
        + records_bytes(rs)) =~= s);
    lemma_read_u64(u64_field(open as u64), rs.len() as u64, records_bytes(rs));
    assert(u64_field(open as u64) + u64_field(rs.len() as u64) + records_bytes(rs) =~= s);
    let p = u64_field(open as u64) + u64_field(rs.len() as u64);
    lemma_read_records(p, rs, Seq::empty());
    assert(p + records_bytes(rs) + Seq::<u8>::empty() =~= s);
}

/// Appends the bytes of `rec`.
pub fn write_record(out: &mut Vec<u8>, rec: &DocumentRecord)
    ensures
        final(out)@ == old(out)@ + record_bytes(rec@),
{
    write_id(out, rec.get_id());
    let tag: u8 = match rec.get_method() {
        ActionType::Get => 0,
        ActionType::Put => 1,
        ActionType::Post => 2,
        ActionType::Remove => 3,
    };
    out.push(tag);
    match rec.prior_document() {
        Some(d) => {
            out.push(1u8);
            write_bytes(out, &d.payload);
            write_u64(out, d.version as u64);
        },
        None => {
            out.push(0u8);
        },
    }
    assert(final(out)@ =~= old(out)@ + record_bytes(rec@));
}

/// The record at `at`, given as its target, its kind and its prior document, and the
/// position after it.
pub fn read_record_at(s: &[u8], at: usize) -> (r: Option<(DocumentId, ActionType, Option<Document>, usize)>)
    ensures
        match (r, read_record(s@, at as int)) {
            (Some((id, k, prior, e)), Some((sr, se))) => sr.id == id && sr.method == k && e == se
                && match (prior, sr.prior) {
                (Some(d), Some(sd)) => d@ == sd && d.id == id,
                (None, None) => true,
                _ => false,
            },
            (None, None) => true,
            _ => false,
        },
{
    let len = s.len();
    let id = match read_id_at(s, at) {
        Some(id) => id,
        None => return None,
    };
    if at + 16 >= len {
        return None;
    }
    let kind = match s[at + 16] {
        0 => ActionType::Get,
        1 => ActionType::Put,
        2 => ActionType::Post,
        3 => ActionType::Remove,
        _ => return None,
    };
    let start = at + 17;
    if start >= len {
        return None;
    }
    if s[start] == 0 {
        return Some((id, kind, None, start + 1));
    }
    if s[start] != 1 {
        return None;
    }
    let (payload, e) = match read_bytes_at(s, start + 1) {
        Some(pe) => pe,
        None => return None,
    };
    match read_u64_at(s, e) {
        Some(v) => if v <= usize::MAX as u64 {
            Some((id, kind, Some(Document { id, payload, version: v as usize }), e + 8))
        } else {
            None
        },
        None => None,
    }
}

} // verus!
