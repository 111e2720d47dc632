//! The byte format of documents and document collections.
//!
//! Integers are little-endian: an identifier takes 16 bytes, a length or a version 8.
//! A byte string is its length followed by its bytes. A document is its identifier, its
//! payload and its version. A collection is the number of its documents followed by them.
use vstd::prelude::*;
use vstd::bytes::*;
use vstd::slice::{slice_subrange, slice_to_vec};
use crate::document::{Document, DocumentModel};

verus! {

pub open spec fn u64_field(n: u64) -> Seq<u8> {
    spec_u64_to_le_bytes(n)
}

pub open spec fn id_field(id: u128) -> Seq<u8> {
    spec_u128_to_le_bytes(id)
}

pub open spec fn bytes_field(b: Seq<u8>) -> Seq<u8> {
    u64_field(b.len() as u64) + b
}

/// A document's value can stand in the byte format: its payload's length fits in a length field.
pub open spec fn encodable(d: DocumentModel) -> bool {
    d.payload.len() <= u64::MAX
}

pub open spec fn document_bytes(d: DocumentModel) -> Seq<u8> {
    id_field(d.id) + bytes_field(d.payload) + u64_field(d.version as u64)
}

pub open spec fn documents_bytes(ds: Seq<DocumentModel>) -> Seq<u8>
    decreases ds.len(),
{
    if ds.len() == 0 {
        Seq::empty()
    } else {
        documents_bytes(ds.drop_last()) + document_bytes(ds.last())
    }
}

pub open spec fn collection_bytes(ds: Seq<DocumentModel>) -> Seq<u8> {
    u64_field(ds.len() as u64) + documents_bytes(ds)
}

/// The integer in the eight bytes of `s` that start at `at`, if there are eight.
pub open spec fn read_u64(s: Seq<u8>, at: int) -> Option<u64> {
    if 0 <= at && at + 8 <= s.len() {
        Some(spec_u64_from_le_bytes(s.subrange(at, at + 8)))
    } else {
        None
    }
}

pub open spec fn read_id(s: Seq<u8>, at: int) -> Option<u128> {
    if 0 <= at && at + 16 <= s.len() {
        Some(spec_u128_from_le_bytes(s.subrange(at, at + 16)))
    } else {
        None
    }
}

/// The byte string at `at` and the position after it.
pub open spec fn read_bytes(s: Seq<u8>, at: int) -> Option<(Seq<u8>, int)> {
    match read_u64(s, at) {
        Some(n) => if at + 8 + n <= s.len() {
            Some((s.subrange(at + 8, at + 8 + n), at + 8 + n))
        } else {
            None
        },
        None => None,
    }
}

/// The document at `at` and the position after it.
pub open spec fn read_document(s: Seq<u8>, at: int) -> Option<(DocumentModel, int)> {
    match read_id(s, at) {
        Some(id) => match read_bytes(s, at + 16) {
            Some((p, e)) => match read_u64(s, e) {
                Some(v) => if v <= usize::MAX {
                    Some((DocumentModel { id, payload: p, version: v as usize }, e + 8))
                } else {
                    None
                },
                None => None,
            },
            None => None,
        },
        None => None,
    }
}

/// The `count` documents that follow one another from `at`, and the position after them.
pub open spec fn read_documents(s: Seq<u8>, at: int, count: nat) -> Option<(Seq<DocumentModel>, int)>
    decreases count,
{
    if count == 0 {
        Some((Seq::empty(), at))
    } else {
        match read_documents(s, at, (count - 1) as nat) {
            Some((ds, e)) => match read_document(s, e) {
                Some((d, e2)) => Some((ds.push(d), e2)),
                None => None,
            },
            None => None,
        }
    }
}

/// The document that `s` encodes, with no byte left over.
pub open spec fn parse_document(s: Seq<u8>) -> Option<DocumentModel> {
    match read_document(s, 0) {
        Some((d, e)) => if e == s.len() {
            Some(d)
        } else {
            None
        },
        None => None,
    }
}

/// The documents that `s` encodes as a collection, with no byte left over.
pub open spec fn parse_collection(s: Seq<u8>) -> Option<Seq<DocumentModel>> {
    match read_u64(s, 0) {
        Some(n) => match read_documents(s, 8, n as nat) {
            Some((ds, e)) => if e == s.len() {
                Some(ds)
            } else {
                None
            },
            None => None,
        },
        None => None,
    }
}

pub proof fn lemma_read_u64(p: Seq<u8>, n: u64, r: Seq<u8>)
    ensures
        read_u64(p + u64_field(n) + r, p.len() as int) == Some(n),
{
    lemma_auto_spec_u64_to_from_le_bytes();
    let s = p + u64_field(n) + r;
    assert(s.subrange(p.len() as int, p.len() + 8 as int) =~= u64_field(n));
}

pub proof fn lemma_read_id(p: Seq<u8>, id: u128, r: Seq<u8>)
    ensures
        read_id(p + id_field(id) + r, p.len() as int) == Some(id),
{
    lemma_auto_spec_u128_to_from_le_bytes();
    let s = p + id_field(id) + r;
    assert(s.subrange(p.len() as int, p.len() + 16 as int) =~= id_field(id));
}

pub proof fn lemma_read_bytes(p: Seq<u8>, b: Seq<u8>, r: Seq<u8>)
    requires
        b.len() <= u64::MAX,
    ensures
        read_bytes(p + bytes_field(b) + r, p.len() as int) == Some((b, (p.len() + 8 + b.len()) as int)),
{
    lemma_auto_spec_u64_to_from_le_bytes();
    let s = p + bytes_field(b) + r;
    assert(s =~= p + u64_field(b.len() as u64) + (b + r));
    lemma_read_u64(p, b.len() as u64, b + r);
    assert(s.subrange(p.len() + 8 as int, p.len() + 8 + b.len() as int) =~= b);
}

pub proof fn lemma_read_document(p: Seq<u8>, d: DocumentModel, r: Seq<u8>)
    requires
        encodable(d),
    ensures
        read_document(p + document_bytes(d) + r, p.len() as int) == Some(
            (d, (p.len() + document_bytes(d).len()) as int),
        ),
{
    lemma_auto_spec_u64_to_from_le_bytes();
    lemma_auto_spec_u128_to_from_le_bytes();
    let s = p + document_bytes(d) + r;
    let tail = bytes_field(d.payload) + u64_field(d.version as u64) + r;
    assert(s =~= p + id_field(d.id) + tail);
    lemma_read_id(p, d.id, tail);
    let p2 = p + id_field(d.id);
    assert(s =~= p2 + bytes_field(d.payload) + (u64_field(d.version as u64) + r));
    lemma_read_bytes(p2, d.payload, u64_field(d.version as u64) + r);
    let p3 = p2 + bytes_field(d.payload);
    assert(s =~= p3 + u64_field(d.version as u64) + r);
    lemma_read_u64(p3, d.version as u64, r);
}

pub proof fn lemma_read_documents(p: Seq<u8>, ds: Seq<DocumentModel>, r: Seq<u8>)
    requires
        forall|i: int| 0 <= i < ds.len() ==> encodable(#[trigger] ds[i]),
    ensures
        read_documents(p + documents_bytes(ds) + r, p.len() as int, ds.len()) == Some(
            (ds, (p.len() + documents_bytes(ds).len()) as int),
        ),
    decreases ds.len(),
{
    let s = p + documents_bytes(ds) + r;
    if ds.len() == 0 {
        assert(ds =~= Seq::<DocumentModel>::empty());
    } else {
        let init = ds.drop_last();
        let d = ds.last();
        assert(s =~= p + documents_bytes(init) + (document_bytes(d) + r));
        lemma_read_documents(p, init, document_bytes(d) + r);
        let p2 = p + documents_bytes(init);
        assert(s =~= p2 + document_bytes(d) + r);
        lemma_read_document(p2, d, r);
        assert(init.push(d) =~= ds);
    }
}

/// A document's bytes decode back to it.
pub proof fn lemma_document_round_trip(d: DocumentModel)
    requires
        encodable(d),
    ensures
        parse_document(document_bytes(d)) == Some(d),
{
    lemma_read_document(Seq::empty(), d, Seq::empty());
    assert(Seq::<u8>::empty() + document_bytes(d) + Seq::<u8>::empty() =~= document_bytes(d));
}

/// A collection's bytes decode back to its documents.
pub proof fn lemma_collection_round_trip(ds: Seq<DocumentModel>)
    requires
        ds.len() <= u64::MAX,
        forall|i: int| 0 <= i < ds.len() ==> encodable(#[trigger] ds[i]),
    ensures
        parse_collection(collection_bytes(ds)) == Some(ds),
{
    let s = collection_bytes(ds);
    lemma_read_u64(Seq::empty(), ds.len() as u64, documents_bytes(ds));
    assert(Seq::<u8>::empty() + u64_field(ds.len() as u64) + documents_bytes(ds) =~= s);
    let p = u64_field(ds.len() as u64);
    lemma_auto_spec_u64_to_from_le_bytes();
    lemma_read_documents(p, ds, Seq::empty());
    assert(p + documents_bytes(ds) + Seq::<u8>::empty() =~= s);
}

/// Appends the eight bytes of `n`.
pub fn write_u64(out: &mut Vec<u8>, n: u64)
    ensures
        final(out)@ == old(out)@ + u64_field(n),
{
    let mut b = u64_to_le_bytes(n);
    out.append(&mut b);
}

/// Appends the sixteen bytes of `id`.
pub fn write_id(out: &mut Vec<u8>, id: u128)
    ensures
        final(out)@ == old(out)@ + id_field(id),
{
    let mut b = u128_to_le_bytes(id);
    out.append(&mut b);
}

/// Appends the length of `b`, then `b`.
pub fn write_bytes(out: &mut Vec<u8>, b: &Vec<u8>)
    ensures
        final(out)@ == old(out)@ + bytes_field(b@),
{
    write_u64(out, b.len() as u64);
    let mut c = b.clone();
    assert(c@ =~= b@);
    out.append(&mut c);
    assert(final(out)@ =~= old(out)@ + bytes_field(b@));
}

/// Appends the bytes of `d`.
pub fn write_document(out: &mut Vec<u8>, d: &Document)
    ensures
        final(out)@ == old(out)@ + document_bytes(d@),
{
    write_id(out, d.id);
    write_bytes(out, &d.payload);
    write_u64(out, d.version as u64);
    assert(final(out)@ =~= old(out)@ + document_bytes(d@));
}

pub fn read_u64_at(s: &[u8], at: usize) -> (r: Option<u64>)
    ensures
        r == read_u64(s@, at as int),
{
    if at <= s.len() && 8 <= s.len() - at {
        Some(u64_from_le_bytes(slice_subrange(s, at, at + 8)))
    } else {
        None
    }
}

pub fn read_id_at(s: &[u8], at: usize) -> (r: Option<u128>)
    ensures
        r == read_id(s@, at as int),
{
    if at <= s.len() && 16 <= s.len() - at {
        Some(u128_from_le_bytes(slice_subrange(s, at, at + 16)))
    } else {
        None
    }
}

pub fn read_bytes_at(s: &[u8], at: usize) -> (r: Option<(Vec<u8>, usize)>)
    ensures
        match (r, read_bytes(s@, at as int)) {
            (Some((b, e)), Some((sb, se))) => b@ == sb && e == se,
            (None, None) => true,
            _ => false,
        },
{
    let len = s.len();
    match read_u64_at(s, at) {
        Some(n) => {
            let start = at + 8;
            if n <= (len - start) as u64 {
                let end = start + n as usize;
                Some((slice_to_vec(slice_subrange(s, start, end)), end))
            } else {
                None
            }
        },
        None => None,
    }
}

pub fn read_document_at(s: &[u8], at: usize) -> (r: Option<(Document, usize)>)
    ensures
        match (r, read_document(s@, at as int)) {
            (Some((d, e)), Some((sd, se))) => d@ == sd && e == se,
            (None, None) => true,
            _ => false,
        },
{
    if at > s.len() {
        return None;
    }
    let id = match read_id_at(s, at) {
        Some(id) => id,
        None => return None,
    };
    let (payload, e) = match read_bytes_at(s, at + 16) {
        Some(pe) => pe,
        None => return None,
    };
    match read_u64_at(s, e) {
        Some(v) => if v <= usize::MAX as u64 {
            Some((Document { id, payload, version: v as usize }, e + 8))
        } else {
            None
        },
        None => None,
    }
}

impl Document {
    /// The bytes of this document.
    pub fn encode(&self) -> (r: Vec<u8>)
        ensures
            r@ == document_bytes(self@),
    {
        let mut out: Vec<u8> = Vec::new();
        write_document(&mut out, self);
        assert(out@ =~= document_bytes(self@));
        out
    }

    /// The document that `bytes` encode, if they encode one with no byte left over.
    pub fn decode(bytes: &[u8]) -> (r: Option<Document>)
        ensures
            match (r, parse_document(bytes@)) {
                (Some(d), Some(sd)) => d@ == sd,
                (None, None) => true,
                _ => false,
            },
    {
        match read_document_at(bytes, 0) {
            Some((d, e)) => if e == bytes.len() {
                Some(d)
            } else {
                None
            },
            None => None,
        }
    }
}

/// The values of a sequence of documents.
pub open spec fn documents_view(v: Seq<Document>) -> Seq<DocumentModel> {
    v.map_values(|d: Document| d@)
}

/// Once `count` documents cannot be read from `at`, no more of them can.
pub proof fn lemma_read_documents_none(s: Seq<u8>, at: int, count: nat, more: nat)
    requires
        read_documents(s, at, count) is None,
        count <= more,
    ensures
        read_documents(s, at, more) is None,
    decreases more - count,
{
    if count < more {
        lemma_read_documents_none(s, at, count, (more - 1) as nat);
    }
}

/// The bytes of a collection of documents.
pub fn encode_collection(docs: &Vec<Document>) -> (r: Vec<u8>)
    ensures
        r@ == collection_bytes(documents_view(docs@)),
{
    let mut out: Vec<u8> = Vec::new();
    let len = docs.len();
    write_u64(&mut out, len as u64);
    let mut i: usize = 0;
    while i < len
        invariant
            len == docs@.len(),
            0 <= i <= len,
            out@ == u64_field(len as u64) + documents_bytes(documents_view(docs@).subrange(0, i as int)),
        decreases len - i,
    {
        write_document(&mut out, &docs[i]);
        proof {
            let all = documents_view(docs@);
            assert(all.subrange(0, i + 1).drop_last() =~= all.subrange(0, i as int));
        }
        assert(out@ =~= u64_field(len as u64) + documents_bytes(documents_view(docs@).subrange(0, i + 1)));
        i = i + 1;
    }
    assert(documents_view(docs@).subrange(0, len as int) =~= documents_view(docs@));
    assert(documents_view(docs@).len() == len);
    out
}

/// The documents that `bytes` encode as a collection, if they encode one with no byte
/// left over.
pub fn decode_collection(bytes: &[u8]) -> (r: Option<Vec<Document>>)
    ensures
        match (r, parse_collection(bytes@)) {
            (Some(ds), Some(sds)) => documents_view(ds@) == sds,
            (None, None) => true,
            _ => false,
        },
{
    let len = bytes.len();
    let count = match read_u64_at(bytes, 0) {
        Some(n) => n,
        None => return None,
    };
    let mut docs: Vec<Document> = Vec::new();
    let mut at: usize = 8;
    let mut k: u64 = 0;
    while k < count
        invariant
            len == bytes@.len(),
            read_u64(bytes@, 0) == Some(count),
            k <= count,
            read_documents(bytes@, 8, k as nat) == Some((documents_view(docs@), at as int)),
        decreases count - k,
    {
        let ghost before = documents_view(docs@);
        match read_document_at(bytes, at) {
            Some((d, e)) => {
                docs.push(d);
                assert(documents_view(docs@) =~= before.push(d@));
                at = e;
                k = k + 1;
            },
            None => {
                proof {
                    lemma_read_documents_none(bytes@, 8, (k + 1) as nat, count as nat);
                }
                return None;
            },
        }
    }
    if at != len {
        return None;
    }
    Some(docs)
}

} // verus!
