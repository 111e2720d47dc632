//! The operations that a log entry's payload carries, and their byte format: a tag byte
//! (0 `Get`, 1 `Post`, 2 `Remove`, 3 `Put`) followed by the operation's fields.
use vstd::prelude::*;
use crate::codec::{
    bytes_field, document_bytes, encodable, id_field, lemma_read_bytes, lemma_read_document,
    lemma_read_id, read_bytes, read_bytes_at, read_document, read_document_at, read_id, read_id_at,
    write_bytes, write_document, write_id,
};
use crate::document::{Document, DocumentId, DocumentModel};

verus! {

/// An operation on the document collection.
#[derive(Debug, Clone)]
pub enum Message {
    /// Reads the document with this identifier.
    Get(DocumentId),
    /// Stores this document under its identifier.
    Post(Document),
    /// Deletes the document with this identifier.
    Remove(DocumentId),
    /// Replaces the payload of the document with this identifier.
    Put(DocumentId, Vec<u8>),
}

/// The mathematical value of a [`Message`].
pub enum MessageModel {
    Get(DocumentId),
    Post(DocumentModel),
    Remove(DocumentId),
    Put(DocumentId, Seq<u8>),
}

impl View for Message {
    type V = MessageModel;

    open spec fn view(&self) -> MessageModel {
        match self {
            Message::Get(id) => MessageModel::Get(*id),
            Message::Post(d) => MessageModel::Post(d@),
            Message::Remove(id) => MessageModel::Remove(*id),
            Message::Put(id, p) => MessageModel::Put(*id, p@),
        }
    }
}

pub open spec fn message_bytes(m: MessageModel) -> Seq<u8> {
    match m {
        MessageModel::Get(id) => seq![0u8] + id_field(id),
        MessageModel::Post(d) => seq![1u8] + document_bytes(d),
        MessageModel::Remove(id) => seq![2u8] + id_field(id),
        MessageModel::Put(id, p) => seq![3u8] + id_field(id) + bytes_field(p),
    }
}

/// The operation that `s` encodes, with no byte left over.
pub open spec fn parse_message(s: Seq<u8>) -> Option<MessageModel> {
    if s.len() == 0 {
        None
    } else if s[0] == 0 || s[0] == 2 {
        match read_id(s, 1) {
            Some(id) => if s.len() == 17 {
                Some(if s[0] == 0 { MessageModel::Get(id) } else { MessageModel::Remove(id) })
            } else {
                None
            },
            None => None,
        }
    } else if s[0] == 1 {
        match read_document(s, 1) {
            Some((d, e)) => if e == s.len() {
                Some(MessageModel::Post(d))
            } else {
                None
            },
            None => None,
        }
    } else if s[0] == 3 {
        match read_id(s, 1) {
            Some(id) => match read_bytes(s, 17) {
                Some((p, e)) => if e == s.len() {
                    Some(MessageModel::Put(id, p))
                } else {
                    None
                },
                None => None,
            },
            None => None,
        }
    } else {
        None
    }
}

/// The fields of an operation fit in the byte format.
pub open spec fn message_encodable(m: MessageModel) -> bool {
    match m {
        MessageModel::Post(d) => encodable(d),
        MessageModel::Put(_, p) => p.len() <= u64::MAX,
        _ => true,
    }
}

/// An operation's bytes decode back to it.
pub proof fn lemma_message_round_trip(m: MessageModel)
    requires
        message_encodable(m),
    ensures
        parse_message(message_bytes(m)) == Some(m),
{
    let s = message_bytes(m);
    let e = Seq::<u8>::empty();
    match m {
        MessageModel::Get(id) => {
            vstd::bytes::lemma_auto_spec_u128_to_from_le_bytes();
            lemma_read_id(seq![0u8], id, e);
            assert(seq![0u8] + id_field(id) + e =~= s);
            assert(id_field(id).len() == 16);
            assert(s[0] == 0);

        },
        MessageModel::Remove(id) => {
            vstd::bytes::lemma_auto_spec_u128_to_from_le_bytes();
            lemma_read_id(seq![2u8], id, e);
            assert(seq![2u8] + id_field(id) + e =~= s);
            assert(id_field(id).len() == 16);
            assert(s[0] == 2);
        },
        MessageModel::Post(d) => {
            lemma_read_document(seq![1u8], d, e);
            assert(seq![1u8] + document_bytes(d) + e =~= s);
        },
        MessageModel::Put(id, p) => {
            vstd::bytes::lemma_auto_spec_u128_to_from_le_bytes();
            vstd::bytes::lemma_auto_spec_u64_to_from_le_bytes();
            lemma_read_id(seq![3u8], id, bytes_field(p));
            assert(seq![3u8] + id_field(id) + bytes_field(p) =~= s);
            lemma_read_bytes(seq![3u8] + id_field(id), p, e);
            assert(seq![3u8] + id_field(id) + bytes_field(p) + e =~= s);
            assert(s[0] == 3);
        },
    }
}

impl Message {
    /// The bytes of this operation.
    pub fn encode(&self) -> (r: Vec<u8>)
        ensures
            r@ == message_bytes(self@),
    {
        let mut out: Vec<u8> = Vec::new();
        match self {
            Message::Get(id) => {
                out.push(0u8);
                write_id(&mut out, *id);
            },
            Message::Post(d) => {
                out.push(1u8);
                write_document(&mut out, d);
            },
            Message::Remove(id) => {
                out.push(2u8);
                write_id(&mut out, *id);
            },
            Message::Put(id, p) => {
                out.push(3u8);
                write_id(&mut out, *id);
                write_bytes(&mut out, p);
            },
        }
        assert(out@ =~= message_bytes(self@));
        out
    }

    /// The operation that `bytes` encode, if they encode one with no byte left over.
    pub fn decode(bytes: &[u8]) -> (r: Option<Message>)
        ensures
            match (r, parse_message(bytes@)) {
                (Some(m), Some(sm)) => m@ == sm,
                (None, None) => true,
                _ => false,
            },
    {
        let len = bytes.len();
        if len == 0 {
            return None;
        }
        let tag = bytes[0];
        if tag == 0 || tag == 2 {
            match read_id_at(bytes, 1) {
                Some(id) => if len == 17 {
                    if tag == 0 {
                        Some(Message::Get(id))
                    } else {
                        Some(Message::Remove(id))
                    }
                } else {
                    None
                },
                None => None,
            }
        } else if tag == 1 {
            match read_document_at(bytes, 1) {
                Some((d, e)) => if e == len {
                    Some(Message::Post(d))
                } else {
                    None
                },
                None => None,
            }
        } else if tag == 3 {
            match read_id_at(bytes, 1) {
                Some(id) => match read_bytes_at(bytes, 17) {
                    Some((p, e)) => if e == len {
                        Some(Message::Put(id, p))
                    } else {
                        None
                    },
                    None => None,
                },
                None => None,
            }
        } else {
            None
        }
    }
}

} // verus!
