//! The persistent log: an ordered sequence of (term, payload) entries, indexed from 1,
//! with the current term and the vote of this node.
//!
//! The log keeps its state in memory and hands out the bytes of each part of it
//! (term, vote, entries) for the caller to store; it takes those bytes back on restart.
//! A term is eight little-endian bytes; a vote is a 0 byte, or a 1 byte and the server's
//! eight bytes; the entries are their count, then for each its term and its payload
//! as a byte string.
use vstd::prelude::*;
use vstd::bytes::*;
use vstd::slice::slice_to_vec;
use crate::codec::{
    bytes_field, lemma_read_bytes, lemma_read_u64, read_bytes, read_bytes_at, read_u64,
    read_u64_at, u64_field, write_bytes, write_u64,
};
use crate::document::{id_text, uuid_text};

verus! {

/// The failures of the persistent log.
#[derive(Debug, Clone, Copy, PartialEq, Eq, Structural)]
pub enum Error {
    /// An entry index that is 0 or past the last entry.
    IndexOutOfRange,
    /// Stored bytes that do not hold what they should.
    Corrupt,
    /// The storage could not be read or written.
    Io,
}

/// An entry's value: its term and its payload.
pub type EntryModel = (u64, Seq<u8>);

pub open spec fn entry_model(e: (u64, Vec<u8>)) -> EntryModel {
    (e.0, e.1@)
}

pub open spec fn borrowed_entry_model(e: (u64, &[u8])) -> EntryModel {
    (e.0, e.1@)
}

/// The entries at or after the 1-based `index`.
pub open spec fn entries_from(log: Seq<EntryModel>, index: u64) -> Seq<EntryModel> {
    let start = if index == 0 { 0 } else { index - 1 };
    if start <= log.len() {
        log.subrange(start as int, log.len() as int)
    } else {
        Seq::empty()
    }
}

/// The entries before the 1-based `index`.
pub open spec fn entries_before(log: Seq<EntryModel>, index: u64) -> Seq<EntryModel> {
    let keep = if index == 0 { 0 } else { index - 1 };
    if keep <= log.len() {
        log.subrange(0, keep as int)
    } else {
        log
    }
}

pub open spec fn term_bytes(term: u64) -> Seq<u8> {
    u64_field(term)
}

pub open spec fn vote_bytes(vote: Option<u64>) -> Seq<u8> {
    match vote {
        Some(id) => seq![1u8] + u64_field(id),
        None => seq![0u8],
    }
}

pub open spec fn entry_bytes(e: EntryModel) -> Seq<u8> {
    u64_field(e.0) + bytes_field(e.1)
}

pub open spec fn entries_bytes(es: Seq<EntryModel>) -> Seq<u8>
    decreases es.len(),
{
    if es.len() == 0 {
        Seq::empty()
    } else {
        entries_bytes(es.drop_last()) + entry_bytes(es.last())
    }
}

pub open spec fn log_bytes(es: Seq<EntryModel>) -> Seq<u8> {
    u64_field(es.len() as u64) + entries_bytes(es)
}

pub open spec fn parse_term(s: Seq<u8>) -> Option<u64> {
    if s.len() == 8 {
        read_u64(s, 0)
    } else {
        None
    }
}

pub open spec fn parse_vote(s: Seq<u8>) -> Option<Option<u64>> {
    if s.len() == 1 && s[0] == 0 {
        Some(None)
    } else if s.len() == 9 && s[0] == 1 {
        match read_u64(s, 1) {
            Some(id) => Some(Some(id)),
            None => None,
        }
    } else {
        None
    }
}

pub open spec fn read_entry(s: Seq<u8>, at: int) -> Option<(EntryModel, int)> {
    match read_u64(s, at) {
        Some(t) => match read_bytes(s, at + 8) {
            Some((p, e)) => Some(((t, p), e)),
            None => None,
        },
        None => None,
    }
}

pub open spec fn read_entries(s: Seq<u8>, at: int, count: nat) -> Option<(Seq<EntryModel>, int)>
    decreases count,
{
    if count == 0 {
        Some((Seq::empty(), at))
    } else {
        match read_entries(s, at, (count - 1) as nat) {
            Some((es, e)) => match read_entry(s, e) {
                Some((x, e2)) => Some((es.push(x), e2)),
                None => None,
            },
            None => None,
        }
    }
}

/// The entries that `s` encodes, with no byte left over.
pub open spec fn parse_log(s: Seq<u8>) -> Option<Seq<EntryModel>> {
    match read_u64(s, 0) {
        Some(n) => match read_entries(s, 8, n as nat) {
            Some((es, e)) => if e == s.len() {
                Some(es)
            } else {
                None
            },
            None => None,
        },
        None => None,
    }
}

/// Once `count` entries cannot be read from `at`, no more of them can.
pub proof fn lemma_read_entries_none(s: Seq<u8>, at: int, count: nat, more: nat)
    requires
        read_entries(s, at, count) is None,
        count <= more,
    ensures
        read_entries(s, at, more) is None,
    decreases more - count,
{
    if count < more {
        lemma_read_entries_none(s, at, count, (more - 1) as nat);
    }
}

pub proof fn lemma_read_entries(p: Seq<u8>, es: Seq<EntryModel>, r: Seq<u8>)
    requires
        forall|i: int| 0 <= i < es.len() ==> (#[trigger] es[i]).1.len() <= u64::MAX,
    ensures
        read_entries(p + entries_bytes(es) + r, p.len() as int, es.len()) == Some(
            (es, (p.len() + entries_bytes(es).len()) as int),
        ),
    decreases es.len(),
{
    let s = p + entries_bytes(es) + r;
    if es.len() == 0 {
        assert(es =~= Seq::<EntryModel>::empty());
    } else {
        let init = es.drop_last();
        let x = es.last();
        assert(s =~= p + entries_bytes(init) + (entry_bytes(x) + r));
        lemma_read_entries(p, init, entry_bytes(x) + r);
        let p2 = p + entries_bytes(init);
        assert(s =~= p2 + u64_field(x.0) + (bytes_field(x.1) + r));
        lemma_read_u64(p2, x.0, bytes_field(x.1) + r);
        lemma_auto_spec_u64_to_from_le_bytes();
        let p3 = p2 + u64_field(x.0);
        assert(s =~= p3 + bytes_field(x.1) + r);
        lemma_read_bytes(p3, x.1, r);
        assert(init.push(x) =~= es);
    }
}

/// The bytes of a sequence of entries decode back to it.
pub proof fn lemma_log_round_trip(es: Seq<EntryModel>)
    requires
        es.len() <= u64::MAX,
        forall|i: int| 0 <= i < es.len() ==> (#[trigger] es[i]).1.len() <= u64::MAX,
    ensures
        parse_log(log_bytes(es)) == Some(es),
{
    let s = log_bytes(es);
    lemma_read_u64(Seq::empty(), es.len() as u64, entries_bytes(es));
    assert(Seq::<u8>::empty() + u64_field(es.len() as u64) + entries_bytes(es) =~= s);
    lemma_auto_spec_u64_to_from_le_bytes();
    let p = u64_field(es.len() as u64);
    lemma_read_entries(p, es, Seq::empty());
    assert(p + entries_bytes(es) + Seq::<u8>::empty() =~= s);
}

/// A term's bytes decode back to it.
pub proof fn lemma_term_round_trip(term: u64)
    ensures
        parse_term(term_bytes(term)) == Some(term),
{
    lemma_auto_spec_u64_to_from_le_bytes();
    lemma_read_u64(Seq::empty(), term, Seq::empty());
    assert(Seq::<u8>::empty() + u64_field(term) + Seq::<u8>::empty() =~= term_bytes(term));
}

/// A vote's bytes decode back to it.
pub proof fn lemma_vote_round_trip(vote: Option<u64>)
    ensures
        parse_vote(vote_bytes(vote)) == Some(vote),
{
    lemma_auto_spec_u64_to_from_le_bytes();
    if let Some(id) = vote {
        lemma_read_u64(seq![1u8], id, Seq::empty());
        assert(seq![1u8] + u64_field(id) + Seq::<u8>::empty() =~= vote_bytes(vote));
        assert(vote_bytes(vote)[0] == 1);
    }
}

/// Appending no entries from an index within the log drops the entries from that index
/// on: `from - 1` entries remain, those that stood before it.
pub proof fn lemma_append_nothing_truncates(log: Seq<EntryModel>, from: u64)
    requires
        1 <= from <= log.len(),
    ensures
        log.subrange(0, from - 1) + Seq::<(u64, &[u8])>::empty().map_values(
            |e: (u64, &[u8])| borrowed_entry_model(e),
        ) == entries_before(log, from),
        entries_before(log, from).len() == from - 1,
        forall|i: int| 0 <= i < from - 1 ==> #[trigger] entries_before(log, from)[i] == log[i],
{
    assert(log.subrange(0, from - 1) + Seq::<(u64, &[u8])>::empty().map_values(
        |e: (u64, &[u8])| borrowed_entry_model(e),
    ) =~= entries_before(log, from));
}

/// The persistent log of one consensus group.
#[derive(Debug, Clone)]
pub struct DocLog {
    entries: Vec<(u64, Vec<u8>)>,
    logid: u128,
    prefix: String,
    term: u64,
    vote: Option<u64>,
}

impl DocLog {
    /// The entries, the first at position 0 standing for index 1.
    pub closed spec fn log(&self) -> Seq<EntryModel> {
        self.entries@.map_values(|e: (u64, Vec<u8>)| entry_model(e))
    }

    pub closed spec fn term(&self) -> u64 {
        self.term
    }

    pub closed spec fn vote(&self) -> Option<u64> {
        self.vote
    }

    /// The directory that the log is stored in.
    pub closed spec fn volume(&self) -> Seq<char> {
        self.prefix@
    }

    /// The identifier of the log's consensus group.
    pub closed spec fn log_id(&self) -> u128 {
        self.logid
    }

    /// An empty log at term 0 with no vote, stored under `prefix`.
    pub fn new(prefix: &str, lid: u128) -> (r: DocLog)
        ensures
            r.log() == Seq::<EntryModel>::empty(),
            r.term() == 0,
            r.vote() is None,
            r.volume() == prefix@,
            r.log_id() == lid,
    {
        let r = DocLog {
            entries: Vec::new(),
            logid: lid,
            prefix: prefix.to_owned(),
            term: 0,
            vote: None,
        };
        assert(r.log() =~= Seq::<EntryModel>::empty());
        r
    }

    /// The directory that the log is stored in.
    pub fn get_volume(&self) -> (r: String)
        ensures
            r@ == self.volume(),
    {
        self.prefix.clone()
    }

    /// The path of the file `name` of this log: `<volume>/<log id>_<name>`.
    pub fn file_path(&self, name: &str) -> (r: String)
        ensures
            r@ == self.volume() + seq!['/'] + uuid_text(self.log_id()) + seq!['_'] + name@,
    {
        let mut path = self.prefix.clone();
        path.append("/");
        let id = id_text(self.logid);
        path.append(id.as_str());
        path.append("_");
        path.append(name);
        proof {
            reveal_strlit("/");
            reveal_strlit("_");
        }
        assert(path@ =~= self.volume() + seq!['/'] + uuid_text(self.log_id()) + seq!['_'] + name@);
        path
    }

    pub fn current_term(&self) -> (r: u64)
        ensures
            r == self.term(),
    {
        self.term
    }

    /// Moves to `term`; the vote is cleared, as no vote has been cast in the new term.
    pub fn set_current_term(&mut self, term: u64)
        ensures
            final(self).term() == term,
            final(self).vote() is None,
            final(self).log() == old(self).log(),
            final(self).volume() == old(self).volume(),
            final(self).log_id() == old(self).log_id(),
    {
        self.vote = None;
        self.term = term;
    }

    /// Moves to the next term, clearing the vote, and returns the new term.
    pub fn inc_current_term(&mut self) -> (r: u64)
        requires
            old(self).term() < u64::MAX,
        ensures
            r == old(self).term() + 1,
            final(self).term() == r,
            final(self).vote() is None,
            final(self).log() == old(self).log(),
            final(self).volume() == old(self).volume(),
            final(self).log_id() == old(self).log_id(),
    {
        let next = self.term + 1;
        self.set_current_term(next);
        next
    }

    pub fn voted_for(&self) -> (r: Option<u64>)
        ensures
            r == self.vote(),
    {
        self.vote
    }

    pub fn set_voted_for(&mut self, address: Option<u64>)
        ensures
            final(self).vote() == address,
            final(self).term() == old(self).term(),
            final(self).log() == old(self).log(),
            final(self).volume() == old(self).volume(),
            final(self).log_id() == old(self).log_id(),
    {
        self.vote = address;
    }

    /// The index of the last entry: the number of entries.
    pub fn latest_log_index(&self) -> (r: u64)
        ensures
            r == self.log().len(),
    {
        self.entries.len() as u64
    }

    /// The term of the last entry, or 0 for an empty log.
    pub fn latest_log_term(&self) -> (r: u64)
        ensures
            r == if self.log().len() == 0 { 0 } else { self.log().last().0 },
    {
        let len = self.entries.len();
        if len == 0 {
            0
        } else {
            self.entries[len - 1].0
        }
    }

    /// The term and payload of the entry at the 1-based `index`.
    pub fn entry(&self, index: u64) -> (r: Result<(u64, &[u8]), Error>)
        ensures
            match r {
                Ok((t, p)) => 1 <= index <= self.log().len() && (t, p@) == self.log()[index - 1],
                Err(e) => e == Error::IndexOutOfRange && (index == 0 || index > self.log().len()),
            },
    {
        if index == 0 || index > self.entries.len() as u64 {
            return Err(Error::IndexOutOfRange);
        }
        let i = (index - 1) as usize;
        let e = &self.entries[i];
        Ok((e.0, e.1.as_slice()))
    }

    /// Replaces the entries from the 1-based `from` on with `entries`: whatever stood at
    /// `from` or after is dropped first.
    pub fn append_entries(&mut self, from: u64, entries: &[(u64, &[u8])])
        requires
            1 <= from <= old(self).log().len() + 1,
        ensures
            final(self).log() == old(self).log().subrange(0, from - 1) + entries@.map_values(
                |e: (u64, &[u8])| borrowed_entry_model(e),
            ),
            final(self).term() == old(self).term(),
            final(self).vote() == old(self).vote(),
            final(self).volume() == old(self).volume(),
            final(self).log_id() == old(self).log_id(),
    {
        self.entries.truncate((from - 1) as usize);
        let ghost kept = old(self).log().subrange(0, from - 1);
        assert(self.log() =~= kept);
        let n = entries.len();
        let mut i: usize = 0;
        while i < n
            invariant
                n == entries@.len(),
                0 <= i <= n,
                self.log() == kept + entries@.subrange(0, i as int).map_values(
                    |e: (u64, &[u8])| borrowed_entry_model(e),
                ),
                self.term == old(self).term,
                self.vote == old(self).vote,
                self.prefix == old(self).prefix,
                self.logid == old(self).logid,
            decreases n - i,
        {
            let (t, p) = entries[i];
            assert((t, p@) == borrowed_entry_model(entries@[i as int]));
            let payload = slice_to_vec(p);
            let ghost before = self.log();
            self.entries.push((t, payload));
            assert(self.log() =~= before.push((t, p@)));
            assert(self.log() =~= kept + entries@.subrange(0, i + 1).map_values(
                |e: (u64, &[u8])| borrowed_entry_model(e),
            ));
            i = i + 1;
        }
        assert(entries@.subrange(0, n as int) =~= entries@);
    }

    /// Drops the entries at or after the 1-based `low_index`, keeping those before it.
    pub fn truncate(&mut self, low_index: u64)
        ensures
            final(self).log() == entries_before(old(self).log(), low_index),
            final(self).term() == old(self).term(),
            final(self).vote() == old(self).vote(),
            final(self).volume() == old(self).volume(),
            final(self).log_id() == old(self).log_id(),
    {
        let keep: u64 = if low_index == 0 { 0 } else { low_index - 1 };
        if keep <= self.entries.len() as u64 {
            self.entries.truncate(keep as usize);
        }
        assert(self.log() =~= entries_before(old(self).log(), low_index));
    }

    /// A copy of the entries at or after the 1-based `low_index`; the log keeps them.
    pub fn rollback(&self, low_index: u64) -> (r: Vec<(u64, Vec<u8>)>)
        ensures
            r@.map_values(|e: (u64, Vec<u8>)| entry_model(e)) == entries_from(self.log(), low_index),
    {
        let start: u64 = if low_index == 0 { 0 } else { low_index - 1 };
        let len = self.entries.len();
        let mut out: Vec<(u64, Vec<u8>)> = Vec::new();
        if start > len as u64 {
            assert(out@.map_values(|e: (u64, Vec<u8>)| entry_model(e)) =~= entries_from(self.log(), low_index));
            return out;
        }
        let mut i: usize = start as usize;
        while i < len
            invariant
                start <= i <= len,
                len == self.entries@.len(),
                out@.map_values(|e: (u64, Vec<u8>)| entry_model(e)) == self.log().subrange(start as int, i as int),
            decreases len - i,
        {
            let e = &self.entries[i];
            let payload = e.1.clone();
            assert(payload@ =~= e.1@);
            let ghost before = out@.map_values(|e: (u64, Vec<u8>)| entry_model(e));
            out.push((e.0, payload));
            assert(out@.map_values(|e: (u64, Vec<u8>)| entry_model(e)) =~= before.push(self.log()[i as int]));
            assert(out@.map_values(|e: (u64, Vec<u8>)| entry_model(e)) =~= self.log().subrange(start as int, i + 1));
            i = i + 1;
        }
        out
    }

    /// The bytes that store the current term.
    pub fn encode_term(&self) -> (r: Vec<u8>)
        ensures
            r@ == term_bytes(self.term()),
    {
        let mut out: Vec<u8> = Vec::new();
        write_u64(&mut out, self.term);
        assert(out@ =~= term_bytes(self.term()));
        out
    }

    /// The bytes that store the vote.
    pub fn encode_vote(&self) -> (r: Vec<u8>)
        ensures
            r@ == vote_bytes(self.vote()),
    {
        let mut out: Vec<u8> = Vec::new();
        match self.vote {
            Some(id) => {
                out.push(1u8);
                write_u64(&mut out, id);
            },
            None => {
                out.push(0u8);
            },
        }
        assert(out@ =~= vote_bytes(self.vote()));
        out
    }

    /// The bytes that store all entries.
    pub fn snapshot(&self) -> (r: Vec<u8>)
        ensures
            r@ == log_bytes(self.log()),
    {
        let mut out: Vec<u8> = Vec::new();
        let len = self.entries.len();
        write_u64(&mut out, len as u64);
        let mut i: usize = 0;
        while i < len
            invariant
                len == self.entries@.len(),
                0 <= i <= len,
                out@ == u64_field(len as u64) + entries_bytes(self.log().subrange(0, i as int)),
            decreases len - i,
        {
            let e = &self.entries[i];
            write_u64(&mut out, e.0);
            write_bytes(&mut out, &e.1);
            proof {
                let init = self.log().subrange(0, i as int);
                let next = self.log().subrange(0, i + 1);
                assert(next.drop_last() =~= init);
                assert(next.last() == entry_model(*e));
            }
            assert(out@ =~= u64_field(len as u64) + entries_bytes(self.log().subrange(0, i + 1)));
            i = i + 1;
        }
        assert(self.log().subrange(0, len as int) =~= self.log());
        out
    }

    /// Takes back the current term from its stored bytes; fails, changing nothing, on bytes
    /// that do not store a term.
    pub fn restore_term(&mut self, bytes: &[u8]) -> (r: Result<(), Error>)
        ensures
            match parse_term(bytes@) {
                Some(t) => r is Ok && final(self).term() == t,
                None => r == Err::<(), Error>(Error::Corrupt) && final(self).term() == old(self).term(),
            },
            final(self).vote() == old(self).vote(),
            final(self).log() == old(self).log(),
            final(self).volume() == old(self).volume(),
            final(self).log_id() == old(self).log_id(),
    {
        if bytes.len() != 8 {
            return Err(Error::Corrupt);
        }
        match read_u64_at(bytes, 0) {
            Some(t) => {
                self.term = t;
                Ok(())
            },
            None => Err(Error::Corrupt),
        }
    }

    /// Takes back the vote from its stored bytes; fails, changing nothing, on bytes that do
    /// not store a vote.
    pub fn restore_vote(&mut self, bytes: &[u8]) -> (r: Result<(), Error>)
        ensures
            match parse_vote(bytes@) {
                Some(v) => r is Ok && final(self).vote() == v,
                None => r == Err::<(), Error>(Error::Corrupt) && final(self).vote() == old(self).vote(),
            },
            final(self).term() == old(self).term(),
            final(self).log() == old(self).log(),
            final(self).volume() == old(self).volume(),
            final(self).log_id() == old(self).log_id(),
    {
        let len = bytes.len();
        if len == 1 && bytes[0] == 0 {
            self.vote = None;
            Ok(())
        } else if len == 9 && bytes[0] == 1 {
            match read_u64_at(bytes, 1) {
                Some(id) => {
                    self.vote = Some(id);
                    Ok(())
                },
                None => Err(Error::Corrupt),
            }
        } else {
            Err(Error::Corrupt)
        }
    }

    /// Takes back all entries from their stored bytes; fails, changing nothing, on bytes
    /// that do not store a sequence of entries.
    pub fn restore_snapshot(&mut self, bytes: &[u8]) -> (r: Result<(), Error>)
        ensures
            match parse_log(bytes@) {
                Some(es) => r is Ok && final(self).log() == es,
                None => r == Err::<(), Error>(Error::Corrupt) && final(self).log() == old(self).log(),
            },
            final(self).term() == old(self).term(),
            final(self).vote() == old(self).vote(),
            final(self).volume() == old(self).volume(),
            final(self).log_id() == old(self).log_id(),
    {
        let len = bytes.len();
        let count = match read_u64_at(bytes, 0) {
            Some(n) => n,
            None => return Err(Error::Corrupt),
        };
        let mut entries: Vec<(u64, Vec<u8>)> = Vec::new();
        let mut at: usize = 8;
        let mut k: u64 = 0;
        while k < count
            invariant
                len == bytes@.len(),
                read_u64(bytes@, 0) == Some(count),
                k <= count,
                read_entries(bytes@, 8, k as nat) == Some(
                    (entries@.map_values(|e: (u64, Vec<u8>)| entry_model(e)), at as int),
                ),
            decreases count - k,
        {
            let ghost before = entries@.map_values(|e: (u64, Vec<u8>)| entry_model(e));
            let t = match read_u64_at(bytes, at) {
                Some(t) => t,
                None => {
                    assert(read_entries(bytes@, 8, (k + 1) as nat) is None);
                    assert(parse_log(bytes@) is None) by {
                        lemma_read_entries_none(bytes@, 8, (k + 1) as nat, count as nat);
                        assert(read_entries(bytes@, 8, count as nat) is None);
                        assert(read_u64(bytes@, 0) == Some(count));
                    }
                    return Err(Error::Corrupt);
                },
            };
            let (p, e) = match read_bytes_at(bytes, at + 8) {
                Some(pe) => pe,
                None => {
                    assert(read_entries(bytes@, 8, (k + 1) as nat) is None);
                    assert(parse_log(bytes@) is None) by {
                        lemma_read_entries_none(bytes@, 8, (k + 1) as nat, count as nat);
                        assert(read_entries(bytes@, 8, count as nat) is None);
                        assert(read_u64(bytes@, 0) == Some(count));
                    }
                    return Err(Error::Corrupt);
                },
            };
            entries.push((t, p));
            assert(entries@.map_values(|e: (u64, Vec<u8>)| entry_model(e)) =~= before.push((t, p@)));
            at = e;
            k = k + 1;
        }
        if at != len {
            return Err(Error::Corrupt);
        }
        self.entries = entries;
        Ok(())
    }
}

} // verus!
