//! The login that a session keeps, and its text form: the user name and the hashed
//! password, each as a byte string of its UTF-8 bytes, written in standard base64.
use vstd::prelude::*;
use vstd::utf8::{decode_utf8, encode_utf8, encode_utf8_decode_utf8, encode_utf8_valid_utf8, valid_utf8};
use crate::codec::{bytes_field, lemma_read_bytes, read_bytes, read_bytes_at, write_bytes};

verus! {

/// The base64 text (standard alphabet, with padding) of `b`.
pub uninterp spec fn base64_text(b: Seq<u8>) -> Seq<char>;

/// The bytes that the base64 text `s` (standard alphabet, with padding) stands for, if it is
/// such a text.
pub uninterp spec fn base64_bytes(s: Seq<char>) -> Option<Seq<u8>>;

/// Relies on base64's `STANDARD.encode`: the padded text, which `STANDARD.decode` takes back
/// to the same bytes. The encoder panics when the text's length overflows, hence the bound.
#[verifier::external_body]
fn base64_encode(b: &[u8]) -> (r: String)
    requires
        b@.len() <= usize::MAX / 2,
    ensures
        r@ == base64_text(b@),
        base64_bytes(r@) == Some(b@),
{
    base64::Engine::encode(&base64::engine::general_purpose::STANDARD, b)
}

/// Relies on base64's `STANDARD.decode`: the bytes, or an error for text that is not padded
/// standard base64.
#[verifier::external_body]
fn base64_decode(s: &str) -> (r: Option<Vec<u8>>)
    ensures
        match r {
            Some(b) => base64_bytes(s@) == Some(b@),
            None => base64_bytes(s@) is None,
        },
{
    base64::Engine::decode(&base64::engine::general_purpose::STANDARD, s).ok()
}

/// Relies on std's `String::from_utf8`: a string exactly when the bytes are valid UTF-8,
/// and then the string those bytes encode.
#[verifier::external_body]
fn string_from_utf8(b: Vec<u8>) -> (r: Option<String>)
    ensures
        r is Some <==> valid_utf8(b@),
        r is Some ==> r->0@ == decode_utf8(b@),
{
    String::from_utf8(b).ok()
}

/// The bytes that a login's text form encodes.
pub open spec fn login_bytes(username: Seq<char>, hashed_password: Seq<char>) -> Seq<u8> {
    bytes_field(encode_utf8(username)) + bytes_field(encode_utf8(hashed_password))
}

/// The user name and hashed password that `s` encodes, with no byte left over.
pub open spec fn parse_login(s: Seq<u8>) -> Option<(Seq<char>, Seq<char>)> {
    match read_bytes(s, 0) {
        Some((u, e)) => match read_bytes(s, e) {
            Some((p, e2)) => if e2 == s.len() && valid_utf8(u) && valid_utf8(p) {
                Some((decode_utf8(u), decode_utf8(p)))
            } else {
                None
            },
            None => None,
        },
        None => None,
    }
}

/// The login that the text `value` stands for.
pub open spec fn login_of_text(value: Seq<char>) -> Option<(Seq<char>, Seq<char>)> {
    match base64_bytes(value) {
        Some(b) => parse_login(b),
        None => None,
    }
}

/// The bytes of a login decode back to its user name and hashed password.
pub proof fn lemma_login_round_trip(username: Seq<char>, hashed_password: Seq<char>)
    requires
        encode_utf8(username).len() <= u64::MAX,
        encode_utf8(hashed_password).len() <= u64::MAX,
    ensures
        parse_login(login_bytes(username, hashed_password)) == Some((username, hashed_password)),
{
    let ub = encode_utf8(username);
    let pb = encode_utf8(hashed_password);
    let s = login_bytes(username, hashed_password);
    lemma_read_bytes(Seq::empty(), ub, bytes_field(pb));
    assert(Seq::<u8>::empty() + bytes_field(ub) + bytes_field(pb) =~= s);
    vstd::bytes::lemma_auto_spec_u64_to_from_le_bytes();
    lemma_read_bytes(bytes_field(ub), pb, Seq::empty());
    assert(bytes_field(ub) + bytes_field(pb) + Seq::<u8>::empty() =~= s);
    encode_utf8_valid_utf8(username);
    encode_utf8_valid_utf8(hashed_password);
    encode_utf8_decode_utf8(username);
    encode_utf8_decode_utf8(hashed_password);
}

/// The data that a session keeps of a logged-in user.
#[derive(Debug, Clone)]
pub struct Login {
    /// The name of the user.
    pub username: String,
    /// The user's password, hashed.
    pub hashed_password: String,
}

impl Login {
    /// A login of `username` with `hashed_password`.
    pub fn new(username: String, hashed_password: String) -> (r: Login)
        ensures
            r.username@ == username@,
            r.hashed_password@ == hashed_password@,
    {
        Login { username, hashed_password }
    }

    /// The text form of this login.
    pub fn into_raw(&self) -> (r: String)
        requires
            encode_utf8(self.username@).len() + encode_utf8(self.hashed_password@).len()
                <= usize::MAX / 4,
        ensures
            r@ == base64_text(login_bytes(self.username@, self.hashed_password@)),
            login_of_text(r@) == Some((self.username@, self.hashed_password@)),
    {
        let mut bytes: Vec<u8> = Vec::new();
        let u = self.username.as_str().as_bytes_vec();
        let p = self.hashed_password.as_str().as_bytes_vec();
        write_bytes(&mut bytes, &u);
        write_bytes(&mut bytes, &p);
        assert(bytes@ =~= login_bytes(self.username@, self.hashed_password@));
        proof {
            lemma_login_round_trip(self.username@, self.hashed_password@);
            vstd::bytes::lemma_auto_spec_u64_to_from_le_bytes();
            assert(bytes@.len() == 16 + u@.len() + p@.len());
        }
        base64_encode(bytes.as_slice())
    }

    /// The login that the text `value` stands for, if it stands for one.
    pub fn from_raw(value: &str) -> (r: Option<Login>)
        ensures
            match (r, login_of_text(value@)) {
                (Some(l), Some((u, p))) => l.username@ == u && l.hashed_password@ == p,
                (None, None) => true,
                _ => false,
            },
    {
        let bytes = match base64_decode(value) {
            Some(b) => b,
            None => return None,
        };
        let s = bytes.as_slice();
        let (u, e) = match read_bytes_at(s, 0) {
            Some(ue) => ue,
            None => return None,
        };
        let (p, e2) = match read_bytes_at(s, e) {
            Some(pe) => pe,
            None => return None,
        };
        if e2 != s.len() {
            return None;
        }
        let username = match string_from_utf8(u) {
            Some(t) => t,
            None => return None,
        };
        let hashed_password = match string_from_utf8(p) {
            Some(t) => t,
            None => return None,
        };
        Some(Login { username, hashed_password })
    }
}

} // verus!
