//! The three kinds of object and their canonical bytes.
//!
//! An object's identity is a function of its content: the payload that
//! [`Object::bytes`] returns, framed by [`frame`] with the object's kind and
//! the payload's length.

pub mod author;
pub mod commit;
pub mod tree;

pub use author::Author;
pub use commit::Commit;
pub use tree::{Entry, Tree};

use crate::oid::object_id;
use crate::text::{decimal, push_decimal};
use vstd::prelude::*;
use vstd::utf8::encode_utf8;

verus! {

/// The kind of an object.
#[derive(Debug, Clone, Copy, PartialEq, Eq, Structural)]
pub enum Datatype {
    Blob,
    Tree,
    Commit,
}

impl Datatype {
    /// The word that names the kind in an object's frame.
    pub open spec fn tag(self) -> Seq<char> {
        match self {
            Datatype::Blob => "blob"@,
            Datatype::Tree => "tree"@,
            Datatype::Commit => "commit"@,
        }
    }

    /// The word that names the kind.
    pub fn to_string(&self) -> (tag: String)
        ensures
            tag@ == self.tag(),
    {
        match self {
            Datatype::Blob => String::from_str("blob"),
            Datatype::Tree => String::from_str("tree"),
            Datatype::Commit => String::from_str("commit"),
        }
    }
}

/// The text before the payload in a framed object: kind, a space, the
/// payload's length in decimal, and a NUL.
pub open spec fn frame_header(kind: Datatype, len: nat) -> Seq<char> {
    kind.tag() + seq![' '] + decimal(len) + seq!['\0']
}

/// The framed bytes of an object: the header, then the payload.
pub open spec fn framed(kind: Datatype, payload: Seq<u8>) -> Seq<u8> {
    encode_utf8(frame_header(kind, payload.len())) + payload
}

/// Frames a payload.
pub fn frame(datatype: &Datatype, payload: Vec<u8>) -> (content: Vec<u8>)
    ensures
        content@ == framed(*datatype, payload@),
{
    proof {
        reveal_strlit(" ");
        reveal_strlit("\0");
    }
    let mut payload = payload;
    let mut header = datatype.to_string();
    header.append(" ");
    push_decimal(&mut header, payload.len() as u64);
    header.append("\0");
    assert(header@ =~= frame_header(*datatype, payload@.len()));
    let mut content = header.as_str().as_bytes_vec();
    content.append(&mut payload);
    content
}

/// What every kind of object offers: its payload, its kind, and the
/// identifier that the store gives it.
pub trait Object: Sized {
    /// What the object is made from.
    type Input;

    /// The object can be encoded.
    spec fn well_formed(&self) -> bool;

    /// The payload: the object's canonical bytes, without the frame.
    spec fn payload(&self) -> Seq<u8>;

    /// The kind of the object.
    spec fn kind(&self) -> Datatype;

    /// The identifier, once the object has one.
    spec fn identifier(&self) -> Option<Seq<char>>;

    /// A new object, which has no identifier yet.
    fn new(data: Self::Input) -> (object: Self)
        ensures
            object.identifier() is None,
    ;

    /// The payload.
    fn bytes(&self) -> (bytes: Vec<u8>)
        requires
            self.well_formed(),
        ensures
            bytes@ == self.payload(),
    ;

    /// The kind.
    fn datatype(&self) -> (datatype: &Datatype)
        ensures
            *datatype == self.kind(),
    ;

    /// The identifier, or `None` before the object was given one.
    fn oid(&self) -> (oid: Option<&String>)
        ensures
            oid is Some <==> self.identifier() is Some,
            oid matches Some(id) ==> self.identifier() == Some(id@),
    ;

    /// Gives the object its identifier. Nothing else changes.
    fn set_oid(&mut self, oid: String)
        ensures
            final(self).identifier() == Some(oid@),
            final(self).payload() == old(self).payload(),
            final(self).kind() == old(self).kind(),
            final(self).well_formed() == old(self).well_formed(),
    ;
}

/// Determinism: the framed bytes of an object, and with them its
/// identifier, are a function of its kind and its payload. Two objects of
/// one kind and one payload are framed alike, whatever else may differ
/// between them and whenever they are encoded.
pub proof fn lemma_identity_is_content<A: Object, B: Object>(one: A, other: B)
    requires
        one.kind() == other.kind(),
        one.payload() == other.payload(),
    ensures
        framed(one.kind(), one.payload()) == framed(other.kind(), other.payload()),
        object_id(framed(one.kind(), one.payload())) == object_id(
            framed(other.kind(), other.payload()),
        ),
{
}

/// The content of one file.
pub struct Blob {
    data: Vec<u8>,
    datatype: Datatype,
    oid: Option<String>,
}

impl Object for Blob {
    type Input = Vec<u8>;

    open spec fn well_formed(&self) -> bool {
        true
    }

    closed spec fn payload(&self) -> Seq<u8> {
        self.data@
    }

    closed spec fn kind(&self) -> Datatype {
        self.datatype
    }

    closed spec fn identifier(&self) -> Option<Seq<char>> {
        match self.oid {
            Some(id) => Some(id@),
            None => None,
        }
    }

    /// A blob whose payload is `data`.
    fn new(data: Vec<u8>) -> (blob: Blob)
        ensures
            blob.payload() == data@,
            blob.kind() == Datatype::Blob,
    {
        Blob { data, datatype: Datatype::Blob, oid: None }
    }

    fn bytes(&self) -> (bytes: Vec<u8>) {
        self.data.clone()
    }

    fn datatype(&self) -> (datatype: &Datatype) {
        &self.datatype
    }

    fn oid(&self) -> (oid: Option<&String>) {
        self.oid.as_ref()
    }

    fn set_oid(&mut self, oid: String) {
        self.oid = Some(oid);
    }
}

} // verus!
