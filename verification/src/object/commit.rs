//! Commits: a tree, the commit before it if there is one, who made it and
//! why.

use crate::object::author::{author_line, Author, AuthorView};
use crate::object::{Datatype, Object};
use vstd::prelude::*;
use vstd::utf8::encode_utf8;

verus! {

/// The text of a commit: a line for the tree, a line for the parent where
/// there is one (an empty identifier stands for none), a line each for
/// author and committer, an empty line, and the message.
pub open spec fn commit_text(
    parent: Seq<char>,
    tree: Seq<char>,
    author: AuthorView,
    message: Seq<char>,
) -> Seq<char> {
    "tree "@ + tree + seq!['\n'] + (if parent.len() > 0 {
        "parent "@ + parent + seq!['\n']
    } else {
        Seq::empty()
    }) + "author "@ + author_line(author) + seq!['\n'] + "committer "@ + author_line(author)
        + seq!['\n'] + seq!['\n'] + message
}

/// The payload of a commit: its text in UTF-8.
pub open spec fn commit_payload(
    parent: Seq<char>,
    tree: Seq<char>,
    author: AuthorView,
    message: Seq<char>,
) -> Seq<u8> {
    encode_utf8(commit_text(parent, tree, author, message))
}

/// One commit. The identifiers of its parent and its tree are borrowed
/// from whoever made it.
pub struct Commit<'a> {
    parent_oid: &'a String,
    tree_oid: &'a String,
    author: Author,
    message: String,
    datatype: Datatype,
    oid: Option<String>,
}

impl<'a> Commit<'a> {
    /// The identifier of the commit before this one; empty for the first.
    pub closed spec fn parent(&self) -> Seq<char> {
        self.parent_oid@
    }

    /// The identifier of the tree that the commit records.
    pub closed spec fn tree(&self) -> Seq<char> {
        self.tree_oid@
    }

    /// Who made the commit.
    pub closed spec fn author(&self) -> AuthorView {
        self.author@
    }

    /// The message.
    pub closed spec fn message(&self) -> Seq<char> {
        self.message@
    }
}

impl<'a> Object for Commit<'a> {
    type Input = (&'a String, &'a String, Author, String);

    open spec fn well_formed(&self) -> bool {
        true
    }

    closed spec fn payload(&self) -> Seq<u8> {
        commit_payload(self.parent(), self.tree(), self.author(), self.message())
    }

    closed spec fn kind(&self) -> Datatype {
        self.datatype
    }

    closed spec fn identifier(&self) -> Option<Seq<char>> {
        match self.oid {
            Some(id) => Some(id@),
            None => None,
        }
    }

    /// A commit of parent, tree, author and message, in this order.
    fn new(data: (&'a String, &'a String, Author, String)) -> (commit: Commit<'a>)
        ensures
            commit.parent() == data.0@,
            commit.tree() == data.1@,
            commit.author() == data.2@,
            commit.message() == data.3@,
            commit.payload() == commit_payload(data.0@, data.1@, data.2@, data.3@),
            commit.kind() == Datatype::Commit,
    {
        let (parent_oid, tree_oid, author, message) = data;
        Commit { parent_oid, tree_oid, author, message, datatype: Datatype::Commit, oid: None }
    }

    fn bytes(&self) -> (bytes: Vec<u8>) {
        proof {
            reveal_strlit("\n");
        }
        let line = self.author.to_string();
        let mut text = String::from_str("tree ");
        text.append(self.tree_oid.as_str());
        text.append("\n");
        if !self.parent_oid.as_str().is_empty() {
            text.append("parent ");
            text.append(self.parent_oid.as_str());
            text.append("\n");
        }
        text.append("author ");
        text.append(line.as_str());
        text.append("\n");
        text.append("committer ");
        text.append(line.as_str());
        text.append("\n");
        text.append("\n");
        text.append(self.message.as_str());
        assert(text@ =~= commit_text(self.parent(), self.tree(), self.author(), self.message()));
        text.as_str().as_bytes_vec()
    }

    fn datatype(&self) -> (datatype: &Datatype) {
        &self.datatype
    }

    fn oid(&self) -> (oid: Option<&String>) {
        self.oid.as_ref()
    }

    /// Gives the commit its identifier. What it records stays as it is.
    fn set_oid(&mut self, oid: String)
        ensures
            final(self).parent() == old(self).parent(),
            final(self).tree() == old(self).tree(),
            final(self).author() == old(self).author(),
            final(self).message() == old(self).message(),
    {
        self.oid = Some(oid);
    }
}

} // verus!
