//! Who made a commit, and when.

use crate::text::{push_signed_decimal, signed_decimal};
use vstd::prelude::*;

verus! {

/// The author of a commit: a name, an e-mail address, and the moment the
/// record was made, in whole seconds since the Unix epoch.
pub struct Author {
    name: String,
    email: String,
    time: i64,
}

/// An [`Author`] as a mathematical value.
pub struct AuthorView {
    pub name: Seq<char>,
    pub email: Seq<char>,
    pub time: int,
}

impl View for Author {
    type V = AuthorView;

    closed spec fn view(&self) -> AuthorView {
        AuthorView { name: self.name@, email: self.email@, time: self.time as int }
    }
}

/// The line that stands for an author in a commit: name, address, seconds
/// since the epoch, and the offset from UTC, which is always zero.
pub open spec fn author_line(author: AuthorView) -> Seq<char> {
    author.name + seq![' '] + author.email + seq![' '] + signed_decimal(author.time) + " +0000"@
}

/// The current time through `chrono`, as `DateTime::<Utc>::timestamp` of
/// the system clock's reading. Nothing is claimed of the number.
#[verifier::external_body]
fn unix_time_now() -> (seconds: i64) {
    chrono::DateTime::<chrono::Utc>::from(std::time::SystemTime::now()).timestamp()
}

impl Author {
    /// An author record made now.
    pub fn new(name: String, email: String) -> (author: Author)
        ensures
            author@.name == name@,
            author@.email == email@,
    {
        Author::at(name, email, unix_time_now())
    }

    /// An author record made at the given second.
    pub fn at(name: String, email: String, time: i64) -> (author: Author)
        ensures
            author@ == (AuthorView { name: name@, email: email@, time: time as int }),
    {
        Author { name, email, time }
    }

    /// The second at which the record was made.
    pub fn time(&self) -> (time: i64)
        ensures
            time == self@.time,
    {
        self.time
    }

    /// The author as a commit spells it.
    pub fn to_string(&self) -> (line: String)
        ensures
            line@ == author_line(self@),
    {
        proof {
            reveal_strlit(" ");
        }
        let mut line = self.name.clone();
        line.append(" ");
        line.append(self.email.as_str());
        line.append(" ");
        push_signed_decimal(&mut line, self.time);
        line.append(" +0000");
        assert(line@ =~= author_line(self@));
        line
    }
}

} // verus!
