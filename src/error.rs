//! Error records: a message with an optional cause, collected in ordered lists.

use vstd::prelude::*;

use crate::text::{decimal, push_char, push_decimal, push_str};

verus! {

/// One problem: a human-readable message and, optionally, the text of its cause.
pub struct Error {
    message: String,
    additional: Option<String>,
}

/// The problems that one operation reports, in the order they were found.
pub type Errors = Vec<Error>;

/// The location suffix `[path:line]` that marks where a problem was found.
pub open spec fn location_suffix(path: Seq<char>, line_number: nat) -> Seq<char> {
    seq!['['] + path + seq![':'] + decimal(line_number) + seq![']']
}

impl Error {
    pub closed spec fn spec_message(&self) -> Seq<char> {
        self.message@
    }

    pub closed spec fn spec_additional(&self) -> Option<Seq<char>> {
        match self.additional {
            Some(a) => Some(a@),
            None => None,
        }
    }

    /// An error with `message` and no cause.
    pub fn new(message: &str) -> (r: Error)
        ensures
            r.spec_message() == message@,
            r.spec_additional() == None::<Seq<char>>,
    {
        Error { message: message.to_owned(), additional: None }
    }

    /// This error with `additional` recorded as its cause.
    pub fn with(self, additional: &str) -> (r: Error)
        ensures
            r.spec_message() == self.spec_message(),
            r.spec_additional() == Some(additional@),
    {
        Error { message: self.message, additional: Some(additional.to_owned()) }
    }

    /// A list that holds this error alone.
    pub fn as_errors(self) -> (r: Errors)
        ensures
            r@ == seq![self],
    {
        let mut r: Errors = Vec::new();
        r.push(self);
        r
    }

    /// The message.
    pub fn message(&self) -> (r: &str)
        ensures
            r@ == self.spec_message(),
    {
        self.message.as_str()
    }

    /// The cause, when one was recorded.
    pub fn additional(&self) -> (r: Option<&str>)
        ensures
            r matches Some(a) ==> self.spec_additional() == Some(a@),
            r is None <==> self.spec_additional() is None,
    {
        match &self.additional {
            Some(a) => Some(a.as_str()),
            None => None,
        }
    }

    fn append_location(&mut self, path: &str, line_number: usize)
        ensures
            final(self).spec_message() == old(self).spec_message()
                + location_suffix(path@, line_number as nat),
            final(self).spec_additional() == old(self).spec_additional(),
    {
        push_char(&mut self.message, '[');
        push_str(&mut self.message, path);
        push_char(&mut self.message, ':');
        push_decimal(&mut self.message, line_number as u128);
        push_char(&mut self.message, ']');
        assert(self.message@ =~= old(self).message@ + location_suffix(path@, line_number as nat));
    }
}

/// `result`, where every error message is marked with the location `[path:line_number]`.
pub fn with_line_number<T>(result: Result<T, Errors>, filepath: &str, line_number: usize) -> (r:
    Result<T, Errors>)
    ensures
        result is Ok <==> r is Ok,
        result matches Ok(v) ==> r == Ok::<T, Errors>(v),
        result matches Err(es) ==> r matches Err(rs) && rs.len() == es.len() && forall|i: int|
            0 <= i < es.len() ==> {
                &&& (#[trigger] rs[i]).spec_message() == es[i].spec_message()
                    + location_suffix(filepath@, line_number as nat)
                &&& rs[i].spec_additional() == es[i].spec_additional()
            },
{
    match result {
        Ok(v) => Ok(v),
        Err(errors) => {
            let ghost es = errors@;
            let mut rs: Errors = Vec::new();
            for e in it: errors
                invariant
                    it.seq() == es,
                    rs.len() == it.index(),
                    forall|i: int|
                        0 <= i < rs.len() ==> {
                            &&& (#[trigger] rs[i]).spec_message() == es[i].spec_message()
                                + location_suffix(filepath@, line_number as nat)
                            &&& rs[i].spec_additional() == es[i].spec_additional()
                        },
            {
                let mut e = e;
                e.append_location(filepath, line_number);
                rs.push(e);
            }
            Err(rs)
        },
    }
}

} // verus!
