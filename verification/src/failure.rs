//! Errors: a message, and the messages of what caused it.
use crate::compose;
use crate::compose::join_list;
use vstd::prelude::*;

verus! {

/// An error that says what failed, followed by its causes, the nearest one first.
#[derive(Debug)]
pub struct Failure {
    head: String,
    causes: Vec<String>,
}

impl View for Failure {
    type V = Seq<Seq<char>>;

    /// The messages, the outermost one first.
    closed spec fn view(&self) -> Seq<Seq<char>> {
        seq![self.head@] + self.causes.deep_view()
    }
}

/// The chain of messages of a failure without a cause.
pub open spec fn plain(message: Seq<char>) -> Seq<Seq<char>> {
    seq![message]
}

/// The chain of messages of a failure that `message` was added to.
pub open spec fn in_context(message: Seq<char>, chain: Seq<Seq<char>>) -> Seq<Seq<char>> {
    seq![message] + chain
}

impl Failure {
    pub fn new(message: String) -> (res: Self)
        ensures
            res@ == plain(message@),
    {
        let res = Failure { head: message, causes: Vec::new() };
        assert(res@ =~= plain(message@));
        res
    }

    /// A failure whose causes are not empty only where the list is not.
    pub fn from_chain(message: String, causes: Vec<String>) -> (res: Self)
        ensures
            res@ == in_context(message@, causes.deep_view()),
    {
        Failure { head: message, causes }
    }

    /// The same failure, seen as the cause of a failure with the message.
    pub fn context(self, message: String) -> (res: Self)
        ensures
            res@ == in_context(message@, self@),
    {
        let ghost chain = self@;
        let mut causes: Vec<String> = Vec::new();
        causes.push(self.head);
        let mut rest: Vec<String> = self.causes;
        let ghost tail = rest@;
        causes.append(&mut rest);
        let res = Failure { head: message, causes };
        proof {
            assert(causes@ =~= seq![self.head] + tail);
            assert(causes.deep_view() =~= chain);
        }
        res
    }

    /// The outermost message.
    pub fn message(&self) -> (res: String)
        ensures
            self@.len() > 0,
            res@ == self@[0],
    {
        self.head.clone()
    }

    /// All messages, the outermost one first.
    pub fn chain(&self) -> (res: Vec<String>)
        ensures
            res.deep_view() == self@,
    {
        let mut out: Vec<String> = Vec::new();
        out.push(self.head.clone());
        let mut rest: Vec<String> = crate::text::copy_list(self.causes.as_slice());
        let ghost tail = rest@;
        assert(rest.deep_view() == self.causes.deep_view());
        out.append(&mut rest);
        proof {
            assert(out.deep_view() =~= self@) by {
                assert forall|i: int| 0 <= i < self@.len() implies out.deep_view()[i] == self@[i] by {
                    if i > 0 {
                        assert(out@[i] == tail[i - 1]);
                        assert(self.causes.deep_view()[i - 1] == tail[i - 1]@);
                    }
                }
            }
        }
        out
    }

    pub fn copied(&self) -> (res: Self)
        ensures
            res@ == self@,
    {
        let res = Failure {
            head: self.head.clone(),
            causes: crate::text::copy_list(self.causes.as_slice()),
        };
        assert(res@ =~= self@);
        res
    }
}

/// The messages of the failure in one line, each followed by its cause.
pub fn format_error_chain(error: &Failure) -> (res: String)
    ensures
        res@ == compose::join(error@, ": "@),
{
    join_list(error.chain().as_slice(), ": ")
}

/// A failure with context tells the context first, then all that it told before.
pub proof fn lemma_in_context(message: Seq<char>, chain: Seq<Seq<char>>)
    ensures
        in_context(message, chain)[0] == message,
        in_context(message, chain).skip(1) == chain,
        plain(message).len() == 1,
        plain(message)[0] == message,
{
    assert(in_context(message, chain).skip(1) =~= chain);
}

} // verus!
