use vstd::prelude::*;

verus! {

/// An evaluation error: a human-readable message together with a chain of
/// context notes, outermost first, added as the error propagates upward.
#[derive(Clone, Debug, PartialEq)]
pub struct Error {
    msgs: Vec<String>,
}

impl View for Error {
    type V = Seq<Seq<char>>;

    closed spec fn view(&self) -> Seq<Seq<char>> {
        self.msgs.deep_view()
    }
}

impl Error {
    /// An error carrying a single message.
    pub fn new(msg: &str) -> (e: Error)
        ensures
            e@ =~= seq![msg@],
    {
        let mut msgs: Vec<String> = Vec::new();
        msgs.push(msg.to_owned());
        Error { msgs }
    }

    /// Wraps the error with a context note, prepended to the chain.
    pub fn pre(self, context: &str) -> (e: Error)
        ensures
            e@ =~= seq![context@].add(self@),
    {
        let mut msgs: Vec<String> = Vec::new();
        msgs.push(context.to_owned());
        let mut rest = self.msgs;
        msgs.append(&mut rest);
        Error { msgs }
    }

    /// The message chain, outermost context first.
    pub fn messages(&self) -> (m: &Vec<String>)
        ensures
            m.deep_view() =~= self@,
    {
        &self.msgs
    }
}

} // verus!
