use vstd::prelude::*;

verus! {

/// A structured error: a chain of human-readable messages, outermost
/// context first, with the position (if any) from which the chain is an
/// internal detail that terse output should not show.
#[derive(Debug)]
pub struct NianjiaError {
    /// Messages, outermost context first; the last entry is the root cause.
    pub chain: Vec<String>,
    /// Index of the message marked as internal, if any.
    pub internal_from: Option<usize>,
}

impl NianjiaError {
    /// The message chain as sequences of characters.
    pub open spec fn chain_text(self) -> Seq<Seq<char>> {
        self.chain@.map_values(|m: String| m@)
    }

    /// A well-formed error has at least one message, and its internal
    /// marker, if any, points into the chain.
    pub open spec fn wf(self) -> bool {
        &&& self.chain.len() >= 1
        &&& match self.internal_from {
            Some(i) => i < self.chain.len(),
            None => true,
        }
    }

    /// Whether any part of the chain is marked internal.
    pub open spec fn is_internal(self) -> bool {
        self.internal_from is Some
    }

    /// An ordinary error with a single message.
    pub fn msg(message: String) -> (r: NianjiaError)
        ensures
            r.wf(),
            r.chain@.len() == 1,
            r.chain@[0]@ == message@,
            r.internal_from is None,
    {
        NianjiaError { chain: vec![message], internal_from: None }
    }

    /// Wraps the error in one more layer of context, as seen by a caller
    /// that knows which file or key was being processed.
    pub fn context(self, message: String) -> (r: NianjiaError)
        requires
            self.wf(),
        ensures
            r.wf(),
            r.chain@.len() == self.chain@.len() + 1,
            r.chain@[0] == message,
            r.chain@.skip(1) == self.chain@,
            r.internal_from == match self.internal_from {
                Some(i) => Some((i + 1) as usize),
                None => None::<usize>,
            },
            r.is_internal() == self.is_internal(),
    {
        let mut chain = self.chain;
        chain.insert(0, message);
        let internal_from: Option<usize> = match self.internal_from {
            Some(i) => Some(i + 1),
            None => None,
        };
        NianjiaError { chain, internal_from }
    }

    /// The causes that terse or verbose output shows below the first
    /// message: all of them when verbose, otherwise only those before the
    /// internal marker.
    pub open spec fn spec_shown_causes(self, verbose: bool) -> Seq<String> {
        if verbose {
            self.chain@.skip(1)
        } else {
            match self.internal_from {
                Some(i) => self.chain@.subrange(1, if i < 1 { 1 } else { i as int }),
                None => self.chain@.skip(1),
            }
        }
    }

    /// Whether terse output stops early, before an internal message.
    pub open spec fn spec_truncated(self, verbose: bool) -> bool {
        !verbose && self.internal_from is Some
    }

    /// The cause messages to display under the first message.  When not
    /// verbose, the walk stops at the message marked internal; the second
    /// result is false exactly when that happened.
    pub fn shown_causes(&self, verbose: bool) -> (r: (Vec<String>, bool))
        requires
            self.wf(),
        ensures
            r.0@ == self.spec_shown_causes(verbose),
            r.1 == !self.spec_truncated(verbose),
    {
        let stop: usize = if verbose {
            self.chain.len()
        } else {
            match self.internal_from {
                Some(i) => {
                    if i < 1 {
                        1
                    } else {
                        i
                    }
                },
                None => self.chain.len(),
            }
        };
        let mut out: Vec<String> = Vec::new();
        let mut j: usize = 1;
        while j < stop
            invariant
                1 <= j <= stop,
                stop <= self.chain.len(),
                out@ == self.chain@.subrange(1, j as int),
            decreases stop - j,
        {
            out.push(self.chain[j].clone());
            assert(out@ == self.chain@.subrange(1, j + 1 as int));
            j += 1;
        }
        proof {
            if stop == self.chain.len() {
                assert(self.chain@.subrange(1, stop as int) == self.chain@.skip(1));
            }
        }
        (out, !(!verbose && self.internal_from.is_some()))
    }
}

/// The chain of a once-wrapped error: the context, then the original
/// messages.
pub proof fn lemma_chain_after_context(e: NianjiaError, w: NianjiaError, c: Seq<char>)
    requires
        w.chain@.len() == e.chain@.len() + 1,
        w.chain@[0]@ == c,
        w.chain@.skip(1) == e.chain@,
    ensures
        w.chain_text() =~= seq![c] + e.chain_text(),
{
    assert forall|j: int| 0 <= j < e.chain@.len() implies #[trigger] w.chain@[j + 1]@
        == e.chain@[j]@ by {
        assert(w.chain@[j + 1] == w.chain@.skip(1)[j]);
    }
}

/// The chain of a twice-wrapped error: the outer context, the inner
/// context, then the original messages.
pub proof fn lemma_chain_after_two_contexts(
    e: NianjiaError,
    w1: NianjiaError,
    w2: NianjiaError,
    c1: Seq<char>,
    c2: Seq<char>,
)
    requires
        w1.chain@.len() == e.chain@.len() + 1,
        w1.chain@[0]@ == c1,
        w1.chain@.skip(1) == e.chain@,
        w2.chain@.len() == w1.chain@.len() + 1,
        w2.chain@[0]@ == c2,
        w2.chain@.skip(1) == w1.chain@,
    ensures
        w2.chain_text() =~= seq![c2, c1] + e.chain_text(),
{
    lemma_chain_after_context(e, w1, c1);
    lemma_chain_after_context(w1, w2, c2);
    assert(w2.chain_text() =~= seq![c2] + (seq![c1] + e.chain_text()));
}

/// An error marked as an internal fault: terse output hides its details.
#[derive(Debug)]
pub struct Internal {
    pub inner: NianjiaError,
}

impl Internal {
    /// Wraps an error, marking it internal from its outermost message.
    pub fn new(inner: NianjiaError) -> (r: Internal)
        requires
            inner.wf(),
        ensures
            r.inner.wf(),
            r.inner.chain == inner.chain,
            r.inner.internal_from == Some(0usize),
    {
        Internal { inner: NianjiaError { chain: inner.chain, internal_from: Some(0) } }
    }
}

/// An internal error with the given message: its details are only shown in
/// verbose output.
pub fn internal(message: String) -> (r: NianjiaError)
    ensures
        r.wf(),
        r.chain@.len() == 1,
        r.chain@[0]@ == message@,
        r.internal_from == Some(0usize),
        r.is_internal(),
{
    NianjiaError { chain: vec![message], internal_from: Some(0) }
}

/// The error carried out of the command-line entry point, with the exit
/// code the process should end with.
#[derive(Debug)]
pub struct CliError {
    pub error: Option<NianjiaError>,
    pub unknown: bool,
    pub exit_code: i32,
}

impl CliError {
    /// Whether the carried error, if any, is well formed.
    pub open spec fn wf(self) -> bool {
        match self.error {
            Some(e) => e.wf(),
            None => true,
        }
    }

    /// An error to report before exiting with `code`; it counts as unknown
    /// when its outermost message is already the internal marker.
    pub fn new(error: NianjiaError, code: i32) -> (r: CliError)
        requires
            error.wf(),
        ensures
            r.wf(),
            r.error == Some(error),
            r.exit_code == code,
            r.unknown == (error.internal_from == Some(0usize)),
    {
        let unknown = match error.internal_from {
            Some(i) => i == 0,
            None => false,
        };
        CliError { error: Some(error), exit_code: code, unknown }
    }

    /// A silent exit with the given code.
    pub fn code(code: i32) -> (r: CliError)
        ensures
            r.wf(),
            r.error is None,
            r.exit_code == code,
            !r.unknown,
    {
        CliError { error: None, exit_code: code, unknown: false }
    }
}

} // verus!
