//! Output sinks and the run-time escaping adapter.
//!
//! A generated procedure writes to a [`Sink`]: an append-only destination
//! whose writes can fail. Two sinks come with the library — one that accepts
//! everything and one with a fixed capacity, whose refusals exercise the
//! fail-fast path — and further destinations can implement the trait.

use vstd::prelude::*;
use vstd::string::StrSliceExecFns;
use crate::escape::{Escape, escaped, escaped_char, escaped_chars};
use crate::escape::{amp_entity, lt_entity, gt_entity, quot_entity};
use crate::escape::{lemma_escaped_chars_concat, lemma_escaped_chars_push};

verus! {

/// A failed write to an output sink. The code carries whatever the sink
/// reported; the emitter surfaces it unchanged and never retries.
#[derive(Clone, Copy, Debug, PartialEq, Eq, Structural)]
pub struct WriteError {
    /// The sink's own description of the failure.
    pub code: u64,
}

/// An append-only output destination with fallible writes.
///
/// A write either appends the whole given text or reports an error having
/// appended nothing; the sink never reorders, drops or rewrites what an
/// earlier write put there.
pub trait Sink {
    /// All text the sink has received, in write order.
    spec fn content(&self) -> Seq<char>;

    /// Append a whole string, or fail and leave the content unchanged.
    fn write_str(&mut self, s: &str) -> (r: Result<(), WriteError>)
        ensures
            r is Ok ==> final(self).content() == old(self).content() + s@,
            r is Err ==> final(self).content() == old(self).content(),
    ;

    /// Append one character, or fail and leave the content unchanged.
    fn write_char(&mut self, c: char) -> (r: Result<(), WriteError>)
        ensures
            r is Ok ==> final(self).content() == old(self).content().push(c),
            r is Err ==> final(self).content() == old(self).content(),
    ;
}

/// A sequence extends to any sequence it starts.
pub proof fn lemma_prefix_extend(a: Seq<char>, b: Seq<char>)
    ensures
        a.is_prefix_of(a + b),
{
    assert((a + b).subrange(0, a.len() as int) =~= a);
}

/// Every sequence is a prefix of itself.
pub proof fn lemma_prefix_reflexive(a: Seq<char>)
    ensures
        a.is_prefix_of(a),
{
    assert(a.subrange(0, a.len() as int) =~= a);
}

/// Being a prefix is transitive.
pub proof fn lemma_prefix_trans(a: Seq<char>, b: Seq<char>, c: Seq<char>)
    requires
        a.is_prefix_of(b),
        b.is_prefix_of(c),
    ensures
        a.is_prefix_of(c),
{
    assert(a =~= c.subrange(0, a.len() as int));
}

/// Append every character of a string to a character buffer.
fn push_str_chars(buf: &mut Vec<char>, s: &str)
    ensures
        final(buf)@ == old(buf)@ + s@,
{
    let n: usize = s.unicode_len();
    let mut i: usize = 0;
    proof {
        assert(buf@ =~= old(buf)@ + s@.take(0));
    }
    while i < n
        invariant
            i <= n,
            n == s@.len(),
            buf@ == old(buf)@ + s@.take(i as int),
        decreases n - i,
    {
        let c = s.get_char(i);
        buf.push(c);
        proof {
            assert(s@.take(i as int + 1) =~= s@.take(i as int).push(s@[i as int]));
            assert(buf@ =~= old(buf)@ + s@.take(i as int + 1));
        }
        i += 1;
    }
    proof {
        assert(s@.take(n as int) =~= s@);
    }
}

/// A sink that keeps everything written to it; its writes never fail.
pub struct BufferSink {
    /// The characters received so far, in write order.
    pub chars: Vec<char>,
}

impl BufferSink {
    /// An empty buffer.
    pub fn new() -> (r: BufferSink)
        ensures
            r.content() == Seq::<char>::empty(),
    {
        BufferSink { chars: Vec::new() }
    }
}

impl Sink for BufferSink {
    open spec fn content(&self) -> Seq<char> {
        self.chars@
    }

    fn write_str(&mut self, s: &str) -> (r: Result<(), WriteError>)
        ensures
            r is Ok,
    {
        push_str_chars(&mut self.chars, s);
        Ok(())
    }

    fn write_char(&mut self, c: char) -> (r: Result<(), WriteError>)
        ensures
            r is Ok,
    {
        self.chars.push(c);
        Ok(())
    }
}

/// A sink with a fixed remaining capacity: a write that fits is appended
/// whole, one that does not fit fails with the sink's error code and appends
/// nothing.
pub struct BoundedSink {
    /// The characters accepted so far, in write order.
    pub chars: Vec<char>,
    /// How many more characters the sink will accept.
    pub budget: usize,
    /// The code this sink reports when a write does not fit.
    pub code: u64,
}

impl BoundedSink {
    /// An empty sink that will accept `budget` characters and then fail
    /// with `code`.
    pub fn new(budget: usize, code: u64) -> (r: BoundedSink)
        ensures
            r.content() == Seq::<char>::empty(),
            r.budget == budget,
            r.code == code,
    {
        BoundedSink { chars: Vec::new(), budget, code }
    }
}

impl Sink for BoundedSink {
    open spec fn content(&self) -> Seq<char> {
        self.chars@
    }

    fn write_str(&mut self, s: &str) -> (r: Result<(), WriteError>)
        ensures
            r is Ok <==> s@.len() <= old(self).budget,
            r is Ok ==> final(self).budget == old(self).budget - s@.len(),
            r is Err ==> final(self).budget == old(self).budget,
            r matches Err(e) ==> e == (WriteError { code: old(self).code }),
            final(self).code == old(self).code,
    {
        let n: usize = s.unicode_len();
        if n <= self.budget {
            self.budget = self.budget - n;
            push_str_chars(&mut self.chars, s);
            Ok(())
        } else {
            Err(WriteError { code: self.code })
        }
    }

    fn write_char(&mut self, c: char) -> (r: Result<(), WriteError>)
        ensures
            r is Ok <==> old(self).budget >= 1,
            r is Ok ==> final(self).budget == old(self).budget - 1,
            r is Err ==> final(self).budget == old(self).budget,
            r matches Err(e) ==> e == (WriteError { code: old(self).code }),
            final(self).code == old(self).code,
    {
        if self.budget >= 1 {
            self.budget = self.budget - 1;
            self.chars.push(c);
            Ok(())
        } else {
            Err(WriteError { code: self.code })
        }
    }
}

/// The run-time escaping adapter: write text through a sink, escaping it
/// under the given mode incrementally as it goes, without first building an
/// unescaped intermediate string. On failure the sink holds what was written
/// before the failing piece, never more than a prefix of the escaped text.
pub fn write_escaped<S: Sink>(sink: &mut S, s: &str, mode: Escape) -> (r: Result<(), WriteError>)
    ensures
        old(sink).content().is_prefix_of(final(sink).content()),
        r is Ok ==> final(sink).content() == old(sink).content() + escaped(mode, s@),
        r is Err ==> final(sink).content().is_prefix_of(old(sink).content() + escaped(mode, s@)),
{
    match mode {
        Escape::NoEscape => {
            let r = sink.write_str(s);
            proof {
                match r {
                    Ok(_) => lemma_prefix_extend(old(sink).content(), s@),
                    Err(_) => {
                        lemma_prefix_reflexive(old(sink).content());
                        lemma_prefix_extend(old(sink).content(), s@);
                    },
                }
            }
            r
        },
        _ => {
            let n: usize = s.unicode_len();
            let mut i: usize = 0;
            proof {
                assert(sink.content() =~= old(sink).content() + escaped_chars(mode, s@.take(0)));
            }
            while i < n
                invariant
                    i <= n,
                    n == s@.len(),
                    mode is Attr || mode is Body,
                    sink.content() == old(sink).content() + escaped_chars(mode, s@.take(i as int)),
                decreases n - i,
            {
                let c = s.get_char(i);
                let res: Result<(), WriteError>;
                if c == '&' {
                    proof {
                        reveal_strlit("&amp;");
                        assert("&amp;"@ =~= amp_entity());
                    }
                    res = sink.write_str("&amp;");
                } else if c == '<' {
                    proof {
                        reveal_strlit("&lt;");
                        assert("&lt;"@ =~= lt_entity());
                    }
                    res = sink.write_str("&lt;");
                } else if c == '>' {
                    proof {
                        reveal_strlit("&gt;");
                        assert("&gt;"@ =~= gt_entity());
                    }
                    res = sink.write_str("&gt;");
                } else if c == '"' && mode == Escape::Attr {
                    proof {
                        reveal_strlit("&quot;");
                        assert("&quot;"@ =~= quot_entity());
                    }
                    res = sink.write_str("&quot;");
                } else {
                    res = sink.write_char(c);
                }
                match res {
                    Ok(_) => {
                        proof {
                            let done = s@.take(i as int);
                            assert(s@.take(i as int + 1) =~= done.push(s@[i as int]));
                            lemma_escaped_chars_push(mode, done, s@[i as int]);
                            if c == '&' || c == '<' || c == '>' || (c == '"' && mode is Attr) {
                                assert(sink.content() =~= old(sink).content() + escaped_chars(
                                    mode,
                                    s@.take(i as int + 1),
                                ));
                            } else {
                                assert(escaped_char(mode, c) =~= seq![c]);
                                assert(sink.content() =~= old(sink).content() + escaped_chars(
                                    mode,
                                    s@.take(i as int + 1),
                                ));
                            }
                        }
                    },
                    Err(e) => {
                        proof {
                            let done = s@.take(i as int);
                            let left = s@.skip(i as int);
                            assert(done + left =~= s@);
                            lemma_escaped_chars_concat(mode, done, left);
                            lemma_prefix_extend(
                                old(sink).content() + escaped_chars(mode, done),
                                escaped_chars(mode, left),
                            );
                            assert((old(sink).content() + escaped_chars(mode, done)) + escaped_chars(
                                mode,
                                left,
                            ) =~= old(sink).content() + escaped(mode, s@));
                            lemma_prefix_extend(old(sink).content(), escaped_chars(mode, done));
                        }
                        return Err(e);
                    },
                }
                i += 1;
            }
            proof {
                assert(s@.take(n as int) =~= s@);
                lemma_prefix_extend(old(sink).content(), escaped(mode, s@));
            }
            Ok(())
        },
    }
}

} // verus!
