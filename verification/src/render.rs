//! The emitter and the generated procedure.
//!
//! A [`Renderer`] accumulates an append-only, ordered list of write
//! operations as a driver walks a template in document order. Statically
//! known text is escaped eagerly and folded into literal writes; an
//! expression splice defers escaping into the generated procedure, which
//! escapes the expression's rendered value as it is written. Finalizing
//! yields a [`GeneratedProcedure`] that performs every operation strictly in
//! emission order against one sink and stops at the first failing write.

use vstd::prelude::*;
use vstd::string::StrSliceExecFns;
use crate::escape::{Escape, escaped, escape_text};
use crate::sink::{Sink, WriteError, write_escaped};
use crate::sink::{lemma_prefix_extend, lemma_prefix_reflexive, lemma_prefix_trans};

verus! {

/// The mathematical model of one write operation: either exact text for the
/// sink, or an expression slot whose rendered value is escaped under a mode
/// when the generated procedure runs.
#[verifier::ext_equal]
pub enum OpSpec {
    /// Write this exact text.
    Literal(Seq<char>),
    /// Render expression slot `expr`, escape it under `escape`, write it.
    Splice { expr: int, escape: Escape },
}

/// One write operation of a generated procedure.
pub enum Op {
    /// Write this exact, already-escaped text.
    Literal(String),
    /// Render expression slot `expr`, escape it under `escape`, write it.
    Splice { expr: usize, escape: Escape },
}

impl View for Op {
    type V = OpSpec;

    open spec fn view(&self) -> OpSpec {
        match self {
            Op::Literal(t) => OpSpec::Literal(t@),
            Op::Splice { expr, escape } => OpSpec::Splice { expr: *expr as int, escape: *escape },
        }
    }
}

/// What one operation writes, given the rendered values of the expression
/// slots.
pub open spec fn op_out(op: OpSpec, values: Seq<Seq<char>>) -> Seq<char> {
    match op {
        OpSpec::Literal(t) => t,
        OpSpec::Splice { expr, escape } => escaped(escape, values[expr]),
    }
}

/// What a whole operation list writes: each operation's output, concatenated
/// strictly in emission order.
pub open spec fn ops_out(ops: Seq<OpSpec>, values: Seq<Seq<char>>) -> Seq<char>
    decreases ops.len(),
{
    if ops.len() == 0 {
        Seq::empty()
    } else {
        ops_out(ops.drop_last(), values) + op_out(ops.last(), values)
    }
}

/// One operation only reads expression slots below `n_values`.
pub open spec fn wf_op(op: OpSpec, n_values: int) -> bool {
    match op {
        OpSpec::Literal(t) => true,
        OpSpec::Splice { expr, escape } => 0 <= expr < n_values,
    }
}

/// Every operation reads only expression slots below `n_values`.
pub open spec fn wf_ops(ops: Seq<OpSpec>, n_values: int) -> bool {
    forall|i: int| 0 <= i < ops.len() ==> wf_op(#[trigger] ops[i], n_values)
}

/// The views of a list of rendered expression values.
pub open spec fn str_views(vs: Seq<String>) -> Seq<Seq<char>> {
    vs.map_values(|v: String| v@)
}

/// Output follows emission order exactly: one more emitted operation appends
/// exactly that operation's output, after everything emitted before it.
pub proof fn lemma_output_follows_emission_order(
    ops: Seq<OpSpec>,
    op: OpSpec,
    values: Seq<Seq<char>>,
)
    ensures
        ops_out(ops.push(op), values) == ops_out(ops, values) + op_out(op, values),
{
    assert(ops.push(op).drop_last() =~= ops);
    assert(ops.push(op).last() == op);
}

/// The output of operations emitted one after the other is the concatenation
/// of their outputs, in that order.
pub proof fn lemma_ops_out_concat(a: Seq<OpSpec>, b: Seq<OpSpec>, values: Seq<Seq<char>>)
    ensures
        ops_out(a + b, values) == ops_out(a, values) + ops_out(b, values),
    decreases b.len(),
{
    if b.len() == 0 {
        assert(a + b =~= a);
        assert(ops_out(a, values) + ops_out(b, values) =~= ops_out(a, values));
    } else {
        assert((a + b).drop_last() =~= a + b.drop_last());
        assert((a + b).last() == b.last());
        lemma_ops_out_concat(a, b.drop_last(), values);
        assert(ops_out(a + b, values) =~= ops_out(a, values) + ops_out(b, values));
    }
}

/// The emitter: accumulates write operations in the exact order the driver
/// emits them. Operations are never skipped, duplicated, merged or reordered.
pub struct Renderer {
    ops: Vec<Op>,
}

impl View for Renderer {
    type V = Seq<OpSpec>;

    closed spec fn view(&self) -> Seq<OpSpec> {
        self.ops@.map_values(|o: Op| o@)
    }
}

impl Renderer {
    /// An emitter with no operations yet.
    pub fn new() -> (r: Renderer)
        ensures
            r@ == Seq::<OpSpec>::empty(),
    {
        let r = Renderer { ops: Vec::new() };
        proof {
            assert(r@ =~= Seq::<OpSpec>::empty());
        }
        r
    }

    /// Append a literal pre-escaped string.
    pub fn write(&mut self, s: &str)
        ensures
            final(self)@ == old(self)@.push(OpSpec::Literal(s@)),
    {
        self.ops.push(Op::Literal(s.to_owned()));
        proof {
            assert(self@ =~= old(self)@.push(OpSpec::Literal(s@)));
        }
    }

    /// Append a literal string, with the specified escaping method applied
    /// now, while the operation list is being built: no escaping work is
    /// left for the generated procedure.
    pub fn string(&mut self, s: &str, escape: Escape)
        ensures
            final(self)@ == old(self)@.push(OpSpec::Literal(escaped(escape, s@))),
    {
        let t = escape_text(s, escape);
        self.write(t.as_str());
    }

    /// Append the result of an expression: the generated procedure renders
    /// expression slot `expr` and escapes it with the specified method as it
    /// is written. Mode `NoEscape` writes the rendered value unchanged.
    pub fn splice(&mut self, expr: usize, escape: Escape)
        ensures
            final(self)@ == old(self)@.push((OpSpec::Splice { expr: expr as int, escape })),
    {
        self.ops.push(Op::Splice { expr, escape });
        proof {
            assert(self@ =~= old(self)@.push((OpSpec::Splice { expr: expr as int, escape })));
        }
    }

    /// Open a tag's start: emit `<` then the tag name.
    pub fn element_open_start(&mut self, name: &str)
        ensures
            final(self)@ == old(self)@ + seq![
                OpSpec::Literal(seq!['<']),
                OpSpec::Literal(name@),
            ],
    {
        proof {
            reveal_strlit("<");
            assert("<"@ =~= seq!['<']);
        }
        self.write("<");
        self.write(name);
        proof {
            assert(self@ =~= old(self)@ + seq![
                OpSpec::Literal(seq!['<']),
                OpSpec::Literal(name@),
            ]);
        }
    }

    /// Open an attribute: emit a space, the attribute name, then `="`.
    pub fn attribute_start(&mut self, name: &str)
        ensures
            final(self)@ == old(self)@ + seq![
                OpSpec::Literal(seq![' ']),
                OpSpec::Literal(name@),
                OpSpec::Literal(seq!['=', '"']),
            ],
    {
        proof {
            reveal_strlit(" ");
            reveal_strlit("=\"");
            assert(" "@ =~= seq![' ']);
            assert("=\""@ =~= seq!['=', '"']);
        }
        self.write(" ");
        self.write(name);
        self.write("=\"");
        proof {
            assert(self@ =~= old(self)@ + seq![
                OpSpec::Literal(seq![' ']),
                OpSpec::Literal(name@),
                OpSpec::Literal(seq!['=', '"']),
            ]);
        }
    }

    /// Close an attribute: emit `"`.
    pub fn attribute_end(&mut self)
        ensures
            final(self)@ == old(self)@.push(OpSpec::Literal(seq!['"'])),
    {
        proof {
            reveal_strlit("\"");
            assert("\""@ =~= seq!['"']);
        }
        self.write("\"");
    }

    /// Close a tag's opening: emit `>`.
    pub fn element_open_end(&mut self)
        ensures
            final(self)@ == old(self)@.push(OpSpec::Literal(seq!['>'])),
    {
        proof {
            reveal_strlit(">");
            assert(">"@ =~= seq!['>']);
        }
        self.write(">");
    }

    /// Close a tag: emit `</`, the tag name, then `>`.
    pub fn element_close(&mut self, name: &str)
        ensures
            final(self)@ == old(self)@ + seq![
                OpSpec::Literal(seq!['<', '/']),
                OpSpec::Literal(name@),
                OpSpec::Literal(seq!['>']),
            ],
    {
        proof {
            reveal_strlit("</");
            reveal_strlit(">");
            assert("</"@ =~= seq!['<', '/']);
            assert(">"@ =~= seq!['>']);
        }
        self.write("</");
        self.write(name);
        self.write(">");
        proof {
            assert(self@ =~= old(self)@ + seq![
                OpSpec::Literal(seq!['<', '/']),
                OpSpec::Literal(name@),
                OpSpec::Literal(seq!['>']),
            ]);
        }
    }

    /// Finalize the emitter: ownership of the operation list passes to the
    /// generated procedure, which will perform it in order.
    pub fn finish(self) -> (p: GeneratedProcedure)
        ensures
            p@ == self@,
    {
        GeneratedProcedure { ops: self.ops }
    }

    /// Build a generated procedure from a whole template: feed every
    /// directive to a fresh emitter in document order, then finalize it.
    pub fn with(directives: &Vec<Directive>) -> (p: GeneratedProcedure)
        ensures
            p@ == directives_ops(directives@),
    {
        let mut r = Renderer::new();
        let n: usize = directives.len();
        let mut i: usize = 0;
        proof {
            assert(directives@.take(0) =~= Seq::<Directive>::empty());
            assert(r@ =~= directives_ops(directives@.take(0)));
        }
        while i < n
            invariant
                i <= n,
                n == directives@.len(),
                r@ == directives_ops(directives@.take(i as int)),
            decreases n - i,
        {
            let d: &Directive = &directives[i];
            match d {
                Directive::Write { text } => r.write(text.as_str()),
                Directive::Text { text, escape } => r.string(text.as_str(), *escape),
                Directive::Splice { expr, escape } => r.splice(*expr, *escape),
                Directive::ElementOpenStart { name } => r.element_open_start(name.as_str()),
                Directive::AttributeStart { name } => r.attribute_start(name.as_str()),
                Directive::AttributeEnd => r.attribute_end(),
                Directive::ElementOpenEnd => r.element_open_end(),
                Directive::ElementClose { name } => r.element_close(name.as_str()),
            }
            proof {
                assert(directives@.take(i as int + 1).drop_last() =~= directives@.take(i as int));
                assert(directives@.take(i as int + 1).last() == directives@[i as int]);
                assert(r@ =~= directives_ops(directives@.take(i as int + 1)));
            }
            i += 1;
        }
        proof {
            assert(directives@.take(n as int) =~= directives@);
        }
        r.finish()
    }
}

/// One directive of a template, in the form the driver feeds the emitter:
/// one directive per call, in document order.
pub enum Directive {
    /// A literal pre-escaped string.
    Write { text: String },
    /// A literal string, escaped now under the given mode.
    Text { text: String, escape: Escape },
    /// An expression splice, escaped under the given mode when the generated
    /// procedure runs.
    Splice { expr: usize, escape: Escape },
    /// Open a tag's start.
    ElementOpenStart { name: String },
    /// Open an attribute.
    AttributeStart { name: String },
    /// Close an attribute.
    AttributeEnd,
    /// Close a tag's opening.
    ElementOpenEnd,
    /// Close a tag.
    ElementClose { name: String },
}

/// The operations one directive emits.
pub open spec fn directive_ops(d: Directive) -> Seq<OpSpec> {
    match d {
        Directive::Write { text } => seq![OpSpec::Literal(text@)],
        Directive::Text { text, escape } => seq![OpSpec::Literal(escaped(escape, text@))],
        Directive::Splice { expr, escape } => seq![OpSpec::Splice { expr: expr as int, escape }],
        Directive::ElementOpenStart { name } => seq![
            OpSpec::Literal(seq!['<']),
            OpSpec::Literal(name@),
        ],
        Directive::AttributeStart { name } => seq![
            OpSpec::Literal(seq![' ']),
            OpSpec::Literal(name@),
            OpSpec::Literal(seq!['=', '"']),
        ],
        Directive::AttributeEnd => seq![OpSpec::Literal(seq!['"'])],
        Directive::ElementOpenEnd => seq![OpSpec::Literal(seq!['>'])],
        Directive::ElementClose { name } => seq![
            OpSpec::Literal(seq!['<', '/']),
            OpSpec::Literal(name@),
            OpSpec::Literal(seq!['>']),
        ],
    }
}

/// The operations a directive sequence emits, strictly in document order.
pub open spec fn directives_ops(ds: Seq<Directive>) -> Seq<OpSpec>
    decreases ds.len(),
{
    if ds.len() == 0 {
        Seq::empty()
    } else {
        directives_ops(ds.drop_last()) + directive_ops(ds.last())
    }
}

/// Document order is kept through assembly: one more directive appends
/// exactly that directive's output, after everything the earlier directives
/// write.
pub proof fn lemma_directive_output_order(ds: Seq<Directive>, d: Directive, values: Seq<Seq<char>>)
    ensures
        ops_out(directives_ops(ds.push(d)), values) == ops_out(directives_ops(ds), values)
            + ops_out(directive_ops(d), values),
{
    assert(ds.push(d).drop_last() =~= ds);
    assert(ds.push(d).last() == d);
    lemma_ops_out_concat(directives_ops(ds), directive_ops(d), values);
}

/// The finalized artifact: a callable over one output sink that performs the
/// accumulated operations strictly in emission order, and stops at the first
/// operation whose write fails, surfacing that failure as its own outcome.
pub struct GeneratedProcedure {
    ops: Vec<Op>,
}

impl View for GeneratedProcedure {
    type V = Seq<OpSpec>;

    closed spec fn view(&self) -> Seq<OpSpec> {
        self.ops@.map_values(|o: Op| o@)
    }
}

impl GeneratedProcedure {
    /// Whether every expression slot the procedure reads lies below
    /// `n_values`: the condition under which `run` may be given `n_values`
    /// rendered expression values.
    pub fn slots_within(&self, n_values: usize) -> (b: bool)
        ensures
            b == wf_ops(self@, n_values as int),
    {
        let len: usize = self.ops.len();
        let mut i: usize = 0;
        while i < len
            invariant
                i <= len,
                len == self.ops@.len(),
                forall|j: int| 0 <= j < i ==> wf_op(#[trigger] self@[j], n_values as int),
            decreases len - i,
        {
            let op: &Op = &self.ops[i];
            match op {
                Op::Literal(_) => {},
                Op::Splice { expr, escape: _ } => {
                    if *expr >= n_values {
                        proof {
                            assert(!wf_op(self@[i as int], n_values as int));
                        }
                        return false;
                    }
                },
            }
            proof {
                assert(wf_op(self@[i as int], n_values as int));
            }
            i += 1;
        }
        true
    }

    /// Run the procedure against a sink, with the rendered values of the
    /// expression slots. On success the sink has received exactly the
    /// operations' outputs, in emission order. On the first failing write
    /// the procedure stops: no later operation is attempted, the sink holds
    /// everything written before the failing operation and at most a prefix
    /// of the failing operation's output, and the failure is returned as the
    /// procedure's own outcome.
    pub fn run<S: Sink>(&self, values: &Vec<String>, sink: &mut S) -> (r: Result<(), WriteError>)
        requires
            wf_ops(self@, values@.len() as int),
        ensures
            old(sink).content().is_prefix_of(final(sink).content()),
            r is Ok ==> final(sink).content() == old(sink).content() + ops_out(
                self@,
                str_views(values@),
            ),
            r is Err ==> exists|k: int|
                0 <= k < self@.len() && (old(sink).content() + ops_out(
                    self@.take(k),
                    str_views(values@),
                )).is_prefix_of(final(sink).content()) && final(sink).content().is_prefix_of(
                    old(sink).content() + ops_out(self@.take(k + 1), str_views(values@)),
                ),
    {
        let ghost vals = str_views(values@);
        let n: usize = self.ops.len();
        let mut i: usize = 0;
        proof {
            assert(self@.take(0) =~= Seq::<OpSpec>::empty());
            assert(sink.content() =~= old(sink).content() + ops_out(self@.take(0), vals));
        }
        while i < n
            invariant
                i <= n,
                n == self.ops@.len(),
                wf_ops(self@, values@.len() as int),
                vals == str_views(values@),
                sink.content() == old(sink).content() + ops_out(self@.take(i as int), vals),
            decreases n - i,
        {
            let ghost content_pre = sink.content();
            proof {
                assert(self@.take(i as int + 1).drop_last() =~= self@.take(i as int));
                assert(self@.take(i as int + 1).last() == self@[i as int]);
            }
            let op: &Op = &self.ops[i];
            let res: Result<(), WriteError>;
            match op {
                Op::Literal(t) => {
                    res = sink.write_str(t.as_str());
                },
                Op::Splice { expr, escape } => {
                    proof {
                        assert(wf_op(self@[i as int], values@.len() as int));
                    }
                    let text: &String = &values[*expr];
                    proof {
                        assert(vals[*expr as int] == text@);
                    }
                    res = write_escaped(sink, text.as_str(), *escape);
                },
            }
            match res {
                Ok(_) => {
                    proof {
                        assert(sink.content() =~= old(sink).content() + ops_out(
                            self@.take(i as int + 1),
                            vals,
                        ));
                    }
                },
                Err(e) => {
                    proof {
                        let ghost k = i as int;
                        assert(content_pre =~= old(sink).content() + ops_out(self@.take(k), vals));
                        lemma_prefix_reflexive(sink.content());
                        lemma_prefix_extend(content_pre, op_out(self@[k], vals));
                        assert(content_pre + op_out(self@[k], vals) =~= old(sink).content()
                            + ops_out(self@.take(k + 1), vals));
                        lemma_prefix_extend(old(sink).content(), ops_out(self@.take(k), vals));
                        lemma_prefix_trans(
                            old(sink).content(),
                            content_pre,
                            sink.content(),
                        );
                    }
                    return Err(e);
                },
            }
            i += 1;
        }
        proof {
            assert(self@.take(n as int) =~= self@);
            lemma_prefix_extend(old(sink).content(), ops_out(self@, vals));
        }
        Ok(())
    }
}

} // verus!
