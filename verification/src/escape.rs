//! Escaping of reserved markup characters.
//!
//! Two contexts need escaping: text inside a quoted attribute value and text
//! in element content (body) position. `&`, `<` and `>` are replaced by
//! entities in both; `"` is replaced only in attribute position. A third mode
//! performs no transform at all, for content that is already known safe.

use vstd::prelude::*;
use vstd::string::StrSliceExecFns;
use vstd::string::StringExecFns;

verus! {

/// Which reserved-character transform applies to a piece of text before it
/// reaches the output sink. The driver supplies a mode with every literal or
/// splice; it is never inferred.
#[derive(Clone, Copy, Debug, PartialEq, Eq, Structural)]
pub enum Escape {
    /// Pass the text through unchanged.
    NoEscape,
    /// Transform for text inside a quoted attribute value.
    Attr,
    /// Transform for text in element content position.
    Body,
}

/// The entity that stands for `&`.
pub open spec fn amp_entity() -> Seq<char> {
    seq!['&', 'a', 'm', 'p', ';']
}

/// The entity that stands for `<`.
pub open spec fn lt_entity() -> Seq<char> {
    seq!['&', 'l', 't', ';']
}

/// The entity that stands for `>`.
pub open spec fn gt_entity() -> Seq<char> {
    seq!['&', 'g', 't', ';']
}

/// The entity that stands for `"`.
pub open spec fn quot_entity() -> Seq<char> {
    seq!['&', 'q', 'u', 'o', 't', ';']
}

/// What one character becomes under a mode's transform.
pub open spec fn escaped_char(mode: Escape, c: char) -> Seq<char> {
    if c == '&' {
        amp_entity()
    } else if c == '<' {
        lt_entity()
    } else if c == '>' {
        gt_entity()
    } else if c == '"' && mode is Attr {
        quot_entity()
    } else {
        seq![c]
    }
}

/// The character-by-character transform for the two modes that escape.
pub open spec fn escaped_chars(mode: Escape, s: Seq<char>) -> Seq<char>
    decreases s.len(),
{
    if s.len() == 0 {
        Seq::empty()
    } else {
        escaped_char(mode, s[0]) + escaped_chars(mode, s.drop_first())
    }
}

/// What a mode makes of a piece of text: `NoEscape` passes it through, the
/// other two modes substitute an entity for each reserved character.
pub open spec fn escaped(mode: Escape, s: Seq<char>) -> Seq<char> {
    match mode {
        Escape::NoEscape => s,
        Escape::Attr => escaped_chars(Escape::Attr, s),
        Escape::Body => escaped_chars(Escape::Body, s),
    }
}

/// Text with no character that the given mode would transform.
pub open spec fn unreserved(mode: Escape, s: Seq<char>) -> bool {
    forall|i: int| 0 <= i < s.len() ==> escaped_char(mode, #[trigger] s[i]) == seq![s[i]]
}

/// The transform distributes over concatenation of its input.
pub proof fn lemma_escaped_chars_concat(mode: Escape, a: Seq<char>, b: Seq<char>)
    ensures
        escaped_chars(mode, a + b) == escaped_chars(mode, a) + escaped_chars(mode, b),
    decreases a.len(),
{
    if a.len() == 0 {
        assert(a + b =~= b);
        assert(escaped_chars(mode, a) + escaped_chars(mode, b) =~= escaped_chars(mode, b));
    } else {
        assert((a + b)[0] == a[0]);
        assert((a + b).drop_first() =~= a.drop_first() + b);
        lemma_escaped_chars_concat(mode, a.drop_first(), b);
        assert(escaped_chars(mode, a + b) =~= escaped_chars(mode, a) + escaped_chars(mode, b));
    }
}

/// Appending one character to the input appends that character's entity (or
/// the character itself) to the transform's output.
pub proof fn lemma_escaped_chars_push(mode: Escape, s: Seq<char>, c: char)
    ensures
        escaped_chars(mode, s.push(c)) == escaped_chars(mode, s) + escaped_char(mode, c),
{
    assert(s.push(c) =~= s + seq![c]);
    lemma_escaped_chars_concat(mode, s, seq![c]);
    assert(seq![c].drop_first() =~= Seq::<char>::empty());
    assert(escaped_chars(mode, Seq::<char>::empty()) == Seq::<char>::empty());
    assert(seq![c][0] == c);
    assert(escaped_chars(mode, seq![c]) =~= escaped_char(mode, c));
}

/// Mode `NoEscape` is the identity transform: no escaping is ever applied.
pub proof fn lemma_none_mode_is_raw(s: Seq<char>)
    ensures
        escaped(Escape::NoEscape, s) == s,
{
}

/// The escaping transforms never emit a character that the requirement rules
/// out of every per-character substitution.
proof fn lemma_escaped_chars_avoids(mode: Escape, s: Seq<char>, c: char)
    requires
        forall|d: char| !(#[trigger] escaped_char(mode, d)).contains(c),
    ensures
        !escaped_chars(mode, s).contains(c),
    decreases s.len(),
{
    if s.len() == 0 {
    } else {
        lemma_escaped_chars_avoids(mode, s.drop_first(), c);
        let head = escaped_char(mode, s[0]);
        let tail = escaped_chars(mode, s.drop_first());
        let t = escaped_chars(mode, s);
        assert(t == head + tail);
        assert forall|i: int| 0 <= i < t.len() implies t[i] != c by {
            if i < head.len() {
                assert(t[i] == head[i]);
                assert(!head.contains(c));
            } else {
                assert(t[i] == tail[i - head.len()]);
                assert(!tail.contains(c));
            }
        }
    }
}

/// Attribute-escaped text is safe for a quoted attribute value: it contains
/// no raw quote and no raw angle bracket. Every ampersand in the output
/// begins an entity, which `lemma_unescape_escaped` makes precise.
pub proof fn lemma_attr_escape_safe(s: Seq<char>)
    ensures
        !escaped(Escape::Attr, s).contains('"'),
        !escaped(Escape::Attr, s).contains('<'),
        !escaped(Escape::Attr, s).contains('>'),
{
    assert forall|d: char| !(#[trigger] escaped_char(Escape::Attr, d)).contains('"') by {
        entity_contents();
    }
    assert forall|d: char| !(#[trigger] escaped_char(Escape::Attr, d)).contains('<') by {
        entity_contents();
    }
    assert forall|d: char| !(#[trigger] escaped_char(Escape::Attr, d)).contains('>') by {
        entity_contents();
    }
    lemma_escaped_chars_avoids(Escape::Attr, s, '"');
    lemma_escaped_chars_avoids(Escape::Attr, s, '<');
    lemma_escaped_chars_avoids(Escape::Attr, s, '>');
}

/// Body-escaped text is safe for element content position: it contains no
/// raw angle bracket. Every ampersand in the output begins an entity, which
/// `lemma_unescape_escaped` makes precise.
pub proof fn lemma_body_escape_safe(s: Seq<char>)
    ensures
        !escaped(Escape::Body, s).contains('<'),
        !escaped(Escape::Body, s).contains('>'),
{
    assert forall|d: char| !(#[trigger] escaped_char(Escape::Body, d)).contains('<') by {
        entity_contents();
    }
    assert forall|d: char| !(#[trigger] escaped_char(Escape::Body, d)).contains('>') by {
        entity_contents();
    }
    lemma_escaped_chars_avoids(Escape::Body, s, '<');
    lemma_escaped_chars_avoids(Escape::Body, s, '>');
}

/// Spells out what the four entities hold, for the safety lemmas.
proof fn entity_contents()
    ensures
        forall|i: int| 0 <= i < amp_entity().len() ==> #[trigger] amp_entity()[i] != '<'
            && amp_entity()[i] != '>' && amp_entity()[i] != '"',
        forall|i: int| 0 <= i < lt_entity().len() ==> #[trigger] lt_entity()[i] != '<'
            && lt_entity()[i] != '>' && lt_entity()[i] != '"',
        forall|i: int| 0 <= i < gt_entity().len() ==> #[trigger] gt_entity()[i] != '<'
            && gt_entity()[i] != '>' && gt_entity()[i] != '"',
        forall|i: int| 0 <= i < quot_entity().len() ==> #[trigger] quot_entity()[i] != '<'
            && quot_entity()[i] != '>' && quot_entity()[i] != '"',
{
}

/// Body escaping keeps a quote character exactly where it stood.
proof fn lemma_body_escape_keeps_quote(s: Seq<char>)
    requires
        s.contains('"'),
    ensures
        escaped(Escape::Body, s).contains('"'),
    decreases s.len(),
{
    let j = choose|j: int| 0 <= j < s.len() && s[j] == '"';
    let head = escaped_char(Escape::Body, s[0]);
    let tail = escaped_chars(Escape::Body, s.drop_first());
    if j == 0 {
        assert(head == seq!['"']);
        assert((head + tail)[0] == '"');
    } else {
        assert(s.drop_first()[j - 1] == '"');
        assert(s.drop_first().contains('"'));
        lemma_body_escape_keeps_quote(s.drop_first());
        let k = choose|k: int| 0 <= k < tail.len() && tail[k] == '"';
        assert((head + tail)[head.len() + k] == '"');
    }
}

/// The two escaping contexts are distinguishable: on any text holding a
/// quote character — reserved in attribute position but not in body
/// position — the two transforms disagree.
pub proof fn lemma_modes_differ_on_quote(s: Seq<char>)
    requires
        s.contains('"'),
    ensures
        escaped(Escape::Attr, s) != escaped(Escape::Body, s),
{
    lemma_attr_escape_safe(s);
    lemma_body_escape_keeps_quote(s);
}

/// On text with no reserved character, escaping is the identity.
pub proof fn lemma_escape_noop_when_unreserved(mode: Escape, s: Seq<char>)
    requires
        unreserved(mode, s),
    ensures
        escaped(mode, s) == s,
    decreases s.len(),
{
    match mode {
        Escape::NoEscape => {},
        _ => {
            if s.len() == 0 {
                assert(escaped_chars(mode, s) =~= s);
            } else {
                assert(escaped_char(mode, s[0]) == seq![s[0]]);
                assert(forall|i: int|
                    0 <= i < s.drop_first().len() ==> #[trigger] s.drop_first()[i] == s[i + 1]);
                lemma_escape_noop_when_unreserved(mode, s.drop_first());
                assert(escaped_chars(mode, s) =~= s);
            }
        },
    }
}

/// Escaping text that the same mode already left untouched changes nothing:
/// on unreserved text the transform, applied once or twice, is a no-op.
pub proof fn lemma_reescape_noop_when_unreserved(mode: Escape, s: Seq<char>)
    requires
        unreserved(mode, s),
    ensures
        escaped(mode, escaped(mode, s)) == escaped(mode, s),
{
    lemma_escape_noop_when_unreserved(mode, s);
}

/// Apply a mode's transform to statically known text, eagerly.
pub fn escape_text(s: &str, mode: Escape) -> (r: String)
    ensures
        r@ == escaped(mode, s@),
{
    match mode {
        Escape::NoEscape => s.to_owned(),
        _ => {
            let n: usize = s.unicode_len();
            let mut out = String::new();
            let mut i: usize = 0;
            while i < n
                invariant
                    i <= n,
                    n == s@.len(),
                    mode is Attr || mode is Body,
                    out@ == escaped_chars(mode, s@.take(i as int)),
                decreases n - i,
            {
                let c = s.get_char(i);
                if c == '&' {
                    proof {
                        reveal_strlit("&amp;");
                        assert("&amp;"@ =~= amp_entity());
                    }
                    out.append("&amp;");
                } else if c == '<' {
                    proof {
                        reveal_strlit("&lt;");
                        assert("&lt;"@ =~= lt_entity());
                    }
                    out.append("&lt;");
                } else if c == '>' {
                    proof {
                        reveal_strlit("&gt;");
                        assert("&gt;"@ =~= gt_entity());
                    }
                    out.append("&gt;");
                } else if c == '"' && mode == Escape::Attr {
                    proof {
                        reveal_strlit("&quot;");
                        assert("&quot;"@ =~= quot_entity());
                    }
                    out.append("&quot;");
                } else {
                    let piece = s.substring_char(i, i + 1);
                    proof {
                        assert(piece@ =~= seq![s@[i as int]]);
                    }
                    out.append(piece);
                }
                proof {
                    assert(s@.take(i as int + 1) =~= s@.take(i as int).push(s@[i as int]));
                    lemma_escaped_chars_push(mode, s@.take(i as int), s@[i as int]);
                }
                i += 1;
            }
            proof {
                assert(s@.take(n as int) =~= s@);
            }
            out
        },
    }
}

/// Escape statically known text for a quoted attribute value.
pub fn attribute(s: &str) -> (r: String)
    ensures
        r@ == escaped(Escape::Attr, s@),
{
    escape_text(s, Escape::Attr)
}

/// Escape statically known text for element content position.
pub fn non_attribute(s: &str) -> (r: String)
    ensures
        r@ == escaped(Escape::Body, s@),
{
    escape_text(s, Escape::Body)
}

} // verus!
