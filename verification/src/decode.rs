//! Rendered meaning of escaped text.
//!
//! A destination context reads escaped text by turning each entity back into
//! the character it stands for. The round-trip lemma below shows that either
//! escaping transform preserves the text's rendered meaning exactly, which is
//! why the emitter never needs to apply a transform twice.

use vstd::prelude::*;
use crate::escape::{Escape, amp_entity, lt_entity, gt_entity, quot_entity};
use crate::escape::{escaped, escaped_char, escaped_chars};

verus! {

/// How a destination context reads a piece of escaped text: each recognized
/// entity stands for one character; everything else stands for itself.
pub open spec fn unescape(s: Seq<char>) -> Seq<char>
    decreases s.len(),
{
    if s.len() == 0 {
        Seq::empty()
    } else if s.len() >= 5 && s.subrange(0, 5) == amp_entity() {
        seq!['&'] + unescape(s.subrange(5, s.len() as int))
    } else if s.len() >= 4 && s.subrange(0, 4) == lt_entity() {
        seq!['<'] + unescape(s.subrange(4, s.len() as int))
    } else if s.len() >= 4 && s.subrange(0, 4) == gt_entity() {
        seq!['>'] + unescape(s.subrange(4, s.len() as int))
    } else if s.len() >= 6 && s.subrange(0, 6) == quot_entity() {
        seq!['"'] + unescape(s.subrange(6, s.len() as int))
    } else {
        seq![s[0]] + unescape(s.subrange(1, s.len() as int))
    }
}

/// Escaping never changes what the destination renders: decoding the escaped
/// text gives back the original, in either escaping mode.
pub proof fn lemma_unescape_escaped(mode: Escape, s: Seq<char>)
    requires
        mode is Attr || mode is Body,
    ensures
        unescape(escaped(mode, s)) == s,
    decreases s.len(),
{
    if s.len() == 0 {
        assert(escaped(mode, s) =~= Seq::<char>::empty());
        assert(unescape(escaped(mode, s)) =~= s);
    } else {
        let c = s[0];
        let rest = s.drop_first();
        lemma_unescape_escaped(mode, rest);
        let head = escaped_char(mode, c);
        let tail = escaped_chars(mode, rest);
        let t = head + tail;
        assert(escaped(mode, s) == t);
        assert(escaped(mode, rest) == tail);
        if c == '&' {
            assert(t.subrange(0, 5) =~= amp_entity());
            assert(t.subrange(5, t.len() as int) =~= tail);
            assert(unescape(t) == seq!['&'] + rest);
            assert(seq!['&'] + rest =~= s);
        } else if c == '<' {
            if t.len() >= 5 {
                assert(t.subrange(0, 5)[1] == t[1]);
                assert(t[1] == head[1]);
                assert(t.subrange(0, 5) != amp_entity());
            }
            assert(t.subrange(0, 4) =~= lt_entity());
            assert(t.subrange(4, t.len() as int) =~= tail);
            assert(unescape(t) == seq!['<'] + rest);
            assert(seq!['<'] + rest =~= s);
        } else if c == '>' {
            if t.len() >= 5 {
                assert(t.subrange(0, 5)[1] == t[1]);
                assert(t[1] == head[1]);
                assert(t.subrange(0, 5) != amp_entity());
            }
            assert(t.subrange(0, 4)[1] == t[1]);
            assert(t[1] == head[1]);
            assert(t.subrange(0, 4) != lt_entity());
            assert(t.subrange(0, 4) =~= gt_entity());
            assert(t.subrange(4, t.len() as int) =~= tail);
            assert(unescape(t) == seq!['>'] + rest);
            assert(seq!['>'] + rest =~= s);
        } else if c == '"' && mode is Attr {
            assert(t[1] == head[1]);
            if t.len() >= 5 {
                assert(t.subrange(0, 5)[1] == t[1]);
                assert(t.subrange(0, 5) != amp_entity());
            }
            assert(t.subrange(0, 4)[1] == t[1]);
            assert(t.subrange(0, 4) != lt_entity());
            assert(t.subrange(0, 4) != gt_entity());
            assert(t.subrange(0, 6) =~= quot_entity());
            assert(t.subrange(6, t.len() as int) =~= tail);
            assert(unescape(t) == seq!['"'] + rest);
            assert(seq!['"'] + rest =~= s);
        } else {
            assert(head == seq![c]);
            assert(t[0] == c);
            if t.len() >= 5 {
                assert(t.subrange(0, 5)[0] == t[0]);
                assert(t.subrange(0, 5) != amp_entity());
            }
            if t.len() >= 4 {
                assert(t.subrange(0, 4)[0] == t[0]);
                assert(t.subrange(0, 4) != lt_entity());
                assert(t.subrange(0, 4) != gt_entity());
            }
            if t.len() >= 6 {
                assert(t.subrange(0, 6)[0] == t[0]);
                assert(t.subrange(0, 6) != quot_entity());
            }
            assert(t.subrange(1, t.len() as int) =~= tail);
            assert(unescape(t) == seq![c] + rest);
            assert(seq![c] + rest =~= s);
        }
    }
}

} // verus!
