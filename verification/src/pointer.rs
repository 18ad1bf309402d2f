//! JSON Pointer reference-token escaping.
//!
//! Dynamic path segments of a JSON Patch operation must escape the two
//! characters that JSON Pointer reserves: `~` becomes `~0` and `/` becomes
//! `~1`. The escaping is a single simultaneous pass over the characters, so
//! the `~` introduced by an escape is never escaped again.

use vstd::prelude::*;
use vstd::string::StrSliceExecFns;
use vstd::string::StringExecFns;

verus! {

/// One escaped character of a JSON Pointer reference token.
pub open spec fn escape_char(c: char) -> Seq<char> {
    if c == '~' {
        seq!['~', '0']
    } else if c == '/' {
        seq!['~', '1']
    } else {
        seq![c]
    }
}

/// A whole reference token escaped, character by character.
pub open spec fn escape_seq(s: Seq<char>) -> Seq<char>
    decreases s.len(),
{
    if s.len() == 0 {
        Seq::empty()
    } else {
        escape_seq(s.drop_last()) + escape_char(s.last())
    }
}

/// Escapes a map key for use as one segment of a JSON Pointer path.
pub fn escape_json_pointer(key: &str) -> (r: String)
    ensures
        r@ == escape_seq(key@),
{
    let len = key.unicode_len();
    let mut out = String::new();
    let mut i: usize = 0;
    while i < len
        invariant
            i <= len,
            len == key@.len(),
            out@ == escape_seq(key@.subrange(0, i as int)),
        decreases len - i,
    {
        let c = key.get_char(i);
        if c == '~' {
            out.append("~0");
            proof {
                reveal_strlit("~0");
                assert(out@ =~= escape_seq(key@.subrange(0, i as int)) + escape_char(c));
            }
        } else if c == '/' {
            out.append("~1");
            proof {
                reveal_strlit("~1");
                assert(out@ =~= escape_seq(key@.subrange(0, i as int)) + escape_char(c));
            }
        } else {
            let piece = key.substring_char(i, i + 1);
            proof {
                assert(piece@ =~= escape_char(c));
            }
            out.append(piece);
        }
        proof {
            let next = key@.subrange(0, i + 1);
            assert(next.drop_last() =~= key@.subrange(0, i as int));
            assert(next.last() == key@[i as int]);
        }
        i += 1;
    }
    proof {
        assert(key@.subrange(0, len as int) =~= key@);
    }
    out
}


/// Undoes the escaping: `~0` back to `~`, `~1` back to `/`, anything
/// else taken as itself.
pub open spec fn unescape_seq(s: Seq<char>) -> Seq<char>
    decreases s.len(),
{
    if s.len() == 0 {
        Seq::empty()
    } else if s.len() >= 2 && s[0] == '~' && s[1] == '0' {
        seq!['~'] + unescape_seq(s.skip(2))
    } else if s.len() >= 2 && s[0] == '~' && s[1] == '1' {
        seq!['/'] + unescape_seq(s.skip(2))
    } else {
        seq![s[0]] + unescape_seq(s.skip(1))
    }
}

/// Escaping steps one character at a time from the front as well.
proof fn lemma_escape_front(s: Seq<char>)
    requires
        s.len() > 0,
    ensures
        escape_seq(s) == escape_char(s[0]) + escape_seq(s.drop_first()),
    decreases s.len(),
{
    let dl = s.drop_last();
    if dl.len() == 0 {
        assert(escape_seq(dl) =~= Seq::empty());
        assert(s.drop_first() =~= Seq::<char>::empty());
        assert(escape_seq(s.drop_first()) =~= Seq::empty());
        assert(escape_seq(s) =~= escape_char(s[0]) + escape_seq(s.drop_first()));
    } else {
        lemma_escape_front(dl);
        assert(s.drop_first().drop_last() =~= dl.drop_first());
        assert(s.drop_first().len() > 0);
        assert(s.drop_first().last() == s.last());
        assert(escape_seq(s.drop_first()) == escape_seq(dl.drop_first()) + escape_char(s.last()));
        assert(dl[0] == s[0]);
        assert(escape_char(s[0]) + (escape_seq(dl.drop_first()) + escape_char(s.last())) =~= (
        escape_char(s[0]) + escape_seq(dl.drop_first())) + escape_char(s.last()));
    }
}

/// Law: escaping is reversible, so distinct keys never collide in a
/// patch path — the `~` written by an escape is never itself escaped.
pub proof fn lemma_escape_reversible(s: Seq<char>)
    ensures
        unescape_seq(escape_seq(s)) == s,
    decreases s.len(),
{
    if s.len() == 0 {
        assert(escape_seq(s) =~= Seq::empty());
        assert(unescape_seq(escape_seq(s)) =~= s);
    } else {
        lemma_escape_front(s);
        lemma_escape_reversible(s.drop_first());
        let c = s[0];
        let e = escape_seq(s);
        let rest = escape_seq(s.drop_first());
        if c == '~' {
            assert(e =~= seq!['~', '0'] + rest);
            assert(e[0] == '~' && e[1] == '0');
            assert(e.skip(2) =~= rest);
            assert(unescape_seq(e) == seq!['~'] + s.drop_first());
            assert(seq!['~'] + s.drop_first() =~= s);
        } else if c == '/' {
            assert(e =~= seq!['~', '1'] + rest);
            assert(e[0] == '~' && e[1] == '1');
            assert(e.skip(2) =~= rest);
            assert(unescape_seq(e) == seq!['/'] + s.drop_first());
            assert(seq!['/'] + s.drop_first() =~= s);
        } else {
            assert(e =~= seq![c] + rest);
            assert(e[0] == c);
            assert(e.len() >= 1);
            if e.len() >= 2 && e[0] == '~' {
                assert(false);
            }
            assert(e.skip(1) =~= rest);
            assert(unescape_seq(e) == seq![c] + s.drop_first());
            assert(seq![c] + s.drop_first() =~= s);
        }
    }
}

} // verus!
