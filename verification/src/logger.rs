//! The pure part of log-line handling: stripping ANSI color escape sequences
//! from a rendered line before it goes to a plain-text sink. The printing and
//! file writing around it are I/O and live outside the core.

use vstd::prelude::*;
use vstd::string::StrSliceExecFns;
use crate::strutil::push_char;

verus! {

/// An ASCII letter: what terminates an ANSI control sequence.
pub open spec fn is_ascii_alpha(c: char) -> bool {
    ('a' <= c && c <= 'z') || ('A' <= c && c <= 'Z')
}

/// The remainder of a control sequence: everything up to and including the
/// first ASCII letter is dropped; if no letter follows, everything is.
pub open spec fn skip_csi(s: Seq<char>) -> Seq<char>
    decreases s.len(),
{
    if s.len() == 0 {
        s
    } else if is_ascii_alpha(s[0]) {
        s.skip(1)
    } else {
        skip_csi(s.skip(1))
    }
}

/// Dropping a control sequence never lengthens the text.
pub proof fn lemma_skip_csi_len(s: Seq<char>)
    ensures
        skip_csi(s).len() <= s.len(),
    decreases s.len(),
{
    if s.len() > 0 && !is_ascii_alpha(s[0]) {
        lemma_skip_csi_len(s.skip(1));
    }
}

/// The text with ANSI escape sequences removed: an escape followed by `[`
/// swallows everything through the first ASCII letter; a bare escape is
/// dropped alone; every other character stays.
pub open spec fn strip_ansi(s: Seq<char>) -> Seq<char>
    decreases s.len(),
    via strip_ansi_dec
{
    if s.len() == 0 {
        s
    } else if s[0] == '\u{1b}' {
        if s.len() >= 2 && s[1] == '[' {
            strip_ansi(skip_csi(s.skip(2)))
        } else {
            strip_ansi(s.skip(1))
        }
    } else {
        seq![s[0]] + strip_ansi(s.skip(1))
    }
}

#[via_fn]
proof fn strip_ansi_dec(s: Seq<char>) {
    if s.len() > 0 && s[0] == '\u{1b}' && s.len() >= 2 && s[1] == '[' {
        lemma_skip_csi_len(s.skip(2));
    }
}

/// When the first ASCII letter of `t` stands at position `p`, the control
/// sequence swallows exactly the characters up to and including it.
proof fn lemma_skip_csi_at(t: Seq<char>, p: int)
    requires
        0 <= p < t.len(),
        is_ascii_alpha(t[p]),
        forall|w: int| 0 <= w < p ==> !is_ascii_alpha(#[trigger] t[w]),
    ensures
        skip_csi(t) == t.skip(p + 1),
    decreases p,
{
    if p == 0 {
    } else {
        assert(!is_ascii_alpha(t[0]));
        lemma_skip_csi_at(t.skip(1), p - 1);
        assert forall|w: int| 0 <= w < p - 1 implies !is_ascii_alpha(#[trigger] t.skip(1)[w]) by {
            assert(t.skip(1)[w] == t[w + 1]);
        }
        assert(t.skip(1)[p - 1] == t[p]);
        assert(t.skip(1).skip(p) =~= t.skip(p + 1));
    }
}

/// When no ASCII letter remains, the control sequence swallows the rest.
proof fn lemma_skip_csi_all(t: Seq<char>)
    requires
        forall|w: int| 0 <= w < t.len() ==> !is_ascii_alpha(#[trigger] t[w]),
    ensures
        skip_csi(t) == Seq::<char>::empty(),
    decreases t.len(),
{
    if t.len() == 0 {
        assert(skip_csi(t) =~= Seq::<char>::empty());
    } else {
        assert forall|w: int| 0 <= w < t.skip(1).len() implies !is_ascii_alpha(
            #[trigger] t.skip(1)[w],
        ) by {
            assert(t.skip(1)[w] == t[w + 1]);
        }
        lemma_skip_csi_all(t.skip(1));
    }
}

/// Removes ANSI color escape sequences from a rendered log line, so the line
/// can go to a plain-text sink unchanged in every other character.
#[verifier::loop_isolation(false)]
pub fn strip_color_characters(input: String) -> (r: String)
    ensures
        r@ == strip_ansi(input@),
{
    let s = input.as_str();
    let n = s.unicode_len();
    let mut out = String::new();
    let mut i: usize = 0;
    proof {
        assert(s@.skip(0) =~= s@);
        assert(out@ + strip_ansi(s@) =~= strip_ansi(s@));
    }
    while i < n
        invariant
            i <= n,
            n == s@.len(),
            strip_ansi(s@) == out@ + strip_ansi(s@.skip(i as int)),
        decreases n - i,
    {
        let c = s.get_char(i);
        let ghost rest = s@.skip(i as int);
        proof {
            assert(rest[0] == s@[i as int]);
            assert(rest.skip(1) =~= s@.skip(i + 1));
        }
        if c == '\u{1b}' {
            if i + 1 < n && s.get_char(i + 1) == '[' {
                proof {
                    assert(rest[1] == s@[i + 1]);
                }
                // Swallow up to and including the first ASCII letter.
                let mut j: usize = i + 2;
                while j < n && !is_alpha_exec(s.get_char(j))
                    invariant
                        i + 2 <= j <= n,
                        forall|w: int| i + 2 <= w < j ==> !is_ascii_alpha(#[trigger] s@[w]),
                    decreases n - j,
                {
                    j = j + 1;
                }
                let ghost tail = s@.skip(i + 2);
                proof {
                    assert(rest.skip(2) =~= tail);
                    assert forall|w: int| 0 <= w < j - i - 2 implies !is_ascii_alpha(
                        #[trigger] tail[w],
                    ) by {
                        assert(tail[w] == s@[w + i + 2]);
                    }
                    if j < n {
                        assert(tail[j - i - 2] == s@[j as int]);
                        lemma_skip_csi_at(tail, j - i - 2);
                        assert(tail.skip(j - i - 2 + 1) =~= s@.skip(j + 1));
                    } else {
                        assert forall|w: int| 0 <= w < tail.len() implies !is_ascii_alpha(
                            #[trigger] tail[w],
                        ) by {
                            assert(tail[w] == s@[w + i + 2]);
                        }
                        lemma_skip_csi_all(tail);
                        assert(Seq::<char>::empty() =~= s@.skip(n as int));
                    }
                }
                if j < n {
                    i = j + 1;
                } else {
                    i = n;
                }
            } else {
                i = i + 1;
            }
        } else {
            let ghost prev = out@;
            push_char(&mut out, c);
            proof {
                assert(out@ + strip_ansi(s@.skip(i + 1)) =~= prev + (seq![rest[0]] + strip_ansi(
                    rest.skip(1),
                )));
            }
            i = i + 1;
        }
    }
    proof {
        assert(s@.skip(n as int) =~= Seq::<char>::empty());
        assert(out@ + Seq::<char>::empty() =~= out@);
    }
    out
}

/// Executable test for an ASCII letter.
fn is_alpha_exec(c: char) -> (r: bool)
    ensures
        r == is_ascii_alpha(c),
{
    ('a' <= c && c <= 'z') || ('A' <= c && c <= 'Z')
}

} // verus!
