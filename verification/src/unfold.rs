//! The unfolder: reverses physical line folding.  A line terminator
//! (CR LF) immediately followed by a single space is a folding marker;
//! removing it splices the following physical line onto the end of the
//! previous logical line.  The pass has no failure mode: byte sequences
//! that are not exactly a marker are left untouched.

use vstd::prelude::*;

use crate::scan::{CR, LF, SP};

verus! {

/// True when the three-byte folding marker CR LF SP starts at index `i`
/// of `s`.
pub open spec fn marker_at(s: Seq<u8>, i: int) -> bool {
    &&& 0 <= i
    &&& i + 3 <= s.len()
    &&& s[i] == CR
    &&& s[i + 1] == LF
    &&& s[i + 2] == SP
}

/// No folding marker occurs anywhere in `s`.
pub open spec fn marker_free(s: Seq<u8>) -> bool {
    forall|i: int| !marker_at(s, i)
}

/// The last three bytes of `s` are a folding marker.
pub open spec fn ends_with_marker(s: Seq<u8>) -> bool {
    marker_at(s, s.len() - 3)
}

/// The unfolded form of `s`: scanning left to right, every folding
/// marker is deleted as soon as it is complete, so that the bytes pulled
/// together by a deletion are examined again and markers are resolved in
/// left-to-right order.
pub open spec fn unfold_spec(s: Seq<u8>) -> Seq<u8>
    decreases s.len(),
{
    if s.len() == 0 {
        Seq::empty()
    } else {
        let t = unfold_spec(s.drop_last()).push(s.last());
        if ends_with_marker(t) {
            t.take(t.len() - 3)
        } else {
            t
        }
    }
}

/// A prefix of a marker-free sequence is marker-free.
proof fn lemma_marker_free_prefix(s: Seq<u8>, n: int)
    requires
        marker_free(s),
        0 <= n <= s.len(),
    ensures
        marker_free(s.take(n)),
{
    assert forall|i: int| !marker_at(s.take(n), i) by {
        if 0 <= i && i + 3 <= n {
            assert(!marker_at(s, i));
        }
    }
}

/// After one pass, no folding marker remains.
pub proof fn lemma_unfold_marker_free(s: Seq<u8>)
    ensures
        marker_free(unfold_spec(s)),
    decreases s.len(),
{
    if s.len() == 0 {
    } else {
        lemma_unfold_marker_free(s.drop_last());
        let acc = unfold_spec(s.drop_last());
        let t = acc.push(s.last());
        if ends_with_marker(t) {
            let r = t.take(t.len() - 3);
            assert(r =~= acc.take(acc.len() - 2));
            lemma_marker_free_prefix(acc, acc.len() - 2);
        } else {
            assert forall|i: int| !marker_at(t, i) by {
                if 0 <= i && i + 3 <= t.len() {
                    if i + 3 == t.len() {
                        assert(!ends_with_marker(t));
                    } else {
                        assert(!marker_at(acc, i));
                        assert(t[i] == acc[i] && t[i + 1] == acc[i + 1] && t[i + 2] == acc[i
                            + 2]);
                    }
                }
            }
        }
    }
}

/// Unfolding a marker-free sequence leaves it unchanged.
pub proof fn lemma_unfold_marker_free_identity(s: Seq<u8>)
    requires
        marker_free(s),
    ensures
        unfold_spec(s) == s,
    decreases s.len(),
{
    if s.len() == 0 {
        assert(unfold_spec(s) =~= s);
    } else {
        lemma_marker_free_prefix(s, s.len() - 1);
        assert(s.drop_last() =~= s.take(s.len() - 1));
        lemma_unfold_marker_free_identity(s.drop_last());
        let t = unfold_spec(s.drop_last()).push(s.last());
        assert(t =~= s);
        assert(!marker_at(s, s.len() - 3));
    }
}

/// Idempotence law: unfolding is a single complete pass, so unfolding
/// the result of unfolding changes nothing.
pub proof fn lemma_unfold_idempotent(s: Seq<u8>)
    ensures
        unfold_spec(unfold_spec(s)) == unfold_spec(s),
{
    lemma_unfold_marker_free(s);
    lemma_unfold_marker_free_identity(unfold_spec(s));
}

/// Reverses physical line folding in place: deletes every line
/// terminator that is immediately followed by a single space, together
/// with that one space, resolving markers in left-to-right order.
pub fn unfold(input: &mut Vec<u8>)
    ensures
        final(input)@ == unfold_spec(old(input)@),
{
    let n: usize = input.len();
    let mut out: Vec<u8> = Vec::new();
    let mut i: usize = 0;
    while i < n
        invariant
            i <= n,
            n == input@.len(),
            input@ == old(input)@,
            out@ == unfold_spec(input@.take(i as int)),
        decreases n - i,
    {
        let ghost prefix = input@.take(i as int);
        let ghost next = input@.take(i as int + 1);
        proof {
            assert(next.drop_last() =~= prefix);
            assert(next.last() == input@[i as int]);
        }
        out.push(input[i]);
        let m: usize = out.len();
        if m >= 3 && out[m - 3] == CR && out[m - 2] == LF && out[m - 1] == SP {
            proof {
                assert(ends_with_marker(out@));
            }
            out.truncate(m - 3);
        } else {
            proof {
                assert(!ends_with_marker(unfold_spec(prefix).push(next.last())));
            }
        }
        i = i + 1;
    }
    proof {
        assert(input@.take(n as int) =~= input@);
    }
    *input = out;
}

} // verus!
