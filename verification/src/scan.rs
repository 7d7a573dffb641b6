//! Byte-level scanning primitives shared by the unfolder and the parser:
//! the delimiter constants of the format, ASCII upper-casing, and
//! leftmost-occurrence searches for the line terminator and for delimiter
//! bytes, each as a spec function with a matching executable search.

use vstd::prelude::*;

verus! {

/// Carriage return, first byte of the two-byte line terminator.
pub const CR: u8 = 13;

/// Line feed, second byte of the two-byte line terminator.
pub const LF: u8 = 10;

/// The space byte, the continuation marker after a line terminator.
pub const SP: u8 = 32;

/// `;`, introduces a parameter.
pub const SEMI: u8 = 59;

/// `:`, ends the property header and starts the value region.
pub const COLON: u8 = 58;

/// `=`, separates a parameter key from its value.
pub const EQ: u8 = 61;

/// `,`, separates value fragments.
pub const COMMA: u8 = 44;

/// ASCII upper-casing of one byte; bytes outside `a..=z` are unchanged.
pub open spec fn up(b: u8) -> u8 {
    if 97 <= b && b <= 122 {
        (b - 32) as u8
    } else {
        b
    }
}

/// Executable ASCII upper-casing, equal to [`up`].
pub fn upper(b: u8) -> (r: u8)
    ensures
        r == up(b),
{
    if 97 <= b && b <= 122 {
        b - 32
    } else {
        b
    }
}

/// True when the two-byte line terminator CR LF starts at index `i` of `s`.
pub open spec fn crlf_at(s: Seq<u8>, i: int) -> bool {
    &&& 0 <= i
    &&& i + 2 <= s.len()
    &&& s[i] == CR
    &&& s[i + 1] == LF
}

/// Index of the leftmost line terminator at or after `pos`, or `s.len()`
/// when the rest of `s` contains none: the end of the logical line that
/// starts at `pos`.
pub open spec fn find_crlf(s: Seq<u8>, pos: int) -> int
    decreases s.len() - pos when 0 <= pos <= s.len()
{
    if pos + 2 > s.len() {
        s.len() as int
    } else if s[pos] == CR && s[pos + 1] == LF {
        pos
    } else {
        find_crlf(s, pos + 1)
    }
}

/// [`find_crlf`] returns the leftmost terminator position in `[pos, len)`.
pub proof fn lemma_find_crlf(s: Seq<u8>, pos: int)
    requires
        0 <= pos <= s.len(),
    ensures
        pos <= find_crlf(s, pos) <= s.len(),
        forall|i: int| pos <= i < find_crlf(s, pos) ==> !crlf_at(s, i),
        find_crlf(s, pos) < s.len() ==> crlf_at(s, find_crlf(s, pos)),
    decreases s.len() - pos,
{
    if pos + 2 > s.len() {
    } else if s[pos] == CR && s[pos + 1] == LF {
    } else {
        lemma_find_crlf(s, pos + 1);
    }
}

/// Index of the leftmost occurrence of byte `a` in `s[pos..end]`, or `end`
/// when there is none.
pub open spec fn find1(s: Seq<u8>, pos: int, end: int, a: u8) -> int
    decreases end - pos when 0 <= pos <= end <= s.len()
{
    if pos >= end {
        end
    } else if s[pos] == a {
        pos
    } else {
        find1(s, pos + 1, end, a)
    }
}

/// [`find1`] returns the leftmost occurrence of `a` in `[pos, end)`.
pub proof fn lemma_find1(s: Seq<u8>, pos: int, end: int, a: u8)
    requires
        0 <= pos <= end <= s.len(),
    ensures
        pos <= find1(s, pos, end, a) <= end,
        forall|i: int| pos <= i < find1(s, pos, end, a) ==> s[i] != a,
        find1(s, pos, end, a) < end ==> s[find1(s, pos, end, a)] == a,
    decreases end - pos,
{
    if pos >= end {
    } else if s[pos] == a {
    } else {
        lemma_find1(s, pos + 1, end, a);
    }
}

/// Index of the leftmost occurrence of byte `a` or byte `b` in
/// `s[pos..end]`, or `end` when there is none.
pub open spec fn find2(s: Seq<u8>, pos: int, end: int, a: u8, b: u8) -> int
    decreases end - pos when 0 <= pos <= end <= s.len()
{
    if pos >= end {
        end
    } else if s[pos] == a || s[pos] == b {
        pos
    } else {
        find2(s, pos + 1, end, a, b)
    }
}

/// [`find2`] returns the leftmost occurrence of `a` or `b` in `[pos, end)`.
pub proof fn lemma_find2(s: Seq<u8>, pos: int, end: int, a: u8, b: u8)
    requires
        0 <= pos <= end <= s.len(),
    ensures
        pos <= find2(s, pos, end, a, b) <= end,
        forall|i: int| pos <= i < find2(s, pos, end, a, b) ==> s[i] != a && s[i] != b,
        find2(s, pos, end, a, b) < end ==> (s[find2(s, pos, end, a, b)] == a || s[find2(
            s,
            pos,
            end,
            a,
            b,
        )] == b),
    decreases end - pos,
{
    if pos >= end {
    } else if s[pos] == a || s[pos] == b {
    } else {
        lemma_find2(s, pos + 1, end, a, b);
    }
}

/// Executable search for the end of the logical line starting at `pos`,
/// equal to [`find_crlf`].
pub fn find_line_end(s: &[u8], pos: usize) -> (r: usize)
    requires
        pos <= s@.len(),
    ensures
        r as int == find_crlf(s@, pos as int),
        pos <= r <= s@.len(),
{
    proof {
        lemma_find_crlf(s@, pos as int);
    }
    let n: usize = s.len();
    let mut i: usize = pos;
    loop
        invariant
            pos <= i <= n,
            n == s@.len(),
            find_crlf(s@, pos as int) == find_crlf(s@, i as int),
        decreases n - i,
    {
        if i >= n || i + 1 >= n {
            return n;
        }
        if s[i] == CR && s[i + 1] == LF {
            return i;
        }
        i = i + 1;
    }
}

/// Executable search for byte `a` in `s[pos..end]`, equal to [`find1`].
pub fn find_byte(s: &[u8], pos: usize, end: usize, a: u8) -> (r: usize)
    requires
        pos <= end <= s@.len(),
    ensures
        r as int == find1(s@, pos as int, end as int, a),
        pos <= r <= end,
{
    proof {
        lemma_find1(s@, pos as int, end as int, a);
    }
    let mut i: usize = pos;
    loop
        invariant
            pos <= i <= end <= s@.len(),
            find1(s@, pos as int, end as int, a) == find1(s@, i as int, end as int, a),
        decreases end - i,
    {
        if i >= end {
            return end;
        }
        if s[i] == a {
            return i;
        }
        i = i + 1;
    }
}

/// Executable search for byte `a` or byte `b` in `s[pos..end]`, equal to
/// [`find2`].
pub fn find_byte2(s: &[u8], pos: usize, end: usize, a: u8, b: u8) -> (r: usize)
    requires
        pos <= end <= s@.len(),
    ensures
        r as int == find2(s@, pos as int, end as int, a, b),
        pos <= r <= end,
{
    proof {
        lemma_find2(s@, pos as int, end as int, a, b);
    }
    let mut i: usize = pos;
    loop
        invariant
            pos <= i <= end <= s@.len(),
            find2(s@, pos as int, end as int, a, b) == find2(s@, i as int, end as int, a, b),
        decreases end - i,
    {
        if i >= end {
            return end;
        }
        if s[i] == a || s[i] == b {
            return i;
        }
        i = i + 1;
    }
}

/// Owned copy of the byte range `s[a..b]`.
pub fn copy_range(s: &[u8], a: usize, b: usize) -> (r: Vec<u8>)
    requires
        a <= b <= s@.len(),
    ensures
        r@ == s@.subrange(a as int, b as int),
{
    let mut out: Vec<u8> = Vec::new();
    let mut i: usize = a;
    while i < b
        invariant
            a <= i <= b <= s@.len(),
            out@ == s@.subrange(a as int, i as int),
        decreases b - i,
    {
        out.push(s[i]);
        proof {
            assert(out@ =~= s@.subrange(a as int, i + 1 as int));
        }
        i = i + 1;
    }
    out
}

} // verus!
