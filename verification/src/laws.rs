//! Laws of the decoder that relate several stages to one another: the
//! shape of a parsed document (one record per logical line of the body),
//! the rejection of the reserved terminator keyword as a property name,
//! the recombination of comma-split value fragments, and the rejection
//! of an envelope with an empty body.  The idempotence law of the
//! unfolder lives beside the unfolder itself.

use vstd::prelude::*;

use crate::model::{err_at, ParseErrorKind, ParseErrorModel, PropertyModel};
use crate::parser::{
    begin_at, end_marker_at, is_end_name, lemma_scan_param_bounds, lemma_scan_params_bounds,
    lemma_scan_property_bounds, parse_spec, scan_name, scan_param, scan_params, scan_more_properties,
    scan_properties, scan_property, split_commas, version_at,
};
use crate::scan::{
    crlf_at, find1, find2, find_crlf, lemma_find1, lemma_find2, lemma_find_crlf, COLON, COMMA,
    SEMI,
};

verus! {

/// Any index with the leftmost-occurrence properties of [`find_crlf`] is
/// its value.
proof fn lemma_find_crlf_is(s: Seq<u8>, pos: int, r: int)
    requires
        0 <= pos <= r <= s.len(),
        forall|i: int| pos <= i < r ==> !crlf_at(s, i),
        r < s.len() ==> crlf_at(s, r),
    ensures
        find_crlf(s, pos) == r,
{
    lemma_find_crlf(s, pos);
    let f = find_crlf(s, pos);
    if f < r {
        assert(crlf_at(s, f));
        assert(!crlf_at(s, f));
    } else if f > r {
        assert(crlf_at(s, r));
        assert(!crlf_at(s, r));
    }
}

/// Any index with the leftmost-occurrence properties of [`find2`] is its
/// value.
proof fn lemma_find2_is(s: Seq<u8>, pos: int, end: int, a: u8, b: u8, r: int)
    requires
        0 <= pos <= r <= end <= s.len(),
        forall|i: int| pos <= i < r ==> s[i] != a && s[i] != b,
        r < end ==> s[r] == a || s[r] == b,
    ensures
        find2(s, pos, end, a, b) == r,
{
    lemma_find2(s, pos, end, a, b);
    let f = find2(s, pos, end, a, b);
    if f < r {
        assert(s[f] == a || s[f] == b);
        assert(s[f] != a && s[f] != b);
    } else if f > r {
        assert(s[r] == a || s[r] == b);
        assert(s[r] != a && s[r] != b);
    }
}

/// The end of a logical line does not move while the scan advances
/// within the line.
proof fn lemma_find_crlf_stable(s: Seq<u8>, a: int, b: int)
    requires
        0 <= a <= b <= find_crlf(s, a),
        b <= s.len(),
    ensures
        find_crlf(s, b) == find_crlf(s, a),
{
    lemma_find_crlf(s, a);
    lemma_find_crlf_is(s, b, find_crlf(s, a));
}

/// A successfully scanned parameter list stays within the logical line
/// of the delimiter it started at.
proof fn lemma_scan_params_line(s: Seq<u8>, pos: int)
    requires
        0 <= pos < s.len(),
        s[pos] == SEMI || s[pos] == COLON,
    ensures
        scan_params(s, pos) matches Ok(r) ==> pos < r.0 <= find_crlf(s, pos),
    decreases s.len() - pos,
{
    lemma_find_crlf(s, pos);
    lemma_find_crlf(s, pos + 1);
    assert(!crlf_at(s, pos));
    if s[pos] == SEMI {
        lemma_scan_param_bounds(s, pos + 1);
        match scan_param(s, pos + 1) {
            Ok((q, _)) => {
                lemma_find_crlf_stable(s, pos + 1, q);
                lemma_scan_params_line(s, q);
            },
            Err(_) => (),
        }
    }
}

/// A successfully scanned property line ends exactly at the end of the
/// logical line it started at.
proof fn lemma_scan_property_line(s: Seq<u8>, pos: int)
    requires
        0 <= pos <= s.len(),
    ensures
        scan_property(s, pos) matches Ok(r) ==> pos < r.0 && r.0 == find_crlf(s, pos),
{
    lemma_find_crlf(s, pos);
    let e = find_crlf(s, pos);
    lemma_find2(s, pos, e, SEMI, COLON);
    let d = find2(s, pos, e, SEMI, COLON);
    match scan_name(s, pos) {
        Ok(_) => {
            lemma_find_crlf_stable(s, pos, d);
            lemma_scan_params_line(s, d);
            match scan_params(s, d) {
                Ok((v, _)) => {
                    lemma_find_crlf_stable(s, pos, v);
                },
                Err(_) => (),
            }
        },
        Err(_) => (),
    }
}

/// The number of logical lines in `s[pos..end]`, where `end` sits at a
/// line boundary: one for the line that starts at `pos`, plus the lines
/// after its terminator.
pub open spec fn line_count(s: Seq<u8>, pos: int, end: int) -> int
    decreases end - pos when 0 <= pos <= end <= s.len() via line_count_decreases
{
    let e = find_crlf(s, pos);
    if e + 2 > end {
        1
    } else {
        1 + line_count(s, e + 2, end)
    }
}

#[via_fn]
proof fn line_count_decreases(s: Seq<u8>, pos: int, end: int) {
    lemma_find_crlf(s, pos);
}

/// The properties scanned after the first one cover one logical line
/// each.
proof fn lemma_more_line_count(s: Seq<u8>, pos: int)
    requires
        0 <= pos <= s.len(),
    ensures
        scan_more_properties(s, pos) matches Ok(r) ==> {
            &&& pos <= r.0 <= s.len()
            &&& (r.1.len() == 0 ==> r.0 == pos)
            &&& (r.1.len() > 0 ==> crlf_at(s, pos) && pos + 2 < r.0 && r.1.len() == line_count(
                s,
                pos + 2,
                r.0,
            ))
        },
    decreases s.len() - pos,
{
    if crlf_at(s, pos) {
        lemma_scan_property_bounds(s, pos + 2);
        lemma_scan_property_line(s, pos + 2);
        match scan_property(s, pos + 2) {
            Ok((q, p)) => {
                lemma_more_line_count(s, q);
                match scan_more_properties(s, q) {
                    Ok((r, rest)) => {
                        if rest.len() == 0 {
                            assert(line_count(s, pos + 2, q) == 1);
                        } else {
                            assert(line_count(s, pos + 2, r) == 1 + line_count(s, q + 2, r));
                        }
                    },
                    Err(_) => (),
                }
            },
            Err(_) => (),
        }
    }
}

/// A successfully scanned property list has exactly one record per
/// logical line of the region it covers.
pub proof fn lemma_properties_line_count(s: Seq<u8>, pos: int)
    requires
        0 <= pos <= s.len(),
    ensures
        scan_properties(s, pos) matches Ok(r) ==> {
            &&& pos < r.0 <= s.len()
            &&& r.1.len() >= 1
            &&& r.1.len() == line_count(s, pos, r.0)
        },
{
    lemma_scan_property_bounds(s, pos);
    lemma_scan_property_line(s, pos);
    match scan_property(s, pos) {
        Ok((q, _)) => {
            lemma_more_line_count(s, q);
            match scan_more_properties(s, q) {
                Ok((r, rest)) => {
                    if rest.len() == 0 {
                        assert(line_count(s, pos, q) == 1);
                    } else {
                        assert(line_count(s, pos, r) == 1 + line_count(s, q + 2, r));
                    }
                },
                Err(_) => (),
            }
        },
        Err(_) => (),
    }
}

/// Round-trip shape law: whenever parsing an unfolded buffer succeeds,
/// it yields exactly one record per logical line strictly between the
/// version line and the end marker, in order — the region from byte 26
/// (just after the version line's terminator) to the terminator that
/// precedes `END:VCARD`.
pub proof fn lemma_round_trip_shape(t: Seq<u8>)
    ensures
        ({
            let s = crate::unfold::unfold_spec(t);
            match parse_spec(s) {
                Ok(props) => match scan_properties(s, 26) {
                    Ok(r) => {
                        &&& props == r.1
                        &&& props.len() == line_count(s, 26, r.0)
                        &&& crlf_at(s, r.0)
                        &&& end_marker_at(s, r.0 + 2)
                    },
                    Err(_) => false,
                },
                Err(_) => true,
            }
        }),
{
    let s = crate::unfold::unfold_spec(t);
    if parse_spec(s) matches Ok(_) {
        lemma_properties_line_count(s, 26);
    }
}

/// Name rejection law: a property line whose name token
/// case-insensitively equals the reserved terminator keyword always
/// fails with `ReservedName`, regardless of what follows the token on
/// the line.
pub proof fn lemma_reserved_name(s: Seq<u8>, pos: int)
    requires
        0 <= pos <= s.len(),
        find2(s, pos, find_crlf(s, pos), SEMI, COLON) < find_crlf(s, pos),
        is_end_name(s.subrange(pos, find2(s, pos, find_crlf(s, pos), SEMI, COLON))),
    ensures
        scan_property(s, pos) == Err::<(int, PropertyModel), ParseErrorModel>(
            err_at(ParseErrorKind::ReservedName, pos),
        ),
{
    let e = find_crlf(s, pos);
    let d = find2(s, pos, e, SEMI, COLON);
    assert(s.subrange(pos, d).len() == 3);
}

/// Value recombination law: the comma-split fragment list of a value
/// region is never empty, and joining it back with commas yields the
/// region verbatim — splitting loses nothing, so a caller that knows a
/// property is free text can recover the unsplit value.
pub open spec fn join_commas(vs: Seq<Seq<u8>>) -> Seq<u8>
    decreases vs.len(),
{
    if vs.len() == 0 {
        Seq::empty()
    } else if vs.len() == 1 {
        vs[0]
    } else {
        vs[0] + seq![COMMA] + join_commas(vs.skip(1))
    }
}

/// See [`join_commas`]: splitting a value region on commas keeps at
/// least one fragment and joining the fragments with commas restores the
/// region byte for byte.
pub proof fn lemma_values_recombine(s: Seq<u8>, pos: int, end: int)
    requires
        0 <= pos <= end <= s.len(),
    ensures
        split_commas(s, pos, end).len() >= 1,
        join_commas(split_commas(s, pos, end)) == s.subrange(pos, end),
    decreases end - pos,
{
    lemma_find1(s, pos, end, COMMA);
    let c = find1(s, pos, end, COMMA);
    if c < end {
        lemma_values_recombine(s, c + 1, end);
        let rest = split_commas(s, c + 1, end);
        let whole = seq![s.subrange(pos, c)] + rest;
        assert(whole[0] == s.subrange(pos, c));
        assert(whole.skip(1) =~= rest);
        assert(s.subrange(pos, c) + seq![COMMA] + join_commas(rest) =~= s.subrange(pos, end));
    }
}

/// Record invariant law: every successfully parsed property line yields
/// a record with a non-empty name that is not the reserved terminator
/// keyword, no group prefix, and at least one value fragment, and the
/// line is consumed exactly up to its terminator.
pub proof fn lemma_property_invariant(s: Seq<u8>, pos: int)
    requires
        0 <= pos <= s.len(),
    ensures
        scan_property(s, pos) matches Ok(r) ==> {
            &&& r.1.name.len() > 0
            &&& !is_end_name(r.1.name)
            &&& r.1.group is None
            &&& r.1.value.len() >= 1
            &&& r.0 == find_crlf(s, pos)
        },
{
    lemma_scan_property_line(s, pos);
    lemma_find_crlf(s, pos);
    let e = find_crlf(s, pos);
    lemma_find2(s, pos, e, SEMI, COLON);
    let d = find2(s, pos, e, SEMI, COLON);
    match scan_name(s, pos) {
        Ok(_) => {
            lemma_scan_params_bounds(s, d);
            match scan_params(s, d) {
                Ok((v, _)) => {
                    lemma_find_crlf(s, v);
                    lemma_values_recombine(s, v, find_crlf(s, v));
                },
                Err(_) => (),
            }
        },
        Err(_) => (),
    }
}

/// Empty-body law: a document whose envelope opener and version line are
/// in place but whose first body line is already the end marker has zero
/// properties and fails with `EmptyPropertyList`.
pub proof fn lemma_empty_body(s: Seq<u8>)
    requires
        begin_at(s, 0),
        crlf_at(s, 11),
        version_at(s, 13),
        crlf_at(s, 24),
        end_marker_at(s, 26),
    ensures
        parse_spec(s) == Err::<Seq<PropertyModel>, ParseErrorModel>(
            err_at(ParseErrorKind::EmptyPropertyList, 26),
        ),
{
    lemma_find_crlf(s, 26);
    let e = find_crlf(s, 26);
    assert(e >= 30) by {
        assert(!crlf_at(s, 26) && !crlf_at(s, 27) && !crlf_at(s, 28) && !crlf_at(s, 29));
        if e < 30 {
            assert(crlf_at(s, e));
        }
    }
    lemma_find2_is(s, 26, e, SEMI, COLON, 29);
    assert(is_end_name(s.subrange(26, 29))) by {
        assert(s.subrange(26, 29)[0] == s[26]);
        assert(s.subrange(26, 29)[1] == s[27]);
        assert(s.subrange(26, 29)[2] == s[28]);
    }
    lemma_reserved_name(s, 26);
}

} // verus!
