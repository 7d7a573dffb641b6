//! The property parser: checks the `BEGIN:VCARD` / `VERSION:3.0` /
//! `END:VCARD` envelope of a normalized (already unfolded) buffer and
//! parses every logical line in between into a [`Property`] record.
//!
//! Each parsing stage exists twice: as a spec function over byte
//! sequences, which is the grammar's definition, and as an executable
//! function whose contract says it returns exactly what the spec
//! function denotes.  All scanning is leftmost-shortest: every token
//! ends at the first relevant delimiter, and a delimiter of a different
//! kind is never scanned past.

use vstd::prelude::*;

use crate::model::{
    err_at, params_view, props_view, values_view, lemma_params_view_push, lemma_props_view_push,
    lemma_values_view_push, ParseError, ParseErrorKind, ParseErrorModel, Property, PropertyModel,
};
use crate::scan::{
    copy_range, crlf_at, find1, find2, find_byte, find_byte2, find_crlf, find_line_end,
    lemma_find1, lemma_find2, lemma_find_crlf, up, upper, COLON, COMMA, CR, EQ, LF, SEMI,
};

verus! {

/// The case-insensitive envelope opener `BEGIN:VCARD` (11 bytes) starts
/// at index `pos` of `s`.
pub open spec fn begin_at(s: Seq<u8>, pos: int) -> bool {
    &&& 0 <= pos
    &&& pos + 11 <= s.len()
    &&& up(s[pos]) == 66  // B
    &&& up(s[pos + 1]) == 69  // E
    &&& up(s[pos + 2]) == 71  // G
    &&& up(s[pos + 3]) == 73  // I
    &&& up(s[pos + 4]) == 78  // N
    &&& s[pos + 5] == COLON
    &&& up(s[pos + 6]) == 86  // V
    &&& up(s[pos + 7]) == 67  // C
    &&& up(s[pos + 8]) == 65  // A
    &&& up(s[pos + 9]) == 82  // R
    &&& up(s[pos + 10]) == 68  // D
}

/// The case-insensitive version line `VERSION:3.0` (11 bytes) starts at
/// index `pos` of `s`.  Only version 3.0 is recognized.
pub open spec fn version_at(s: Seq<u8>, pos: int) -> bool {
    &&& 0 <= pos
    &&& pos + 11 <= s.len()
    &&& up(s[pos]) == 86  // V
    &&& up(s[pos + 1]) == 69  // E
    &&& up(s[pos + 2]) == 82  // R
    &&& up(s[pos + 3]) == 83  // S
    &&& up(s[pos + 4]) == 73  // I
    &&& up(s[pos + 5]) == 79  // O
    &&& up(s[pos + 6]) == 78  // N
    &&& s[pos + 7] == COLON
    &&& s[pos + 8] == 51  // 3
    &&& s[pos + 9] == 46  // .
    &&& s[pos + 10] == 48  // 0
}

/// The case-insensitive envelope closer `END:VCARD` (9 bytes) starts at
/// index `pos` of `s`.
pub open spec fn end_marker_at(s: Seq<u8>, pos: int) -> bool {
    &&& 0 <= pos
    &&& pos + 9 <= s.len()
    &&& up(s[pos]) == 69  // E
    &&& up(s[pos + 1]) == 78  // N
    &&& up(s[pos + 2]) == 68  // D
    &&& s[pos + 3] == COLON
    &&& up(s[pos + 4]) == 86  // V
    &&& up(s[pos + 5]) == 67  // C
    &&& up(s[pos + 6]) == 65  // A
    &&& up(s[pos + 7]) == 82  // R
    &&& up(s[pos + 8]) == 68  // D
}

/// The name token `nm` case-insensitively equals the reserved terminator
/// keyword `END`.
pub open spec fn is_end_name(nm: Seq<u8>) -> bool {
    &&& nm.len() == 3
    &&& up(nm[0]) == 69  // E
    &&& up(nm[1]) == 78  // N
    &&& up(nm[2]) == 68  // D
}

/// Executable test for [`begin_at`].
fn check_begin(s: &[u8], pos: usize) -> (r: bool)
    requires
        pos <= s@.len(),
    ensures
        r == begin_at(s@, pos as int),
{
    if s.len() - pos < 11 {
        return false;
    }
    upper(s[pos]) == 66 && upper(s[pos + 1]) == 69 && upper(s[pos + 2]) == 71 && upper(
        s[pos + 3],
    ) == 73 && upper(s[pos + 4]) == 78 && s[pos + 5] == COLON && upper(s[pos + 6]) == 86 && upper(
        s[pos + 7],
    ) == 67 && upper(s[pos + 8]) == 65 && upper(s[pos + 9]) == 82 && upper(s[pos + 10]) == 68
}

/// Executable test for [`version_at`].
fn check_version(s: &[u8], pos: usize) -> (r: bool)
    requires
        pos <= s@.len(),
    ensures
        r == version_at(s@, pos as int),
{
    if s.len() - pos < 11 {
        return false;
    }
    upper(s[pos]) == 86 && upper(s[pos + 1]) == 69 && upper(s[pos + 2]) == 82 && upper(
        s[pos + 3],
    ) == 83 && upper(s[pos + 4]) == 73 && upper(s[pos + 5]) == 79 && upper(s[pos + 6]) == 78
        && s[pos + 7] == COLON && s[pos + 8] == 51 && s[pos + 9] == 46 && s[pos + 10] == 48
}

/// Executable test for [`end_marker_at`].
fn check_end_marker(s: &[u8], pos: usize) -> (r: bool)
    requires
        pos <= s@.len(),
    ensures
        r == end_marker_at(s@, pos as int),
{
    if s.len() - pos < 9 {
        return false;
    }
    upper(s[pos]) == 69 && upper(s[pos + 1]) == 78 && upper(s[pos + 2]) == 68 && s[pos + 3]
        == COLON && upper(s[pos + 4]) == 86 && upper(s[pos + 5]) == 67 && upper(s[pos + 6]) == 65
        && upper(s[pos + 7]) == 82 && upper(s[pos + 8]) == 68
}

/// Executable test for [`crlf_at`].
fn check_crlf(s: &[u8], pos: usize) -> (r: bool)
    requires
        pos <= s@.len(),
    ensures
        r == crlf_at(s@, pos as int),
{
    if s.len() - pos < 2 {
        return false;
    }
    s[pos] == CR && s[pos + 1] == LF
}

/// Executable test for [`is_end_name`].
fn check_end_name(nm: &Vec<u8>) -> (r: bool)
    ensures
        r == is_end_name(nm@),
{
    nm.len() == 3 && upper(nm[0]) == 69 && upper(nm[1]) == 78 && upper(nm[2]) == 68
}

/// The name token of the property line at `pos`: the longest run of
/// bytes before the first `;` or `:` of the logical line.  On success
/// the returned index is that first delimiter.  A line without either
/// delimiter, or with an empty name, stops the parse with
/// `UnterminatedPropertyHeader`; a name that case-insensitively equals
/// the reserved terminator keyword stops it with `ReservedName`.
pub open spec fn scan_name(s: Seq<u8>, pos: int) -> Result<(int, Seq<u8>), ParseErrorModel> {
    let e = find_crlf(s, pos);
    let d = find2(s, pos, e, SEMI, COLON);
    if d == e {
        Err(err_at(ParseErrorKind::UnterminatedPropertyHeader, e))
    } else if d == pos {
        Err(err_at(ParseErrorKind::UnterminatedPropertyHeader, pos))
    } else if is_end_name(s.subrange(pos, d)) {
        Err(err_at(ParseErrorKind::ReservedName, pos))
    } else {
        Ok((d, s.subrange(pos, d)))
    }
}

/// One `key=value` parameter starting at `pos` (just after its `;`):
/// the key runs to the first `=`, the value to the next `;` or `:` of
/// the logical line.  On success the returned index is that delimiter.
/// A key interrupted by `;` or `:`, a line without `=`, or a value that
/// reaches the end of the line stops the parse with
/// `UnterminatedPropertyHeader`.
pub open spec fn scan_param(s: Seq<u8>, pos: int) -> Result<(int, (Seq<u8>, Seq<u8>)), ParseErrorModel> {
    let e = find_crlf(s, pos);
    let eq = find1(s, pos, e, EQ);
    let dd = find2(s, pos, e, SEMI, COLON);
    if dd < eq {
        Err(err_at(ParseErrorKind::UnterminatedPropertyHeader, dd))
    } else if eq >= e {
        Err(err_at(ParseErrorKind::UnterminatedPropertyHeader, e))
    } else {
        let ve = find2(s, eq + 1, e, SEMI, COLON);
        if ve == e {
            Err(err_at(ParseErrorKind::UnterminatedPropertyHeader, e))
        } else {
            Ok((ve, (s.subrange(pos, eq), s.subrange(eq + 1, ve))))
        }
    }
}

/// On success a parameter ends strictly inside its logical line, after
/// its start.
pub proof fn lemma_scan_param_bounds(s: Seq<u8>, pos: int)
    requires
        0 <= pos <= s.len(),
    ensures
        scan_param(s, pos) matches Ok(r) ==> pos < r.0 < find_crlf(s, pos) && (s[r.0] == SEMI
            || s[r.0] == COLON),
{
    lemma_find_crlf(s, pos);
    let e = find_crlf(s, pos);
    lemma_find1(s, pos, e, EQ);
    lemma_find2(s, pos, e, SEMI, COLON);
    let eq = find1(s, pos, e, EQ);
    if !(find2(s, pos, e, SEMI, COLON) < eq) && eq < e {
        lemma_find2(s, eq + 1, e, SEMI, COLON);
    }
}

/// The parameter list of the property line whose name ended at `pos`,
/// together with the index just after the terminating `:`.  At `pos`
/// stands either the bare `:` that ends the header, or the `;` of the
/// next parameter; anything else stops the parse with
/// `UnterminatedPropertyHeader`.
pub open spec fn scan_params(s: Seq<u8>, pos: int) -> Result<
    (int, Seq<(Seq<u8>, Seq<u8>)>),
    ParseErrorModel,
>
    decreases s.len() - pos when 0 <= pos <= s.len() via scan_params_decreases
{
    if pos >= s.len() {
        Err(err_at(ParseErrorKind::UnterminatedPropertyHeader, pos))
    } else if s[pos] == COLON {
        Ok((pos + 1, Seq::empty()))
    } else if s[pos] == SEMI {
        match scan_param(s, pos + 1) {
            Err(e) => Err(e),
            Ok((q, kv)) => match scan_params(s, q) {
                Err(e) => Err(e),
                Ok((r, rest)) => Ok((r, seq![kv] + rest)),
            },
        }
    } else {
        Err(err_at(ParseErrorKind::UnterminatedPropertyHeader, pos))
    }
}

#[via_fn]
proof fn scan_params_decreases(s: Seq<u8>, pos: int) {
    if 0 <= pos && pos < s.len() && s[pos] == SEMI {
        lemma_scan_param_bounds(s, pos + 1);
        lemma_find_crlf(s, pos + 1);
    }
}

/// On success the parameter list ends after its start and within the
/// input.
pub proof fn lemma_scan_params_bounds(s: Seq<u8>, pos: int)
    requires
        0 <= pos <= s.len(),
    ensures
        scan_params(s, pos) matches Ok(r) ==> pos < r.0 <= s.len(),
    decreases s.len() - pos,
{
    if pos < s.len() && s[pos] == SEMI {
        lemma_scan_param_bounds(s, pos + 1);
        lemma_find_crlf(s, pos + 1);
        match scan_param(s, pos + 1) {
            Ok((q, _)) => lemma_scan_params_bounds(s, q),
            Err(_) => (),
        }
    }
}

/// The value region of a property line, starting at `pos` (just after
/// the terminating `:`) and running to the end of the logical line,
/// split on commas into ordered fragments.  A region without a comma is
/// a single fragment, verbatim; splitting never fails and never
/// collapses, so the fragment list is never empty.
pub open spec fn split_commas(s: Seq<u8>, pos: int, end: int) -> Seq<Seq<u8>>
    decreases end - pos when 0 <= pos <= end <= s.len() via split_commas_decreases
{
    let c = find1(s, pos, end, COMMA);
    if c >= end {
        seq![s.subrange(pos, end)]
    } else {
        seq![s.subrange(pos, c)] + split_commas(s, c + 1, end)
    }
}

#[via_fn]
proof fn split_commas_decreases(s: Seq<u8>, pos: int, end: int) {
    lemma_find1(s, pos, end, COMMA);
}

/// The value stage: the end of the logical line that starts at `pos`,
/// and the comma-split fragments of the region before it.  This stage
/// has no failure mode.
pub open spec fn scan_values(s: Seq<u8>, pos: int) -> (int, Seq<Seq<u8>>) {
    (find_crlf(s, pos), split_commas(s, pos, find_crlf(s, pos)))
}

/// One whole property line at `pos`: name, then parameters, then the
/// terminating `:`, then the comma-split value region.  On success the
/// returned index is the end of the logical line (its terminator, or
/// the end of the input).
pub open spec fn scan_property(s: Seq<u8>, pos: int) -> Result<(int, PropertyModel), ParseErrorModel> {
    match scan_name(s, pos) {
        Err(e) => Err(e),
        Ok((d, name)) => match scan_params(s, d) {
            Err(e) => Err(e),
            Ok((v, params)) => Ok(
                (
                    scan_values(s, v).0,
                    PropertyModel { group: None, name, params, value: scan_values(s, v).1 },
                ),
            ),
        },
    }
}

/// On success a property line ends after its start and within the
/// input.
pub proof fn lemma_scan_property_bounds(s: Seq<u8>, pos: int)
    requires
        0 <= pos <= s.len(),
    ensures
        scan_property(s, pos) matches Ok(r) ==> pos < r.0 <= s.len(),
{
    lemma_find_crlf(s, pos);
    let e = find_crlf(s, pos);
    lemma_find2(s, pos, e, SEMI, COLON);
    let d = find2(s, pos, e, SEMI, COLON);
    if d != e && d != pos && !is_end_name(s.subrange(pos, d)) {
        lemma_scan_params_bounds(s, d);
        match scan_params(s, d) {
            Ok((v, _)) => lemma_find_crlf(s, v),
            Err(_) => (),
        }
    }
}

/// The properties that follow the first one: as long as the line that
/// ended at `pos` is followed by a line terminator and one more
/// property, that property is appended.  A line whose name token is the
/// reserved terminator keyword ends the list (the terminator before it
/// is left unconsumed); any other property failure stops the whole
/// parse.  On success the returned index is the end of the last
/// property's logical line.
pub open spec fn scan_more_properties(s: Seq<u8>, pos: int) -> Result<
    (int, Seq<PropertyModel>),
    ParseErrorModel,
>
    decreases s.len() - pos when 0 <= pos <= s.len() via scan_more_properties_decreases
{
    if crlf_at(s, pos) {
        match scan_property(s, pos + 2) {
            Err(e) => if e.kind == ParseErrorKind::ReservedName {
                Ok((pos, Seq::empty()))
            } else {
                Err(e)
            },
            Ok((q, p)) => match scan_more_properties(s, q) {
                Err(e) => Err(e),
                Ok((r, rest)) => Ok((r, seq![p] + rest)),
            },
        }
    } else {
        Ok((pos, Seq::empty()))
    }
}

#[via_fn]
proof fn scan_more_properties_decreases(s: Seq<u8>, pos: int) {
    if crlf_at(s, pos) {
        lemma_scan_property_bounds(s, pos + 2);
    }
}

/// The non-empty property list that starts at `pos`: one property, then
/// [`scan_more_properties`].  A first line whose name token is the
/// reserved terminator keyword means the envelope holds zero properties,
/// which stops the parse with `EmptyPropertyList`.
pub open spec fn scan_properties(s: Seq<u8>, pos: int) -> Result<
    (int, Seq<PropertyModel>),
    ParseErrorModel,
> {
    match scan_property(s, pos) {
        Err(e) => if e.kind == ParseErrorKind::ReservedName {
            Err(err_at(ParseErrorKind::EmptyPropertyList, pos))
        } else {
            Err(e)
        },
        Ok((q, p)) => match scan_more_properties(s, q) {
            Err(e) => Err(e),
            Ok((r, rest)) => Ok((r, seq![p] + rest)),
        },
    }
}

/// The whole document grammar: the envelope opener `BEGIN:VCARD` and one
/// line terminator, the version line `VERSION:3.0` and one line
/// terminator, a non-empty property list, then one line terminator, the
/// closer `END:VCARD` and one trailing line terminator.  Bytes after the
/// trailing terminator are left unread.  On success the result is the
/// property records, in order; the envelope lines are not records.
pub open spec fn parse_spec(s: Seq<u8>) -> Result<Seq<PropertyModel>, ParseErrorModel> {
    if !(begin_at(s, 0) && crlf_at(s, 11)) {
        Err(err_at(ParseErrorKind::MissingBegin, 0))
    } else if !(version_at(s, 13) && crlf_at(s, 24)) {
        Err(err_at(ParseErrorKind::UnsupportedOrMissingVersion, 13))
    } else {
        match scan_properties(s, 26) {
            Err(e) => Err(e),
            Ok((p, props)) => if crlf_at(s, p) && end_marker_at(s, p + 2) && crlf_at(s, p + 11) {
                Ok(props)
            } else {
                Err(err_at(ParseErrorKind::MissingEnd, p))
            },
        }
    }
}

/// Consumes the envelope opener `BEGIN:VCARD` and one line terminator at
/// `pos`, case-insensitively, and returns the index just after them.
pub fn parse_vcf_begin(input: &[u8], pos: usize) -> (r: Result<usize, ParseError>)
    requires
        pos <= input@.len(),
    ensures
        (match r {
            Ok(q) => begin_at(input@, pos as int) && crlf_at(input@, pos as int + 11) && q == pos
                + 13,
            Err(e) => !(begin_at(input@, pos as int) && crlf_at(input@, pos as int + 11)) && e@
                == err_at(ParseErrorKind::MissingBegin, pos as int),
        }),
{
    let _n: usize = input.len();
    if check_begin(input, pos) && check_crlf(input, pos + 11) {
        Ok(pos + 13)
    } else {
        Err(ParseError { kind: ParseErrorKind::MissingBegin, offset: pos })
    }
}

/// Consumes the version line `VERSION:3.0` and one line terminator at
/// `pos`, case-insensitively, and returns the index just after them.
/// Only version 3.0 is recognized.
pub fn parse_version_3(input: &[u8], pos: usize) -> (r: Result<usize, ParseError>)
    requires
        pos <= input@.len(),
    ensures
        (match r {
            Ok(q) => version_at(input@, pos as int) && crlf_at(input@, pos as int + 11) && q == pos
                + 13,
            Err(e) => !(version_at(input@, pos as int) && crlf_at(input@, pos as int + 11)) && e@
                == err_at(ParseErrorKind::UnsupportedOrMissingVersion, pos as int),
        }),
{
    let _n: usize = input.len();
    if check_version(input, pos) && check_crlf(input, pos + 11) {
        Ok(pos + 13)
    } else {
        Err(ParseError { kind: ParseErrorKind::UnsupportedOrMissingVersion, offset: pos })
    }
}

/// Consumes the envelope closer `END:VCARD` and one trailing line
/// terminator at `pos`, case-insensitively, and returns the index just
/// after them.
pub fn parse_vcf_end(input: &[u8], pos: usize) -> (r: Result<usize, ParseError>)
    requires
        pos <= input@.len(),
    ensures
        (match r {
            Ok(q) => end_marker_at(input@, pos as int) && crlf_at(input@, pos as int + 9) && q
                == pos + 11,
            Err(e) => !(end_marker_at(input@, pos as int) && crlf_at(input@, pos as int + 9)) && e@
                == err_at(ParseErrorKind::MissingEnd, pos as int),
        }),
{
    let _n: usize = input.len();
    if check_end_marker(input, pos) && check_crlf(input, pos + 9) {
        Ok(pos + 11)
    } else {
        Err(ParseError { kind: ParseErrorKind::MissingEnd, offset: pos })
    }
}

/// Scans the name token of the property line at `pos`, exactly as
/// [`scan_name`] says: on success the returned index is the first `;`
/// or `:` of the logical line, and the returned bytes are the name.
pub fn parse_property_name(input: &[u8], pos: usize) -> (r: Result<(usize, Vec<u8>), ParseError>)
    requires
        pos <= input@.len(),
    ensures
        (match r {
            Ok((d, name)) => scan_name(input@, pos as int) == Ok::<(int, Seq<u8>), ParseErrorModel>(
                (d as int, name@),
            ),
            Err(e) => scan_name(input@, pos as int) == Err::<(int, Seq<u8>), ParseErrorModel>(e@),
        }),
        r matches Ok(k) ==> pos < k.0 && k.0 <= input@.len(),
{
    let e = find_line_end(input, pos);
    let d = find_byte2(input, pos, e, SEMI, COLON);
    if d == e {
        return Err(ParseError { kind: ParseErrorKind::UnterminatedPropertyHeader, offset: e });
    }
    if d == pos {
        return Err(ParseError { kind: ParseErrorKind::UnterminatedPropertyHeader, offset: pos });
    }
    let name = copy_range(input, pos, d);
    if check_end_name(&name) {
        return Err(ParseError { kind: ParseErrorKind::ReservedName, offset: pos });
    }
    Ok((d, name))
}

/// Scans one `key=value` parameter at `pos` (just after its `;`),
/// exactly as [`scan_param`] says: on success the returned index is the
/// `;` or `:` that ends the value.
pub fn parse_property_parameter(input: &[u8], pos: usize) -> (r: Result<
    (usize, (Vec<u8>, Vec<u8>)),
    ParseError,
>)
    requires
        pos <= input@.len(),
    ensures
        (match r {
            Ok((q, kv)) => scan_param(input@, pos as int) == Ok::<
                (int, (Seq<u8>, Seq<u8>)),
                ParseErrorModel,
            >((q as int, (kv.0@, kv.1@))),
            Err(e) => scan_param(input@, pos as int) == Err::<
                (int, (Seq<u8>, Seq<u8>)),
                ParseErrorModel,
            >(e@),
        }),
        r matches Ok(k) ==> pos < k.0 && k.0 <= input@.len(),
{
    let e = find_line_end(input, pos);
    let eq = find_byte(input, pos, e, EQ);
    let dd = find_byte2(input, pos, e, SEMI, COLON);
    if dd < eq {
        return Err(ParseError { kind: ParseErrorKind::UnterminatedPropertyHeader, offset: dd });
    }
    if eq >= e {
        return Err(ParseError { kind: ParseErrorKind::UnterminatedPropertyHeader, offset: e });
    }
    let ve = find_byte2(input, eq + 1, e, SEMI, COLON);
    if ve == e {
        return Err(ParseError { kind: ParseErrorKind::UnterminatedPropertyHeader, offset: e });
    }
    let key = copy_range(input, pos, eq);
    let val = copy_range(input, eq + 1, ve);
    Ok((ve, (key, val)))
}

/// Scans the parameter list at `pos` (the `;` or `:` that ended the name
/// token), exactly as [`scan_params`] says: on success the returned
/// index is just after the terminating `:`, and the parameters are in
/// encounter order.
pub fn parse_parameters(input: &[u8], pos: usize) -> (r: Result<
    (usize, Vec<(Vec<u8>, Vec<u8>)>),
    ParseError,
>)
    requires
        pos <= input@.len(),
    ensures
        (match r {
            Ok((q, ps)) => scan_params(input@, pos as int) == Ok::<
                (int, Seq<(Seq<u8>, Seq<u8>)>),
                ParseErrorModel,
            >((q as int, params_view(ps@))),
            Err(e) => scan_params(input@, pos as int) == Err::<
                (int, Seq<(Seq<u8>, Seq<u8>)>),
                ParseErrorModel,
            >(e@),
        }),
        r matches Ok(k) ==> pos < k.0 && k.0 <= input@.len(),
{
    let mut params: Vec<(Vec<u8>, Vec<u8>)> = Vec::new();
    let mut cur: usize = pos;
    proof {
        assert(params_view(params@) =~= Seq::<(Seq<u8>, Seq<u8>)>::empty());
    }
    loop
        invariant
            pos <= cur <= input@.len(),
            (match scan_params(input@, cur as int) {
                Ok(r0) => scan_params(input@, pos as int) == Ok::<
                    (int, Seq<(Seq<u8>, Seq<u8>)>),
                    ParseErrorModel,
                >((r0.0, params_view(params@) + r0.1)),
                Err(e0) => scan_params(input@, pos as int) == Err::<
                    (int, Seq<(Seq<u8>, Seq<u8>)>),
                    ParseErrorModel,
                >(e0),
            }),
        decreases input@.len() - cur,
    {
        if cur >= input.len() {
            return Err(ParseError {
                kind: ParseErrorKind::UnterminatedPropertyHeader,
                offset: cur,
            });
        }
        let b = input[cur];
        if b == COLON {
            proof {
                assert(params_view(params@) + Seq::<(Seq<u8>, Seq<u8>)>::empty() =~= params_view(
                    params@,
                ));
            }
            return Ok((cur + 1, params));
        }
        if b != SEMI {
            return Err(ParseError {
                kind: ParseErrorKind::UnterminatedPropertyHeader,
                offset: cur,
            });
        }
        match parse_property_parameter(input, cur + 1) {
            Err(e) => {
                return Err(e);
            },
            Ok((q, kv)) => {
                let ghost kvm = (kv.0@, kv.1@);
                proof {
                    lemma_params_view_push(params@, kv);
                    assert(params_view(params@).push(kvm) =~= params_view(params@) + seq![kvm]);
                    match scan_params(input@, q as int) {
                        Ok(r1) => {
                            assert((params_view(params@) + seq![kvm]) + r1.1 =~= params_view(
                                params@,
                            ) + (seq![kvm] + r1.1));
                        },
                        Err(_) => {},
                    }
                }
                params.push(kv);
                cur = q;
            },
        }
    }
}

/// Scans the value region at `pos` (just after the terminating `:`),
/// exactly as [`scan_values`] says: the returned index is the end of the
/// logical line, and the fragments are the region split on commas, in
/// order.  This stage has no failure mode and at least one fragment
/// (possibly empty) is always returned.
pub fn parse_property_value(input: &[u8], pos: usize) -> (r: (usize, Vec<Vec<u8>>))
    requires
        pos <= input@.len(),
    ensures
        r.0 as int == scan_values(input@, pos as int).0,
        values_view(r.1@) == scan_values(input@, pos as int).1,
        pos <= r.0 <= input@.len(),
{
    let e = find_line_end(input, pos);
    let mut vals: Vec<Vec<u8>> = Vec::new();
    let mut cur: usize = pos;
    proof {
        assert(values_view(vals@) + split_commas(input@, pos as int, e as int) =~= split_commas(
            input@,
            pos as int,
            e as int,
        ));
    }
    loop
        invariant
            pos <= cur <= e <= input@.len(),
            e as int == find_crlf(input@, pos as int),
            split_commas(input@, pos as int, e as int) == values_view(vals@) + split_commas(
                input@,
                cur as int,
                e as int,
            ),
        decreases e - cur,
    {
        let c = find_byte(input, cur, e, COMMA);
        let frag = copy_range(input, cur, c);
        let ghost fragm = frag@;
        let ghost vold = vals@;
        proof {
            lemma_values_view_push(vold, frag);
            assert(values_view(vold).push(fragm) =~= values_view(vold) + seq![fragm]);
        }
        vals.push(frag);
        if c >= e {
            proof {
                assert(split_commas(input@, cur as int, e as int) =~= seq![fragm]);
                assert(values_view(vals@) =~= scan_values(input@, pos as int).1);
            }
            return (e, vals);
        }
        proof {
            assert((values_view(vold) + seq![fragm]) + split_commas(input@, c as int + 1, e as int)
                =~= values_view(vold) + (seq![fragm] + split_commas(
                input@,
                c as int + 1,
                e as int,
            )));
        }
        cur = c + 1;
    }
}

/// Parses one whole property line at `pos`, exactly as [`scan_property`]
/// says: on success the returned index is the end of the logical line
/// and the record holds the name, the parameters in encounter order and
/// the comma-split value fragments, all as owned copies.
pub fn parse_property(input: &[u8], pos: usize) -> (r: Result<(usize, Property), ParseError>)
    requires
        pos <= input@.len(),
    ensures
        (match r {
            Ok((q, p)) => scan_property(input@, pos as int) == Ok::<
                (int, PropertyModel),
                ParseErrorModel,
            >((q as int, p@)),
            Err(e) => scan_property(input@, pos as int) == Err::<
                (int, PropertyModel),
                ParseErrorModel,
            >(e@),
        }),
        r matches Ok(k) ==> pos < k.0 && k.0 <= input@.len(),
{
    let (d, name) = match parse_property_name(input, pos) {
        Ok(x) => x,
        Err(e) => {
            return Err(e);
        },
    };
    let (v, params) = match parse_parameters(input, d) {
        Ok(x) => x,
        Err(e) => {
            return Err(e);
        },
    };
    let (q, value) = parse_property_value(input, v);
    let p = Property { group: None, name, params, value };
    proof {
        lemma_scan_property_bounds(input@, pos as int);
    }
    Ok((q, p))
}

/// Parses the non-empty property list at `pos`, exactly as
/// [`scan_properties`] says: on success the returned index is the end of
/// the last property's logical line, with the terminator before the
/// closing marker left unconsumed.
pub fn parse_properties(input: &[u8], pos: usize) -> (r: Result<(usize, Vec<Property>), ParseError>)
    requires
        pos <= input@.len(),
    ensures
        (match r {
            Ok((q, ps)) => scan_properties(input@, pos as int) == Ok::<
                (int, Seq<PropertyModel>),
                ParseErrorModel,
            >((q as int, props_view(ps@))),
            Err(e) => scan_properties(input@, pos as int) == Err::<
                (int, Seq<PropertyModel>),
                ParseErrorModel,
            >(e@),
        }),
        r matches Ok(k) ==> pos < k.0 && k.0 <= input@.len(),
{
    let (q0, first) = match parse_property(input, pos) {
        Ok(x) => x,
        Err(e) => {
            if e.kind == ParseErrorKind::ReservedName {
                return Err(ParseError { kind: ParseErrorKind::EmptyPropertyList, offset: pos });
            }
            return Err(e);
        },
    };
    let ghost first_model = first@;
    let mut props: Vec<Property> = Vec::new();
    props.push(first);
    let mut cur: usize = q0;
    proof {
        assert(props_view(props@) =~= seq![first_model]);
        match scan_more_properties(input@, cur as int) {
            Ok(r0) => {
                assert(seq![first_model] + r0.1 == props_view(props@) + r0.1);
            },
            Err(_) => {},
        }
    }
    loop
        invariant
            pos < cur <= input@.len(),
            (match scan_more_properties(input@, cur as int) {
                Ok(r0) => scan_properties(input@, pos as int) == Ok::<
                    (int, Seq<PropertyModel>),
                    ParseErrorModel,
                >((r0.0, props_view(props@) + r0.1)),
                Err(e0) => scan_properties(input@, pos as int) == Err::<
                    (int, Seq<PropertyModel>),
                    ParseErrorModel,
                >(e0),
            }),
        decreases input@.len() - cur,
    {
        let _n: usize = input.len();
        let cont = check_crlf(input, cur);
        if !cont {
            proof {
                assert(props_view(props@) + Seq::<PropertyModel>::empty() =~= props_view(props@));
            }
            return Ok((cur, props));
        }
        match parse_property(input, cur + 2) {
            Err(e) => {
                if e.kind == ParseErrorKind::ReservedName {
                    proof {
                        assert(props_view(props@) + Seq::<PropertyModel>::empty() =~= props_view(
                            props@,
                        ));
                    }
                    return Ok((cur, props));
                }
                return Err(e);
            },
            Ok((q2, p)) => {
                let ghost pm = p@;
                proof {
                    lemma_scan_property_bounds(input@, cur as int + 2);
                    lemma_props_view_push(props@, p);
                    assert(props_view(props@).push(pm) =~= props_view(props@) + seq![pm]);
                    match scan_more_properties(input@, q2 as int) {
                        Ok(r1) => {
                            assert((props_view(props@) + seq![pm]) + r1.1 =~= props_view(props@) + (
                            seq![pm] + r1.1));
                        },
                        Err(_) => {},
                    }
                }
                props.push(p);
                cur = q2;
            },
        }
    }
}

/// Parses a whole normalized document, exactly as [`parse_spec`] says:
/// the envelope opener, the version line, a non-empty property list and
/// the envelope closer, yielding the property records in order, or the
/// first error with the byte offset at which parsing stopped.
pub fn parse(input: &[u8]) -> (r: Result<Vec<Property>, ParseError>)
    ensures
        (match r {
            Ok(props) => parse_spec(input@) == Ok::<Seq<PropertyModel>, ParseErrorModel>(
                props_view(props@),
            ),
            Err(e) => parse_spec(input@) == Err::<Seq<PropertyModel>, ParseErrorModel>(e@),
        }),
{
    if let Err(e) = parse_vcf_begin(input, 0) {
        return Err(e);
    }
    if let Err(_) = parse_version_3(input, 13) {
        return Err(ParseError { kind: ParseErrorKind::UnsupportedOrMissingVersion, offset: 13 });
    }
    match parse_properties(input, 26) {
        Err(e) => Err(e),
        Ok((p, props)) => {
            let _n: usize = input.len();
            if !check_crlf(input, p) {
                return Err(ParseError { kind: ParseErrorKind::MissingEnd, offset: p });
            }
            match parse_vcf_end(input, p + 2) {
                Ok(_) => Ok(props),
                Err(_) => Err(ParseError { kind: ParseErrorKind::MissingEnd, offset: p }),
            }
        },
    }
}

} // verus!
