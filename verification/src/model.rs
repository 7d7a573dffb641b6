//! The data model of the decoder: one parsed property line ([`Property`]),
//! the parse-error taxonomy ([`ParseErrorKind`], [`ParseError`]), and the
//! mathematical views the contracts are stated over.

use vstd::prelude::*;

verus! {

/// One parsed property line.  All fields hold owned copies of input
/// bytes, so a `Property` does not borrow from the buffer it was parsed
/// from.
///
/// Invariant established by a successful parse: `name` is non-empty and
/// never equals the reserved terminator keyword case-insensitively,
/// `params` keeps the parameters in encounter order (keys need not be
/// unique), and `value` has at least one fragment (possibly the empty
/// byte string).
#[derive(Debug, Clone)]
pub struct Property {
    /// Optional group prefix.  The decoder does not recognise group
    /// prefixes, so a parsed property always has `None` here.
    pub group: Option<Vec<u8>>,
    /// The property name token, as it appeared in the input.
    pub name: Vec<u8>,
    /// The `key=value` parameters, in encounter order.
    pub params: Vec<(Vec<u8>, Vec<u8>)>,
    /// The value region, split on commas into ordered fragments.  A
    /// single-fragment vector means the value had no comma; callers that
    /// know a property is free text can rejoin the fragments with commas
    /// to recover the region verbatim.
    pub value: Vec<Vec<u8>>,
}

/// The mathematical view of a [`Property`]: every byte vector becomes a
/// sequence.
#[verifier::ext_equal]
pub struct PropertyModel {
    /// View of [`Property::group`].
    pub group: Option<Seq<u8>>,
    /// View of [`Property::name`].
    pub name: Seq<u8>,
    /// View of [`Property::params`].
    pub params: Seq<(Seq<u8>, Seq<u8>)>,
    /// View of [`Property::value`].
    pub value: Seq<Seq<u8>>,
}

/// View of a parameter list: each pair of byte vectors becomes a pair of
/// sequences.
pub open spec fn params_view(ps: Seq<(Vec<u8>, Vec<u8>)>) -> Seq<(Seq<u8>, Seq<u8>)> {
    Seq::new(ps.len(), |i: int| (ps[i].0@, ps[i].1@))
}

/// View of a value-fragment list: each byte vector becomes a sequence.
pub open spec fn values_view(vs: Seq<Vec<u8>>) -> Seq<Seq<u8>> {
    Seq::new(vs.len(), |i: int| vs[i]@)
}

/// View of a record list: each record becomes its model.
pub open spec fn props_view(ps: Seq<Property>) -> Seq<PropertyModel> {
    Seq::new(ps.len(), |i: int| ps[i]@)
}

impl View for Property {
    type V = PropertyModel;

    open spec fn view(&self) -> PropertyModel {
        PropertyModel {
            group: match self.group {
                Some(g) => Some(g@),
                None => None,
            },
            name: self.name@,
            params: params_view(self.params@),
            value: values_view(self.value@),
        }
    }
}

/// Appending a parameter appends its view.
pub proof fn lemma_params_view_push(ps: Seq<(Vec<u8>, Vec<u8>)>, kv: (Vec<u8>, Vec<u8>))
    ensures
        params_view(ps.push(kv)) == params_view(ps).push((kv.0@, kv.1@)),
{
    assert(params_view(ps.push(kv)) =~= params_view(ps).push((kv.0@, kv.1@)));
}

/// Appending a fragment appends its view.
pub proof fn lemma_values_view_push(vs: Seq<Vec<u8>>, v: Vec<u8>)
    ensures
        values_view(vs.push(v)) == values_view(vs).push(v@),
{
    assert(values_view(vs.push(v)) =~= values_view(vs).push(v@));
}

/// Appending a record appends its model.
pub proof fn lemma_props_view_push(ps: Seq<Property>, p: Property)
    ensures
        props_view(ps.push(p)) == props_view(ps).push(p@),
{
    assert(props_view(ps.push(p)) =~= props_view(ps).push(p@));
}

/// What stopped a parse.  Every kind is terminal: the parse returns at
/// the first failure and yields no partial document.
#[derive(Debug, Clone, Copy, PartialEq, Eq, Structural)]
pub enum ParseErrorKind {
    /// The input does not open with the envelope marker `BEGIN:VCARD`.
    MissingBegin,
    /// The version line is absent or not the single supported value
    /// `VERSION:3.0`.
    UnsupportedOrMissingVersion,
    /// A property line's name token equals the closing-marker keyword,
    /// indicating envelope desynchronization.
    ReservedName,
    /// No `:` ends the property header before the logical line does.
    UnterminatedPropertyHeader,
    /// Zero properties between the version line and the end marker.
    EmptyPropertyList,
    /// The closing marker `END:VCARD` is absent or malformed.
    MissingEnd,
}

/// A parse failure: its kind and the byte offset at which parsing
/// stopped.
#[derive(Debug, Clone, Copy, PartialEq, Eq, Structural)]
pub struct ParseError {
    /// What stopped the parse.
    pub kind: ParseErrorKind,
    /// Byte offset into the normalized input at which parsing stopped.
    pub offset: usize,
}

/// The mathematical view of a [`ParseError`].
#[verifier::ext_equal]
pub struct ParseErrorModel {
    /// View of [`ParseError::kind`].
    pub kind: ParseErrorKind,
    /// View of [`ParseError::offset`].
    pub offset: int,
}

impl View for ParseError {
    type V = ParseErrorModel;

    open spec fn view(&self) -> ParseErrorModel {
        ParseErrorModel { kind: self.kind, offset: self.offset as int }
    }
}

/// Shorthand for a parse-error model value.
pub open spec fn err_at(kind: ParseErrorKind, offset: int) -> ParseErrorModel {
    ParseErrorModel { kind, offset }
}

} // verus!
