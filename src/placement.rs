//! Wire placements of the fields of a request or response, and their
//! classification from declared attributes.

use vstd::prelude::*;

verus! {

/// Where a field of a message is carried on the wire.
#[derive(Debug, Clone, PartialEq, Eq)]
pub enum Placement {
    /// A segment of the URL path.
    Path,
    /// A named query parameter.
    Query,
    /// Open-ended key/value pairs of the query string.
    QueryMap,
    /// An HTTP header of the given name.
    Header(Vec<u8>),
    /// A member of the aggregated body record.
    Body,
    /// The entire body, encoded directly.
    NewtypeBody,
    /// The entire body, as opaque bytes.
    RawBody,
}

/// The mathematical value of a [`Placement`]: header names as byte sequences.
pub ghost enum PlacementView {
    Path,
    Query,
    QueryMap,
    Header(Seq<u8>),
    Body,
    NewtypeBody,
    RawBody,
}

impl View for Placement {
    type V = PlacementView;

    open spec fn view(&self) -> PlacementView {
        match self {
            Placement::Path => PlacementView::Path,
            Placement::Query => PlacementView::Query,
            Placement::QueryMap => PlacementView::QueryMap,
            Placement::Header(name) => PlacementView::Header(name@),
            Placement::Body => PlacementView::Body,
            Placement::NewtypeBody => PlacementView::NewtypeBody,
            Placement::RawBody => PlacementView::RawBody,
        }
    }
}

/// A definition-time error: an endpoint whose description contradicts itself.
#[derive(Debug, Clone, Copy, PartialEq, Eq, Structural)]
pub enum DefinitionError {
    ConflictingPlacement,
    MultipleBodyTypes,
    MixedBodyKinds,
    MultipleQueryMaps,
    MixedQueryKinds,
    PathFieldMismatch,
    BodyOnSafeMethod,
    QueryOnResponse,
}

/// The placement that a list of declared placement attributes gives a field.
pub open spec fn classified(attrs: Seq<Placement>) -> Result<PlacementView, DefinitionError> {
    if attrs.len() == 0 {
        Ok(PlacementView::Body)
    } else if attrs.len() == 1 {
        Ok(attrs[0]@)
    } else {
        Err(DefinitionError::ConflictingPlacement)
    }
}

/// Copies a placement; the copy has the same view.
pub fn copy_placement(p: &Placement) -> (r: Placement)
    ensures
        r@ == p@,
{
    match p {
        Placement::Path => Placement::Path,
        Placement::Query => Placement::Query,
        Placement::QueryMap => Placement::QueryMap,
        Placement::Header(name) => {
            let n = name.clone();
            assert(n@ =~= name@);
            Placement::Header(n)
        },
        Placement::Body => Placement::Body,
        Placement::NewtypeBody => Placement::NewtypeBody,
        Placement::RawBody => Placement::RawBody,
    }
}

/// Classifies a field from its placement attributes: none means `Body`, one
/// gives that placement, more than one conflict.
pub fn classify(attrs: &Vec<Placement>) -> (r: Result<Placement, DefinitionError>)
    ensures
        r matches Ok(q) ==> classified(attrs@) == Ok::<PlacementView, DefinitionError>(q@),
        r matches Err(e) ==> classified(attrs@) == Err::<PlacementView, DefinitionError>(e),
{
    if attrs.len() == 0 {
        Ok(Placement::Body)
    } else if attrs.len() == 1 {
        Ok(copy_placement(&attrs[0]))
    } else {
        Err(DefinitionError::ConflictingPlacement)
    }
}

} // verus!
