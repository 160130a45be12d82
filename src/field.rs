//! The declared fields of a message, each with its wire placement.

use vstd::prelude::*;
use crate::placement::{DefinitionError, Placement, PlacementView, classified, classify};

verus! {

/// A declared field: its name, whether it may be left out, and the value it
/// takes when absent from a message.
#[derive(Debug)]
pub struct FieldSpec {
    pub name: Vec<u8>,
    pub optional: bool,
    pub default: Option<Vec<u8>>,
}

/// The mathematical value of a field with its placement.
pub ghost struct FieldView {
    pub name: Seq<u8>,
    pub optional: bool,
    pub default: Option<Seq<u8>>,
    pub placement: PlacementView,
}

/// A field of a request or response, classified by placement.
#[derive(Debug)]
pub struct RequestField {
    pub inner: FieldSpec,
    pub kind: Placement,
}

impl View for RequestField {
    type V = FieldView;

    open spec fn view(&self) -> FieldView {
        FieldView {
            name: self.inner.name@,
            optional: self.inner.optional,
            default: match self.inner.default {
                Some(d) => Some(d@),
                None => None,
            },
            placement: self.kind@,
        }
    }
}

/// The views of a list of fields.
pub open spec fn fields_view(fs: Seq<RequestField>) -> Seq<FieldView> {
    fs.map_values(|f: RequestField| f@)
}

impl RequestField {
    /// A field with the given declaration and placement.
    pub fn new(inner: FieldSpec, kind: Placement) -> (r: RequestField)
        ensures
            r.inner == inner,
            r.kind == kind,
    {
        RequestField { inner, kind }
    }

    /// A field placed by its declared placement attributes: none means the
    /// body record, one gives that placement, several conflict.
    pub fn from_attrs(inner: FieldSpec, attrs: &Vec<Placement>) -> (r: Result<RequestField, DefinitionError>)
        ensures
            match r {
                Ok(f) => classified(attrs@) == Ok::<PlacementView, DefinitionError>(f.kind@) && f.inner == inner,
                Err(e) => classified(attrs@) == Err::<PlacementView, DefinitionError>(e),
            },
    {
        match classify(attrs) {
            Ok(kind) => Ok(RequestField { inner, kind }),
            Err(e) => Err(e),
        }
    }

    /// The field, if it is a member of the body record or the newtype body.
    pub fn as_body_field(&self) -> (r: Option<&FieldSpec>)
        ensures
            r is Some <==> (self.kind is Body || self.kind is NewtypeBody),
            r matches Some(f) ==> f == &self.inner,
    {
        match &self.kind {
            Placement::Body | Placement::NewtypeBody => Some(&self.inner),
            _ => None,
        }
    }

    /// The field, if it is the raw body.
    pub fn as_raw_body_field(&self) -> (r: Option<&FieldSpec>)
        ensures
            r is Some <==> self.kind is RawBody,
            r matches Some(f) ==> f == &self.inner,
    {
        match &self.kind {
            Placement::RawBody => Some(&self.inner),
            _ => None,
        }
    }

    /// The field, if it is a path segment.
    pub fn as_path_field(&self) -> (r: Option<&FieldSpec>)
        ensures
            r is Some <==> self.kind is Path,
            r matches Some(f) ==> f == &self.inner,
    {
        match &self.kind {
            Placement::Path => Some(&self.inner),
            _ => None,
        }
    }

    /// The field, if it is a named query parameter.
    pub fn as_query_field(&self) -> (r: Option<&FieldSpec>)
        ensures
            r is Some <==> self.kind is Query,
            r matches Some(f) ==> f == &self.inner,
    {
        match &self.kind {
            Placement::Query => Some(&self.inner),
            _ => None,
        }
    }

    /// The field, if it holds the open-ended query map.
    pub fn as_query_map_field(&self) -> (r: Option<&FieldSpec>)
        ensures
            r is Some <==> self.kind is QueryMap,
            r matches Some(f) ==> f == &self.inner,
    {
        match &self.kind {
            Placement::QueryMap => Some(&self.inner),
            _ => None,
        }
    }

    /// The field and its header name, if it is carried in a header.
    pub fn as_header_field(&self) -> (r: Option<(&FieldSpec, &Vec<u8>)>)
        ensures
            r is Some <==> self.kind is Header,
            r matches Some(p) ==> p.0 == &self.inner && self.kind == Placement::Header(*p.1),
    {
        match &self.kind {
            Placement::Header(name) => Some((&self.inner, name)),
            _ => None,
        }
    }
}

} // verus!
