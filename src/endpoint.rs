//! An endpoint definition: metadata with request and response fields, checked
//! for consistency when it is built.

use vstd::prelude::*;
use crate::bytes::copy_bytes;
use crate::field::{FieldSpec, FieldView, RequestField, fields_view};
use crate::placement::{Placement, PlacementView, classified};
use crate::marshal::names_unique;
use crate::metadata::Metadata;
use crate::placement::DefinitionError;
use crate::validate::{check_request, check_response, request_check, response_check, templates};

verus! {

/// The outcome of checking a whole definition: the request first, then the
/// response.
pub open spec fn definition_check(meta: Metadata, req: Seq<RequestField>, resp: Seq<RequestField>) -> Result<(), DefinitionError> {
    match request_check(meta.method, fields_view(req), templates(meta.history@)) {
        Err(e) => Err(e),
        Ok(()) => response_check(fields_view(resp)),
    }
}

/// A declared field with its placement attributes, before classification.
#[derive(Debug)]
pub struct FieldDecl {
    pub spec: FieldSpec,
    pub attrs: Vec<Placement>,
}

/// The view of a declared field once classified.
pub open spec fn decl_view(d: FieldDecl) -> FieldView {
    FieldView {
        name: d.spec.name@,
        optional: d.spec.optional,
        default: match d.spec.default {
            Some(x) => Some(x@),
            None => None,
        },
        placement: classified(d.attrs@)->Ok_0,
    }
}

/// The views of declared fields once classified.
pub open spec fn decl_views(ds: Seq<FieldDecl>) -> Seq<FieldView> {
    ds.map_values(|d: FieldDecl| decl_view(d))
}

/// Whether every declared field has a placement.
pub open spec fn all_classified(ds: Seq<FieldDecl>) -> bool {
    forall|k: int| 0 <= k < ds.len() ==> (#[trigger] classified(ds[k].attrs@)) is Ok
}

/// Copies a field declaration.
fn copy_spec(f: &FieldSpec) -> (r: FieldSpec)
    ensures
        r.name@ == f.name@,
        r.optional == f.optional,
        match (r.default, f.default) {
            (Some(a), Some(b)) => a@ == b@,
            (None, None) => true,
            _ => false,
        },
{
    FieldSpec {
        name: copy_bytes(&f.name),
        optional: f.optional,
        default: match &f.default {
            Some(d) => Some(copy_bytes(d)),
            None => None,
        },
    }
}

/// A checked endpoint definition.
#[derive(Debug)]
pub struct Endpoint {
    pub metadata: Metadata,
    pub request: Vec<RequestField>,
    pub response: Vec<RequestField>,
}

impl Endpoint {
    /// Well-formed metadata, unique field names, and a definition that
    /// passes every check.
    pub open spec fn wf(&self) -> bool {
        &&& self.metadata.wf()
        &&& names_unique(fields_view(self.request@))
        &&& names_unique(fields_view(self.response@))
        &&& definition_check(self.metadata, self.request@, self.response@) is Ok
    }

    /// Builds an endpoint, refusing a definition that contradicts itself.
    pub fn new(metadata: Metadata, request: Vec<RequestField>, response: Vec<RequestField>) -> (r: Result<Endpoint, DefinitionError>)
        requires
            metadata.wf(),
            names_unique(fields_view(request@)),
            names_unique(fields_view(response@)),
        ensures
            match r {
                Ok(e) => e.wf() && e.metadata == metadata && e.request == request && e.response == response,
                Err(err) => definition_check(metadata, request@, response@) == Err::<(), DefinitionError>(err),
            },
    {
        match check_request(metadata.method, &metadata.history, &request) {
            Err(e) => {
                return Err(e);
            },
            Ok(()) => {},
        }
        match check_response(&response) {
            Err(e) => {
                return Err(e);
            },
            Ok(()) => {},
        }
        Ok(Endpoint { metadata, request, response })
    }

    /// Builds an endpoint from declared request fields: each field is
    /// classified in declaration order, and the first conflict is the error;
    /// then the whole definition is checked.
    pub fn from_declarations(metadata: Metadata, request: &Vec<FieldDecl>, response: Vec<RequestField>) -> (r: Result<Endpoint, DefinitionError>)
        requires
            metadata.wf(),
            names_unique(decl_views(request@)),
            names_unique(fields_view(response@)),
        ensures
            !all_classified(request@) ==> r == Err::<Endpoint, DefinitionError>(DefinitionError::ConflictingPlacement),
            all_classified(request@) ==> match r {
                Ok(e) => e.wf() && e.metadata == metadata && e.response == response
                    && fields_view(e.request@) == decl_views(request@),
                Err(err) => match request_check(metadata.method, decl_views(request@), templates(metadata.history@)) {
                    Err(first) => err == first,
                    Ok(()) => response_check(fields_view(response@)) == Err::<(), DefinitionError>(err),
                },
            },
    {
        let ghost ds = request@;
        let mut fields: Vec<RequestField> = Vec::new();
        let mut k: usize = 0;
        while k < request.len()
            invariant
                0 <= k <= request.len(),
                ds == request@,
                fields@.len() == k,
                forall|q: int| 0 <= q < k ==> (#[trigger] classified(ds[q].attrs@)) is Ok,
                forall|q: int| 0 <= q < k ==> (#[trigger] fields@[q])@ == decl_view(ds[q]),
            decreases request.len() - k,
        {
            let d = &request[k];
            match RequestField::from_attrs(copy_spec(&d.spec), &d.attrs) {
                Ok(f) => {
                    proof {
                        let dv = decl_view(ds[k as int]);
                        assert(f@.placement == dv.placement);
                        assert(f@.name == dv.name);
                        assert(f@.default == dv.default);
                        assert(f@ == dv);
                    }
                    fields.push(f);
                },
                Err(e) => {
                    assert(!(classified(ds[k as int].attrs@) is Ok));
                    return Err(DefinitionError::ConflictingPlacement);
                },
            }
            k += 1;
        }
        assert(fields_view(fields@) =~= decl_views(ds));
        Endpoint::new(metadata, fields, response)
    }
}

} // verus!
