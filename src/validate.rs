//! Structural checks on an endpoint definition, run once before any value is
//! marshalled.

use vstd::prelude::*;
use crate::bytes::bytes_eq;
use crate::field::{FieldView, RequestField, fields_view};
use crate::metadata::{
    HistoryEntry, Method, PathTemplate, Segment, SegmentView, is_param_at, placeholders,
};
use crate::placement::{DefinitionError, Placement, PlacementView};

verus! {

/// A placement that takes the whole body.
pub open spec fn is_single_body(p: PlacementView) -> bool {
    p is NewtypeBody || p is RawBody
}

/// The number of fields that take the whole body.
pub open spec fn count_single_body(fs: Seq<FieldView>) -> nat
    decreases fs.len(),
{
    if fs.len() == 0 {
        0
    } else {
        count_single_body(fs.drop_last()) + if is_single_body(fs.last().placement) {
            1nat
        } else {
            0nat
        }
    }
}

/// The number of query-map fields.
pub open spec fn count_query_map(fs: Seq<FieldView>) -> nat
    decreases fs.len(),
{
    if fs.len() == 0 {
        0
    } else {
        count_query_map(fs.drop_last()) + if fs.last().placement is QueryMap {
            1nat
        } else {
            0nat
        }
    }
}

/// Some field is a member of the body record.
pub open spec fn has_body(fs: Seq<FieldView>) -> bool {
    exists|i: int| 0 <= i < fs.len() && (#[trigger] fs[i]).placement is Body
}

/// Some field is a named query parameter.
pub open spec fn has_query(fs: Seq<FieldView>) -> bool {
    exists|i: int| 0 <= i < fs.len() && (#[trigger] fs[i]).placement is Query
}

/// Some field is carried in the body, in any of the three ways.
pub open spec fn has_any_body(fs: Seq<FieldView>) -> bool {
    exists|i: int|
        0 <= i < fs.len() && ((#[trigger] fs[i]).placement is Body || is_single_body(
            fs[i].placement,
        ))
}

/// Whether field `i` is a path field named `n`.
pub open spec fn is_path_field_at(fs: Seq<FieldView>, i: int, n: Seq<u8>) -> bool {
    0 <= i < fs.len() && fs[i].placement is Path && fs[i].name == n
}

/// The names of the path fields.
pub open spec fn path_names(fs: Seq<FieldView>) -> Set<Seq<u8>> {
    Set::new(|n: Seq<u8>| exists|i: int| is_path_field_at(fs, i, n))
}

/// The templates of a history, in order.
pub open spec fn templates(h: Seq<HistoryEntry>) -> Seq<Seq<SegmentView>> {
    h.map_values(|e: HistoryEntry| e.template@)
}

/// Some template's placeholders differ from the path field names.
pub open spec fn path_mismatch(fs: Seq<FieldView>, ts: Seq<Seq<SegmentView>>) -> bool {
    exists|i: int| 0 <= i < ts.len() && placeholders(#[trigger] ts[i]) != path_names(fs)
}

/// The outcome of checking the body and query placements of a message.
pub open spec fn placement_check(fs: Seq<FieldView>) -> Result<(), DefinitionError> {
    if count_single_body(fs) > 1 {
        Err(DefinitionError::MultipleBodyTypes)
    } else if count_query_map(fs) > 1 {
        Err(DefinitionError::MultipleQueryMaps)
    } else if count_single_body(fs) == 1 && has_body(fs) {
        Err(DefinitionError::MixedBodyKinds)
    } else if count_query_map(fs) == 1 && has_query(fs) {
        Err(DefinitionError::MixedQueryKinds)
    } else {
        Ok(())
    }
}

/// The outcome of checking a request's fields against its method and the
/// templates of its history, rule by rule.
pub open spec fn request_check(m: Method, fs: Seq<FieldView>, ts: Seq<Seq<SegmentView>>) -> Result<
    (),
    DefinitionError,
> {
    if placement_check(fs) is Err {
        placement_check(fs)
    } else if path_mismatch(fs, ts) {
        Err(DefinitionError::PathFieldMismatch)
    } else if m == Method::Get && has_any_body(fs) {
        Err(DefinitionError::BodyOnSafeMethod)
    } else {
        Ok(())
    }
}

/// Some field of a response sits in the query string.
pub open spec fn has_any_query(fs: Seq<FieldView>) -> bool {
    exists|i: int|
        0 <= i < fs.len() && ((#[trigger] fs[i]).placement is Query || fs[i].placement is QueryMap)
}

/// The outcome of checking a response's fields: a response has a body and
/// headers, but no path and no query string.
pub open spec fn response_check(fs: Seq<FieldView>) -> Result<(), DefinitionError> {
    if placement_check(fs) is Err {
        placement_check(fs)
    } else if path_names(fs) != Set::<Seq<u8>>::empty() {
        Err(DefinitionError::PathFieldMismatch)
    } else if has_any_query(fs) {
        Err(DefinitionError::QueryOnResponse)
    } else {
        Ok(())
    }
}

/// Checks the body and query placements of a message.
pub fn check_placements(fields: &Vec<RequestField>) -> (r: Result<(), DefinitionError>)
    ensures
        r == placement_check(fields_view(fields@)),
{
    let ghost fs = fields_view(fields@);
    let mut single: usize = 0;
    let mut maps: usize = 0;
    let mut body = false;
    let mut query = false;
    let mut i: usize = 0;
    while i < fields.len()
        invariant
            0 <= i <= fields.len(),
            fs == fields_view(fields@),
            single <= i,
            maps <= i,
            single == count_single_body(fs.subrange(0, i as int)),
            maps == count_query_map(fs.subrange(0, i as int)),
            body == has_body(fs.subrange(0, i as int)),
            query == has_query(fs.subrange(0, i as int)),
        decreases fields.len() - i,
    {
        let ghost sub = fs.subrange(0, i as int);
        let ghost next = fs.subrange(0, i as int + 1);
        assert(next.drop_last() =~= sub);
        assert(next.last() == fields@[i as int]@);
        match &fields[i].kind {
            Placement::NewtypeBody | Placement::RawBody => {
                single += 1;
            },
            Placement::QueryMap => {
                maps += 1;
            },
            Placement::Body => {
                body = true;
            },
            Placement::Query => {
                query = true;
            },
            _ => {},
        }
        proof {
            if has_body(next) {
                let k = choose|k: int| 0 <= k < next.len() && (#[trigger] next[k]).placement is Body;
                if k < i {
                    assert(sub[k] == next[k]);
                }
            }
            if has_body(sub) {
                let k = choose|k: int| 0 <= k < sub.len() && (#[trigger] sub[k]).placement is Body;
                assert(sub[k] == next[k]);
            }
            if has_query(next) {
                let k = choose|k: int| 0 <= k < next.len() && (#[trigger] next[k]).placement is Query;
                if k < i {
                    assert(sub[k] == next[k]);
                }
            }
            if has_query(sub) {
                let k = choose|k: int| 0 <= k < sub.len() && (#[trigger] sub[k]).placement is Query;
                assert(sub[k] == next[k]);
            }
            assert(next[i as int] == next.last());
        }
        i += 1;
    }
    assert(fs.subrange(0, i as int) =~= fs);
    if single > 1 {
        Err(DefinitionError::MultipleBodyTypes)
    } else if maps > 1 {
        Err(DefinitionError::MultipleQueryMaps)
    } else if single == 1 && body {
        Err(DefinitionError::MixedBodyKinds)
    } else if maps == 1 && query {
        Err(DefinitionError::MixedQueryKinds)
    } else {
        Ok(())
    }
}

/// Whether the template has a placeholder named `name`.
pub fn has_param(t: &PathTemplate, name: &Vec<u8>) -> (r: bool)
    ensures
        r == placeholders(t@).contains(name@),
{
    let mut i: usize = 0;
    while i < t.segments.len()
        invariant
            0 <= i <= t.segments.len(),
            forall|k: int| 0 <= k < i ==> !is_param_at(t@, k, name@),
        decreases t.segments.len() - i,
    {
        assert(t@[i as int] == t.segments@[i as int]@);
        match &t.segments[i] {
            Segment::Param(n) => {
                if bytes_eq(n, name) {
                    assert(is_param_at(t@, i as int, name@));
                    return true;
                }
            },
            Segment::Literal(_) => {},
        }
        i += 1;
    }
    false
}

/// Whether some path field is named `name`.
pub fn has_path_field(fields: &Vec<RequestField>, name: &Vec<u8>) -> (r: bool)
    ensures
        r == path_names(fields_view(fields@)).contains(name@),
{
    let ghost fs = fields_view(fields@);
    let mut i: usize = 0;
    while i < fields.len()
        invariant
            0 <= i <= fields.len(),
            fs == fields_view(fields@),
            forall|k: int| 0 <= k < i ==> !is_path_field_at(fs, k, name@),
        decreases fields.len() - i,
    {
        assert(fs[i as int] == fields@[i as int]@);
        if matches!(fields[i].kind, Placement::Path) && bytes_eq(&fields[i].inner.name, name) {
            assert(is_path_field_at(fs, i as int, name@));
            return true;
        }
        i += 1;
    }
    false
}

/// Whether the template's placeholders are exactly the path field names.
pub fn template_agrees(t: &PathTemplate, fields: &Vec<RequestField>) -> (r: bool)
    ensures
        r == (placeholders(t@) == path_names(fields_view(fields@))),
{
    let ghost fs = fields_view(fields@);
    let mut i: usize = 0;
    while i < t.segments.len()
        invariant
            0 <= i <= t.segments.len(),
            fs == fields_view(fields@),
            forall|k: int, n: Seq<u8>| 0 <= k < i && #[trigger] is_param_at(t@, k, n) ==> path_names(fs).contains(n),
        decreases t.segments.len() - i,
    {
        assert(t@[i as int] == t.segments@[i as int]@);
        match &t.segments[i] {
            Segment::Param(n) => {
                if !has_path_field(fields, n) {
                    assert(is_param_at(t@, i as int, n@));
                    assert(placeholders(t@).contains(n@));
                    return false;
                }
            },
            Segment::Literal(_) => {},
        }
        i += 1;
    }
    let mut j: usize = 0;
    while j < fields.len()
        invariant
            0 <= j <= fields.len(),
            fs == fields_view(fields@),
            forall|k: int, n: Seq<u8>| #[trigger] is_path_field_at(fs, k, n) && k < j ==> placeholders(t@).contains(n),
        decreases fields.len() - j,
    {
        assert(fs[j as int] == fields@[j as int]@);
        if matches!(fields[j].kind, Placement::Path) {
            if !has_param(t, &fields[j].inner.name) {
                assert(is_path_field_at(fs, j as int, fields[j as int].inner.name@));
                assert(path_names(fs).contains(fields[j as int].inner.name@));
                return false;
            }
        }
        j += 1;
    }
    assert(placeholders(t@) =~= path_names(fs));
    true
}

/// Checks a request definition: body and query placements, the agreement of
/// every template of the history with the path fields, and no body on `GET`.
pub fn check_request(method: Method, history: &Vec<HistoryEntry>, fields: &Vec<RequestField>) -> (r:
    Result<(), DefinitionError>)
    ensures
        r == request_check(method, fields_view(fields@), templates(history@)),
{
    let ghost fs = fields_view(fields@);
    let ghost ts = templates(history@);
    match check_placements(fields) {
        Err(e) => {
            return Err(e);
        },
        Ok(()) => {},
    }
    let mut i: usize = 0;
    while i < history.len()
        invariant
            0 <= i <= history.len(),
            fs == fields_view(fields@),
            placement_check(fs) is Ok,
            ts == templates(history@),
            forall|k: int| 0 <= k < i ==> placeholders(#[trigger] ts[k]) == path_names(fs),
        decreases history.len() - i,
    {
        if !template_agrees(&history[i].template, fields) {
            assert(ts[i as int] == history@[i as int].template@);
            assert(placeholders(ts[i as int]) != path_names(fs));
            assert(path_mismatch(fs, ts));
            return Err(DefinitionError::PathFieldMismatch);
        }
        i += 1;
    }
    assert(!path_mismatch(fs, ts));
    if method == Method::Get {
        let mut j: usize = 0;
        while j < fields.len()
            invariant
                0 <= j <= fields.len(),
                fs == fields_view(fields@),
                placement_check(fs) is Ok,
                !path_mismatch(fs, ts),
                ts == templates(history@),
                method == Method::Get,
                forall|k: int| 0 <= k < j ==> !((#[trigger] fs[k]).placement is Body || is_single_body(fs[k].placement)),
            decreases fields.len() - j,
        {
            assert(fs[j as int] == fields@[j as int]@);
            match &fields[j].kind {
                Placement::Body | Placement::NewtypeBody | Placement::RawBody => {
                    assert(has_any_body(fs));
                    return Err(DefinitionError::BodyOnSafeMethod);
                },
                _ => {},
            }
            j += 1;
        }
    }
    Ok(())
}

/// Checks a response definition: body placements, and neither path nor query
/// fields.
pub fn check_response(fields: &Vec<RequestField>) -> (r: Result<(), DefinitionError>)
    ensures
        r == response_check(fields_view(fields@)),
{
    let ghost fs = fields_view(fields@);
    match check_placements(fields) {
        Err(e) => {
            return Err(e);
        },
        Ok(()) => {},
    }
    let mut i: usize = 0;
    while i < fields.len()
        invariant
            0 <= i <= fields.len(),
            fs == fields_view(fields@),
            placement_check(fs) is Ok,
            forall|k: int, n: Seq<u8>| k < i ==> !#[trigger] is_path_field_at(fs, k, n),
        decreases fields.len() - i,
    {
        assert(fs[i as int] == fields@[i as int]@);
        if matches!(fields[i].kind, Placement::Path) {
            assert(is_path_field_at(fs, i as int, fs[i as int].name));
            assert(path_names(fs).contains(fs[i as int].name));
            assert(path_names(fs) != Set::<Seq<u8>>::empty());
            return Err(DefinitionError::PathFieldMismatch);
        }
        i += 1;
    }
    assert(path_names(fs) =~= Set::<Seq<u8>>::empty());
    let mut j: usize = 0;
    while j < fields.len()
        invariant
            0 <= j <= fields.len(),
            fs == fields_view(fields@),
            placement_check(fs) is Ok,
            path_names(fs) == Set::<Seq<u8>>::empty(),
            forall|k: int| 0 <= k < j ==> !((#[trigger] fs[k]).placement is Query || fs[k].placement is QueryMap),
        decreases fields.len() - j,
    {
        assert(fs[j as int] == fields@[j as int]@);
        match &fields[j].kind {
            Placement::Query | Placement::QueryMap => {
                assert(has_any_query(fs));
                return Err(DefinitionError::QueryOnResponse);
            },
            _ => {},
        }
        j += 1;
    }
    Ok(())
}

pub proof fn lemma_count_single_body_pos(fs: Seq<FieldView>, i: int)
    requires
        0 <= i < fs.len(),
        is_single_body(fs[i].placement),
    ensures
        count_single_body(fs) >= 1,
    decreases fs.len(),
{
    if i < fs.len() - 1 {
        assert(fs.drop_last()[i] == fs[i]);
        lemma_count_single_body_pos(fs.drop_last(), i);
    }
}

pub proof fn lemma_count_query_map_two(fs: Seq<FieldView>, i: int, j: int)
    requires
        0 <= i < j < fs.len(),
        fs[i].placement is QueryMap,
        fs[j].placement is QueryMap,
    ensures
        count_query_map(fs) >= 2,
    decreases fs.len(),
{
    let d = fs.drop_last();
    if j < fs.len() - 1 {
        assert(d[i] == fs[i] && d[j] == fs[j]);
        lemma_count_query_map_two(d, i, j);
    } else {
        assert(d[i] == fs[i]);
        lemma_count_query_map_pos(d, i);
    }
}

pub proof fn lemma_count_query_map_pos(fs: Seq<FieldView>, i: int)
    requires
        0 <= i < fs.len(),
        fs[i].placement is QueryMap,
    ensures
        count_query_map(fs) >= 1,
    decreases fs.len(),
{
    if i < fs.len() - 1 {
        assert(fs.drop_last()[i] == fs[i]);
        lemma_count_query_map_pos(fs.drop_last(), i);
    }
}

/// Two whole-body fields make the count at least two.
pub proof fn lemma_count_single_body_two(fs: Seq<FieldView>, i: int, j: int)
    requires
        0 <= i < j < fs.len(),
        is_single_body(fs[i].placement),
        is_single_body(fs[j].placement),
    ensures
        count_single_body(fs) >= 2,
    decreases fs.len(),
{
    let d = fs.drop_last();
    if j < fs.len() - 1 {
        assert(d[i] == fs[i] && d[j] == fs[j]);
        lemma_count_single_body_two(d, i, j);
    } else {
        assert(d[i] == fs[i]);
        lemma_count_single_body_pos(d, i);
    }
}

/// A request with a raw body field and a body-record field is rejected as
/// mixing body kinds, when it has no second whole-body field and no second
/// query map (which are reported first).
pub proof fn lemma_raw_and_body_rejected(
    m: Method,
    fs: Seq<FieldView>,
    ts: Seq<Seq<SegmentView>>,
    raw: int,
    body: int,
)
    requires
        0 <= raw < fs.len(),
        0 <= body < fs.len(),
        fs[raw].placement is RawBody,
        fs[body].placement is Body,
        count_single_body(fs) <= 1,
        count_query_map(fs) <= 1,
    ensures
        request_check(m, fs, ts) == Err::<(), DefinitionError>(DefinitionError::MixedBodyKinds),
{
    lemma_count_single_body_pos(fs, raw);
    assert(has_body(fs));
}

/// A request with two query-map fields is rejected as having several query
/// maps, when it has at most one whole-body field (checked first).
pub proof fn lemma_two_query_maps_rejected(
    m: Method,
    fs: Seq<FieldView>,
    ts: Seq<Seq<SegmentView>>,
    i: int,
    j: int,
)
    requires
        0 <= i < j < fs.len(),
        fs[i].placement is QueryMap,
        fs[j].placement is QueryMap,
        count_single_body(fs) <= 1,
    ensures
        request_check(m, fs, ts) == Err::<(), DefinitionError>(DefinitionError::MultipleQueryMaps),
{
    lemma_count_query_map_two(fs, i, j);
}

/// A `GET` request with a body-record field is rejected as carrying a body on
/// a safe method, when no earlier rule rejects it.
pub proof fn lemma_get_with_body_rejected(fs: Seq<FieldView>, ts: Seq<Seq<SegmentView>>, i: int)
    requires
        0 <= i < fs.len(),
        fs[i].placement is Body,
        placement_check(fs) is Ok,
        !path_mismatch(fs, ts),
    ensures
        request_check(Method::Get, fs, ts) == Err::<(), DefinitionError>(
            DefinitionError::BodyOnSafeMethod,
        ),
{
    assert(has_any_body(fs));
}

/// A request definition passes only if every template of its history has
/// exactly the path field names as placeholders; changing a template's
/// placeholders or the path fields without the other makes it fail.
pub proof fn lemma_path_template_agreement(m: Method, fs: Seq<FieldView>, ts: Seq<Seq<SegmentView>>)
    ensures
        request_check(m, fs, ts) is Ok ==> forall|i: int|
            0 <= i < ts.len() ==> placeholders(#[trigger] ts[i]) == path_names(fs),
        forall|i: int|
            0 <= i < ts.len() && placeholders(#[trigger] ts[i]) != path_names(fs) ==> request_check(
                m,
                fs,
                ts,
            ) is Err,
{
}

} // verus!
